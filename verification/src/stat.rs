//! Statistic kinds, the events a game records, and the season totals that a
//! stream of recorded events adds up to.

use vstd::prelude::*;
use vstd::string::StringExecFns;

verus! {

/// A statistic. Some kinds are recorded as events, one per occurrence; the
/// others are calculated from the recorded ones.
#[derive(Copy, Clone, Debug, PartialEq, Eq, Hash, Structural)]
pub enum Stat {
    G,
    Gs,
    B1b,
    B2b,
    B3b,
    Bhr,
    Bbb,
    Bibb,
    Bhbp,
    Bso,
    Bo,
    Br,
    Brbi,
    Bgidp,
    Bsb,
    Bcs,
    Bh,
    Bab,
    Bpa,
    Bavg,
    Bobp,
    Bslg,
    P1b,
    P2b,
    P3b,
    Phr,
    Pbb,
    Pibb,
    Phbp,
    Po,
    Pso,
    Pr,
    Per,
    Pw,
    Pl,
    Psv,
    Pbs,
    Phld,
    Pcg,
    Psho,
    Ph,
    Pbf,
    Pavg,
    Pobp,
    Pslg,
    Pera,
    Pwhip,
    Fpo,
    Fe,
}

/// Number of times `stat` occurs in `stream`.
#[verifier::opaque]
pub open spec fn occurrences(stream: Seq<Stat>, stat: Stat) -> nat
    decreases stream.len(),
{
    if stream.len() == 0 {
        0
    } else {
        occurrences(stream.drop_last(), stat) + if stream.last() == stat {
            1nat
        } else {
            0nat
        }
    }
}

/// One when `event` is `stat`, else zero.
pub open spec fn one_if(event: Stat, stat: Stat) -> int {
    if event == stat {
        1
    } else {
        0
    }
}

/// `n / d` in thousandths, rounded down; zero when `d` is zero.
pub open spec fn per_thousand(n: int, d: int) -> int {
    if d > 0 {
        n * 1000 / d
    } else {
        0
    }
}

/// Whether `n * 1000` can be formed in `u32` whenever `d` is positive.
pub open spec fn scales(n: int, d: int) -> bool {
    d > 0 ==> n * 1000 <= u32::MAX
}

/// The character of a decimal digit.
pub open spec fn digit_char(d: int) -> char {
    if d == 0 {
        '0'
    } else if d == 1 {
        '1'
    } else if d == 2 {
        '2'
    } else if d == 3 {
        '3'
    } else if d == 4 {
        '4'
    } else if d == 5 {
        '5'
    } else if d == 6 {
        '6'
    } else if d == 7 {
        '7'
    } else if d == 8 {
        '8'
    } else {
        '9'
    }
}

/// A number in decimal, without leading zeros.
pub open spec fn decimal(n: nat) -> Seq<char>
    decreases n,
{
    if n < 10 {
        seq![digit_char(n as int)]
    } else {
        decimal(n / 10).push(digit_char((n % 10) as int))
    }
}

/// A number below a thousand in three digits.
pub open spec fn three_digits(n: nat) -> Seq<char> {
    seq![
        digit_char((n / 100) as int),
        digit_char((n / 10 % 10) as int),
        digit_char((n % 10) as int),
    ]
}

/// One decimal digit as text.
fn digit_str(d: u32) -> (s: &'static str)
    requires
        d < 10,
    ensures
        s@ == seq![digit_char(d as int)],
{
    proof {
        reveal_strlit("0");
        reveal_strlit("1");
        reveal_strlit("2");
        reveal_strlit("3");
        reveal_strlit("4");
        reveal_strlit("5");
        reveal_strlit("6");
        reveal_strlit("7");
        reveal_strlit("8");
        reveal_strlit("9");
    }
    let s = if d == 0 {
        "0"
    } else if d == 1 {
        "1"
    } else if d == 2 {
        "2"
    } else if d == 3 {
        "3"
    } else if d == 4 {
        "4"
    } else if d == 5 {
        "5"
    } else if d == 6 {
        "6"
    } else if d == 7 {
        "7"
    } else if d == 8 {
        "8"
    } else {
        "9"
    };
    assert(s@ =~= seq![digit_char(d as int)]);
    s
}

/// Writes a number in decimal at the end of a text.
fn push_number(s: &mut String, n: u32)
    ensures
        final(s)@ == old(s)@ + decimal(n as nat),
    decreases n,
{
    if n >= 10 {
        push_number(s, n / 10);
    }
    s.append(digit_str(n % 10));
    assert(s@ =~= old(s)@ + decimal(n as nat));
}

impl Stat {
    /// Whether the statistic belongs to the batting line.
    pub open spec fn batting(self) -> bool {
        matches!(
            self,
            Stat::B1b | Stat::B2b | Stat::B3b | Stat::Bhr | Stat::Bbb | Stat::Bibb | Stat::Bhbp
                | Stat::Bso | Stat::Bo | Stat::Bgidp | Stat::Bsb | Stat::Bcs | Stat::Br
                | Stat::Brbi | Stat::Bh | Stat::Bab | Stat::Bpa | Stat::Bavg | Stat::Bobp
                | Stat::Bslg
        )
    }

    /// Whether the statistic is shown in thousandths.
    pub open spec fn is_rate(self) -> bool {
        matches!(
            self,
            Stat::Bavg | Stat::Bobp | Stat::Bslg | Stat::Pavg | Stat::Pobp | Stat::Pslg
                | Stat::Pera | Stat::Pwhip
        )
    }

    /// Whether a lower value ranks higher.
    pub open spec fn reverse_sorted(self) -> bool {
        matches!(self, Stat::Pavg | Stat::Pobp | Stat::Pslg | Stat::Pera | Stat::Pwhip)
    }

    /// The playing-time statistic a rate is qualified by, and the amount of it
    /// needed per ten team games.
    pub open spec fn qualifier(self) -> Option<(Stat, u32)> {
        match self {
            Stat::Bavg | Stat::Bobp | Stat::Bslg => Some((Stat::Bpa, 31u32)),
            Stat::Pobp | Stat::Pslg | Stat::Pera | Stat::Pwhip => Some((Stat::Po, 30u32)),
            _ => None,
        }
    }

    /// Whether a player with these totals, on a team that has played `games`
    /// games, has enough playing time to be ranked by this statistic.
    pub open spec fn qualified(self, totals: Stats, games: u32) -> bool {
        match self.qualifier() {
            Some((by, factor)) => totals.field(by) >= games * factor / 10,
            None => true,
        }
    }

    /// How a value of the statistic is written: a rate in thousandths with
    /// three decimals, outs pitched as innings and the outs of the inning
    /// under way, anything else as the number it is.
    pub open spec fn written(self, val: u32) -> Seq<char> {
        if self.is_rate() {
            decimal((val / 1000) as nat) + seq!['.'] + three_digits((val % 1000) as nat)
        } else if self == Stat::Po {
            decimal((val / 3) as nat) + seq!['.'] + decimal((val % 3) as nat)
        } else {
            decimal(val as nat)
        }
    }

    /// The column heading of the statistic.
    pub open spec fn heading(self) -> Seq<char> {
        match self {
            Stat::G => "G"@,
            Stat::Gs => "GS"@,
            Stat::B1b => "1B"@,
            Stat::B2b => "2B"@,
            Stat::B3b => "3B"@,
            Stat::Bhr => "HR"@,
            Stat::Bbb => "BB"@,
            Stat::Bibb => "IBB"@,
            Stat::Bhbp => "HBP"@,
            Stat::Bso => "SO"@,
            Stat::Bo => "O"@,
            Stat::Br => "R"@,
            Stat::Brbi => "RBI"@,
            Stat::Bgidp => "GIDP"@,
            Stat::Bsb => "SB"@,
            Stat::Bcs => "CS"@,
            Stat::Bh => "H"@,
            Stat::Bab => "AB"@,
            Stat::Bpa => "PA"@,
            Stat::Bavg => "AVG"@,
            Stat::Bobp => "OBP"@,
            Stat::Bslg => "SLG"@,
            Stat::P1b => "1B"@,
            Stat::P2b => "2B"@,
            Stat::P3b => "3B"@,
            Stat::Phr => "HR"@,
            Stat::Pbb => "BB"@,
            Stat::Pibb => "IBB"@,
            Stat::Phbp => "HBP"@,
            Stat::Po => "IP"@,
            Stat::Pso => "SO"@,
            Stat::Pr => "R"@,
            Stat::Per => "ER"@,
            Stat::Pw => "W"@,
            Stat::Pl => "L"@,
            Stat::Psv => "SV"@,
            Stat::Pbs => "BS"@,
            Stat::Phld => "HLD"@,
            Stat::Pcg => "CG"@,
            Stat::Psho => "SHO"@,
            Stat::Ph => "H"@,
            Stat::Pbf => "BF"@,
            Stat::Pavg => "BAA"@,
            Stat::Pobp => "OBP"@,
            Stat::Pslg => "SLG"@,
            Stat::Pera => "ERA"@,
            Stat::Pwhip => "WHIP"@,
            Stat::Fpo => "PO"@,
            Stat::Fe => "E"@,
        }
    }

    /// Tells whether the statistic belongs to the batting line.
    pub fn is_batting(&self) -> (b: bool)
        ensures
            b == self.batting(),
    {
        matches!(
            self,
            Stat::B1b | Stat::B2b | Stat::B3b | Stat::Bhr | Stat::Bbb | Stat::Bibb | Stat::Bhbp
                | Stat::Bso | Stat::Bo | Stat::Bgidp | Stat::Bsb | Stat::Bcs | Stat::Br
                | Stat::Brbi | Stat::Bh | Stat::Bab | Stat::Bpa | Stat::Bavg | Stat::Bobp
                | Stat::Bslg
        )
    }

    /// Tells whether a lower value ranks higher.
    pub fn is_reverse_sort(&self) -> (b: bool)
        ensures
            b == self.reverse_sorted(),
    {
        matches!(self, Stat::Pavg | Stat::Pobp | Stat::Pslg | Stat::Pera | Stat::Pwhip)
    }

    /// Tells whether a player has the playing time to be ranked by this
    /// statistic on a team that has played `games` games.
    pub fn is_qualified(&self, player_stats: &Stats, games: u32) -> (b: bool)
        requires
            self.qualifier() matches Some((_, factor)) ==> games * factor <= u32::MAX,
        ensures
            b == self.qualified(*player_stats, games),
    {
        let qual: Option<(Stat, u32)> = match self {
            Stat::Bavg | Stat::Bobp | Stat::Bslg => Some((Stat::Bpa, 31)),
            Stat::Pobp | Stat::Pslg | Stat::Pera | Stat::Pwhip => Some((Stat::Po, 30)),
            _ => None,
        };
        if let Some((qstat, factor)) = qual {
            let qval: u32 = player_stats.get_stat(qstat);
            let needed: u32 = games * factor / 10;
            if qval < needed {
                return false;
            }
        }
        true
    }

    /// A value of the statistic as text.
    pub fn value(&self, val: u32) -> (s: String)
        ensures
            s@ == self.written(val),
    {
        proof {
            reveal_strlit(".");
            reveal_strlit("");
        }
        let mut s = String::from_str("");
        assert(s@ =~= Seq::empty());
        match self {
            Stat::Bavg | Stat::Bobp | Stat::Bslg | Stat::Pavg | Stat::Pobp | Stat::Pslg
            | Stat::Pera | Stat::Pwhip => {
                let frac: u32 = val % 1000;
                push_number(&mut s, val / 1000);
                s.append(".");
                s.append(digit_str(frac / 100));
                s.append(digit_str(frac / 10 % 10));
                s.append(digit_str(frac % 10));
                assert(s@ =~= self.written(val));
            },
            Stat::Po => {
                push_number(&mut s, val / 3);
                s.append(".");
                push_number(&mut s, val % 3);
                assert(s@ =~= self.written(val));
            },
            _ => {
                push_number(&mut s, val);
                assert(s@ =~= self.written(val));
            },
        }
        s
    }

    /// The column heading, as text.
    pub fn label(&self) -> (s: &'static str)
        ensures
            s@ == self.heading(),
    {
        match self {
            Stat::G => "G",
            Stat::Gs => "GS",
            Stat::B1b => "1B",
            Stat::B2b => "2B",
            Stat::B3b => "3B",
            Stat::Bhr => "HR",
            Stat::Bbb => "BB",
            Stat::Bibb => "IBB",
            Stat::Bhbp => "HBP",
            Stat::Bso => "SO",
            Stat::Bo => "O",
            Stat::Br => "R",
            Stat::Brbi => "RBI",
            Stat::Bgidp => "GIDP",
            Stat::Bsb => "SB",
            Stat::Bcs => "CS",
            Stat::Bh => "H",
            Stat::Bab => "AB",
            Stat::Bpa => "PA",
            Stat::Bavg => "AVG",
            Stat::Bobp => "OBP",
            Stat::Bslg => "SLG",
            Stat::P1b => "1B",
            Stat::P2b => "2B",
            Stat::P3b => "3B",
            Stat::Phr => "HR",
            Stat::Pbb => "BB",
            Stat::Pibb => "IBB",
            Stat::Phbp => "HBP",
            Stat::Po => "IP",
            Stat::Pso => "SO",
            Stat::Pr => "R",
            Stat::Per => "ER",
            Stat::Pw => "W",
            Stat::Pl => "L",
            Stat::Psv => "SV",
            Stat::Pbs => "BS",
            Stat::Phld => "HLD",
            Stat::Pcg => "CG",
            Stat::Psho => "SHO",
            Stat::Ph => "H",
            Stat::Pbf => "BF",
            Stat::Pavg => "BAA",
            Stat::Pobp => "OBP",
            Stat::Pslg => "SLG",
            Stat::Pera => "ERA",
            Stat::Pwhip => "WHIP",
            Stat::Fpo => "PO",
            Stat::Fe => "E",
        }
    }
}

/// Season totals: one counter per statistic.
#[derive(Clone, Copy, Debug)]
pub struct Stats {
    pub g: u32,
    pub gs: u32,
    pub b_1b: u32,
    pub b_2b: u32,
    pub b_3b: u32,
    pub b_hr: u32,
    pub b_bb: u32,
    pub b_ibb: u32,
    pub b_hbp: u32,
    pub b_r: u32,
    pub b_rbi: u32,
    pub b_so: u32,
    pub b_o: u32,
    pub b_gidp: u32,
    pub b_sb: u32,
    pub b_cs: u32,
    pub b_h: u32,
    pub b_ab: u32,
    pub b_pa: u32,
    pub b_avg: u32,
    pub b_obp: u32,
    pub b_slg: u32,
    pub p_1b: u32,
    pub p_2b: u32,
    pub p_3b: u32,
    pub p_hr: u32,
    pub p_bb: u32,
    pub p_ibb: u32,
    pub p_hbp: u32,
    pub p_r: u32,
    pub p_er: u32,
    pub p_w: u32,
    pub p_l: u32,
    pub p_sv: u32,
    pub p_bs: u32,
    pub p_hld: u32,
    pub p_cg: u32,
    pub p_sho: u32,
    pub p_so: u32,
    pub p_o: u32,
    pub p_h: u32,
    pub p_bf: u32,
    pub p_avg: u32,
    pub p_obp: u32,
    pub p_slg: u32,
    pub p_era: u32,
    pub p_whip: u32,
    pub f_po: u32,
    pub f_e: u32,
}

impl Default for Stats {
    fn default() -> (r: Self)
        ensures
            r == Stats::zero(),
    {
        Stats {
            g: 0,
            gs: 0,
            b_1b: 0,
            b_2b: 0,
            b_3b: 0,
            b_hr: 0,
            b_bb: 0,
            b_ibb: 0,
            b_hbp: 0,
            b_r: 0,
            b_rbi: 0,
            b_so: 0,
            b_o: 0,
            b_gidp: 0,
            b_sb: 0,
            b_cs: 0,
            b_h: 0,
            b_ab: 0,
            b_pa: 0,
            b_avg: 0,
            b_obp: 0,
            b_slg: 0,
            p_1b: 0,
            p_2b: 0,
            p_3b: 0,
            p_hr: 0,
            p_bb: 0,
            p_ibb: 0,
            p_hbp: 0,
            p_r: 0,
            p_er: 0,
            p_w: 0,
            p_l: 0,
            p_sv: 0,
            p_bs: 0,
            p_hld: 0,
            p_cg: 0,
            p_sho: 0,
            p_so: 0,
            p_o: 0,
            p_h: 0,
            p_bf: 0,
            p_avg: 0,
            p_obp: 0,
            p_slg: 0,
            p_era: 0,
            p_whip: 0,
            f_po: 0,
            f_e: 0,
        }
    }
}

impl Stats {
    /// Totals with every counter at zero.
    pub open spec fn zero() -> Stats {
        Stats {
            g: 0,
            gs: 0,
            b_1b: 0,
            b_2b: 0,
            b_3b: 0,
            b_hr: 0,
            b_bb: 0,
            b_ibb: 0,
            b_hbp: 0,
            b_r: 0,
            b_rbi: 0,
            b_so: 0,
            b_o: 0,
            b_gidp: 0,
            b_sb: 0,
            b_cs: 0,
            b_h: 0,
            b_ab: 0,
            b_pa: 0,
            b_avg: 0,
            b_obp: 0,
            b_slg: 0,
            p_1b: 0,
            p_2b: 0,
            p_3b: 0,
            p_hr: 0,
            p_bb: 0,
            p_ibb: 0,
            p_hbp: 0,
            p_r: 0,
            p_er: 0,
            p_w: 0,
            p_l: 0,
            p_sv: 0,
            p_bs: 0,
            p_hld: 0,
            p_cg: 0,
            p_sho: 0,
            p_so: 0,
            p_o: 0,
            p_h: 0,
            p_bf: 0,
            p_avg: 0,
            p_obp: 0,
            p_slg: 0,
            p_era: 0,
            p_whip: 0,
            f_po: 0,
            f_e: 0,
        }
    }

    /// The counter kept for `stat`.
    pub open spec fn field(self, stat: Stat) -> u32 {
        match stat {
            Stat::G => self.g,
            Stat::Gs => self.gs,
            Stat::B1b => self.b_1b,
            Stat::B2b => self.b_2b,
            Stat::B3b => self.b_3b,
            Stat::Bhr => self.b_hr,
            Stat::Bbb => self.b_bb,
            Stat::Bibb => self.b_ibb,
            Stat::Bhbp => self.b_hbp,
            Stat::Bso => self.b_so,
            Stat::Bo => self.b_o,
            Stat::Br => self.b_r,
            Stat::Brbi => self.b_rbi,
            Stat::Bgidp => self.b_gidp,
            Stat::Bsb => self.b_sb,
            Stat::Bcs => self.b_cs,
            Stat::Bh => self.b_h,
            Stat::Bab => self.b_ab,
            Stat::Bpa => self.b_pa,
            Stat::Bavg => self.b_avg,
            Stat::Bobp => self.b_obp,
            Stat::Bslg => self.b_slg,
            Stat::P1b => self.p_1b,
            Stat::P2b => self.p_2b,
            Stat::P3b => self.p_3b,
            Stat::Phr => self.p_hr,
            Stat::Pbb => self.p_bb,
            Stat::Pibb => self.p_ibb,
            Stat::Phbp => self.p_hbp,
            Stat::Po => self.p_o,
            Stat::Pso => self.p_so,
            Stat::Pr => self.p_r,
            Stat::Per => self.p_er,
            Stat::Pw => self.p_w,
            Stat::Pl => self.p_l,
            Stat::Psv => self.p_sv,
            Stat::Pbs => self.p_bs,
            Stat::Phld => self.p_hld,
            Stat::Pcg => self.p_cg,
            Stat::Psho => self.p_sho,
            Stat::Ph => self.p_h,
            Stat::Pbf => self.p_bf,
            Stat::Pavg => self.p_avg,
            Stat::Pobp => self.p_obp,
            Stat::Pslg => self.p_slg,
            Stat::Pera => self.p_era,
            Stat::Pwhip => self.p_whip,
            Stat::Fpo => self.f_po,
            Stat::Fe => self.f_e,
        }
    }

    /// The recorded counters of a stream of events, with the calculated ones
    /// left at zero. An event that implies another counts for both: a start is
    /// a game, an intentional walk a walk, a strikeout or a double play an out,
    /// an earned run a run.
    pub open spec fn of_stream(stream: Seq<Stat>) -> Stats {
        Stats {
            g: (occurrences(stream, Stat::G) + occurrences(stream, Stat::Gs)) as u32,
            gs: (occurrences(stream, Stat::Gs)) as u32,
            b_1b: (occurrences(stream, Stat::B1b)) as u32,
            b_2b: (occurrences(stream, Stat::B2b)) as u32,
            b_3b: (occurrences(stream, Stat::B3b)) as u32,
            b_hr: (occurrences(stream, Stat::Bhr)) as u32,
            b_bb: (occurrences(stream, Stat::Bbb) + occurrences(stream, Stat::Bibb)) as u32,
            b_ibb: (occurrences(stream, Stat::Bibb)) as u32,
            b_hbp: (occurrences(stream, Stat::Bhbp)) as u32,
            b_r: (occurrences(stream, Stat::Br)) as u32,
            b_rbi: (occurrences(stream, Stat::Brbi)) as u32,
            b_so: (occurrences(stream, Stat::Bso)) as u32,
            b_o: (occurrences(stream, Stat::Bo) + occurrences(stream, Stat::Bso) + occurrences(stream, Stat::Bgidp)) as u32,
            b_gidp: (occurrences(stream, Stat::Bgidp)) as u32,
            b_sb: (occurrences(stream, Stat::Bsb)) as u32,
            b_cs: (occurrences(stream, Stat::Bcs)) as u32,
            b_h: 0,
            b_ab: 0,
            b_pa: 0,
            b_avg: 0,
            b_obp: 0,
            b_slg: 0,
            p_1b: (occurrences(stream, Stat::P1b)) as u32,
            p_2b: (occurrences(stream, Stat::P2b)) as u32,
            p_3b: (occurrences(stream, Stat::P3b)) as u32,
            p_hr: (occurrences(stream, Stat::Phr)) as u32,
            p_bb: (occurrences(stream, Stat::Pbb) + occurrences(stream, Stat::Pibb)) as u32,
            p_ibb: (occurrences(stream, Stat::Pibb)) as u32,
            p_hbp: (occurrences(stream, Stat::Phbp)) as u32,
            p_r: (occurrences(stream, Stat::Pr) + occurrences(stream, Stat::Per)) as u32,
            p_er: (occurrences(stream, Stat::Per)) as u32,
            p_w: (occurrences(stream, Stat::Pw)) as u32,
            p_l: (occurrences(stream, Stat::Pl)) as u32,
            p_sv: (occurrences(stream, Stat::Psv)) as u32,
            p_bs: (occurrences(stream, Stat::Pbs)) as u32,
            p_hld: (occurrences(stream, Stat::Phld)) as u32,
            p_cg: (occurrences(stream, Stat::Pcg)) as u32,
            p_sho: (occurrences(stream, Stat::Psho)) as u32,
            p_so: (occurrences(stream, Stat::Pso)) as u32,
            p_o: (occurrences(stream, Stat::Po) + occurrences(stream, Stat::Pso)) as u32,
            p_h: 0,
            p_bf: 0,
            p_avg: 0,
            p_obp: 0,
            p_slg: 0,
            p_era: 0,
            p_whip: 0,
            f_po: (occurrences(stream, Stat::Fpo)) as u32,
            f_e: (occurrences(stream, Stat::Fe)) as u32,
        }
    }

    /// Whether every recorded counter equals the number of events in `stream`
    /// that feed it.
    pub open spec fn records(self, stream: Seq<Stat>) -> bool {
        &&& self.g == occurrences(stream, Stat::G) + occurrences(stream, Stat::Gs)
        &&& self.gs == occurrences(stream, Stat::Gs)
        &&& self.b_1b == occurrences(stream, Stat::B1b)
        &&& self.b_2b == occurrences(stream, Stat::B2b)
        &&& self.b_3b == occurrences(stream, Stat::B3b)
        &&& self.b_hr == occurrences(stream, Stat::Bhr)
        &&& self.b_bb == occurrences(stream, Stat::Bbb) + occurrences(stream, Stat::Bibb)
        &&& self.b_ibb == occurrences(stream, Stat::Bibb)
        &&& self.b_hbp == occurrences(stream, Stat::Bhbp)
        &&& self.b_r == occurrences(stream, Stat::Br)
        &&& self.b_rbi == occurrences(stream, Stat::Brbi)
        &&& self.b_so == occurrences(stream, Stat::Bso)
        &&& self.b_o == occurrences(stream, Stat::Bo) + occurrences(stream, Stat::Bso) + occurrences(stream, Stat::Bgidp)
        &&& self.b_gidp == occurrences(stream, Stat::Bgidp)
        &&& self.b_sb == occurrences(stream, Stat::Bsb)
        &&& self.b_cs == occurrences(stream, Stat::Bcs)
        &&& self.p_1b == occurrences(stream, Stat::P1b)
        &&& self.p_2b == occurrences(stream, Stat::P2b)
        &&& self.p_3b == occurrences(stream, Stat::P3b)
        &&& self.p_hr == occurrences(stream, Stat::Phr)
        &&& self.p_bb == occurrences(stream, Stat::Pbb) + occurrences(stream, Stat::Pibb)
        &&& self.p_ibb == occurrences(stream, Stat::Pibb)
        &&& self.p_hbp == occurrences(stream, Stat::Phbp)
        &&& self.p_r == occurrences(stream, Stat::Pr) + occurrences(stream, Stat::Per)
        &&& self.p_er == occurrences(stream, Stat::Per)
        &&& self.p_w == occurrences(stream, Stat::Pw)
        &&& self.p_l == occurrences(stream, Stat::Pl)
        &&& self.p_sv == occurrences(stream, Stat::Psv)
        &&& self.p_bs == occurrences(stream, Stat::Pbs)
        &&& self.p_hld == occurrences(stream, Stat::Phld)
        &&& self.p_cg == occurrences(stream, Stat::Pcg)
        &&& self.p_sho == occurrences(stream, Stat::Psho)
        &&& self.p_so == occurrences(stream, Stat::Pso)
        &&& self.p_o == occurrences(stream, Stat::Po) + occurrences(stream, Stat::Pso)
        &&& self.f_po == occurrences(stream, Stat::Fpo)
        &&& self.f_e == occurrences(stream, Stat::Fe)
    }

    /// Whether no recorded counter exceeds `n`.
    pub open spec fn at_most(self, n: int) -> bool {
        &&& self.g <= n
        &&& self.gs <= n
        &&& self.b_1b <= n
        &&& self.b_2b <= n
        &&& self.b_3b <= n
        &&& self.b_hr <= n
        &&& self.b_bb <= n
        &&& self.b_ibb <= n
        &&& self.b_hbp <= n
        &&& self.b_r <= n
        &&& self.b_rbi <= n
        &&& self.b_so <= n
        &&& self.b_o <= n
        &&& self.b_gidp <= n
        &&& self.b_sb <= n
        &&& self.b_cs <= n
        &&& self.p_1b <= n
        &&& self.p_2b <= n
        &&& self.p_3b <= n
        &&& self.p_hr <= n
        &&& self.p_bb <= n
        &&& self.p_ibb <= n
        &&& self.p_hbp <= n
        &&& self.p_r <= n
        &&& self.p_er <= n
        &&& self.p_w <= n
        &&& self.p_l <= n
        &&& self.p_sv <= n
        &&& self.p_bs <= n
        &&& self.p_hld <= n
        &&& self.p_cg <= n
        &&& self.p_sho <= n
        &&& self.p_so <= n
        &&& self.p_o <= n
        &&& self.f_po <= n
        &&& self.f_e <= n
    }

    /// Whether every calculated counter is zero.
    pub open spec fn uncalculated(self) -> bool {
        &&& self.b_h == 0
        &&& self.b_ab == 0
        &&& self.b_pa == 0
        &&& self.b_avg == 0
        &&& self.b_obp == 0
        &&& self.b_slg == 0
        &&& self.p_h == 0
        &&& self.p_bf == 0
        &&& self.p_avg == 0
        &&& self.p_obp == 0
        &&& self.p_slg == 0
        &&& self.p_era == 0
        &&& self.p_whip == 0
    }

    /// Whether the recorded counters of `self` and `other` agree.
    pub open spec fn same_recorded(self, other: Stats) -> bool {
        &&& self.g == other.g
        &&& self.gs == other.gs
        &&& self.b_1b == other.b_1b
        &&& self.b_2b == other.b_2b
        &&& self.b_3b == other.b_3b
        &&& self.b_hr == other.b_hr
        &&& self.b_bb == other.b_bb
        &&& self.b_ibb == other.b_ibb
        &&& self.b_hbp == other.b_hbp
        &&& self.b_r == other.b_r
        &&& self.b_rbi == other.b_rbi
        &&& self.b_so == other.b_so
        &&& self.b_o == other.b_o
        &&& self.b_gidp == other.b_gidp
        &&& self.b_sb == other.b_sb
        &&& self.b_cs == other.b_cs
        &&& self.p_1b == other.p_1b
        &&& self.p_2b == other.p_2b
        &&& self.p_3b == other.p_3b
        &&& self.p_hr == other.p_hr
        &&& self.p_bb == other.p_bb
        &&& self.p_ibb == other.p_ibb
        &&& self.p_hbp == other.p_hbp
        &&& self.p_r == other.p_r
        &&& self.p_er == other.p_er
        &&& self.p_w == other.p_w
        &&& self.p_l == other.p_l
        &&& self.p_sv == other.p_sv
        &&& self.p_bs == other.p_bs
        &&& self.p_hld == other.p_hld
        &&& self.p_cg == other.p_cg
        &&& self.p_sho == other.p_sho
        &&& self.p_so == other.p_so
        &&& self.p_o == other.p_o
        &&& self.f_po == other.f_po
        &&& self.f_e == other.f_e
    }

    /// Whether the calculated counters of `self` and `other` agree.
    pub open spec fn same_calculated(self, other: Stats) -> bool {
        &&& self.b_h == other.b_h
        &&& self.b_ab == other.b_ab
        &&& self.b_pa == other.b_pa
        &&& self.b_avg == other.b_avg
        &&& self.b_obp == other.b_obp
        &&& self.b_slg == other.b_slg
        &&& self.p_h == other.p_h
        &&& self.p_bf == other.p_bf
        &&& self.p_avg == other.p_avg
        &&& self.p_obp == other.p_obp
        &&& self.p_slg == other.p_slg
        &&& self.p_era == other.p_era
        &&& self.p_whip == other.p_whip
    }

    /// Whether the recorded counters of `self` are those of `prev` after one
    /// more `event`.
    pub open spec fn stepped(self, prev: Stats, event: Stat) -> bool {
        &&& self.g == prev.g + one_if(event, Stat::G) + one_if(event, Stat::Gs)
        &&& self.gs == prev.gs + one_if(event, Stat::Gs)
        &&& self.b_1b == prev.b_1b + one_if(event, Stat::B1b)
        &&& self.b_2b == prev.b_2b + one_if(event, Stat::B2b)
        &&& self.b_3b == prev.b_3b + one_if(event, Stat::B3b)
        &&& self.b_hr == prev.b_hr + one_if(event, Stat::Bhr)
        &&& self.b_bb == prev.b_bb + one_if(event, Stat::Bbb) + one_if(event, Stat::Bibb)
        &&& self.b_ibb == prev.b_ibb + one_if(event, Stat::Bibb)
        &&& self.b_hbp == prev.b_hbp + one_if(event, Stat::Bhbp)
        &&& self.b_r == prev.b_r + one_if(event, Stat::Br)
        &&& self.b_rbi == prev.b_rbi + one_if(event, Stat::Brbi)
        &&& self.b_so == prev.b_so + one_if(event, Stat::Bso)
        &&& self.b_o == prev.b_o + one_if(event, Stat::Bo) + one_if(event, Stat::Bso) + one_if(event, Stat::Bgidp)
        &&& self.b_gidp == prev.b_gidp + one_if(event, Stat::Bgidp)
        &&& self.b_sb == prev.b_sb + one_if(event, Stat::Bsb)
        &&& self.b_cs == prev.b_cs + one_if(event, Stat::Bcs)
        &&& self.p_1b == prev.p_1b + one_if(event, Stat::P1b)
        &&& self.p_2b == prev.p_2b + one_if(event, Stat::P2b)
        &&& self.p_3b == prev.p_3b + one_if(event, Stat::P3b)
        &&& self.p_hr == prev.p_hr + one_if(event, Stat::Phr)
        &&& self.p_bb == prev.p_bb + one_if(event, Stat::Pbb) + one_if(event, Stat::Pibb)
        &&& self.p_ibb == prev.p_ibb + one_if(event, Stat::Pibb)
        &&& self.p_hbp == prev.p_hbp + one_if(event, Stat::Phbp)
        &&& self.p_r == prev.p_r + one_if(event, Stat::Pr) + one_if(event, Stat::Per)
        &&& self.p_er == prev.p_er + one_if(event, Stat::Per)
        &&& self.p_w == prev.p_w + one_if(event, Stat::Pw)
        &&& self.p_l == prev.p_l + one_if(event, Stat::Pl)
        &&& self.p_sv == prev.p_sv + one_if(event, Stat::Psv)
        &&& self.p_bs == prev.p_bs + one_if(event, Stat::Pbs)
        &&& self.p_hld == prev.p_hld + one_if(event, Stat::Phld)
        &&& self.p_cg == prev.p_cg + one_if(event, Stat::Pcg)
        &&& self.p_sho == prev.p_sho + one_if(event, Stat::Psho)
        &&& self.p_so == prev.p_so + one_if(event, Stat::Pso)
        &&& self.p_o == prev.p_o + one_if(event, Stat::Po) + one_if(event, Stat::Pso)
        &&& self.f_po == prev.f_po + one_if(event, Stat::Fpo)
        &&& self.f_e == prev.f_e + one_if(event, Stat::Fe)
    }

    /// Whether each recorded counter of `self` is the sum of those of `a` and `b`.
    pub open spec fn sums(self, a: Stats, b: Stats) -> bool {
        &&& self.g == a.g + b.g
        &&& self.gs == a.gs + b.gs
        &&& self.b_1b == a.b_1b + b.b_1b
        &&& self.b_2b == a.b_2b + b.b_2b
        &&& self.b_3b == a.b_3b + b.b_3b
        &&& self.b_hr == a.b_hr + b.b_hr
        &&& self.b_bb == a.b_bb + b.b_bb
        &&& self.b_ibb == a.b_ibb + b.b_ibb
        &&& self.b_hbp == a.b_hbp + b.b_hbp
        &&& self.b_r == a.b_r + b.b_r
        &&& self.b_rbi == a.b_rbi + b.b_rbi
        &&& self.b_so == a.b_so + b.b_so
        &&& self.b_o == a.b_o + b.b_o
        &&& self.b_gidp == a.b_gidp + b.b_gidp
        &&& self.b_sb == a.b_sb + b.b_sb
        &&& self.b_cs == a.b_cs + b.b_cs
        &&& self.p_1b == a.p_1b + b.p_1b
        &&& self.p_2b == a.p_2b + b.p_2b
        &&& self.p_3b == a.p_3b + b.p_3b
        &&& self.p_hr == a.p_hr + b.p_hr
        &&& self.p_bb == a.p_bb + b.p_bb
        &&& self.p_ibb == a.p_ibb + b.p_ibb
        &&& self.p_hbp == a.p_hbp + b.p_hbp
        &&& self.p_r == a.p_r + b.p_r
        &&& self.p_er == a.p_er + b.p_er
        &&& self.p_w == a.p_w + b.p_w
        &&& self.p_l == a.p_l + b.p_l
        &&& self.p_sv == a.p_sv + b.p_sv
        &&& self.p_bs == a.p_bs + b.p_bs
        &&& self.p_hld == a.p_hld + b.p_hld
        &&& self.p_cg == a.p_cg + b.p_cg
        &&& self.p_sho == a.p_sho + b.p_sho
        &&& self.p_so == a.p_so + b.p_so
        &&& self.p_o == a.p_o + b.p_o
        &&& self.f_po == a.f_po + b.f_po
        &&& self.f_e == a.f_e + b.f_e
    }

    /// Whether each counter of `rhs` can be added to that of `self` in `u32`.
    pub open spec fn addable(self, rhs: Stats) -> bool {
        &&& self.g + rhs.g <= u32::MAX
        &&& self.gs + rhs.gs <= u32::MAX
        &&& self.b_1b + rhs.b_1b <= u32::MAX
        &&& self.b_2b + rhs.b_2b <= u32::MAX
        &&& self.b_3b + rhs.b_3b <= u32::MAX
        &&& self.b_hr + rhs.b_hr <= u32::MAX
        &&& self.b_bb + rhs.b_bb <= u32::MAX
        &&& self.b_ibb + rhs.b_ibb <= u32::MAX
        &&& self.b_hbp + rhs.b_hbp <= u32::MAX
        &&& self.b_r + rhs.b_r <= u32::MAX
        &&& self.b_rbi + rhs.b_rbi <= u32::MAX
        &&& self.b_so + rhs.b_so <= u32::MAX
        &&& self.b_o + rhs.b_o <= u32::MAX
        &&& self.b_gidp + rhs.b_gidp <= u32::MAX
        &&& self.b_sb + rhs.b_sb <= u32::MAX
        &&& self.b_cs + rhs.b_cs <= u32::MAX
        &&& self.b_h + rhs.b_h <= u32::MAX
        &&& self.b_ab + rhs.b_ab <= u32::MAX
        &&& self.b_pa + rhs.b_pa <= u32::MAX
        &&& self.b_avg + rhs.b_avg <= u32::MAX
        &&& self.b_obp + rhs.b_obp <= u32::MAX
        &&& self.b_slg + rhs.b_slg <= u32::MAX
        &&& self.p_1b + rhs.p_1b <= u32::MAX
        &&& self.p_2b + rhs.p_2b <= u32::MAX
        &&& self.p_3b + rhs.p_3b <= u32::MAX
        &&& self.p_hr + rhs.p_hr <= u32::MAX
        &&& self.p_bb + rhs.p_bb <= u32::MAX
        &&& self.p_ibb + rhs.p_ibb <= u32::MAX
        &&& self.p_hbp + rhs.p_hbp <= u32::MAX
        &&& self.p_r + rhs.p_r <= u32::MAX
        &&& self.p_er + rhs.p_er <= u32::MAX
        &&& self.p_w + rhs.p_w <= u32::MAX
        &&& self.p_l + rhs.p_l <= u32::MAX
        &&& self.p_sv + rhs.p_sv <= u32::MAX
        &&& self.p_bs + rhs.p_bs <= u32::MAX
        &&& self.p_hld + rhs.p_hld <= u32::MAX
        &&& self.p_cg + rhs.p_cg <= u32::MAX
        &&& self.p_sho + rhs.p_sho <= u32::MAX
        &&& self.p_so + rhs.p_so <= u32::MAX
        &&& self.p_o + rhs.p_o <= u32::MAX
        &&& self.p_h + rhs.p_h <= u32::MAX
        &&& self.p_bf + rhs.p_bf <= u32::MAX
        &&& self.p_avg + rhs.p_avg <= u32::MAX
        &&& self.p_obp + rhs.p_obp <= u32::MAX
        &&& self.p_slg + rhs.p_slg <= u32::MAX
        &&& self.p_era + rhs.p_era <= u32::MAX
        &&& self.p_whip + rhs.p_whip <= u32::MAX
        &&& self.f_po + rhs.f_po <= u32::MAX
        &&& self.f_e + rhs.f_e <= u32::MAX
    }

    /// Hits, at bats and plate appearances as the recorded batting counters
    /// give them, and the same for batters faced by a pitcher.
    pub open spec fn hits(self) -> int {
        self.b_1b + self.b_2b + self.b_3b + self.b_hr
    }

    /// At bats: hits and outs.
    pub open spec fn at_bats(self) -> int {
        self.hits() + self.b_o
    }

    /// Plate appearances: at bats, walks and times hit by a pitch.
    pub open spec fn plate_appearances(self) -> int {
        self.at_bats() + self.b_bb + self.b_hbp
    }

    /// Bases gained by hits.
    pub open spec fn total_bases(self) -> int {
        self.b_1b + 2 * self.b_2b + 3 * self.b_3b + 4 * self.b_hr
    }

    /// Hits allowed by a pitcher.
    pub open spec fn hits_allowed(self) -> int {
        self.p_1b + self.p_2b + self.p_3b + self.p_hr
    }

    /// At bats against a pitcher.
    pub open spec fn at_bats_against(self) -> int {
        self.hits_allowed() + self.p_o
    }

    /// Batters a pitcher has faced.
    pub open spec fn batters_faced(self) -> int {
        self.at_bats_against() + self.p_bb + self.p_hbp
    }

    /// Bases a pitcher has given up by hits.
    pub open spec fn total_bases_allowed(self) -> int {
        self.p_1b + 2 * self.p_2b + 3 * self.p_3b + 4 * self.p_hr
    }

    /// Whether every calculated counter can be formed in `u32` from the
    /// recorded ones.
    pub open spec fn calculable(self) -> bool {
        &&& self.plate_appearances() <= u32::MAX
        &&& 4 * self.b_hr <= u32::MAX
        &&& 3 * self.b_3b <= u32::MAX
        &&& 2 * self.b_2b <= u32::MAX
        &&& self.total_bases() <= u32::MAX
        &&& scales(self.hits(), self.at_bats())
        &&& scales(self.hits() + self.b_bb + self.b_hbp, self.plate_appearances())
        &&& scales(self.total_bases(), self.at_bats())
        &&& self.batters_faced() <= u32::MAX
        &&& 4 * self.p_hr <= u32::MAX
        &&& 3 * self.p_3b <= u32::MAX
        &&& 2 * self.p_2b <= u32::MAX
        &&& self.total_bases_allowed() <= u32::MAX
        &&& self.hits_allowed() + self.p_bb + self.p_hbp <= u32::MAX
        &&& scales(self.hits_allowed(), self.at_bats_against())
        &&& scales(self.hits_allowed() + self.p_bb + self.p_hbp, self.batters_faced())
        &&& scales(self.total_bases_allowed(), self.at_bats_against())
        &&& 27 * self.p_er <= u32::MAX
        &&& scales(27 * self.p_er, self.p_o as int)
        &&& 3 * (self.hits_allowed() + self.p_bb) <= u32::MAX
        &&& scales(3 * (self.hits_allowed() + self.p_bb), self.p_o as int)
    }

    /// Whether every calculated counter holds what the recorded ones give:
    /// hits are the four kinds of hit, at bats are hits and outs, plate
    /// appearances add walks and hit batters, and the rates are in thousandths.
    pub open spec fn calculated(self) -> bool {
        &&& self.b_h == self.hits()
        &&& self.b_ab == self.at_bats()
        &&& self.b_pa == self.plate_appearances()
        &&& self.b_avg == per_thousand(self.hits(), self.at_bats())
        &&& self.b_obp == per_thousand(
            self.hits() + self.b_bb + self.b_hbp,
            self.plate_appearances(),
        )
        &&& self.b_slg == per_thousand(self.total_bases(), self.at_bats())
        &&& self.p_h == self.hits_allowed()
        &&& self.p_bf == self.batters_faced()
        &&& self.p_avg == per_thousand(self.hits_allowed(), self.at_bats_against())
        &&& self.p_obp == per_thousand(
            self.hits_allowed() + self.p_bb + self.p_hbp,
            self.batters_faced(),
        )
        &&& self.p_slg == per_thousand(self.total_bases_allowed(), self.at_bats_against())
        &&& self.p_era == per_thousand(27 * self.p_er, self.p_o as int)
        &&& self.p_whip == per_thousand(3 * (self.hits_allowed() + self.p_bb), self.p_o as int)
    }

    /// The totals with the calculated counters filled in from the recorded
    /// ones.
    pub open spec fn completed(self) -> Stats {
        Stats {
            b_h: self.hits() as u32,
            b_ab: self.at_bats() as u32,
            b_pa: self.plate_appearances() as u32,
            b_avg: per_thousand(self.hits(), self.at_bats()) as u32,
            b_obp: per_thousand(
                self.hits() + self.b_bb + self.b_hbp,
                self.plate_appearances(),
            ) as u32,
            b_slg: per_thousand(self.total_bases(), self.at_bats()) as u32,
            p_h: self.hits_allowed() as u32,
            p_bf: self.batters_faced() as u32,
            p_avg: per_thousand(self.hits_allowed(), self.at_bats_against()) as u32,
            p_obp: per_thousand(
                self.hits_allowed() + self.p_bb + self.p_hbp,
                self.batters_faced(),
            ) as u32,
            p_slg: per_thousand(self.total_bases_allowed(), self.at_bats_against()) as u32,
            p_era: per_thousand(27 * self.p_er, self.p_o as int) as u32,
            p_whip: per_thousand(3 * (self.hits_allowed() + self.p_bb), self.p_o as int) as u32,
            ..self
        }
    }

    /// The season totals that a stream of events compiles to.
    pub open spec fn compiled(stream: Seq<Stat>) -> Stats {
        Stats::of_stream(stream).completed()
    }

    /// The counter kept for `stat`.
    pub fn get_stat(&self, stat: Stat) -> (v: u32)
        ensures
            v == self.field(stat),
    {
        match stat {
            Stat::G => self.g,
            Stat::Gs => self.gs,
            Stat::B1b => self.b_1b,
            Stat::B2b => self.b_2b,
            Stat::B3b => self.b_3b,
            Stat::Bhr => self.b_hr,
            Stat::Bbb => self.b_bb,
            Stat::Bibb => self.b_ibb,
            Stat::Bhbp => self.b_hbp,
            Stat::Bso => self.b_so,
            Stat::Bo => self.b_o,
            Stat::Br => self.b_r,
            Stat::Brbi => self.b_rbi,
            Stat::Bgidp => self.b_gidp,
            Stat::Bsb => self.b_sb,
            Stat::Bcs => self.b_cs,
            Stat::Bh => self.b_h,
            Stat::Bab => self.b_ab,
            Stat::Bpa => self.b_pa,
            Stat::Bavg => self.b_avg,
            Stat::Bobp => self.b_obp,
            Stat::Bslg => self.b_slg,
            Stat::P1b => self.p_1b,
            Stat::P2b => self.p_2b,
            Stat::P3b => self.p_3b,
            Stat::Phr => self.p_hr,
            Stat::Pbb => self.p_bb,
            Stat::Pibb => self.p_ibb,
            Stat::Phbp => self.p_hbp,
            Stat::Po => self.p_o,
            Stat::Pso => self.p_so,
            Stat::Pr => self.p_r,
            Stat::Per => self.p_er,
            Stat::Pw => self.p_w,
            Stat::Pl => self.p_l,
            Stat::Psv => self.p_sv,
            Stat::Pbs => self.p_bs,
            Stat::Phld => self.p_hld,
            Stat::Pcg => self.p_cg,
            Stat::Psho => self.p_sho,
            Stat::Ph => self.p_h,
            Stat::Pbf => self.p_bf,
            Stat::Pavg => self.p_avg,
            Stat::Pobp => self.p_obp,
            Stat::Pslg => self.p_slg,
            Stat::Pera => self.p_era,
            Stat::Pwhip => self.p_whip,
            Stat::Fpo => self.f_po,
            Stat::Fe => self.f_e,
        }
    }

    /// Adds every counter of `rhs` to `self`, then calculates anew.
    pub fn compile(&mut self, rhs: &Self)
        requires
            old(self).addable(*rhs),
            forall|sum: Stats| sum.sums(*old(self), *rhs) ==> sum.calculable(),
        ensures
            final(self).sums(*old(self), *rhs),
            final(self).calculated(),
    {
        self.g += rhs.g;
        self.gs += rhs.gs;
        self.b_1b += rhs.b_1b;
        self.b_2b += rhs.b_2b;
        self.b_3b += rhs.b_3b;
        self.b_hr += rhs.b_hr;
        self.b_bb += rhs.b_bb;
        self.b_ibb += rhs.b_ibb;
        self.b_hbp += rhs.b_hbp;
        self.b_r += rhs.b_r;
        self.b_rbi += rhs.b_rbi;
        self.b_so += rhs.b_so;
        self.b_o += rhs.b_o;
        self.b_gidp += rhs.b_gidp;
        self.b_sb += rhs.b_sb;
        self.b_cs += rhs.b_cs;
        self.b_h += rhs.b_h;
        self.b_ab += rhs.b_ab;
        self.b_pa += rhs.b_pa;
        self.b_avg += rhs.b_avg;
        self.b_obp += rhs.b_obp;
        self.b_slg += rhs.b_slg;
        self.p_1b += rhs.p_1b;
        self.p_2b += rhs.p_2b;
        self.p_3b += rhs.p_3b;
        self.p_hr += rhs.p_hr;
        self.p_bb += rhs.p_bb;
        self.p_ibb += rhs.p_ibb;
        self.p_hbp += rhs.p_hbp;
        self.p_r += rhs.p_r;
        self.p_er += rhs.p_er;
        self.p_w += rhs.p_w;
        self.p_l += rhs.p_l;
        self.p_sv += rhs.p_sv;
        self.p_bs += rhs.p_bs;
        self.p_hld += rhs.p_hld;
        self.p_cg += rhs.p_cg;
        self.p_sho += rhs.p_sho;
        self.p_so += rhs.p_so;
        self.p_o += rhs.p_o;
        self.p_h += rhs.p_h;
        self.p_bf += rhs.p_bf;
        self.p_avg += rhs.p_avg;
        self.p_obp += rhs.p_obp;
        self.p_slg += rhs.p_slg;
        self.p_era += rhs.p_era;
        self.p_whip += rhs.p_whip;
        self.f_po += rhs.f_po;
        self.f_e += rhs.f_e;
        self.calculate();
    }

    /// `n / d` in thousandths, rounded down; zero when `d` is zero.
    pub fn div1000_or_0(n: u32, d: u32) -> (q: u32)
        requires
            scales(n as int, d as int),
        ensures
            q == per_thousand(n as int, d as int),
    {
        if d > 0 {
            (n * 1000) / d
        } else {
            d
        }
    }

    /// The batting average: hits per at bat, in thousandths.
    pub fn calc_avg1000(ab: u32, h: u32) -> (q: u32)
        requires
            scales(h as int, ab as int),
        ensures
            q == per_thousand(h as int, ab as int),
    {
        Self::div1000_or_0(h, ab)
    }

    /// The on-base rate: times on base per plate appearance, in thousandths.
    pub fn calc_obp1000(pa: u32, h: u32, bb: u32, hbp: u32) -> (q: u32)
        requires
            h + bb + hbp <= u32::MAX,
            scales(h + bb + hbp, pa as int),
        ensures
            q == per_thousand(h + bb + hbp, pa as int),
    {
        Self::div1000_or_0(h + bb + hbp, pa)
    }

    /// The slugging rate: total bases per at bat, in thousandths.
    pub fn calc_slg1000(ab: u32, h1b: u32, h2b: u32, h3b: u32, hr: u32) -> (q: u32)
        requires
            2 * h2b <= u32::MAX,
            3 * h3b <= u32::MAX,
            4 * hr <= u32::MAX,
            h1b + 2 * h2b + 3 * h3b + 4 * hr <= u32::MAX,
            scales(h1b + 2 * h2b + 3 * h3b + 4 * hr, ab as int),
        ensures
            q == per_thousand(h1b + 2 * h2b + 3 * h3b + 4 * hr, ab as int),
    {
        Self::div1000_or_0(h1b + (2 * h2b) + (3 * h3b) + (4 * hr), ab)
    }

    /// The earned run average: earned runs per 27 outs, in thousandths.
    pub fn calc_era1000(er: u32, o: u32) -> (q: u32)
        requires
            27 * er <= u32::MAX,
            scales(27 * er, o as int),
        ensures
            q == per_thousand(27 * er, o as int),
    {
        Self::div1000_or_0(27 * er, o)
    }

    /// Walks and hits per three outs, in thousandths.
    pub fn calc_whip1000(h: u32, bb: u32, o: u32) -> (q: u32)
        requires
            3 * (h + bb) <= u32::MAX,
            scales(3 * (h + bb), o as int),
        ensures
            q == per_thousand(3 * (h + bb), o as int),
    {
        Self::div1000_or_0(3 * (h + bb), o)
    }

    /// Fills in the calculated counters from the recorded ones.
    pub fn calculate(&mut self)
        requires
            old(self).calculable(),
        ensures
            final(self).same_recorded(*old(self)),
            final(self).calculated(),
    {
        self.b_h = self.b_1b + self.b_2b + self.b_3b + self.b_hr;
        self.b_ab = self.b_h + self.b_o;
        self.b_pa = self.b_ab + self.b_bb + self.b_hbp;

        self.b_avg = Self::calc_avg1000(self.b_ab, self.b_h);
        self.b_obp = Self::calc_obp1000(self.b_pa, self.b_h, self.b_bb, self.b_hbp);
        self.b_slg = Self::calc_slg1000(self.b_ab, self.b_1b, self.b_2b, self.b_3b, self.b_hr);

        self.p_h = self.p_1b + self.p_2b + self.p_3b + self.p_hr;
        let p_ab: u32 = self.p_h + self.p_o;
        self.p_bf = p_ab + self.p_bb + self.p_hbp;

        self.p_avg = Self::calc_avg1000(p_ab, self.p_h);
        self.p_obp = Self::calc_obp1000(self.p_bf, self.p_h, self.p_bb, self.p_hbp);
        self.p_slg = Self::calc_slg1000(p_ab, self.p_1b, self.p_2b, self.p_3b, self.p_hr);
        self.p_era = Self::calc_era1000(self.p_er, self.p_o);
        self.p_whip = Self::calc_whip1000(self.p_h, self.p_bb, self.p_o);
    }

    /// Counts one more recorded event.
    fn count(&mut self, event: Stat, Ghost(n): Ghost<int>)
        requires
            old(self).at_most(n),
            n < u32::MAX,
        ensures
            final(self).stepped(*old(self), event),
            final(self).same_calculated(*old(self)),
            final(self).at_most(n + 1),
    {
        match event {
            Stat::G => self.g += 1,
            Stat::Gs => {
                self.gs += 1;
                self.g += 1;
            }
            Stat::B1b => self.b_1b += 1,
            Stat::B2b => self.b_2b += 1,
            Stat::B3b => self.b_3b += 1,
            Stat::Bhr => self.b_hr += 1,
            Stat::Bbb => self.b_bb += 1,
            Stat::Bibb => {
                self.b_ibb += 1;
                self.b_bb += 1;
            }
            Stat::Bhbp => self.b_hbp += 1,
            Stat::Bso => {
                self.b_so += 1;
                self.b_o += 1;
            }
            Stat::Bo => self.b_o += 1,
            Stat::Br => self.b_r += 1,
            Stat::Brbi => self.b_rbi += 1,
            Stat::Bgidp => {
                self.b_gidp += 1;
                self.b_o += 1;
            }
            Stat::Bsb => self.b_sb += 1,
            Stat::Bcs => self.b_cs += 1,
            Stat::P1b => self.p_1b += 1,
            Stat::P2b => self.p_2b += 1,
            Stat::P3b => self.p_3b += 1,
            Stat::Phr => self.p_hr += 1,
            Stat::Pbb => self.p_bb += 1,
            Stat::Pibb => {
                self.p_ibb += 1;
                self.p_bb += 1;
            }
            Stat::Phbp => self.p_hbp += 1,
            Stat::Po => self.p_o += 1,
            Stat::Pso => {
                self.p_so += 1;
                self.p_o += 1;
            }
            Stat::Pr => self.p_r += 1,
            Stat::Per => {
                self.p_er += 1;
                self.p_r += 1;
            }
            Stat::Pw => self.p_w += 1,
            Stat::Pl => self.p_l += 1,
            Stat::Psv => self.p_sv += 1,
            Stat::Pbs => self.p_bs += 1,
            Stat::Phld => self.p_hld += 1,
            Stat::Pcg => self.p_cg += 1,
            Stat::Psho => self.p_sho += 1,
            Stat::Fpo => self.f_po += 1,
            Stat::Fe => self.f_e += 1,
            _ => {}
        }
    }

    /// Tells whether the calculated counters can be formed.
    pub fn is_calculable(&self) -> (b: bool)
        ensures
            b == self.calculable(),
    {
        let max: u64 = 0xffff_ffff;
        let hits: u64 = self.b_1b as u64 + self.b_2b as u64 + self.b_3b as u64 + self.b_hr as u64;
        let at_bats: u64 = hits + self.b_o as u64;
        let on_base: u64 = hits + self.b_bb as u64 + self.b_hbp as u64;
        let appearances: u64 = at_bats + self.b_bb as u64 + self.b_hbp as u64;
        let bases: u64 = self.b_1b as u64 + 2 * (self.b_2b as u64) + 3 * (self.b_3b as u64) + 4 * (
        self.b_hr as u64);
        let batting = appearances <= max && 4 * (self.b_hr as u64) <= max && 3 * (self.b_3b as u64)
            <= max && 2 * (self.b_2b as u64) <= max && bases <= max && (at_bats == 0 || hits * 1000
            <= max) && (appearances == 0 || on_base * 1000 <= max) && (at_bats == 0 || bases * 1000
            <= max);

        let allowed: u64 = self.p_1b as u64 + self.p_2b as u64 + self.p_3b as u64 + self.p_hr as u64;
        let against: u64 = allowed + self.p_o as u64;
        let reached: u64 = allowed + self.p_bb as u64 + self.p_hbp as u64;
        let faced: u64 = against + self.p_bb as u64 + self.p_hbp as u64;
        let given: u64 = self.p_1b as u64 + 2 * (self.p_2b as u64) + 3 * (self.p_3b as u64) + 4 * (
        self.p_hr as u64);
        let earned: u64 = 27 * (self.p_er as u64);
        let runners: u64 = 3 * (allowed + self.p_bb as u64);
        let pitching = faced <= max && 4 * (self.p_hr as u64) <= max && 3 * (self.p_3b as u64) <= max
            && 2 * (self.p_2b as u64) <= max && given <= max && reached <= max && (against == 0
            || allowed * 1000 <= max) && (faced == 0 || reached * 1000 <= max) && (against == 0
            || given * 1000 <= max) && earned <= max && (self.p_o == 0 || earned * 1000 <= max)
            && runners <= max && (self.p_o == 0 || runners * 1000 <= max);
        batting && pitching
    }

    /// The recorded counters of a stream, with the calculated ones at zero.
    fn tally(stream: &[Stat]) -> (stats: Stats)
        requires
            stream@.len() <= u32::MAX,
        ensures
            stats.records(stream@),
            stats.uncalculated(),
            stats == Stats::of_stream(stream@),
    {
        let mut stats = Stats::default();
        let mut i: usize = 0;
        proof {
            reveal(occurrences);
            assert(stream@.take(0).len() == 0);
        }
        while i < stream.len()
            invariant
                i <= stream.len(),
                stream@.len() <= u32::MAX,
                stats.records(stream@.take(i as int)),
                stats.at_most(i as int),
                stats.uncalculated(),
            decreases stream.len() - i,
        {
            proof {
                lemma_occurrences_step(stream@, i as int);
            }
            stats.count(stream[i], Ghost(i as int));
            i += 1;
        }
        proof {
            assert(stream@.take(i as int) =~= stream@);
        }
        stats
    }

    /// Tells whether a stream of events can be compiled.
    pub fn can_compile(stream: &[Stat]) -> (b: bool)
        ensures
            b == (stream@.len() <= u32::MAX && Stats::of_stream(stream@).calculable()),
    {
        if stream.len() > 0xffff_ffff {
            return false;
        }
        Self::tally(stream).is_calculable()
    }

    /// Season totals of a stream of recorded events: each recorded counter is
    /// the number of events that feed it, and the calculated ones follow.
    pub fn compile_stats(stream: &[Stat]) -> (stats: Stats)
        requires
            stream@.len() <= u32::MAX,
            Stats::of_stream(stream@).calculable(),
        ensures
            stats.records(stream@),
            stats.calculated(),
            stats == Stats::compiled(stream@),
    {
        let mut stats = Self::tally(stream);
        stats.calculate();
        stats
    }
}

/// Counting one more event of a stream adds one for that event's kind and
/// nothing for any other.
pub proof fn lemma_occurrences_step(stream: Seq<Stat>, i: int)
    requires
        0 <= i < stream.len(),
    ensures
        forall|stat: Stat| #[trigger]
            occurrences(stream.take(i + 1), stat) == occurrences(stream.take(i), stat) + if stream[i]
                == stat {
                1nat
            } else {
                0nat
            },
{
    reveal(occurrences);
    assert(stream.take(i + 1).drop_last() =~= stream.take(i));
    assert(stream.take(i + 1).last() == stream[i]);
}

/// Events counted over two streams laid end to end are the events of the
/// first plus those of the second.
pub proof fn lemma_occurrences_concat(a: Seq<Stat>, b: Seq<Stat>, stat: Stat)
    ensures
        occurrences(a + b, stat) == occurrences(a, stat) + occurrences(b, stat),
    decreases b.len(),
{
    reveal(occurrences);
    if b.len() == 0 {
        assert(a + b =~= a);
    } else {
        lemma_occurrences_concat(a, b.drop_last(), stat);
        assert((a + b).drop_last() =~= a + b.drop_last());
        assert((a + b).last() == b.last());
    }
}

/// Adding up the recorded totals of two parts of a season gives the recorded
/// totals of the whole: whatever was counted game by game is what the season
/// stream counts.
pub proof fn lemma_totals_add_up(a: Seq<Stat>, b: Seq<Stat>, first: Stats, second: Stats, whole: Stats)
    requires
        first.records(a),
        second.records(b),
        whole.sums(first, second),
    ensures
        whole.records(a + b),
{
    assert forall|stat: Stat|
        #[trigger] occurrences(a + b, stat) == occurrences(a, stat) + occurrences(b, stat) by {
        lemma_occurrences_concat(a, b, stat);
    }
}

/// A stream no longer than this can always be compiled.
pub const STREAM_LIMIT: usize = 159_072;

/// Number of events in `stream` that end a turn at bat.
pub open spec fn batting_events(stream: Seq<Stat>) -> nat {
    occurrences(stream, Stat::B1b) + occurrences(stream, Stat::B2b) + occurrences(stream, Stat::B3b)
        + occurrences(stream, Stat::Bhr) + occurrences(stream, Stat::Bo) + occurrences(
        stream,
        Stat::Bso,
    ) + occurrences(stream, Stat::Bgidp) + occurrences(stream, Stat::Bbb) + occurrences(
        stream,
        Stat::Bibb,
    ) + occurrences(stream, Stat::Bhbp)
}

/// Number of events in `stream` that are charged to a pitcher for a batter
/// faced or an earned run.
pub open spec fn pitching_events(stream: Seq<Stat>) -> nat {
    occurrences(stream, Stat::P1b) + occurrences(stream, Stat::P2b) + occurrences(stream, Stat::P3b)
        + occurrences(stream, Stat::Phr) + occurrences(stream, Stat::Po) + occurrences(
        stream,
        Stat::Pso,
    ) + occurrences(stream, Stat::Pbb) + occurrences(stream, Stat::Pibb) + occurrences(
        stream,
        Stat::Phbp,
    ) + occurrences(stream, Stat::Per)
}

/// No more events of the listed kinds than events.
pub proof fn lemma_events_bounded(stream: Seq<Stat>)
    ensures
        batting_events(stream) <= stream.len(),
        pitching_events(stream) <= stream.len(),
    decreases stream.len(),
{
    reveal(occurrences);
    if stream.len() > 0 {
        lemma_events_bounded(stream.drop_last());
    }
}

/// No kind of event occurs more often than there are events.
pub proof fn lemma_occurrences_bounded(stream: Seq<Stat>, stat: Stat)
    ensures
        occurrences(stream, stat) <= stream.len(),
    decreases stream.len(),
{
    reveal(occurrences);
    if stream.len() > 0 {
        lemma_occurrences_bounded(stream.drop_last(), stat);
    }
}

/// Every stream within the limit meets what `compile_stats` asks for.
pub proof fn lemma_short_stream_calculable(stream: Seq<Stat>)
    requires
        stream.len() <= STREAM_LIMIT,
    ensures
        stream.len() <= u32::MAX,
        Stats::of_stream(stream).calculable(),
        Stats::of_stream(stream).records(stream),
{
    lemma_events_bounded(stream);
    assert forall|stat: Stat| #[trigger] occurrences(stream, stat) <= stream.len() by {
        lemma_occurrences_bounded(stream, stat);
    }
}

/// The on-base rate, in thousandths, that a stream of events compiles to.
pub open spec fn on_base_rate(stream: Seq<Stat>) -> int {
    let totals = Stats::of_stream(stream);
    per_thousand(totals.hits() + totals.b_bb + totals.b_hbp, totals.plate_appearances())
}

/// Totals of one season on one team.
#[derive(Clone, Copy, Debug)]
pub struct HistoricalStats {
    pub year: u32,
    pub league: u32,
    pub team: u64,
    pub stats: Stats,
}

} // verus!
