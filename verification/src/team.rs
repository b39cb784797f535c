//! Teams: roster, pitching rotation, the season's tally and the history of
//! past seasons.

use crate::data::LocData;
use crate::player::{Player, PlayerId, PlayerMap, Position};
use crate::results::Results;
use std::collections::HashMap;
use vstd::prelude::*;
use vstd::string::StringExecFns;

verus! {

broadcast use vstd::std_specs::hash::group_hash_axioms;

/// The key a team is known by.
pub type TeamId = u64;

/// The teams, by key.
pub type TeamMap = HashMap<TeamId, Team>;

/// How one past season ended.
#[derive(Clone, Copy, Debug)]
pub struct HistoricalResults {
    pub year: u32,
    pub league: usize,
    pub rank: usize,
    pub win: u32,
    pub lose: u32,
}

/// A team's record over the years. `best` and `worst` hold the league number
/// times 100 plus the rank in it; a lower number is a better finish.
pub struct History {
    pub founded: u32,
    pub best: Option<u32>,
    pub worst: Option<u32>,
    pub wins: u32,
    pub losses: u32,
    pub results: Vec<HistoricalResults>,
}

/// A team.
pub struct Team {
    pub loc: LocData,
    pub nickname: String,
    pub players: Vec<PlayerId>,
    pub rotation: [PlayerId; 5],
    pub results: Results,
    pub history: History,
}

impl Team {
    /// A team founded in `year`, with no players yet.
    pub fn new(loc: LocData, nickname: String, year: u32) -> (t: Self)
        ensures
            t.loc == loc,
            t.nickname == nickname,
            t.players@.len() == 0,
            t.rotation@ == seq![0u64, 0u64, 0u64, 0u64, 0u64],
            t.results.win == 0,
            t.results.lose == 0,
            t.history.founded == year,
            t.history.best is None,
            t.history.worst is None,
            t.history.wins == 0,
            t.history.losses == 0,
            t.history.results@.len() == 0,
    {
        let t = Self {
            loc,
            nickname,
            players: Vec::new(),
            rotation: [0, 0, 0, 0, 0],
            results: Results::new(),
            history: History {
                founded: year,
                best: None,
                worst: None,
                wins: 0,
                losses: 0,
                results: Vec::new(),
            },
        };
        assert(t.rotation@ =~= seq![0u64, 0u64, 0u64, 0u64, 0u64]);
        t
    }

    /// The abbreviation of the team's place.
    pub fn abbr(&self) -> (s: &str)
        ensures
            s@ == self.loc.abbr@,
    {
        self.loc.abbr
    }

    /// Enters the result of one game: a win when `us` is more than `them`,
    /// else a loss.
    pub fn results(&mut self, us: u8, them: u8)
        requires
            old(self).results.win < u32::MAX,
            old(self).results.lose < u32::MAX,
        ensures
            final(self).results.win == old(self).results.win + if us > them {
                1int
            } else {
                0int
            },
            final(self).results.lose == old(self).results.lose + if us > them {
                0int
            } else {
                1int
            },
            final(self).loc == old(self).loc,
            final(self).nickname == old(self).nickname,
            final(self).players == old(self).players,
            final(self).rotation == old(self).rotation,
            final(self).history == old(self).history,
    {
        if us > them {
            self.results.win += 1;
        } else {
            self.results.lose += 1;
        }
    }

    /// Games won this season.
    pub fn get_wins(&self) -> (n: u32)
        ensures
            n == self.results.win,
    {
        self.results.win
    }

    /// Games lost this season.
    pub fn get_losses(&self) -> (n: u32)
        ensures
            n == self.results.lose,
    {
        self.results.lose
    }

    /// Wins per thousand games plus one, so that a team that has played
    /// ranks above one that has not; zero before the first game.
    pub open spec fn pct(self) -> int {
        let denom = self.results.win + self.results.lose;
        if denom > 0 {
            self.results.win * 1000 / denom + 1
        } else {
            0
        }
    }

    /// Wins per thousand games plus one; zero before the first game.
    pub fn win_pct(&self) -> (p: u32)
        requires
            self.results.win + self.results.lose <= u32::MAX,
            self.results.win * 1000 <= u32::MAX,
        ensures
            p == self.pct(),
    {
        let denom: u32 = self.results.win + self.results.lose;
        if denom > 0 {
            assert(self.results.win * 1000 / (denom as int) <= 1000) by (nonlinear_arith)
                requires
                    0 <= self.results.win <= denom,
                    denom > 0,
            ;
            (self.results.win * 1000 / denom) + 1
        } else {
            0
        }
    }

    /// The full name: city, nickname, then state and country in brackets.
    pub fn name(&self) -> (s: String)
        ensures
            s@ == self.loc.city@ + " "@ + self.nickname@ + " ("@ + self.loc.state@ + "-"@
                + self.loc.country@ + ")"@,
    {
        let mut s = String::from_str(self.loc.city);
        s.append(" ");
        s.append(self.nickname.as_str());
        s.append(" (");
        s.append(self.loc.state);
        s.append("-");
        s.append(self.loc.country);
        s.append(")");
        s
    }

    /// The place of a finish among all finishes: the league, counted from
    /// one, times 100, plus the rank in it, counted from one.
    pub open spec fn finish(league_idx: usize, rank_idx: usize) -> int {
        (league_idx + 1) * 100 + (rank_idx + 1)
    }

    /// Whether a season that ended in the given place can be filed: the
    /// totals and the place fit their counters.
    pub open spec fn can_file(self, league_idx: usize, rank_idx: usize) -> bool {
        &&& self.history.wins + self.results.win <= u32::MAX
        &&& self.history.losses + self.results.lose <= u32::MAX
        &&& Self::finish(league_idx, rank_idx) <= u32::MAX
    }

    /// Whether `self` is `before` with a season filed that ended in the given
    /// place with the given results.
    pub open spec fn season_filed(
        self,
        before: Team,
        year: u32,
        league_idx: usize,
        rank_idx: usize,
        results: Results,
    ) -> bool {
        &&& self.history.wins == before.history.wins + before.results.win
        &&& self.history.losses == before.history.losses + before.results.lose
        &&& self.history.best == Some(
            match before.history.best {
                Some(b) if b <= Self::finish(league_idx, rank_idx) => b,
                _ => Self::finish(league_idx, rank_idx) as u32,
            },
        )
        &&& self.history.worst == Some(
            match before.history.worst {
                Some(w) if w >= Self::finish(league_idx, rank_idx) => w,
                _ => Self::finish(league_idx, rank_idx) as u32,
            },
        )
        &&& self.history.results@ == before.history.results@.push(
            HistoricalResults {
                year,
                league: (league_idx + 1) as usize,
                rank: (rank_idx + 1) as usize,
                win: results.win,
                lose: results.lose,
            },
        )
        &&& self.history.founded == before.history.founded
        &&& self.results == before.results
        &&& self.players == before.players
        &&& self.rotation == before.rotation
        &&& self.loc == before.loc
        &&& self.nickname == before.nickname
    }

    /// Files a finished season: the team's tally goes into the totals, the
    /// finish is compared with the best and the worst so far, and the given
    /// results are kept under the year.
    pub fn record_results(&mut self, year: u32, league_idx: usize, rank_idx: usize, results: Results)
        requires
            old(self).can_file(league_idx, rank_idx),
        ensures
            final(self).season_filed(*old(self), year, league_idx, rank_idx, results),
    {
        self.history.wins += self.results.win;
        self.history.losses += self.results.lose;

        let league: usize = league_idx + 1;
        let rank: usize = rank_idx + 1;
        let pos: u32 = (league * 100 + rank) as u32;
        self.history.best = match self.history.best {
            Some(b) => if b <= pos {
                Some(b)
            } else {
                Some(pos)
            },
            None => Some(pos),
        };
        self.history.worst = match self.history.worst {
            Some(w) => if w >= pos {
                Some(w)
            } else {
                Some(pos)
            },
            None => Some(pos),
        };
        self.history.results.push(
            HistoricalResults { year, league, rank, win: results.win, lose: results.lose },
        );
    }

    /// How many players a roster carries at a position.
    pub open spec fn carried(pos: Position) -> usize {
        match pos {
            Position::StartingPitcher => 5,
            Position::LongRelief => 3,
            Position::ShortRelief => 3,
            Position::Catcher => 2,
            _ => 1,
        }
    }

    /// How many players a roster carries at a position.
    pub fn players_per_position(pos: Position) -> (n: usize)
        ensures
            n == Self::carried(pos),
    {
        match pos {
            Position::StartingPitcher => 5,
            Position::LongRelief => 3,
            Position::ShortRelief => 3,
            Position::Catcher => 2,
            _ => 1,
        }
    }

    /// How many players of the roster are known and wanted.
    pub fn count_at(&self, players: &PlayerMap, wanted: &Wanted) -> (n: usize)
        ensures
            n == count_wanted(self.players@, players@, *wanted),
    {
        let mut n: usize = 0;
        let mut i: usize = 0;
        assert(self.players@.take(0) =~= Seq::empty());
        while i < self.players.len()
            invariant
                i <= self.players.len(),
                n <= i,
                n == count_wanted(self.players@.take(i as int), players@, *wanted),
            decreases self.players.len() - i,
        {
            proof {
                assert(self.players@.take(i + 1).drop_last() =~= self.players@.take(i as int));
                assert(self.players@.take(i + 1).last() == self.players@[i as int]);
            }
            if let Some(p) = players.get(&self.players[i]) {
                if wanted.accepts(p.pos) {
                    n += 1;
                }
            }
            i += 1;
        }
        assert(self.players@.take(self.players@.len() as int) =~= self.players@);
        n
    }

    /// Takes the first wanted player out of the pool.
    pub fn pick(available: &mut Vec<PlayerId>, players: &PlayerMap, wanted: &Wanted) -> (picked:
        Option<PlayerId>)
        ensures
            ({
                let at = first_wanted(old(available)@, players@, *wanted, 0);
                if at < old(available)@.len() {
                    picked == Some(old(available)@[at]) && final(available)@ == old(
                        available,
                    )@.remove(at)
                } else {
                    picked is None && final(available)@ == old(available)@
                }
            }),
    {
        let mut i: usize = 0;
        while i < available.len()
            invariant
                i <= available.len(),
                available@ == old(available)@,
                first_wanted(available@, players@, *wanted, 0) == first_wanted(
                    available@,
                    players@,
                    *wanted,
                    i as int,
                ),
            decreases available.len() - i,
        {
            if let Some(p) = players.get(&available[i]) {
                if wanted.accepts(p.pos) {
                    let id = available.remove(i);
                    return Some(id);
                }
            }
            i += 1;
        }
        None
    }

    /// Brings the wanted players of the roster up to `max`, as far as the
    /// pool has them.
    pub fn fill_in(
        &mut self,
        available: &mut Vec<PlayerId>,
        players: &PlayerMap,
        max: usize,
        wanted: &Wanted,
    )
        ensures
            (final(self).players@, final(available)@) == drafted(
                old(self).players@,
                old(available)@,
                players@,
                *wanted,
                max - count_wanted(old(self).players@, players@, *wanted),
            ),
            final(self).rotation == old(self).rotation,
            final(self).results == old(self).results,
            final(self).history == old(self).history,
            final(self).loc == old(self).loc,
            final(self).nickname == old(self).nickname,
    {
        let cur = self.count_at(players, wanted);
        let tries: usize = if max > cur {
            max - cur
        } else {
            0
        };
        let mut n: usize = 0;
        while n < tries
            invariant
                n <= tries,
                (self.players@, available@) == drafted(
                    old(self).players@,
                    old(available)@,
                    players@,
                    *wanted,
                    n as int,
                ),
                self.rotation == old(self).rotation,
                self.results == old(self).results,
                self.history == old(self).history,
                self.loc == old(self).loc,
                self.nickname == old(self).nickname,
            decreases tries - n,
        {
            let ghost before = (self.players@, available@);
            if let Some(id) = Self::pick(available, players, wanted) {
                self.players.push(id);
            }
            proof {
                lemma_first_wanted(before.1, players@, *wanted, 0);
            }
            n += 1;
        }
    }

    /// Drops the players who are no longer active from the roster.
    pub fn release_retired(&mut self, players: &PlayerMap)
        ensures
            final(self).players@ == still_active(old(self).players@, players@),
            final(self).rotation == old(self).rotation,
            final(self).results == old(self).results,
            final(self).history == old(self).history,
            final(self).loc == old(self).loc,
            final(self).nickname == old(self).nickname,
    {
        let mut kept: Vec<PlayerId> = Vec::new();
        let mut i: usize = 0;
        assert(self.players@.take(0) =~= Seq::empty());
        while i < self.players.len()
            invariant
                i <= self.players.len(),
                *self == *old(self),
                kept@ == still_active(self.players@.take(i as int), players@),
            decreases self.players.len() - i,
        {
            proof {
                assert(self.players@.take(i + 1).drop_last() =~= self.players@.take(i as int));
                assert(self.players@.take(i + 1).last() == self.players@[i as int]);
            }
            let id = self.players[i];
            if let Some(p) = players.get(&id) {
                if p.active {
                    kept.push(id);
                }
            }
            i += 1;
        }
        assert(self.players@.take(self.players@.len() as int) =~= self.players@);
        self.players = kept;
    }

    /// Takes the players of the roster out of the pool.
    pub fn claim(&self, available: &mut Vec<PlayerId>)
        ensures
            final(available)@ == not_among(old(available)@, self.players@),
    {
        let mut kept: Vec<PlayerId> = Vec::new();
        let mut i: usize = 0;
        assert(available@.take(0) =~= Seq::empty());
        while i < available.len()
            invariant
                i <= available.len(),
                available@ == old(available)@,
                kept@ == not_among(available@.take(i as int), self.players@),
            decreases available.len() - i,
        {
            proof {
                assert(available@.take(i + 1).drop_last() =~= available@.take(i as int));
                assert(available@.take(i + 1).last() == available@[i as int]);
            }
            let id = available[i];
            let mut on_roster = false;
            let mut j: usize = 0;
            while j < self.players.len()
                invariant
                    j <= self.players.len(),
                    on_roster == self.players@.take(j as int).contains(id),
                decreases self.players.len() - j,
            {
                let ghost seen = self.players@.take(j as int);
                if self.players[j] == id {
                    on_roster = true;
                }
                proof {
                    let next = self.players@.take(j + 1);
                    assert(next =~= seen.push(self.players@[j as int]));
                    if seen.contains(id) {
                        let k = choose|k: int| 0 <= k < seen.len() && seen[k] == id;
                        assert(next[k] == id);
                    }
                    if self.players@[j as int] == id {
                        assert(next[j as int] == id);
                    }
                    if next.contains(id) {
                        let k = choose|k: int| 0 <= k < next.len() && next[k] == id;
                        if k < j {
                            assert(seen[k] == id);
                        }
                    }
                }
                j += 1;
            }
            assert(self.players@.take(self.players@.len() as int) =~= self.players@);
            if !on_roster {
                kept.push(id);
            }
            i += 1;
        }
        assert(available@.take(available@.len() as int) =~= available@);
        *available = kept;
    }

    /// Fills the roster from the pool: first each position up to what a
    /// roster carries there, then infielders up to six and outfielders up to
    /// four; then the first five starting pitchers of the roster, as far as
    /// there are five, become the rotation.
    pub fn populate(&mut self, available: &mut Vec<PlayerId>, players: &PlayerMap)
        ensures
            (final(self).players@, final(available)@) == planned(
                old(self).players@,
                old(available)@,
                players@,
                fill_plan(),
                fill_plan().len() as int,
            ),
            forall|k: int|
                0 <= k < 5 ==> #[trigger] final(self).rotation@[k] == if k < starters(
                    final(self).players@,
                    players@,
                ).len() {
                    starters(final(self).players@, players@)[k]
                } else {
                    old(self).rotation@[k]
                },
            final(self).results == old(self).results,
            final(self).history == old(self).history,
            final(self).loc == old(self).loc,
            final(self).nickname == old(self).nickname,
    {
        let positions = Position::all();
        let mut i: usize = 0;
        while i < 14
            invariant
                i <= 14,
                positions@ == Position::every(),
                (self.players@, available@) == planned(
                    old(self).players@,
                    old(available)@,
                    players@,
                    fill_plan(),
                    i as int,
                ),
                self.rotation == old(self).rotation,
                self.results == old(self).results,
                self.history == old(self).history,
                self.loc == old(self).loc,
                self.nickname == old(self).nickname,
            decreases 14 - i,
        {
            let pos = positions[i];
            let max = Self::players_per_position(pos);
            self.fill_in(available, players, max, &Wanted::Exactly(pos));
            i += 1;
        }
        self.fill_in(available, players, 6, &Wanted::Infield);
        self.fill_in(available, players, 4, &Wanted::Outfield);
        assert((self.players@, available@) == planned(
            old(self).players@,
            old(available)@,
            players@,
            fill_plan(),
            16,
        )) by {
            reveal_with_fuel(planned, 3);
        }

        let ghost roster = self.players@;
        let ghost rotation = self.rotation@;
        let mut found: usize = 0;
        let mut j: usize = 0;
        assert(roster.take(0) =~= Seq::empty());
        while j < self.players.len() && found < 5
            invariant
                j <= self.players.len(),
                found <= 5,
                rotation.len() == 5,
                self.players@ == roster,
                found == starters(roster.take(j as int), players@).len(),
                forall|k: int|
                    0 <= k < 5 ==> #[trigger] self.rotation@[k] == if k < found {
                        starters(roster.take(j as int), players@)[k]
                    } else {
                        rotation[k]
                    },
                self.results == old(self).results,
                self.history == old(self).history,
                self.loc == old(self).loc,
                self.nickname == old(self).nickname,
            decreases self.players.len() - j,
        {
            proof {
                assert(roster.take(j + 1).drop_last() =~= roster.take(j as int));
                assert(roster.take(j + 1).last() == roster[j as int]);
            }
            let id = self.players[j];
            if let Some(p) = players.get(&id) {
                if p.pos == Position::StartingPitcher {
                    self.rotation[found] = id;
                    found += 1;
                }
            }
            j += 1;
        }
        proof {
            lemma_starters_prefix(roster, players@, j as int);
            if j == roster.len() {
                assert(roster.take(j as int) =~= roster);
            }
        }
    }
}

/// What a roster is filled with: one position, or any infield or outfield
/// position.
#[derive(Copy, Clone, Debug, PartialEq, Eq, Structural)]
pub enum Wanted {
    Exactly(Position),
    Infield,
    Outfield,
}

impl Wanted {
    /// Whether a player at `pos` is wanted.
    pub open spec fn admits(self, pos: Position) -> bool {
        match self {
            Wanted::Exactly(p) => pos == p,
            Wanted::Infield => pos.infield(),
            Wanted::Outfield => pos.outfield(),
        }
    }

    /// Tells whether a player at `pos` is wanted.
    pub fn accepts(&self, pos: Position) -> (b: bool)
        ensures
            b == self.admits(pos),
    {
        match self {
            Wanted::Exactly(p) => pos == *p,
            Wanted::Infield => pos.is_infield(),
            Wanted::Outfield => pos.is_outfield(),
        }
    }
}

/// How many players of `roster` are known and wanted.
pub open spec fn count_wanted(roster: Seq<PlayerId>, players: Map<PlayerId, Player>, wanted: Wanted) -> int
    decreases roster.len(),
{
    if roster.len() == 0 {
        0
    } else {
        count_wanted(roster.drop_last(), players, wanted) + if players.contains_key(roster.last())
            && wanted.admits(players[roster.last()].pos) {
            1int
        } else {
            0int
        }
    }
}

/// The first player of the pool at or after `from` who is known and wanted;
/// the size of the pool when there is none.
pub open spec fn first_wanted(
    available: Seq<PlayerId>,
    players: Map<PlayerId, Player>,
    wanted: Wanted,
    from: int,
) -> int
    decreases available.len() - from,
{
    if from >= available.len() || (from >= 0 && players.contains_key(available[from])
        && wanted.admits(players[available[from]].pos)) {
        from
    } else {
        first_wanted(available, players, wanted, from + 1)
    }
}

/// The first wanted player is not before where the search starts.
pub proof fn lemma_first_wanted(
    available: Seq<PlayerId>,
    players: Map<PlayerId, Player>,
    wanted: Wanted,
    from: int,
)
    requires
        0 <= from,
    ensures
        from <= first_wanted(available, players, wanted, from),
    decreases available.len() - from,
{
    if from < available.len() && !(players.contains_key(available[from]) && wanted.admits(
        players[available[from]].pos,
    )) {
        lemma_first_wanted(available, players, wanted, from + 1);
    }
}

/// The roster and the pool after `n` tries to take a wanted player from the
/// pool: each try moves the first wanted player, if there is one, to the end
/// of the roster.
pub open spec fn drafted(
    roster: Seq<PlayerId>,
    available: Seq<PlayerId>,
    players: Map<PlayerId, Player>,
    wanted: Wanted,
    n: int,
) -> (Seq<PlayerId>, Seq<PlayerId>)
    decreases n,
{
    if n <= 0 {
        (roster, available)
    } else {
        let (r, a) = drafted(roster, available, players, wanted, n - 1);
        let at = first_wanted(a, players, wanted, 0);
        if 0 <= at < a.len() {
            (r.push(a[at]), a.remove(at))
        } else {
            (r, a)
        }
    }
}

/// The order in which a roster is filled, with the number wanted of each
/// kind: every position in turn, then infielders, then outfielders.
pub open spec fn fill_plan() -> Seq<(Wanted, usize)> {
    Seq::new(14, |i: int| (Wanted::Exactly(Position::every()[i]), Team::carried(Position::every()[i])))
        + seq![(Wanted::Infield, 6usize), (Wanted::Outfield, 4usize)]
}

/// The roster and the pool after the first `n` steps of the plan.
pub open spec fn planned(
    roster: Seq<PlayerId>,
    available: Seq<PlayerId>,
    players: Map<PlayerId, Player>,
    plan: Seq<(Wanted, usize)>,
    n: int,
) -> (Seq<PlayerId>, Seq<PlayerId>)
    decreases n,
{
    if n <= 0 {
        (roster, available)
    } else {
        let (r, a) = planned(roster, available, players, plan, n - 1);
        let (wanted, max) = plan[n - 1];
        drafted(r, a, players, wanted, max - count_wanted(r, players, wanted))
    }
}

/// The players of a roster who are known and active, in roster order.
pub open spec fn still_active(roster: Seq<PlayerId>, players: Map<PlayerId, Player>) -> Seq<PlayerId>
    decreases roster.len(),
{
    if roster.len() == 0 {
        Seq::empty()
    } else {
        let rest = still_active(roster.drop_last(), players);
        if players.contains_key(roster.last()) && players[roster.last()].active {
            rest.push(roster.last())
        } else {
            rest
        }
    }
}

/// The players of a pool who are not on a roster, in the order of the pool.
pub open spec fn not_among(available: Seq<PlayerId>, roster: Seq<PlayerId>) -> Seq<PlayerId>
    decreases available.len(),
{
    if available.len() == 0 {
        Seq::empty()
    } else {
        let rest = not_among(available.drop_last(), roster);
        if roster.contains(available.last()) {
            rest
        } else {
            rest.push(available.last())
        }
    }
}

/// The known starting pitchers of a roster, in roster order.
pub open spec fn starters(roster: Seq<PlayerId>, players: Map<PlayerId, Player>) -> Seq<PlayerId>
    decreases roster.len(),
{
    if roster.len() == 0 {
        Seq::empty()
    } else {
        let rest = starters(roster.drop_last(), players);
        if players.contains_key(roster.last()) && players[roster.last()].pos
            == Position::StartingPitcher {
            rest.push(roster.last())
        } else {
            rest
        }
    }
}

/// The starting pitchers among the first players of a roster are the first of
/// all its starting pitchers.
pub proof fn lemma_starters_prefix(roster: Seq<PlayerId>, players: Map<PlayerId, Player>, j: int)
    requires
        0 <= j <= roster.len(),
    ensures
        starters(roster.take(j), players).len() <= starters(roster, players).len(),
        forall|k: int|
            0 <= k < starters(roster.take(j), players).len() ==> starters(roster.take(j), players)[k]
                == #[trigger] starters(roster, players)[k],
    decreases roster.len() - j,
{
    if j < roster.len() {
        lemma_starters_prefix(roster, players, j + 1);
        assert(roster.take(j + 1).drop_last() =~= roster.take(j));
    } else {
        assert(roster.take(j) =~= roster);
    }
}

} // verus!
