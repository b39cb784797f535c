//! Players: positions, handedness, plate-appearance outcomes and where a
//! batted ball goes.

use crate::chance::{
    can_draw, draw_range, draw_ratio, lemma_total_weight_bounds, lemma_total_weight_step, pick_one,
    pick_weighted, total_weight,
};
use crate::data::Data;
use crate::stat::{HistoricalStats, Stat, Stats};
use crate::team::TeamId;
use rand::rngs::ThreadRng;
use std::collections::HashMap;
use vstd::prelude::*;
use vstd::std_specs::hash::spec_keys_iter;
use vstd::std_specs::iter::IteratorSpec;
use vstd::string::StringExecFns;

verus! {

broadcast use vstd::std_specs::hash::group_hash_axioms;

/// The key a player is known by.
pub type PlayerId = u64;

/// The players, by key.
pub type PlayerMap = HashMap<PlayerId, Player>;

/// Where a player takes the field, or the role of a pitcher.
#[derive(Copy, Clone, Debug, PartialEq, Eq, Hash, Structural)]
pub enum Position {
    StartingPitcher,
    Catcher,
    FirstBase,
    SecondBase,
    ThirdBase,
    ShortStop,
    LeftField,
    CenterField,
    RightField,
    DesignatedHitter,
    LongRelief,
    ShortRelief,
    Setup,
    Closer,
}

impl Default for Position {
    fn default() -> (p: Self)
        ensures
            p == Position::StartingPitcher,
    {
        Self::StartingPitcher
    }
}

impl Position {
    /// Whether the position is a pitcher's role.
    pub open spec fn pitcher(self) -> bool {
        matches!(
            self,
            Position::StartingPitcher | Position::LongRelief | Position::ShortRelief
                | Position::Setup | Position::Closer
        )
    }

    /// Whether the position is one of the four infield bases.
    pub open spec fn infield(self) -> bool {
        matches!(
            self,
            Position::FirstBase | Position::SecondBase | Position::ThirdBase | Position::ShortStop
        )
    }

    /// Whether the position is in the outfield.
    pub open spec fn outfield(self) -> bool {
        matches!(self, Position::LeftField | Position::CenterField | Position::RightField)
    }

    /// The two-letter code of the position.
    pub open spec fn code(self) -> Seq<char> {
        match self {
            Position::StartingPitcher => "SP"@,
            Position::Catcher => "C"@,
            Position::FirstBase => "1B"@,
            Position::SecondBase => "2B"@,
            Position::ThirdBase => "3B"@,
            Position::ShortStop => "SS"@,
            Position::LeftField => "LF"@,
            Position::CenterField => "CF"@,
            Position::RightField => "RF"@,
            Position::DesignatedHitter => "DH"@,
            Position::LongRelief => "LR"@,
            Position::ShortRelief => "SR"@,
            Position::Setup => "SU"@,
            Position::Closer => "CL"@,
        }
    }

    /// Every position, in the order they are declared.
    pub open spec fn every() -> Seq<Position> {
        seq![
            Position::StartingPitcher,
            Position::Catcher,
            Position::FirstBase,
            Position::SecondBase,
            Position::ThirdBase,
            Position::ShortStop,
            Position::LeftField,
            Position::CenterField,
            Position::RightField,
            Position::DesignatedHitter,
            Position::LongRelief,
            Position::ShortRelief,
            Position::Setup,
            Position::Closer,
        ]
    }

    /// Every position, in the order they are declared.
    pub fn all() -> (list: [Position; 14])
        ensures
            list@ == Self::every(),
    {
        let list = [
            Position::StartingPitcher,
            Position::Catcher,
            Position::FirstBase,
            Position::SecondBase,
            Position::ThirdBase,
            Position::ShortStop,
            Position::LeftField,
            Position::CenterField,
            Position::RightField,
            Position::DesignatedHitter,
            Position::LongRelief,
            Position::ShortRelief,
            Position::Setup,
            Position::Closer,
        ];
        assert(list@ =~= Self::every());
        list
    }

    /// Tells whether the position is a pitcher's role.
    pub fn is_pitcher(&self) -> (b: bool)
        ensures
            b == self.pitcher(),
    {
        matches!(
            self,
            Position::StartingPitcher | Position::LongRelief | Position::ShortRelief
                | Position::Setup | Position::Closer
        )
    }

    /// Tells whether the position is one of the four infield bases.
    pub fn is_infield(&self) -> (b: bool)
        ensures
            b == self.infield(),
    {
        matches!(
            self,
            Position::FirstBase | Position::SecondBase | Position::ThirdBase | Position::ShortStop
        )
    }

    /// Tells whether the position is in the outfield.
    pub fn is_outfield(&self) -> (b: bool)
        ensures
            b == self.outfield(),
    {
        matches!(self, Position::LeftField | Position::CenterField | Position::RightField)
    }

    /// The code of the position, as text.
    pub fn label(&self) -> (s: &'static str)
        ensures
            s@ == self.code(),
    {
        match self {
            Position::StartingPitcher => "SP",
            Position::Catcher => "C",
            Position::FirstBase => "1B",
            Position::SecondBase => "2B",
            Position::ThirdBase => "3B",
            Position::ShortStop => "SS",
            Position::LeftField => "LF",
            Position::CenterField => "CF",
            Position::RightField => "RF",
            Position::DesignatedHitter => "DH",
            Position::LongRelief => "LR",
            Position::ShortRelief => "SR",
            Position::Setup => "SU",
            Position::Closer => "CL",
        }
    }
}

/// The side a player bats or throws from.
#[derive(Copy, Clone, Debug, PartialEq, Eq, Structural)]
pub enum Handedness {
    Left,
    Right,
    Switch,
}

impl Handedness {
    /// The one-letter code of the side.
    pub open spec fn code(self) -> Seq<char> {
        match self {
            Handedness::Left => "L"@,
            Handedness::Right => "R"@,
            Handedness::Switch => "S"@,
        }
    }

    /// The one-letter code of the side, as text.
    pub fn label(&self) -> (s: &'static str)
        ensures
            s@ == self.code(),
    {
        match self {
            Handedness::Left => "L",
            Handedness::Right => "R",
            Handedness::Switch => "S",
        }
    }
}

/// How a plate appearance ends. `Error` never comes out of the draw: an out
/// becomes one when the fielder misplays the ball.
#[derive(Copy, Clone, Debug, PartialEq, Eq, Hash, Structural)]
pub enum Expect {
    Single,
    Double,
    Triple,
    HomeRun,
    Walk,
    HitByPitch,
    Strikeout,
    Out,
    Error,
}

impl Expect {
    /// The event entered in the batter's line.
    pub open spec fn batting_stat(self) -> Stat {
        match self {
            Expect::Single => Stat::B1b,
            Expect::Double => Stat::B2b,
            Expect::Triple => Stat::B3b,
            Expect::HomeRun => Stat::Bhr,
            Expect::Walk => Stat::Bbb,
            Expect::HitByPitch => Stat::Bhbp,
            Expect::Strikeout => Stat::Bso,
            Expect::Out => Stat::Bo,
            Expect::Error => Stat::Bo,
        }
    }

    /// The event entered in the pitcher's line: what the batter did, with an
    /// error counted as an out.
    pub open spec fn pitching_stat(self) -> Stat {
        match self {
            Expect::Single => Stat::P1b,
            Expect::Double => Stat::P2b,
            Expect::Triple => Stat::P3b,
            Expect::HomeRun => Stat::Phr,
            Expect::Walk => Stat::Pbb,
            Expect::HitByPitch => Stat::Phbp,
            Expect::Strikeout => Stat::Pso,
            Expect::Out => Stat::Po,
            Expect::Error => Stat::Po,
        }
    }

    /// Bases the batter takes: one to four for a hit, one for a walk, a hit
    /// batter or an error, none for an out.
    pub open spec fn bases(self) -> int {
        match self {
            Expect::Single | Expect::Walk | Expect::HitByPitch | Expect::Error => 1,
            Expect::Double => 2,
            Expect::Triple => 3,
            Expect::HomeRun => 4,
            Expect::Strikeout | Expect::Out => 0,
        }
    }

    /// Whether the outcome is a hit.
    pub open spec fn hit(self) -> bool {
        matches!(self, Expect::Single | Expect::Double | Expect::Triple | Expect::HomeRun)
    }

    /// The event entered in the batter's line.
    pub fn to_batting_stat(&self) -> (s: Stat)
        ensures
            s == self.batting_stat(),
    {
        match self {
            Expect::Single => Stat::B1b,
            Expect::Double => Stat::B2b,
            Expect::Triple => Stat::B3b,
            Expect::HomeRun => Stat::Bhr,
            Expect::Walk => Stat::Bbb,
            Expect::HitByPitch => Stat::Bhbp,
            Expect::Strikeout => Stat::Bso,
            Expect::Out => Stat::Bo,
            Expect::Error => Stat::Bo,
        }
    }

    /// The event entered in the pitcher's line.
    pub fn to_pitching_stat(&self) -> (s: Option<Stat>)
        ensures
            s == Some(self.pitching_stat()),
    {
        Some(
            match self {
                Expect::Single => Stat::P1b,
                Expect::Double => Stat::P2b,
                Expect::Triple => Stat::P3b,
                Expect::HomeRun => Stat::Phr,
                Expect::Walk => Stat::Pbb,
                Expect::HitByPitch => Stat::Phbp,
                Expect::Strikeout => Stat::Pso,
                Expect::Out => Stat::Po,
                Expect::Error => Stat::Po,
            },
        )
    }
}

/// Weights over the positions a batted ball can go to.
pub type Spray = Vec<(Position, u32)>;

/// For each kind of outcome that has one, the spray of the batted ball.
pub struct SprayChart {
    pub single: Option<Spray>,
    pub double: Option<Spray>,
    pub triple: Option<Spray>,
    pub homerun: Option<Spray>,
    pub out: Option<Spray>,
}

/// A spray as a value, if there is one.
pub open spec fn spray_view(spray: Option<Spray>) -> Option<Seq<(Position, u32)>> {
    match spray {
        Some(s) => Some(s@),
        None => None,
    }
}

impl SprayChart {
    /// The spray kept for `expect`, if any. Only balls put in play for a hit
    /// or an out have one.
    pub open spec fn lookup(self, expect: Expect) -> Option<Seq<(Position, u32)>> {
        match expect {
            Expect::Single => spray_view(self.single),
            Expect::Double => spray_view(self.double),
            Expect::Triple => spray_view(self.triple),
            Expect::HomeRun => spray_view(self.homerun),
            Expect::Out => spray_view(self.out),
            _ => None,
        }
    }

    /// The spray used when a batter with chart `self` faces a pitcher with
    /// chart `pit`: the pitcher's where he has one, else the batter's.
    pub open spec fn merged(self, pit: SprayChart, expect: Expect) -> Option<Seq<(Position, u32)>> {
        match pit.lookup(expect) {
            Some(s) => Some(s),
            None => self.lookup(expect),
        }
    }

    /// Whether the weights of every spray can be added up in `u32`.
    pub open spec fn drawable(self) -> bool {
        forall|e: Expect|
            (#[trigger] self.lookup(e)) matches Some(s) ==> total_weight(s) <= u32::MAX
    }

    /// A chart with no spray at all.
    pub fn new() -> (c: Self)
        ensures
            c.drawable(),
            forall|e: Expect| c.lookup(e) is None,
    {
        SprayChart { single: None, double: None, triple: None, homerun: None, out: None }
    }

    /// Tells whether the weights of every spray can be added up.
    pub fn is_drawable(&self) -> (b: bool)
        ensures
            b == self.drawable(),
    {
        let b = Self::spray_fits(&self.single) && Self::spray_fits(&self.double) && Self::spray_fits(
            &self.triple,
        ) && Self::spray_fits(&self.homerun) && Self::spray_fits(&self.out);
        proof {
            if b {
                assert forall|e: Expect|
                    ((#[trigger] self.lookup(e)) matches Some(s) ==> total_weight(s) <= u32::MAX) by {}
            } else {
                assert(self.lookup(Expect::Single) == spray_view(self.single));
                assert(self.lookup(Expect::Double) == spray_view(self.double));
                assert(self.lookup(Expect::Triple) == spray_view(self.triple));
                assert(self.lookup(Expect::HomeRun) == spray_view(self.homerun));
                assert(self.lookup(Expect::Out) == spray_view(self.out));
            }
        }
        b
    }

    /// Tells whether the weights of a spray, if there is one, can be added
    /// up.
    fn spray_fits(spray: &Option<Spray>) -> (b: bool)
        ensures
            b == (spray_view(*spray) matches Some(s) ==> total_weight(s) <= u32::MAX),
    {
        match spray {
            Some(s) => can_draw(s),
            None => true,
        }
    }

    /// The spray kept for `expect`, if any.
    pub fn get(&self, expect: Expect) -> (s: Option<&Spray>)
        ensures
            match s {
                Some(spray) => self.lookup(expect) == Some(spray@) && (self.drawable()
                    ==> total_weight(spray@) <= u32::MAX),
                None => self.lookup(expect) is None,
            },
    {
        let kept = match expect {
            Expect::Single => &self.single,
            Expect::Double => &self.double,
            Expect::Triple => &self.triple,
            Expect::HomeRun => &self.homerun,
            Expect::Out => &self.out,
            _ => {
                return None;
            },
        };
        match kept {
            Some(s) => {
                assert(self.lookup(expect) == Some(s@));
                Some(s)
            },
            None => None,
        }
    }
}

/// A player, without the rates his plate appearances are drawn from.
pub struct Player {
    pub active: bool,
    pub name_first: &'static str,
    pub name_last: &'static str,
    pub birthplace: String,
    pub born: u32,
    pub pos: Position,
    pub bats: Handedness,
    pub throws: Handedness,
    pub bat_spray: SprayChart,
    pub pit_spray: SprayChart,
    pub stat_stream: Vec<Stat>,
    pub historical: Vec<HistoricalStats>,
    pub fatigue: u16,
}

impl Player {
    /// Whether everything but the recorded events and the fatigue is as in
    /// `other`.
    pub open spec fn same_person(self, other: Player) -> bool {
        &&& self.active == other.active
        &&& self.name_first == other.name_first
        &&& self.name_last == other.name_last
        &&& self.birthplace == other.birthplace
        &&& self.born == other.born
        &&& self.pos == other.pos
        &&& self.bats == other.bats
        &&& self.throws == other.throws
        &&& self.bat_spray == other.bat_spray
        &&& self.pit_spray == other.pit_spray
        &&& self.historical == other.historical
    }

    /// Whether everything but being active is as in `other`.
    pub open spec fn same_but_active(self, other: Player) -> bool {
        &&& self.name_first == other.name_first
        &&& self.name_last == other.name_last
        &&& self.birthplace == other.birthplace
        &&& self.born == other.born
        &&& self.pos == other.pos
        &&& self.bats == other.bats
        &&& self.throws == other.throws
        &&& self.bat_spray == other.bat_spray
        &&& self.pit_spray == other.pit_spray
        &&& self.historical == other.historical
        &&& self.stat_stream == other.stat_stream
        &&& self.fatigue == other.fatigue
    }

    /// Whether `self` is `before` with the season filed: the totals the
    /// events compile to are kept under the year, league and team, and the
    /// events are gone.
    pub open spec fn filed(self, before: Player, year: u32, league: u32, team_id: TeamId) -> bool {
        &&& self.historical@ == before.historical@.push(
            HistoricalStats {
                year,
                league,
                team: team_id,
                stats: Stats::compiled(before.stat_stream@),
            },
        )
        &&& self.stat_stream@.len() == 0
        &&& self.fatigue == before.fatigue
        &&& self.active == before.active
        &&& self.name_first == before.name_first
        &&& self.name_last == before.name_last
        &&& self.birthplace == before.birthplace
        &&& self.born == before.born
        &&& self.pos == before.pos
        &&& self.bats == before.bats
        &&& self.throws == before.throws
        &&& self.bat_spray == before.bat_spray
        &&& self.pit_spray == before.pit_spray
    }

    /// Whether the season so far can be compiled into totals.
    pub open spec fn compilable(self) -> bool {
        &&& self.stat_stream@.len() <= u32::MAX
        &&& Stats::of_stream(self.stat_stream@).calculable()
    }

    /// Where the ball goes for `expect` between a batter and a pitcher with
    /// the given charts: drawn from the merged spray by weight, and center
    /// field when there is no spray for the outcome or nothing in it has
    /// weight.
    pub fn determine_spray(
        bat: &SprayChart,
        pit: &SprayChart,
        expect: &Expect,
        rng: &mut ThreadRng,
    ) -> (target: Position)
        requires
            bat.drawable(),
            pit.drawable(),
        ensures
            Self::sprayed(bat.merged(*pit, *expect), target),
    {
        let spray = match pit.get(*expect) {
            Some(s) => Some(s),
            None => bat.get(*expect),
        };
        match spray {
            Some(s) => Self::spray_target(pick_weighted(rng, s)),
            None => Position::CenterField,
        }
    }

    /// Whether `target` can come out of a draw from `spray`.
    pub open spec fn sprayed(spray: Option<Seq<(Position, u32)>>, target: Position) -> bool {
        match spray {
            Some(s) => if total_weight(s) == 0 {
                target == Position::CenterField
            } else {
                exists|i: int| 0 <= i < s.len() && #[trigger] s[i].0 == target && s[i].1 > 0
            },
            None => target == Position::CenterField,
        }
    }

    /// The position drawn, or center field when the draw gave none.
    pub fn spray_target(drawn: Option<Position>) -> (target: Position)
        ensures
            target == match drawn {
                Some(p) => p,
                None => Position::CenterField,
            },
    {
        match drawn {
            Some(p) => p,
            None => Position::CenterField,
        }
    }

    /// Forgets the season's events.
    pub fn reset_stats(&mut self)
        ensures
            final(self).stat_stream@.len() == 0,
            final(self).same_person(*old(self)),
            final(self).fatigue == old(self).fatigue,
    {
        self.stat_stream.clear();
    }

    /// Enters one event.
    pub fn record_stat(&mut self, stat: Stat)
        ensures
            final(self).stat_stream@ == old(self).stat_stream@.push(stat),
            final(self).same_person(*old(self)),
            final(self).fatigue == old(self).fatigue,
    {
        self.stat_stream.push(stat);
    }

    /// Files the season's totals under the year, league and team, and starts
    /// a new season.
    pub fn record_stat_history(&mut self, year: u32, league: u32, team_id: TeamId)
        requires
            old(self).compilable(),
        ensures
            final(self).filed(*old(self), year, league, team_id),
    {
        let stats = Stats::compile_stats(self.stat_stream.as_slice());
        self.historical.push(HistoricalStats { year, league, team: team_id, stats });
        self.stat_stream.clear();
    }

    /// Tells whether the season so far can be compiled into totals.
    pub fn can_compile(&self) -> (b: bool)
        ensures
            b == self.compilable(),
    {
        Stats::can_compile(self.stat_stream.as_slice())
    }

    /// The season's totals so far.
    pub fn get_stats(&self) -> (stats: Stats)
        requires
            self.compilable(),
        ensures
            stats.records(self.stat_stream@),
            stats.calculated(),
            stats == Stats::compiled(self.stat_stream@),
    {
        Stats::compile_stats(self.stat_stream.as_slice())
    }

    /// The age in the given year.
    pub fn age(&self, year: u32) -> (a: u32)
        requires
            self.born <= year,
        ensures
            a == year - self.born,
    {
        year - self.born
    }

    /// The fatigue at which a starter is certain to be rested: it falls with
    /// the square of the years left to fifty, and stops falling at 49.
    pub open spec fn threshold(self, year: u32) -> int {
        let age = year - self.born;
        let left = 50 - if age < 49 {
            age
        } else {
            49
        };
        (left * 2) * (left * 2)
    }

    /// The fatigue at which a starter is certain to be rested.
    pub fn fatigue_threshold(&self, year: u32) -> (t: u64)
        requires
            self.born <= year,
        ensures
            t == self.threshold(year),
            4 <= t <= 10000,
    {
        let age = self.age(year);
        let capped: u64 = if age < 49 {
            age as u64
        } else {
            49
        };
        let age_factor: u64 = (50u64 - capped) * 2;
        assert(4 <= age_factor * age_factor <= 10000) by (nonlinear_arith)
            requires
                2 <= age_factor <= 100,
        ;
        age_factor * age_factor
    }

    /// The chance of retiring, as a ratio: nothing up to 30, certain from 45,
    /// and in between the square of the years past 30 over the square of 15.
    pub open spec fn retire_odds(self, year: u32) -> (int, int) {
        let age = year - self.born;
        let past = if age < 30 {
            0
        } else if age > 45 {
            15
        } else {
            age - 30
        };
        (past * past, 225)
    }

    /// Draws whether the player retires this year.
    pub fn should_retire(&self, year: u32, rng: &mut ThreadRng) -> (gone: bool)
        requires
            self.born <= year,
        ensures
            self.retire_odds(year).0 == 0 ==> !gone,
            self.retire_odds(year).0 == 225 ==> gone,
    {
        let age = self.age(year);
        let age_factor: u32 = if age < 30 {
            0
        } else if age > 45 {
            15
        } else {
            age - 30
        };
        assert(age_factor * age_factor <= 225) by (nonlinear_arith)
            requires
                0 <= age_factor <= 15,
        ;
        draw_ratio(rng, age_factor * age_factor, 225)
    }

    /// Which of a batter's two sets of rates applies against a pitcher who
    /// throws from the given side: the first against left-handers, else the
    /// second.
    pub fn bat_expect_vs(throws: Handedness) -> (side: usize)
        ensures
            side == if throws == Handedness::Left {
                0usize
            } else {
                1usize
            },
    {
        if throws == Handedness::Left {
            0
        } else {
            1
        }
    }

    /// Which of a pitcher's two sets of rates applies against a batter who
    /// bats from the given side.
    pub fn pit_expect_vs(bats: Handedness) -> (side: usize)
        ensures
            side == if bats == Handedness::Left {
                0usize
            } else {
                1usize
            },
    {
        if bats == Handedness::Left {
            0
        } else {
            1
        }
    }
}

/// A position with the range its raw weight is drawn from: at least the
/// first number, less than the second.
pub type Range = (Position, u32, u32);

/// The ranges for a single: seldom to the pitcher, the catcher or first base,
/// more often to the rest of the infield, mostly to the outfield.
pub open spec fn single_ranges() -> Seq<Range> {
    seq![
        (Position::StartingPitcher, 0u32, 3u32),
        (Position::Catcher, 0u32, 3u32),
        (Position::FirstBase, 0u32, 3u32),
        (Position::SecondBase, 10u32, 20u32),
        (Position::ThirdBase, 10u32, 20u32),
        (Position::ShortStop, 10u32, 20u32),
        (Position::LeftField, 100u32, 200u32),
        (Position::CenterField, 100u32, 200u32),
        (Position::RightField, 100u32, 200u32),
    ]
}

/// The ranges for an extra-base hit: always to the outfield.
pub open spec fn outfield_ranges() -> Seq<Range> {
    seq![
        (Position::LeftField, 100u32, 200u32),
        (Position::CenterField, 100u32, 200u32),
        (Position::RightField, 100u32, 200u32),
    ]
}

/// The raw weights of an out: the same for every player.
pub open spec fn out_weights() -> Seq<(Position, u32)> {
    seq![
        (Position::StartingPitcher, 5u32),
        (Position::Catcher, 5u32),
        (Position::FirstBase, 10u32),
        (Position::SecondBase, 10u32),
        (Position::ThirdBase, 10u32),
        (Position::ShortStop, 10u32),
        (Position::LeftField, 10u32),
        (Position::CenterField, 10u32),
        (Position::RightField, 10u32),
    ]
}

/// Whether raw weights are for the positions of `ranges`, in order, each
/// within its range.
pub open spec fn within(raw: Seq<(Position, u32)>, ranges: Seq<Range>) -> bool {
    &&& raw.len() == ranges.len()
    &&& forall|i: int|
        0 <= i < raw.len() ==> (#[trigger] raw[i]).0 == ranges[i].0 && ranges[i].1 <= raw[i].1
            < ranges[i].2
}

/// The weights scaled so that they add up to a thousand, or a little less
/// for the rounding down.
pub open spec fn normalized(raw: Seq<(Position, u32)>) -> Seq<(Position, u32)> {
    Seq::new(raw.len(), |i: int| (raw[i].0, (raw[i].1 * 1000 / (total_weight(raw) as int)) as u32))
}

/// Whether `spray` is what some draw within `ranges` scales to.
pub open spec fn sprayed_within(spray: Option<Seq<(Position, u32)>>, ranges: Seq<Range>) -> bool {
    exists|raw: Seq<(Position, u32)>| within(raw, ranges) && spray == Some(#[trigger] normalized(raw))
}

/// Scaled weights add up to no more than a thousand.
pub proof fn lemma_normalized_total(raw: Seq<(Position, u32)>, i: int)
    requires
        0 < total_weight(raw),
        total_weight(raw) * 1000 <= u32::MAX,
        0 <= i <= raw.len(),
    ensures
        total_weight(normalized(raw).take(i)) * total_weight(raw) <= 1000 * total_weight(raw.take(i)),
        total_weight(normalized(raw).take(i)) <= 1000,
    decreases i,
{
    let sum = total_weight(raw) as int;
    let total = total_weight(normalized(raw).take(i)) as int;
    let part = total_weight(raw.take(i)) as int;
    if i == 0 {
        assert(normalized(raw).take(0) =~= Seq::empty());
        assert(raw.take(0) =~= Seq::empty());
        assert(total * sum <= 1000 * part) by (nonlinear_arith)
            requires
                total == 0,
                part == 0,
        ;
    } else {
        lemma_normalized_total(raw, i - 1);
        lemma_total_weight_step(raw, i - 1);
        lemma_total_weight_step(normalized(raw), i - 1);
        lemma_total_weight_bounds(raw, i - 1);
        let w = raw[i - 1].1 as int;
        let q = w * 1000 / sum;
        assert(q * sum <= w * 1000 && 0 <= q) by (nonlinear_arith)
            requires
                q == w * 1000 / sum,
                sum > 0,
                w >= 0,
        ;
        assert(q <= u32::MAX) by (nonlinear_arith)
            requires
                q * sum <= w * 1000,
                w * 1000 <= u32::MAX,
                sum >= 1,
                0 <= q,
        ;
        assert(normalized(raw)[i - 1].1 == q);
        let before = total_weight(normalized(raw).take(i - 1)) as int;
        let part_before = total_weight(raw.take(i - 1)) as int;
        assert(total == before + q);
        assert(part == part_before + w);
        assert(total * sum <= 1000 * part) by (nonlinear_arith)
            requires
                total == before + q,
                part == part_before + w,
                before * sum <= 1000 * part_before,
                q * sum <= w * 1000,
        ;
    }
    lemma_total_weight_bounds(raw, i);
    assert(total <= 1000) by (nonlinear_arith)
        requires
            total * sum <= 1000 * part,
            part <= sum,
            sum > 0,
            total >= 0,
    ;
}

impl Player {
    /// Scales the weights of a spray to parts of a thousand.
    pub fn normalize(spray: &mut Spray)
        requires
            0 < total_weight(old(spray)@),
            total_weight(old(spray)@) * 1000 <= u32::MAX,
        ensures
            final(spray)@ == normalized(old(spray)@),
            total_weight(final(spray)@) <= 1000,
    {
        let ghost raw = spray@;
        let mut sum: u32 = 0;
        let mut i: usize = 0;
        assert(raw.take(0) =~= Seq::empty());
        while i < spray.len()
            invariant
                i <= spray.len(),
                spray@ == raw,
                sum == total_weight(raw.take(i as int)),
                total_weight(raw) * 1000 <= u32::MAX,
            decreases spray.len() - i,
        {
            proof {
                lemma_total_weight_step(raw, i as int);
                lemma_total_weight_bounds(raw, i as int);
            }
            sum += spray[i].1;
            i += 1;
        }
        assert(raw.take(raw.len() as int) =~= raw);
        let mut k: usize = 0;
        while k < spray.len()
            invariant
                k <= spray.len(),
                spray@.len() == raw.len(),
                sum == total_weight(raw),
                sum > 0,
                sum * 1000 <= u32::MAX,
                forall|j: int| 0 <= j < k ==> spray@[j] == normalized(raw)[j],
                forall|j: int| k <= j < raw.len() ==> spray@[j] == raw[j],
            decreases spray.len() - k,
        {
            let item = spray[k];
            proof {
                lemma_total_weight_bounds(raw, k as int);
                let w = item.1 as int;
                assert(w * 1000 <= u32::MAX) by (nonlinear_arith)
                    requires
                        w <= sum,
                        sum * 1000 <= u32::MAX,
                ;
                assert(0 <= w * 1000 / (sum as int) <= u32::MAX) by (nonlinear_arith)
                    requires
                        0 <= w * 1000 <= u32::MAX,
                        sum >= 1,
                ;
            }
            spray.set(k, (item.0, (item.1 * 1000) / sum));
            k += 1;
        }
        assert(spray@ =~= normalized(raw));
        proof {
            lemma_normalized_total(raw, raw.len() as int);
            assert(normalized(raw).take(raw.len() as int) =~= normalized(raw));
        }
    }

    /// Draws a raw weight for each position from its range.
    fn draw_spray(rng: &mut ThreadRng, ranges: &Vec<Range>) -> (raw: Spray)
        requires
            forall|i: int| 0 <= i < ranges@.len() ==> (#[trigger] ranges@[i]).1 < ranges@[i].2,
        ensures
            within(raw@, ranges@),
    {
        let mut raw: Spray = Vec::new();
        let mut i: usize = 0;
        while i < ranges.len()
            invariant
                i <= ranges.len(),
                forall|i: int| 0 <= i < ranges@.len() ==> (#[trigger] ranges@[i]).1 < ranges@[i].2,
                within(raw@, ranges@.take(i as int)),
            decreases ranges.len() - i,
        {
            let (pos, low, high) = ranges[i];
            assert(ranges@[i as int].1 < ranges@[i as int].2);
            let weight = draw_range(rng, low, high);
            raw.push((pos, weight));
            i += 1;
        }
        assert(ranges@.take(ranges@.len() as int) =~= ranges@);
        raw
    }

    /// The spray chart of a player who is drawn one: for singles, doubles,
    /// triples and home runs the weights come from draws within the ranges of
    /// the outcome, and for outs they are fixed; each spray is scaled to parts
    /// of a thousand.
    pub open spec fn has_sprays(chart: SprayChart) -> bool {
        &&& chart.drawable()
        &&& sprayed_within(chart.lookup(Expect::Single), single_ranges())
        &&& sprayed_within(chart.lookup(Expect::Double), outfield_ranges())
        &&& sprayed_within(chart.lookup(Expect::Triple), outfield_ranges())
        &&& sprayed_within(chart.lookup(Expect::HomeRun), outfield_ranges())
        &&& chart.lookup(Expect::Out) == Some(normalized(out_weights()))
        &&& chart.lookup(Expect::Walk) is None
        &&& chart.lookup(Expect::HitByPitch) is None
        &&& chart.lookup(Expect::Strikeout) is None
        &&& chart.lookup(Expect::Error) is None
    }

    /// A chart with no spray at all.
    pub open spec fn no_sprays(chart: SprayChart) -> bool {
        chart.drawable() && forall|e: Expect| chart.lookup(e) is None
    }

    /// Draws one spray within the given ranges and scales it.
    fn generate_one(rng: &mut ThreadRng, ranges: &Vec<Range>) -> (spray: Spray)
        requires
            ranges@ == single_ranges() || ranges@ == outfield_ranges(),
        ensures
            sprayed_within(Some(spray@), ranges@),
            total_weight(spray@) <= 1000,
    {
        let mut spray = Self::draw_spray(rng, ranges);
        let ghost raw = spray@;
        proof {
            lemma_weight_of_ranges(raw, ranges@);
        }
        Self::normalize(&mut spray);
        assert(within(raw, ranges@) && Some(spray@) == Some(normalized(raw)));
        spray
    }

    /// Draws a full spray chart.
    fn generate_spray(rng: &mut ThreadRng) -> (chart: SprayChart)
        ensures
            Self::has_sprays(chart),
    {
        let singles: Vec<Range> = vec![
            (Position::StartingPitcher, 0u32, 3u32),
            (Position::Catcher, 0u32, 3u32),
            (Position::FirstBase, 0u32, 3u32),
            (Position::SecondBase, 10u32, 20u32),
            (Position::ThirdBase, 10u32, 20u32),
            (Position::ShortStop, 10u32, 20u32),
            (Position::LeftField, 100u32, 200u32),
            (Position::CenterField, 100u32, 200u32),
            (Position::RightField, 100u32, 200u32),
        ];
        let outfield: Vec<Range> = vec![
            (Position::LeftField, 100u32, 200u32),
            (Position::CenterField, 100u32, 200u32),
            (Position::RightField, 100u32, 200u32),
        ];
        assert(singles@ =~= single_ranges());
        assert(outfield@ =~= outfield_ranges());
        let single = Self::generate_one(rng, &singles);
        let double = Self::generate_one(rng, &outfield);
        let triple = Self::generate_one(rng, &outfield);
        let homerun = Self::generate_one(rng, &outfield);
        let mut out: Spray = vec![
            (Position::StartingPitcher, 5u32),
            (Position::Catcher, 5u32),
            (Position::FirstBase, 10u32),
            (Position::SecondBase, 10u32),
            (Position::ThirdBase, 10u32),
            (Position::ShortStop, 10u32),
            (Position::LeftField, 10u32),
            (Position::CenterField, 10u32),
            (Position::RightField, 10u32),
        ];
        assert(out@ =~= out_weights());
        proof {
            lemma_out_weights();
        }
        Self::normalize(&mut out);

        SprayChart {
            single: Some(single),
            double: Some(double),
            triple: Some(triple),
            homerun: Some(homerun),
            out: Some(out),
        }
    }

    /// The spray chart of a batter: drawn for a player who does not pitch,
    /// empty for a pitcher.
    pub fn generate_bat_spray(rng: &mut ThreadRng, pos: &Position) -> (chart: SprayChart)
        ensures
            if pos.pitcher() {
                Self::no_sprays(chart)
            } else {
                Self::has_sprays(chart)
            },
    {
        if !pos.is_pitcher() {
            Self::generate_spray(rng)
        } else {
            SprayChart::new()
        }
    }

    /// The spray chart of a pitcher: drawn for a pitcher, empty for anyone
    /// else.
    pub fn generate_pit_spray(rng: &mut ThreadRng, pos: &Position) -> (chart: SprayChart)
        ensures
            if pos.pitcher() {
                Self::has_sprays(chart)
            } else {
                Self::no_sprays(chart)
            },
    {
        if pos.is_pitcher() {
            Self::generate_spray(rng)
        } else {
            SprayChart::new()
        }
    }
}

/// The fixed weights of an out add up to eighty.
pub proof fn lemma_out_weights()
    ensures
        total_weight(out_weights()) == 80,
{
    let w = out_weights();
    assert(w.take(0) =~= Seq::empty());
    lemma_total_weight_step(w, 0);
    lemma_total_weight_step(w, 1);
    lemma_total_weight_step(w, 2);
    lemma_total_weight_step(w, 3);
    lemma_total_weight_step(w, 4);
    lemma_total_weight_step(w, 5);
    lemma_total_weight_step(w, 6);
    lemma_total_weight_step(w, 7);
    lemma_total_weight_step(w, 8);
    assert(w.take(9) =~= w);
}

/// Raw weights within the ranges of a single or of an extra-base hit add up
/// to something positive that can be scaled.
pub proof fn lemma_weight_of_ranges(raw: Seq<(Position, u32)>, ranges: Seq<Range>)
    requires
        within(raw, ranges),
        ranges == single_ranges() || ranges == outfield_ranges(),
    ensures
        0 < total_weight(raw),
        total_weight(raw) * 1000 <= u32::MAX,
{
    assert(raw.take(0) =~= Seq::empty());
    if ranges == outfield_ranges() {
        assert(raw.len() == 3);
        lemma_total_weight_step(raw, 0);
        lemma_total_weight_step(raw, 1);
        lemma_total_weight_step(raw, 2);
        assert(raw.take(3) =~= raw);
    } else {
        assert(raw.len() == 9);
        lemma_total_weight_step(raw, 0);
        lemma_total_weight_step(raw, 1);
        lemma_total_weight_step(raw, 2);
        lemma_total_weight_step(raw, 3);
        lemma_total_weight_step(raw, 4);
        lemma_total_weight_step(raw, 5);
        lemma_total_weight_step(raw, 6);
        lemma_total_weight_step(raw, 7);
        lemma_total_weight_step(raw, 8);
        assert(raw.take(9) =~= raw);
    }
}

/// The weights the batting side is drawn with: right, left, both.
pub open spec fn batting_sides() -> Seq<(Handedness, u32)> {
    seq![(Handedness::Right, 54u32), (Handedness::Left, 33u32), (Handedness::Switch, 13u32)]
}

/// The weights the throwing side is drawn with: right, left.
pub open spec fn throwing_sides() -> Seq<(Handedness, u32)> {
    seq![(Handedness::Right, 67u32), (Handedness::Left, 33u32)]
}

/// The positions a new player is drawn from; one that a roster carries more
/// of is listed more often.
pub open spec fn drawn_positions() -> Seq<Position> {
    seq![
        Position::StartingPitcher,
        Position::StartingPitcher,
        Position::StartingPitcher,
        Position::LongRelief,
        Position::LongRelief,
        Position::ShortRelief,
        Position::ShortRelief,
        Position::Setup,
        Position::Closer,
        Position::Catcher,
        Position::FirstBase,
        Position::SecondBase,
        Position::ThirdBase,
        Position::ShortStop,
        Position::LeftField,
        Position::CenterField,
        Position::RightField,
        Position::DesignatedHitter,
    ]
}

/// The highest key of a map of players; zero for an empty one.
pub open spec fn highest_id(players: Map<PlayerId, Player>) -> PlayerId {
    if exists|id: PlayerId| players.contains_key(id) {
        choose|id: PlayerId|
            players.contains_key(id) && forall|other: PlayerId| #[trigger]
                players.contains_key(other) ==> other <= id
    } else {
        0
    }
}

impl Player {
    /// A player as he is made: active, rested, with nothing recorded.
    pub open spec fn rookie(self, pos: Position, born: int) -> bool {
        &&& self.active
        &&& self.born == born
        &&& self.pos == pos
        &&& self.throws != Handedness::Switch
        &&& self.fatigue == 0
        &&& self.stat_stream@.len() == 0
        &&& self.historical@.len() == 0
        &&& self.bat_spray.drawable()
        &&& self.pit_spray.drawable()
        &&& if pos.pitcher() {
            Self::no_sprays(self.bat_spray) && Self::has_sprays(self.pit_spray)
        } else {
            Self::has_sprays(self.bat_spray) && Self::no_sprays(self.pit_spray)
        }
    }

    /// Whether the player comes from one of the places of `data`, with names
    /// drawn from those of its country.
    pub open spec fn hails_from(self, data: Data) -> bool {
        exists|i: int|
            {
                let loc = #[trigger] data.loc@[i];
                &&& 0 <= i < data.loc@.len()
                &&& self.birthplace@ == loc.city@ + ", "@ + loc.state@ + ", "@ + loc.country@
                &&& crate::data::name_drawn(
                    crate::data::names_of(data.names_first@, loc.country@),
                    self.name_first,
                )
                &&& crate::data::name_drawn(
                    crate::data::names_of(data.names_last@, loc.country@),
                    self.name_last,
                )
            }
    }

    /// Makes a player of the given age at a position: where he comes from, his
    /// names, the sides he bats and throws from and his spray charts are
    /// drawn.
    pub fn new(data: &Data, pos: &Position, year: u32, age: u32, rng: &mut ThreadRng) -> (p: Self)
        requires
            data.can_locate(),
            data.can_name(),
            age <= year,
        ensures
            p.rookie(*pos, year - age),
            p.hails_from(*data),
    {
        let loc_data = data.choose_location(rng);
        let name_first = data.choose_name_first(loc_data.country, rng);
        let name_last = data.choose_name_last(loc_data.country, rng);

        let batting_hand: Vec<(Handedness, u32)> = vec![
            (Handedness::Right, 54u32),
            (Handedness::Left, 33u32),
            (Handedness::Switch, 13u32),
        ];
        let pitching_hand: Vec<(Handedness, u32)> = vec![
            (Handedness::Right, 67u32),
            (Handedness::Left, 33u32),
        ];
        proof {
            assert(batting_hand@ =~= batting_sides());
            assert(pitching_hand@ =~= throwing_sides());
            lemma_sides();
        }
        let bats = match pick_weighted(rng, &batting_hand) {
            Some(h) => h,
            None => Handedness::Right,
        };
        let throws = match pick_weighted(rng, &pitching_hand) {
            Some(h) => h,
            None => Handedness::Right,
        };
        let bat_spray = Self::generate_bat_spray(rng, pos);
        let pit_spray = Self::generate_pit_spray(rng, pos);

        let mut birthplace = String::from_str(loc_data.city);
        birthplace.append(", ");
        birthplace.append(loc_data.state);
        birthplace.append(", ");
        birthplace.append(loc_data.country);

        Self {
            active: true,
            name_first,
            name_last,
            birthplace,
            born: year - age,
            pos: *pos,
            bats,
            throws,
            bat_spray,
            pit_spray,
            stat_stream: Vec::new(),
            historical: Vec::new(),
            fatigue: 0,
        }
    }

    /// First and last name.
    pub fn fullname(&self) -> (s: String)
        ensures
            s@ == self.name_first@ + " "@ + self.name_last@,
    {
        let mut s = String::from_str(self.name_first);
        s.append(" ");
        s.append(self.name_last);
        s
    }

    /// The initial of the first name and the last name.
    pub fn fname(&self) -> (s: String)
        requires
            self.name_first@.len() > 0,
        ensures
            s@ == self.name_first@.subrange(0, 1) + ". "@ + self.name_last@,
    {
        let mut s = String::from_str(self.name_first.substring_char(0, 1));
        s.append(". ");
        s.append(self.name_last);
        s
    }
}

/// The sides add up to a hundred each, and no throwing side is both.
pub proof fn lemma_sides()
    ensures
        total_weight(batting_sides()) == 100,
        total_weight(throwing_sides()) == 100,
{
    let b = batting_sides();
    assert(b.take(0) =~= Seq::empty());
    lemma_total_weight_step(b, 0);
    lemma_total_weight_step(b, 1);
    lemma_total_weight_step(b, 2);
    assert(b.take(3) =~= b);
    let t = throwing_sides();
    assert(t.take(0) =~= Seq::empty());
    lemma_total_weight_step(t, 0);
    lemma_total_weight_step(t, 1);
    assert(t.take(2) =~= t);
}

/// The keys of a map of players, each once.
pub fn player_ids(players: &PlayerMap) -> (ids: Vec<PlayerId>)
    ensures
        ids@.no_duplicates(),
        forall|id: PlayerId| ids@.contains(id) <==> players@.contains_key(id),
{
    let mut ids: Vec<PlayerId> = Vec::new();
    let ghost all = spec_keys_iter(players).remaining();
    for k in it: players.keys()
        invariant
            it.seq() == all,
            ids@.len() == it.index(),
            forall|j: int| 0 <= j < ids@.len() ==> ids@[j] == *all[j],
    {
        ids.push(*k);
    }
    proof {
        vstd::std_specs::hash::axiom_spec_keys_iter(players);
        assert(ids@ =~= all.unref());
        assert forall|a: int, b: int| 0 <= a < ids@.len() && 0 <= b < ids@.len() && a
            != b implies ids@[a] != ids@[b] by {
            assert(all[a] != all[b]);
        }
        assert forall|id: PlayerId| ids@.contains(id) <==> players@.contains_key(id) by {
            assert(ids@.to_set().contains(id) <==> ids@.contains(id));
        }
    }
    ids
}

/// The players who are active.
pub fn collect_all_active(players: &PlayerMap) -> (active: Vec<PlayerId>)
    ensures
        active@.no_duplicates(),
        forall|id: PlayerId|
            active@.contains(id) <==> players@.contains_key(id) && players@[id].active,
{
    let ids = player_ids(players);
    let mut active: Vec<PlayerId> = Vec::new();
    let mut i: usize = 0;
    while i < ids.len()
        invariant
            i <= ids.len(),
            ids@.no_duplicates(),
            forall|id: PlayerId| ids@.contains(id) <==> players@.contains_key(id),
            active@.no_duplicates(),
            forall|id: PlayerId|
                #[trigger] active@.contains(id) <==> ids@.take(i as int).contains(id)
                    && players@.contains_key(id) && players@[id].active,
        decreases ids.len() - i,
    {
        let id = ids[i];
        let ghost before = active@;
        let ghost seen = ids@.take(i as int);
        assert(ids@.contains(id));
        let keep = match players.get(&id) {
            Some(p) => p.active,
            None => false,
        };
        if keep {
            active.push(id);
        }
        proof {
            let next = ids@.take(i + 1);
            assert(next =~= seen.push(id));
            assert(!seen.contains(id)) by {
                if seen.contains(id) {
                    let k = choose|k: int| 0 <= k < seen.len() && seen[k] == id;
                    assert(ids@[k] == ids@[i as int]);
                }
            }
            assert forall|other: PlayerId| #[trigger]
                active@.contains(other) <==> next.contains(other) && players@.contains_key(other)
                    && players@[other].active by {
                if active@.contains(other) {
                    let k = choose|k: int| 0 <= k < active@.len() && active@[k] == other;
                    if k < before.len() {
                        assert(before.contains(other));
                        let j = choose|j: int| 0 <= j < seen.len() && seen[j] == other;
                        assert(next[j] == other);
                    } else {
                        assert(next[i as int] == other);
                    }
                }
                if next.contains(other) && players@.contains_key(other) && players@[other].active {
                    let j = choose|j: int| 0 <= j < next.len() && next[j] == other;
                    if j < seen.len() {
                        assert(seen[j] == other);
                        assert(before.contains(other));
                        let k = choose|k: int| 0 <= k < before.len() && before[k] == other;
                        assert(active@[k] == other);
                    } else {
                        assert(active@[active@.len() - 1] == other);
                    }
                }
            }
            if keep {
                assert forall|a: int, b: int| 0 <= a < active@.len() && 0 <= b < active@.len() && a
                    != b implies active@[a] != active@[b] by {
                    if a < before.len() && b < before.len() {
                    } else if a < before.len() {
                        assert(before.contains(before[a]));
                    } else {
                        assert(before.contains(before[b]));
                    }
                }
            }
        }
        i += 1;
    }
    assert(ids@.take(ids@.len() as int) =~= ids@);
    assert forall|id: PlayerId|
        active@.contains(id) <==> players@.contains_key(id) && players@[id].active by {
        assert(active@.contains(id) <==> ids@.contains(id) && players@.contains_key(id)
            && players@[id].active);
    }
    active
}

/// Takes the fatigue off every player.
pub fn rest_all(players: &mut PlayerMap)
    ensures
        final(players)@.dom() == old(players)@.dom(),
        forall|id: PlayerId| #[trigger]
            old(players)@.contains_key(id) ==> {
                &&& final(players)@[id].fatigue == 0
                &&& final(players)@[id].same_person(old(players)@[id])
                &&& final(players)@[id].stat_stream == old(players)@[id].stat_stream
            },
{
    let ids = player_ids(players);
    let mut i: usize = 0;
    while i < ids.len()
        invariant
            i <= ids.len(),
            forall|id: PlayerId| ids@.contains(id) <==> old(players)@.contains_key(id),
            players@.dom() == old(players)@.dom(),
            forall|id: PlayerId| #[trigger]
                old(players)@.contains_key(id) ==> {
                    &&& players@[id].same_person(old(players)@[id])
                    &&& players@[id].stat_stream == old(players)@[id].stat_stream
                    &&& if ids@.take(i as int).contains(id) {
                        players@[id].fatigue == 0
                    } else {
                        players@[id].fatigue == old(players)@[id].fatigue
                    }
                },
        decreases ids.len() - i,
    {
        let id = ids[i];
        assert(ids@.contains(id));
        match players.remove(&id) {
            Some(mut p) => {
                p.fatigue = 0;
                players.insert(id, p);
            },
            None => {},
        }
        proof {
            assert(players@.dom() =~= old(players)@.dom());
            let seen = ids@.take(i as int);
            let next = ids@.take(i + 1);
            assert(next =~= seen.push(id));
            assert forall|other: PlayerId| next.contains(other) <==> (seen.contains(other) || other
                == id) by {
                if next.contains(other) {
                    let k = choose|k: int| 0 <= k < next.len() && next[k] == other;
                    if k < seen.len() {
                        assert(seen[k] == other);
                    }
                }
                if seen.contains(other) {
                    let k = choose|k: int| 0 <= k < seen.len() && seen[k] == other;
                    assert(next[k] == other);
                }
                if other == id {
                    assert(next[i as int] == other);
                }
            }
        }
        i += 1;
    }
    assert(ids@.take(ids@.len() as int) =~= ids@);
}

/// Draws for every active player whether he retires this year, and gives the
/// number who do. A player for whom the chance is nothing stays, and one for
/// whom it is certain goes; nobody comes back.
pub fn retire_players(players: &mut PlayerMap, year: u32, rng: &mut ThreadRng) -> (retired: usize)
    requires
        forall|id: PlayerId| #[trigger]
            old(players)@.contains_key(id) && old(players)@[id].active ==> old(players)@[id].born
                <= year,
    ensures
        final(players)@.dom() == old(players)@.dom(),
        forall|id: PlayerId| #[trigger]
            old(players)@.contains_key(id) ==> {
                let before = old(players)@[id];
                let after = final(players)@[id];
                &&& after.same_but_active(before)
                &&& !before.active ==> !after.active
                &&& before.active && before.retire_odds(year).0 == 0 ==> after.active
                &&& before.active && before.retire_odds(year).0 == 225 ==> !after.active
            },
        retired == gone(old(players)@, final(players)@).len(),
        gone(old(players)@, final(players)@).finite(),
{
    let ids = player_ids(players);
    let mut retired: usize = 0;
    let mut i: usize = 0;
    let ghost mut left: Set<PlayerId> = Set::empty();
    proof {
        assert forall|k: int| 0 <= k < ids@.len() implies players@.contains_key(
            #[trigger] ids@[k],
        ) by {
            assert(ids@.contains(ids@[k]));
        }
    }
    while i < ids.len()
        invariant
            i <= ids.len(),
            retired <= i,
            forall|id: PlayerId| ids@.contains(id) <==> old(players)@.contains_key(id),
            ids@.no_duplicates(),
            players@.dom() == old(players)@.dom(),
            forall|id: PlayerId| #[trigger]
                old(players)@.contains_key(id) && old(players)@[id].active ==> old(players)@[id].born
                    <= year,
            forall|k: int|
                i <= k < ids@.len() ==> players@.contains_key(#[trigger] ids@[k]) && players@[ids@[k]]
                    == old(players)@[ids@[k]],
            forall|k: int|
                0 <= k < i ==> {
                    let before = old(players)@[#[trigger] ids@[k]];
                    let after = players@[ids@[k]];
                    &&& after.same_but_active(before)
                    &&& !before.active ==> !after.active
                    &&& before.active && before.retire_odds(year).0 == 0 ==> after.active
                    &&& before.active && before.retire_odds(year).0 == 225 ==> !after.active
                },
            left.finite(),
            left.len() == retired,
            forall|id: PlayerId|
                left.contains(id) <==> exists|k: int|
                    0 <= k < i && #[trigger] ids@[k] == id && old(players)@[id].active
                        && !players@[id].active,
        decreases ids.len() - i,
    {
        let id = ids[i];
        assert(ids@.contains(id));
        assert(players@.contains_key(ids@[i as int]) && players@[ids@[i as int]] == old(
            players,
        )@[ids@[i as int]]);
        let ghost prev = players@;
        let ghost before_left = left;
        let mut went = false;
        match players.remove(&id) {
            Some(mut p) => {
                if p.active && p.should_retire(year, rng) {
                    p.active = false;
                    retired += 1;
                    went = true;
                }
                players.insert(id, p);
            },
            None => {},
        }
        proof {
            assert(players@.dom() =~= old(players)@.dom());
            assert forall|k: int| i + 1 <= k < ids@.len() implies players@.contains_key(
                #[trigger] ids@[k],
            ) && players@[ids@[k]] == old(players)@[ids@[k]] by {
                assert(ids@[k] != ids@[i as int]);
            }
            assert forall|k: int| 0 <= k < i + 1 implies {
                let before = old(players)@[#[trigger] ids@[k]];
                let after = players@[ids@[k]];
                &&& after.same_but_active(before)
                &&& !before.active ==> !after.active
                &&& before.active && before.retire_odds(year).0 == 0 ==> after.active
                &&& before.active && before.retire_odds(year).0 == 225 ==> !after.active
            } by {
                if k < i {
                    assert(ids@[k] != ids@[i as int]);
                    assert(players@[ids@[k]] == prev[ids@[k]]);
                }
            }
            assert(!before_left.contains(id)) by {
                if before_left.contains(id) {
                    let k = choose|k: int|
                        0 <= k < i && #[trigger] ids@[k] == id && old(players)@[id].active
                            && !prev[id].active;
                    assert(ids@[k] == ids@[i as int]);
                }
            }
            if went {
                left = before_left.insert(id);
            }
            assert forall|other: PlayerId|
                left.contains(other) <==> exists|k: int|
                    0 <= k < i + 1 && #[trigger] ids@[k] == other && old(players)@[other].active
                        && !players@[other].active by {
                if left.contains(other) {
                    if other == id {
                        assert(ids@[i as int] == other);
                    } else {
                        let k = choose|k: int|
                            0 <= k < i && #[trigger] ids@[k] == other && old(players)@[other].active
                                && !prev[other].active;
                        assert(ids@[k] == other);
                        assert(players@[other] == prev[other]);
                    }
                }
                if exists|k: int|
                    0 <= k < i + 1 && #[trigger] ids@[k] == other && old(players)@[other].active
                        && !players@[other].active {
                    let k = choose|k: int|
                        0 <= k < i + 1 && #[trigger] ids@[k] == other && old(players)@[other].active
                            && !players@[other].active;
                    if k < i {
                        assert(ids@[k] != ids@[i as int]);
                        assert(players@[other] == prev[other]);
                        assert(ids@[k] == other);
                        assert(before_left.contains(other));
                    }
                }
            }
        }
        i += 1;
    }
    proof {
        assert forall|id: PlayerId| #[trigger] old(players)@.contains_key(id) implies {
            let before = old(players)@[id];
            let after = players@[id];
            &&& after.same_but_active(before)
            &&& !before.active ==> !after.active
            &&& before.active && before.retire_odds(year).0 == 0 ==> after.active
            &&& before.active && before.retire_odds(year).0 == 225 ==> !after.active
        } by {
            assert(ids@.contains(id));
            let k = choose|k: int| 0 <= k < ids@.len() && ids@[k] == id;
            assert(ids@[k] == id);
        }
        assert(left =~= gone(old(players)@, players@)) by {
            assert forall|id: PlayerId| left.contains(id) <==> gone(
                old(players)@,
                players@,
            ).contains(id) by {
                if left.contains(id) {
                    let k = choose|k: int|
                        0 <= k < ids@.len() && #[trigger] ids@[k] == id && old(players)@[id].active
                            && !players@[id].active;
                    assert(ids@.contains(id));
                }
                if gone(old(players)@, players@).contains(id) {
                    assert(ids@.contains(id));
                    let k = choose|k: int| 0 <= k < ids@.len() && ids@[k] == id;
                    assert(ids@[k] == id);
                }
            }
        }
    }
    retired
}

/// The players who were active before and are not any more.
pub open spec fn gone(before: Map<PlayerId, Player>, after: Map<PlayerId, Player>) -> Set<PlayerId> {
    Set::new(
        |id: PlayerId|
            before.contains_key(id) && after.contains_key(id) && before[id].active
                && !after[id].active,
    )
}

/// Makes a new player for each of the given ages, at a drawn position, and
/// gives the first of their keys: they get the keys that follow the highest
/// one in use.
pub fn generate_players(
    players: &mut PlayerMap,
    ages: &Vec<u32>,
    year: u32,
    data: &Data,
    rng: &mut ThreadRng,
) -> (first: PlayerId)
    requires
        data.can_locate(),
        data.can_name(),
        forall|k: int| 0 <= k < ages@.len() ==> #[trigger] ages@[k] <= year,
        highest_id(old(players)@) + ages@.len() < u64::MAX,
    ensures
        first == highest_id(old(players)@) + 1,
        forall|id: PlayerId|
            final(players)@.contains_key(id) <==> old(players)@.contains_key(id) || first <= id
                < first + ages@.len(),
        forall|id: PlayerId| #[trigger]
            old(players)@.contains_key(id) ==> final(players)@[id] == old(players)@[id],
        forall|k: int|
            0 <= k < ages@.len() ==> {
                let p = #[trigger] final(players)@[(first + k) as u64];
                &&& p.rookie(p.pos, year - ages@[k])
                &&& drawn_positions().contains(p.pos)
                &&& p.hails_from(*data)
            },
{
    let pos_gen: Vec<Position> = vec![
        Position::StartingPitcher,
        Position::StartingPitcher,
        Position::StartingPitcher,
        Position::LongRelief,
        Position::LongRelief,
        Position::ShortRelief,
        Position::ShortRelief,
        Position::Setup,
        Position::Closer,
        Position::Catcher,
        Position::FirstBase,
        Position::SecondBase,
        Position::ThirdBase,
        Position::ShortStop,
        Position::LeftField,
        Position::CenterField,
        Position::RightField,
        Position::DesignatedHitter,
    ];
    assert(pos_gen@ =~= drawn_positions());
    let highest = highest_key(players);
    let first: PlayerId = highest + 1;
    let mut player_id: PlayerId = first;
    let mut k: usize = 0;
    while k < ages.len()
        invariant
            k <= ages.len(),
            pos_gen@ == drawn_positions(),
            data.can_locate(),
            data.can_name(),
            forall|k: int| 0 <= k < ages@.len() ==> #[trigger] ages@[k] <= year,
            first == highest_id(old(players)@) + 1,
            first + ages@.len() <= u64::MAX,
            player_id == first + k,
            forall|id: PlayerId| #[trigger]
                old(players)@.contains_key(id) ==> id < first,
            forall|id: PlayerId|
                players@.contains_key(id) <==> old(players)@.contains_key(id) || first <= id
                    < first + k,
            forall|id: PlayerId| #[trigger]
                old(players)@.contains_key(id) ==> players@[id] == old(players)@[id],
            forall|j: int|
                0 <= j < k ==> {
                    let p = #[trigger] players@[(first + j) as u64];
                    &&& p.rookie(p.pos, year - ages@[j])
                    &&& drawn_positions().contains(p.pos)
                    &&& p.hails_from(*data)
                },
        decreases ages.len() - k,
    {
        let pos = match pick_one(rng, &pos_gen) {
            Some(p) => p,
            None => Position::StartingPitcher,
        };
        assert(ages@[k as int] <= year);
        let player = Player::new(data, &pos, year, ages[k], rng);
        players.insert(player_id, player);
        player_id += 1;
        k += 1;
    }
    first
}

/// The highest key in use; zero when there is none.
fn highest_key(players: &PlayerMap) -> (highest: PlayerId)
    ensures
        highest == highest_id(players@),
        forall|id: PlayerId| #[trigger] players@.contains_key(id) ==> id <= highest,
{
    let ids = player_ids(players);
    let mut highest: PlayerId = 0;
    let mut i: usize = 0;
    while i < ids.len()
        invariant
            i <= ids.len(),
            forall|k: int| 0 <= k < i ==> ids@[k] <= highest,
            highest == 0 || exists|k: int| 0 <= k < i && ids@[k] == highest,
        decreases ids.len() - i,
    {
        if ids[i] > highest {
            highest = ids[i];
        }
        i += 1;
    }
    proof {
        assert forall|id: PlayerId| #[trigger] players@.contains_key(id) implies id <= highest by {
            assert(ids@.contains(id));
            let k = choose|k: int| 0 <= k < ids@.len() && ids@[k] == id;
            assert(ids@[k] <= highest);
        }
        if exists|id: PlayerId| players@.contains_key(id) {
            let found = highest_id(players@);
            if highest == 0 {
                assert(players@.contains_key(found));
                assert(found <= 0);
            } else {
                let k = choose|k: int| 0 <= k < ids@.len() && ids@[k] == highest;
                assert(ids@.contains(highest));
                assert(players@.contains_key(highest));
            }
            assert(players@.contains_key(found) && forall|other: PlayerId| #[trigger]
                players@.contains_key(other) ==> other <= found) by {
                let witness = if highest == 0 {
                    found
                } else {
                    highest
                };
                assert(players@.contains_key(witness) && forall|other: PlayerId| #[trigger]
                    players@.contains_key(other) ==> other <= witness);
            }
        } else {
            assert(highest == 0) by {
                if highest != 0 {
                    let k = choose|k: int| 0 <= k < ids@.len() && ids@[k] == highest;
                    assert(ids@.contains(highest));
                }
            }
        }
    }
    highest
}

} // verus!
