//! One game: two scoreboards, the inning state machine, pitching changes and
//! the credit given to pitchers when the game is over.

use crate::chance::{draw_ratio, pick_one, pick_weighted, total_weight};
use crate::player::{Expect, Handedness, Player, PlayerId, PlayerMap, Position};
use crate::stat::{on_base_rate, Stat};
use crate::results::Results;
use crate::team::{Team, TeamId, TeamMap};
use rand::rngs::ThreadRng;
use vstd::prelude::*;

verus! {

broadcast use vstd::std_specs::hash::group_hash_axioms;

/// A runner on base, with the pitcher who put him there and whether his run
/// would be earned.
#[derive(Copy, Clone, Debug, PartialEq, Eq, Structural)]
pub struct RunnerInfo {
    pub runner: PlayerId,
    pub pitcher: PlayerId,
    pub earned: bool,
}

/// A slot of the batting order: who bats there and where he fields.
#[derive(Copy, Clone, Debug, PartialEq, Eq, Structural)]
pub struct DefenseInfo {
    pub player: PlayerId,
    pub pos: Position,
}

impl Default for DefenseInfo {
    fn default() -> (d: Self)
        ensures
            d == (DefenseInfo { player: 0, pos: Position::StartingPitcher }),
    {
        DefenseInfo { player: 0, pos: Position::StartingPitcher }
    }
}

/// One pitcher's stint: the outs he recorded and his team's lead when he came
/// in and when he left.
#[derive(Copy, Clone, Debug, PartialEq, Eq, Structural)]
pub struct PitcherRecord {
    pub pitcher: PlayerId,
    pub outs: u8,
    pub run_diff_in: i8,
    pub run_diff_out: i8,
}

/// The bases as a value: the batter's box at 0, first to third at 1 to 3, and
/// the runners who have crossed the plate since runs were last recorded.
pub struct Bases {
    pub onbase: Seq<Option<RunnerInfo>>,
    pub runs_in: Seq<RunnerInfo>,
}

impl Bases {
    /// The first empty base at or after `start`; 4 when there is none.
    pub open spec fn gap(self, start: int) -> int
        decreases 4 - start,
    {
        if start >= 4 || self.onbase[start] is None {
            start
        } else {
            self.gap(start + 1)
        }
    }

    /// The gap lies between `start` and 4, every base before it from `start`
    /// on is taken, and it is empty unless it is 4.
    pub proof fn lemma_gap(self, start: int)
        requires
            0 <= start <= 4,
            self.onbase.len() == 4,
        ensures
            start <= self.gap(start) <= 4,
            forall|j: int| start <= j < self.gap(start) ==> self.onbase[j] is Some,
            self.gap(start) < 4 ==> self.onbase[self.gap(start)] is None,
        decreases 4 - start,
    {
        if start < 4 && self.onbase[start] is Some {
            self.lemma_gap(start + 1);
        }
    }

    /// The bases after the runner on `start`, if there is one, moves up one
    /// base: he pushes the unbroken line of runners ahead of him, each by one
    /// base, and a runner pushed off third has scored.
    pub open spec fn advance(self, start: int) -> Bases {
        if start < 0 || start > 3 || self.onbase[start] is None {
            self
        } else {
            let g = self.gap(start);
            Bases {
                onbase: Seq::new(
                    4,
                    |j: int|
                        if j == start {
                            None
                        } else if start < j <= g {
                            self.onbase[j - 1]
                        } else {
                            self.onbase[j]
                        },
                ),
                runs_in: if g == 4 {
                    self.runs_in.push(self.onbase[3]->0)
                } else {
                    self.runs_in
                },
            }
        }
    }

    /// The bases after advancing from base `from`, then `from + 1`, and so on
    /// up to but not including `upto`.
    pub open spec fn advance_through(self, from: int, upto: int) -> Bases
        decreases upto - from,
    {
        if from >= upto {
            self
        } else {
            self.advance(from).advance_through(from + 1, upto)
        }
    }

    /// The bases with `runner` put in the batter's box.
    pub open spec fn with_batter(self, runner: RunnerInfo) -> Bases {
        Bases { onbase: self.onbase.update(0, Some(runner)), runs_in: self.runs_in }
    }

    /// The bases with base `i` emptied.
    pub open spec fn without(self, i: int) -> Bases {
        Bases { onbase: self.onbase.update(i, None), runs_in: self.runs_in }
    }
}

/// One team's side of a game.
pub struct Scoreboard {
    pub id: TeamId,
    pub r: u8,
    pub h: u8,
    pub e: u8,
    pub onbase: [Option<RunnerInfo>; 4],
    pub runs_in: Vec<RunnerInfo>,
    pub bo: [DefenseInfo; 9],
    pub ab: usize,
    pub pitcher: PlayerId,
    pub pitches: u32,
    pub pitcher_outs: u8,
    pub pitcher_run_diff_in: i8,
    pub pitcher_record: Vec<PitcherRecord>,
}

/// The first slot at or after `from` whose fielder plays `pos`; the length of
/// the order when there is none.
pub open spec fn slot_of(bo: Seq<DefenseInfo>, pos: Position, from: int) -> int
    decreases bo.len() - from,
{
    if from >= bo.len() || (from >= 0 && bo[from].pos == pos) {
        from
    } else {
        slot_of(bo, pos, from + 1)
    }
}

impl Scoreboard {
    /// The bases of this side, as a value.
    pub open spec fn bases(self) -> Bases {
        Bases { onbase: self.onbase@, runs_in: self.runs_in@ }
    }

    /// Whether everything but the bases and the runners who scored is as in
    /// `other`.
    pub open spec fn same_but_bases(self, other: Scoreboard) -> bool {
        &&& self.id == other.id
        &&& self.r == other.r
        &&& self.h == other.h
        &&& self.e == other.e
        &&& self.bo == other.bo
        &&& self.ab == other.ab
        &&& self.same_pitching(other)
    }

    /// Whether the pitcher, his workload and the finished stints are as in
    /// `other`.
    pub open spec fn same_pitching(self, other: Scoreboard) -> bool {
        &&& self.pitcher == other.pitcher
        &&& self.pitches == other.pitches
        &&& self.pitcher_outs == other.pitcher_outs
        &&& self.pitcher_run_diff_in == other.pitcher_run_diff_in
        &&& self.pitcher_record@ == other.pitcher_record@
    }

    /// A side that has not played yet.
    pub open spec fn fresh(self, id: TeamId) -> bool {
        &&& self.id == id
        &&& self.r == 0
        &&& self.h == 0
        &&& self.e == 0
        &&& self.onbase@ == Seq::new(4, |i: int| None::<RunnerInfo>)
        &&& self.runs_in@.len() == 0
        &&& self.bo@ == Seq::new(
            9,
            |i: int| DefenseInfo { player: 0, pos: Position::StartingPitcher },
        )
        &&& self.ab == 0
        &&& self.pitcher == 0
        &&& self.pitches == 0
        &&& self.pitcher_outs == 0
        &&& self.pitcher_run_diff_in == 0
        &&& self.pitcher_record@.len() == 0
    }

    /// A side that has not played yet.
    pub fn new(id: TeamId) -> (s: Self)
        ensures
            s.fresh(id),
    {
        let empty = DefenseInfo { player: 0, pos: Position::StartingPitcher };
        let s = Scoreboard {
            id,
            r: 0,
            h: 0,
            e: 0,
            onbase: [None, None, None, None],
            runs_in: Vec::new(),
            bo: [empty, empty, empty, empty, empty, empty, empty, empty, empty],
            ab: 0,
            pitcher: 0,
            pitches: 0,
            pitcher_outs: 0,
            pitcher_run_diff_in: 0,
            pitcher_record: Vec::new(),
        };
        assert(s.onbase@ =~= Seq::new(4, |i: int| None::<RunnerInfo>));
        assert(s.bo@ =~= Seq::new(
            9,
            |i: int| DefenseInfo { player: 0, pos: Position::StartingPitcher },
        ));
        s
    }

    /// Moves the runner on base `start` up one base, pushing those directly
    /// ahead of him; does nothing when the base is empty or there is no such
    /// base.
    pub fn advance_onbase(&mut self, start: usize)
        ensures
            final(self).bases() == old(self).bases().advance(start as int),
            final(self).same_but_bases(*old(self)),
        decreases 4 - start,
    {
        if start > 3 || self.onbase[start].is_none() {
            return ;
        }
        if start == 3 {
            let scored = self.onbase[3].unwrap();
            self.runs_in.push(scored);
        } else {
            self.advance_onbase(start + 1);
            self.onbase[start + 1] = self.onbase[start];
        }
        self.onbase[start] = None;
        proof {
            let before = old(self).bases();
            assert(before.gap(4) == 4);
            assert(before.gap(start as int) == before.gap(start + 1));
            before.lemma_gap(start + 1);
            assert(self.bases().onbase =~= before.advance(start as int).onbase);
        }
    }

    /// Puts the batter in the box and moves him up `amt` bases, one at a time.
    pub fn advance_batter(&mut self, batter: PlayerId, pitcher: PlayerId, earned: bool, amt: usize)
        ensures
            final(self).bases() == old(self).bases().with_batter(
                RunnerInfo { runner: batter, pitcher, earned },
            ).advance_through(0, amt as int),
            final(self).same_but_bases(*old(self)),
    {
        self.onbase[0] = Some(RunnerInfo { runner: batter, pitcher, earned });
        let ghost start = self.bases();
        let mut idx: usize = 0;
        while idx < amt
            invariant
                idx <= amt,
                self.same_but_bases(*old(self)),
                self.bases().advance_through(idx as int, amt as int) == start.advance_through(
                    0,
                    amt as int,
                ),
            decreases amt - idx,
        {
            self.advance_onbase(idx);
            idx += 1;
        }
    }

    /// The player who fields `pos`: the pitcher for any pitching role, else
    /// the first in the batting order at that position.
    pub fn player_at_pos(&self, pos: Position) -> (id: PlayerId)
        requires
            pos.pitcher() || slot_of(self.bo@, pos, 0) < 9,
        ensures
            id == if pos.pitcher() {
                self.pitcher
            } else {
                self.bo@[slot_of(self.bo@, pos, 0)].player
            },
    {
        if pos.is_pitcher() {
            return self.pitcher;
        }
        let mut i: usize = 0;
        while i < 9
            invariant
                i <= 9,
                !pos.pitcher(),
                slot_of(self.bo@, pos, 0) == slot_of(self.bo@, pos, i as int),
                slot_of(self.bo@, pos, 0) < 9,
            decreases 9 - i,
        {
            assert(slot_of(self.bo@, pos, i as int) == if self.bo@[i as int].pos == pos {
                i as int
            } else {
                slot_of(self.bo@, pos, i + 1)
            });
            if self.bo[i].pos == pos {
                return self.bo[i].player;
            }
            i += 1;
        }
        self.pitcher
    }

    /// Adds the runners who scored to the run total.
    pub fn record_runs(&mut self)
        requires
            old(self).r + old(self).runs_in@.len() <= u8::MAX,
        ensures
            final(self).r == old(self).r + old(self).runs_in@.len(),
            final(self).runs_in@.len() == 0,
            final(self).onbase == old(self).onbase,
            final(self).id == old(self).id,
            final(self).h == old(self).h,
            final(self).e == old(self).e,
            final(self).bo == old(self).bo,
            final(self).ab == old(self).ab,
            final(self).same_pitching(*old(self)),
    {
        self.r += self.runs_in.len() as u8;
        self.runs_in.clear();
    }

    /// The stint of the current pitcher as it stands, with the opponent at
    /// `other_r` runs.
    pub open spec fn stint(self, other_r: i8) -> PitcherRecord {
        PitcherRecord {
            pitcher: self.pitcher,
            outs: self.pitcher_outs,
            run_diff_in: self.pitcher_run_diff_in,
            run_diff_out: (self.r - other_r) as i8,
        }
    }

    /// Files the current pitcher's stint.
    pub fn record_pitcher(&mut self, other_r: i8)
        requires
            old(self).r <= i8::MAX,
            i8::MIN <= old(self).r - other_r <= i8::MAX,
        ensures
            final(self).pitcher_record@ == old(self).pitcher_record@.push(
                old(self).stint(other_r),
            ),
            final(self).id == old(self).id,
            final(self).r == old(self).r,
            final(self).h == old(self).h,
            final(self).e == old(self).e,
            final(self).onbase == old(self).onbase,
            final(self).runs_in == old(self).runs_in,
            final(self).bo == old(self).bo,
            final(self).ab == old(self).ab,
            final(self).pitcher == old(self).pitcher,
            final(self).pitches == old(self).pitches,
            final(self).pitcher_outs == old(self).pitcher_outs,
            final(self).pitcher_run_diff_in == old(self).pitcher_run_diff_in,
    {
        self.pitcher_record.push(
            PitcherRecord {
                pitcher: self.pitcher,
                outs: self.pitcher_outs,
                run_diff_in: self.pitcher_run_diff_in,
                run_diff_out: self.r as i8 - other_r,
            },
        );
    }
}

/// The four stages of an inning. `Middle` and `End` are the moments between
/// halves, when the sides change.
#[derive(Copy, Clone, Debug, PartialEq, Eq, Structural)]
pub enum InningHalf {
    Top,
    Middle,
    Bottom,
    End,
}

impl Default for InningHalf {
    fn default() -> (h: Self)
        ensures
            h == InningHalf::Top,
    {
        Self::Top
    }
}

/// An inning and the stage it is in.
#[derive(Copy, Clone, Debug, PartialEq, Eq, Structural)]
pub struct Inning {
    pub number: u8,
    pub half: InningHalf,
}

impl Default for Inning {
    fn default() -> (i: Self)
        ensures
            i == (Inning { number: 0, half: InningHalf::Top }),
    {
        Inning { number: 0, half: InningHalf::Top }
    }
}

impl Inning {
    /// Whether the visiting team bats, or has just batted.
    pub open spec fn away_bats(self) -> bool {
        self.half == InningHalf::Top || self.half == InningHalf::Middle
    }

    /// Whether a plate appearance can be played: the game is in a half, not
    /// between two.
    pub open spec fn live(self) -> bool {
        self.half == InningHalf::Top || self.half == InningHalf::Bottom
    }
}

/// Where a game stands: the inning, the outs made in the current half, and the
/// outs there would have been without fielding errors.
#[derive(Copy, Clone, Debug, PartialEq, Eq, Structural)]
pub struct Frame {
    pub inning: Inning,
    pub outs: u8,
    pub virtual_outs: u8,
}

impl Frame {
    /// A half ends on exactly three outs, the game is between halves exactly
    /// when three are made, and errors only ever add to the virtual outs.
    pub open spec fn wf(self) -> bool {
        &&& self.outs <= 3
        &&& self.outs <= self.virtual_outs
        &&& self.inning.live() <==> self.outs < 3
    }

    /// Whether runs scored now are earned.
    pub open spec fn earned(self) -> bool {
        self.virtual_outs < 3
    }

    /// The frame after `made` more outs, plus a virtual one for an error.
    pub open spec fn charged(self, made: int, error: bool) -> Frame {
        let outs = self.outs + made;
        Frame {
            inning: Inning {
                number: self.inning.number,
                half: if outs >= 3 {
                    match self.inning.half {
                        InningHalf::Top => InningHalf::Middle,
                        InningHalf::Bottom => InningHalf::End,
                        h => h,
                    }
                } else {
                    self.inning.half
                },
            },
            outs: outs as u8,
            virtual_outs: (self.virtual_outs + made + if error {
                1int
            } else {
                0int
            }) as u8,
        }
    }

    /// The frame after the sides have changed.
    pub open spec fn turned(self) -> Frame {
        Frame {
            inning: match self.inning.half {
                InningHalf::Middle => Inning {
                    number: self.inning.number,
                    half: InningHalf::Bottom,
                },
                InningHalf::End => Inning {
                    number: (self.inning.number + 1) as u8,
                    half: InningHalf::Top,
                },
                _ => self.inning,
            },
            outs: 0,
            virtual_outs: 0,
        }
    }

    /// The top of the first, nobody out.
    pub fn new() -> (f: Self)
        ensures
            f == (Frame {
                inning: Inning { number: 1, half: InningHalf::Top },
                outs: 0,
                virtual_outs: 0,
            }),
            f.wf(),
    {
        Frame { inning: Inning { number: 1, half: InningHalf::Top }, outs: 0, virtual_outs: 0 }
    }

    /// Charges the outs of one plate appearance and ends the half on the
    /// third.
    pub fn charge(&mut self, made: u8, error: bool)
        requires
            old(self).wf(),
            old(self).inning.live(),
            old(self).outs + made <= 3,
            old(self).virtual_outs + made + 1 <= u8::MAX,
        ensures
            *final(self) == old(self).charged(made as int, error),
            final(self).wf(),
    {
        self.outs += made;
        self.virtual_outs += made;
        if error {
            self.virtual_outs += 1;
        }
        if self.outs >= 3 {
            if self.inning.half == InningHalf::Top {
                self.inning.half = InningHalf::Middle;
            } else if self.inning.half == InningHalf::Bottom {
                self.inning.half = InningHalf::End;
            }
        }
    }
}

/// One line of the play-by-play: a player, what is entered for him, and for a
/// ball in play the position it went to.
#[derive(Copy, Clone, Debug, PartialEq, Eq, Structural)]
pub struct GameLogEvent {
    pub player: PlayerId,
    pub event: Stat,
    pub target: Option<Position>,
}

/// A play-by-play.
pub type GameLog = Vec<GameLogEvent>;

/// A line without a target.
pub open spec fn entry(player: PlayerId, event: Stat) -> GameLogEvent {
    GameLogEvent { player, event, target: None }
}

/// For each runner who scored, in order: his run, then the run charged to the
/// pitcher who put him on base, earned or not.
pub open spec fn run_entries(runs: Seq<RunnerInfo>) -> Seq<GameLogEvent>
    decreases runs.len(),
{
    if runs.len() == 0 {
        Seq::empty()
    } else {
        run_entries(runs.drop_last()).push(entry(runs.last().runner, Stat::Br)).push(
            entry(
                runs.last().pitcher,
                if runs.last().earned {
                    Stat::Per
                } else {
                    Stat::Pr
                },
            ),
        )
    }
}

/// `n` runs batted in for `batter`.
pub open spec fn rbi_entries(batter: PlayerId, n: nat) -> Seq<GameLogEvent> {
    Seq::new(n, |i: int| entry(batter, Stat::Brbi))
}

/// What the fielder is charged or credited with: an error, a putout, or
/// nothing when the ball was not fielded for an out.
pub open spec fn fielding_entries(result: Expect, fielder: PlayerId) -> Seq<GameLogEvent> {
    match result {
        Expect::Error => seq![entry(fielder, Stat::Fe)],
        Expect::Out => seq![entry(fielder, Stat::Fpo)],
        _ => Seq::empty(),
    }
}

/// The position noted with the batter's line: where the ball went, when it
/// was put in play.
pub open spec fn noted_target(result: Expect, target: Position) -> Option<Position> {
    match result {
        Expect::Walk | Expect::HitByPitch | Expect::Strikeout => None,
        _ => Some(target),
    }
}

/// Everything one plate appearance adds to the play-by-play: the fielder's
/// line, the batter's line, a run batted in for each runner who scored unless
/// he scored on an error, the pitcher's line, and the runs.
pub open spec fn plate_entries(
    result: Expect,
    target: Position,
    batter: PlayerId,
    pitcher: PlayerId,
    fielder: PlayerId,
    runs: Seq<RunnerInfo>,
) -> Seq<GameLogEvent> {
    fielding_entries(result, fielder).push(
        GameLogEvent {
            player: batter,
            event: result.batting_stat(),
            target: noted_target(result, target),
        },
    ) + (if result != Expect::Error {
        rbi_entries(batter, runs.len())
    } else {
        Seq::empty()
    }).push(entry(pitcher, result.pitching_stat())) + run_entries(runs)
}

/// The bases after a plate appearance, before the runs are recorded. A hit,
/// a walk, a hit batter or an error puts the batter on and moves him up, and
/// on a single to right field the runners on third and second move first.
/// With fewer than two out, an out to the outfield moves the runner on third,
/// one to the catcher or the pitcher moves the runner on first when third is
/// empty, and any other takes the runner on second off the bases.
pub open spec fn bases_after(
    bases: Bases,
    result: Expect,
    target: Position,
    outs: int,
    runner: RunnerInfo,
) -> Bases {
    match result {
        Expect::Single => (if target == Position::RightField {
            bases.advance(3).advance(2)
        } else {
            bases
        }).with_batter(runner).advance_through(0, 1),
        Expect::Double => bases.with_batter(runner).advance_through(0, 2),
        Expect::Triple => bases.with_batter(runner).advance_through(0, 3),
        Expect::HomeRun => bases.with_batter(runner).advance_through(0, 4),
        Expect::Walk | Expect::HitByPitch => bases.with_batter(runner).advance_through(0, 1),
        Expect::Error => bases.with_batter(
            RunnerInfo { runner: runner.runner, pitcher: runner.pitcher, earned: false },
        ).advance_through(0, 1),
        Expect::Strikeout => bases,
        Expect::Out => if outs < 2 {
            if target.outfield() {
                bases.advance(3)
            } else if target == Position::Catcher || target == Position::StartingPitcher {
                if bases.onbase[3] is None {
                    bases.advance(1)
                } else {
                    bases
                }
            } else if bases.onbase[2] is Some {
                bases.without(2)
            } else {
                bases
            }
        } else {
            bases
        },
    }
}

/// The outs a plate appearance makes: one for a strikeout or an out, two when
/// the out also takes the runner on second, none otherwise.
pub open spec fn outs_made(bases: Bases, result: Expect, target: Position, outs: int) -> int {
    match result {
        Expect::Strikeout => 1,
        Expect::Out => if outs < 2 && !target.outfield() && target != Position::Catcher && target
            != Position::StartingPitcher && bases.onbase[2] is Some {
            2
        } else {
            1
        },
        _ => 0,
    }
}

/// The pitches charged for a plate appearance: the number thrown, but at
/// least three for a strikeout and four for a walk.
pub open spec fn pitches_charged(result: Expect, pitches: u32) -> u32 {
    match result {
        Expect::Walk => if pitches < 4 {
            4
        } else {
            pitches
        },
        Expect::Strikeout => if pitches < 3 {
            3
        } else {
            pitches
        },
        _ => pitches,
    }
}

/// Advancing a runner keeps four bases and scores at most one run.
pub proof fn lemma_advance_scores(bases: Bases, start: int)
    requires
        bases.onbase.len() == 4,
    ensures
        bases.advance(start).onbase.len() == 4,
        bases.runs_in.len() <= bases.advance(start).runs_in.len() <= bases.runs_in.len() + 1,
{
}

/// Moving the batter up `upto - from` bases scores at most that many runs.
pub proof fn lemma_advance_through_scores(bases: Bases, from: int, upto: int)
    requires
        bases.onbase.len() == 4,
        from <= upto,
    ensures
        bases.advance_through(from, upto).onbase.len() == 4,
        bases.runs_in.len() <= bases.advance_through(from, upto).runs_in.len() <= bases.runs_in.len()
            + (upto - from),
    decreases upto - from,
{
    if from < upto {
        lemma_advance_scores(bases, from);
        lemma_advance_through_scores(bases.advance(from), from + 1, upto);
    }
}

/// A plate appearance keeps four bases and scores at most four runs.
pub proof fn lemma_bases_after_scores(
    bases: Bases,
    result: Expect,
    target: Position,
    outs: int,
    runner: RunnerInfo,
)
    requires
        bases.onbase.len() == 4,
    ensures
        bases_after(bases, result, target, outs, runner).onbase.len() == 4,
        bases.runs_in.len() <= bases_after(bases, result, target, outs, runner).runs_in.len()
            <= bases.runs_in.len() + 4,
{
    lemma_advance_scores(bases, 3);
    lemma_advance_scores(bases.advance(3), 2);
    lemma_advance_scores(bases, 1);
    let moved = if result == Expect::Single && target == Position::RightField {
        bases.advance(3).advance(2)
    } else {
        bases
    };
    let put = moved.with_batter(
        if result == Expect::Error {
            RunnerInfo { runner: runner.runner, pitcher: runner.pitcher, earned: false }
        } else {
            runner
        },
    );
    lemma_advance_through_scores(put, 0, result.bases());
}

impl Scoreboard {
    /// Runs the bases for one plate appearance and counts the hit or the
    /// error; gives the number of outs made.
    pub fn run_result(
        &mut self,
        result: Expect,
        target: Position,
        runner: RunnerInfo,
        outs: u8,
    ) -> (made: u8)
        requires
            old(self).h < u8::MAX,
            old(self).e < u8::MAX,
        ensures
            final(self).bases() == bases_after(
                old(self).bases(),
                result,
                target,
                outs as int,
                runner,
            ),
            made == outs_made(old(self).bases(), result, target, outs as int),
            final(self).h == old(self).h + if result.hit() {
                1int
            } else {
                0int
            },
            final(self).e == old(self).e + if result == Expect::Error {
                1int
            } else {
                0int
            },
            final(self).id == old(self).id,
            final(self).r == old(self).r,
            final(self).bo == old(self).bo,
            final(self).ab == old(self).ab,
            final(self).same_pitching(*old(self)),
    {
        match result {
            Expect::Single => {
                if target == Position::RightField {
                    self.advance_onbase(3);
                    self.advance_onbase(2);
                }
                self.h += 1;
                self.advance_batter(runner.runner, runner.pitcher, runner.earned, 1);
                0
            },
            Expect::Double => {
                self.h += 1;
                self.advance_batter(runner.runner, runner.pitcher, runner.earned, 2);
                0
            },
            Expect::Triple => {
                self.h += 1;
                self.advance_batter(runner.runner, runner.pitcher, runner.earned, 3);
                0
            },
            Expect::HomeRun => {
                self.h += 1;
                self.advance_batter(runner.runner, runner.pitcher, runner.earned, 4);
                0
            },
            Expect::Walk => {
                self.advance_batter(runner.runner, runner.pitcher, runner.earned, 1);
                0
            },
            Expect::HitByPitch => {
                self.advance_batter(runner.runner, runner.pitcher, runner.earned, 1);
                0
            },
            Expect::Error => {
                self.e += 1;
                self.advance_batter(runner.runner, runner.pitcher, false, 1);
                0
            },
            Expect::Strikeout => 1,
            Expect::Out => {
                let mut add_outs: u8 = 1;
                if outs < 2 {
                    match target {
                        Position::LeftField | Position::CenterField | Position::RightField => {
                            self.advance_onbase(3);
                        },
                        Position::Catcher | Position::StartingPitcher => {
                            if self.onbase[3].is_none() {
                                self.advance_onbase(1);
                            }
                        },
                        _ => {
                            if self.onbase[2].is_some() {
                                self.onbase[2] = None;
                                add_outs += 1;
                            }
                        },
                    }
                }
                add_outs
            },
        }
    }
}

/// One scheduled game.
pub struct Game {
    pub home: Scoreboard,
    pub away: Scoreboard,
    pub playbyplay: GameLog,
}

/// What one plate appearance does to the side at bat: the bases are run, the
/// runs recorded, the hit or error counted and the next batter is up.
pub open spec fn batted(
    before: Scoreboard,
    after: Scoreboard,
    frame: Frame,
    pitcher: PlayerId,
    result: Expect,
    target: Position,
) -> bool {
    let runner = RunnerInfo {
        runner: before.bo@[before.ab as int].player,
        pitcher,
        earned: frame.earned(),
    };
    let ran = bases_after(before.bases(), result, target, frame.outs as int, runner);
    &&& after.onbase@ == ran.onbase
    &&& after.runs_in@.len() == 0
    &&& after.r == before.r + ran.runs_in.len()
    &&& after.h == before.h + if result.hit() {
        1int
    } else {
        0int
    }
    &&& after.e == before.e + if result == Expect::Error {
        1int
    } else {
        0int
    }
    &&& after.ab == (before.ab + 1) % 9
    &&& after.id == before.id
    &&& after.bo == before.bo
    &&& after.same_pitching(before)
}

/// What one plate appearance does to the side in the field: the pitcher is
/// charged with the pitches and credited with the outs.
pub open spec fn pitched(
    before: Scoreboard,
    after: Scoreboard,
    batting: Scoreboard,
    frame: Frame,
    result: Expect,
    target: Position,
    pitches: u32,
) -> bool {
    &&& after.pitches == before.pitches + pitches_charged(result, pitches)
    &&& after.pitcher_outs == before.pitcher_outs + outs_made(
        batting.bases(),
        result,
        target,
        frame.outs as int,
    )
    &&& after.pitcher == before.pitcher
    &&& after.pitcher_run_diff_in == before.pitcher_run_diff_in
    &&& after.pitcher_record@ == before.pitcher_record@
    &&& after.bases() == before.bases()
    &&& after.same_but_bases(
        Scoreboard { pitches: after.pitches, pitcher_outs: after.pitcher_outs, ..before },
    )
}

/// The lines one plate appearance writes, given the two sides before it.
pub open spec fn written(
    batting: Scoreboard,
    pitching: Scoreboard,
    frame: Frame,
    result: Expect,
    target: Position,
    fielder: PlayerId,
) -> Seq<GameLogEvent> {
    let batter = batting.bo@[batting.ab as int].player;
    let runner = RunnerInfo { runner: batter, pitcher: pitching.pitcher, earned: frame.earned() };
    let ran = bases_after(batting.bases(), result, target, frame.outs as int, runner);
    plate_entries(result, target, batter, pitching.pitcher, fielder, ran.runs_in)
}

/// Whether a side has room for one more plate appearance at bat: the next
/// batter exists, no run waits to be recorded, and the counters cannot
/// overflow.
pub open spec fn can_bat(side: Scoreboard) -> bool {
    &&& side.ab < 9
    &&& side.runs_in@.len() == 0
    &&& side.r + 4 <= i8::MAX
    &&& side.h < u8::MAX
    &&& side.e < u8::MAX
}

/// Whether a side has room for one more plate appearance in the field.
pub open spec fn can_pitch(side: Scoreboard, result: Expect, pitches: u32) -> bool {
    &&& side.pitches + pitches_charged(result, pitches) <= u32::MAX
    &&& side.pitcher_outs + 2 <= u8::MAX
}

impl Game {
    /// A game that has not been played yet.
    pub fn new(home: TeamId, away: TeamId) -> (g: Self)
        ensures
            g.home.fresh(home),
            g.away.fresh(away),
            g.playbyplay@.len() == 0,
    {
        Self { home: Scoreboard::new(home), away: Scoreboard::new(away), playbyplay: Vec::new() }
    }

    /// The game is over once nine innings are reached and the home team leads
    /// after the visitors have batted, or the visitors lead at the end of an
    /// inning.
    pub open spec fn complete(self, inning: Inning) -> bool {
        inning.number >= 9 && ((inning.half != InningHalf::Top && self.home.r > self.away.r) || (
        inning.half == InningHalf::End && self.away.r > self.home.r))
    }

    /// Tells whether the game is over.
    pub fn is_complete(&self, inning: &Inning) -> (b: bool)
        ensures
            b == self.complete(*inning),
    {
        inning.number >= 9 && ((inning.half != InningHalf::Top && self.home.r > self.away.r) || (
        inning.half == InningHalf::End && self.away.r > self.home.r))
    }

    /// Tells whether the visitors bat, or have just batted.
    pub fn is_away_ab(&self, inning: &Inning) -> (b: bool)
        ensures
            b == inning.away_bats(),
    {
        inning.half == InningHalf::Top || inning.half == InningHalf::Middle
    }

    /// The side at bat.
    pub open spec fn batting_side(self, inning: Inning) -> Scoreboard {
        if inning.away_bats() {
            self.away
        } else {
            self.home
        }
    }

    /// The side in the field.
    pub open spec fn pitching_side(self, inning: Inning) -> Scoreboard {
        if inning.away_bats() {
            self.home
        } else {
            self.away
        }
    }

    /// Appends one line to a play-by-play.
    pub fn record_stat(
        boxscore: &mut GameLog,
        player: PlayerId,
        event: Stat,
        target: Option<Position>,
    )
        ensures
            final(boxscore)@ == old(boxscore)@.push(GameLogEvent { player, event, target }),
    {
        boxscore.push(GameLogEvent { player, event, target });
    }

    /// The side at bat, to be changed, and the side in the field.
    pub fn batting_pitching(&mut self, inning: &Inning) -> (sides: (&mut Scoreboard, &Scoreboard))
        ensures
            *sides.0 == old(self).batting_side(*inning),
            *sides.1 == old(self).pitching_side(*inning),
            final(self).batting_side(*inning) == *final(sides.0),
            final(self).pitching_side(*inning) == old(self).pitching_side(*inning),
            final(self).playbyplay == old(self).playbyplay,
    {
        if self.is_away_ab(inning) {
            (&mut self.away, &self.home)
        } else {
            (&mut self.home, &self.away)
        }
    }

    /// The side at bat.
    pub fn batting(&mut self, inning: &Inning) -> (side: &mut Scoreboard)
        ensures
            *side == old(self).batting_side(*inning),
            final(self).batting_side(*inning) == *final(side),
            final(self).pitching_side(*inning) == old(self).pitching_side(*inning),
            final(self).playbyplay == old(self).playbyplay,
    {
        if self.is_away_ab(inning) {
            &mut self.away
        } else {
            &mut self.home
        }
    }

    /// The side in the field.
    pub fn pitching(&mut self, inning: &Inning) -> (side: &mut Scoreboard)
        ensures
            *side == old(self).pitching_side(*inning),
            final(self).pitching_side(*inning) == *final(side),
            final(self).batting_side(*inning) == old(self).batting_side(*inning),
            final(self).playbyplay == old(self).playbyplay,
    {
        if self.is_away_ab(inning) {
            &mut self.home
        } else {
            &mut self.away
        }
    }

    /// The most pitches a pitcher in the given role throws before he is due
    /// to be relieved. Other positions have no limit.
    pub open spec fn workload(pos: Position) -> u32 {
        match pos {
            Position::StartingPitcher => 110,
            Position::LongRelief => 50,
            Position::ShortRelief => 25,
            Position::Setup => 25,
            Position::Closer => 25,
            _ => u32::MAX,
        }
    }

    /// The workload of a pitcher in the given role.
    pub fn max_pitches_for_pos(pos: Position) -> (n: u32)
        ensures
            n == Self::workload(pos),
    {
        match pos {
            Position::StartingPitcher => 110,
            Position::LongRelief => 50,
            Position::ShortRelief => 25,
            Position::Setup => 25,
            Position::Closer => 25,
            _ => u32::MAX,
        }
    }

    /// Writes the lines of one plate appearance.
    fn log_result(
        boxscore: &mut GameLog,
        result: Expect,
        target: Position,
        batter: PlayerId,
        pitcher: PlayerId,
        fielder: PlayerId,
        runs: &Vec<RunnerInfo>,
    )
        ensures
            final(boxscore)@ == old(boxscore)@ + plate_entries(
                result,
                target,
                batter,
                pitcher,
                fielder,
                runs@,
            ),
    {
        let ghost start = boxscore@;
        let mut box_target: Option<Position> = None;
        match result {
            Expect::Walk | Expect::HitByPitch | Expect::Strikeout => {},
            Expect::Error => {
                box_target = Some(target);
                Self::record_stat(boxscore, fielder, Stat::Fe, None);
            },
            Expect::Out => {
                box_target = Some(target);
                Self::record_stat(boxscore, fielder, Stat::Fpo, None);
            },
            _ => {
                box_target = Some(target);
            },
        }
        Self::record_stat(boxscore, batter, result.to_batting_stat(), box_target);
        let ghost head = boxscore@;
        assert(head =~= start + fielding_entries(result, fielder).push(
            GameLogEvent {
                player: batter,
                event: result.batting_stat(),
                target: noted_target(result, target),
            },
        ));
        if result != Expect::Error {
            let mut i: usize = 0;
            while i < runs.len()
                invariant
                    i <= runs.len(),
                    boxscore@ =~= head + rbi_entries(batter, i as nat),
                decreases runs.len() - i,
            {
                Self::record_stat(boxscore, batter, Stat::Brbi, None);
                i += 1;
            }
        }
        if let Some(pitching_stat) = result.to_pitching_stat() {
            Self::record_stat(boxscore, pitcher, pitching_stat, None);
        }
        let ghost middle = boxscore@;
        assert(middle =~= head + (if result != Expect::Error {
            rbi_entries(batter, runs@.len())
        } else {
            Seq::empty()
        }).push(entry(pitcher, result.pitching_stat())));
        let mut i: usize = 0;
        assert(runs@.take(0) =~= Seq::empty());
        while i < runs.len()
            invariant
                i <= runs.len(),
                boxscore@ =~= middle + run_entries(runs@.take(i as int)),
            decreases runs.len() - i,
        {
            let runner = runs[i];
            Self::record_stat(boxscore, runner.runner, Stat::Br, None);
            if runner.earned {
                Self::record_stat(boxscore, runner.pitcher, Stat::Per, None);
            } else {
                Self::record_stat(boxscore, runner.pitcher, Stat::Pr, None);
            }
            proof {
                assert(runs@.take(i + 1).drop_last() =~= runs@.take(i as int));
                assert(runs@.take(i + 1).last() == runs@[i as int]);
            }
            i += 1;
        }
        assert(runs@.take(runs@.len() as int) =~= runs@);
    }

    /// One plate appearance between the side at bat and the side in the
    /// field.
    fn play(
        bat: &mut Scoreboard,
        pit: &mut Scoreboard,
        frame: &mut Frame,
        boxscore: &mut GameLog,
        result: Expect,
        target: Position,
        fielder_id: PlayerId,
        pitches: u32,
    )
        requires
            old(frame).wf(),
            old(frame).inning.live(),
            old(frame).virtual_outs + 3 <= u8::MAX,
            can_bat(*old(bat)),
            can_pitch(*old(pit), result, pitches),
        ensures
            batted(*old(bat), *final(bat), *old(frame), old(pit).pitcher, result, target),
            pitched(*old(pit), *final(pit), *old(bat), *old(frame), result, target, pitches),
            *final(frame) == old(frame).charged(
                outs_made(old(bat).bases(), result, target, old(frame).outs as int),
                result == Expect::Error,
            ),
            final(frame).wf(),
            final(boxscore)@ == old(boxscore)@ + written(
                *old(bat),
                *old(pit),
                *old(frame),
                result,
                target,
                fielder_id,
            ),
    {
        let earned = frame.virtual_outs < 3;
        let batter_id = bat.bo[bat.ab].player;
        let pitcher_id = pit.pitcher;
        let runner = RunnerInfo { runner: batter_id, pitcher: pitcher_id, earned };
        proof {
            lemma_bases_after_scores(old(bat).bases(), result, target, frame.outs as int, runner);
        }
        let result_outs = bat.run_result(result, target, runner, frame.outs);
        Self::log_result(boxscore, result, target, batter_id, pitcher_id, fielder_id, &bat.runs_in);
        bat.record_runs();
        bat.ab = (bat.ab + 1) % 9;

        let charged: u32 = match result {
            Expect::Walk => if pitches < 4 {
                4
            } else {
                pitches
            },
            Expect::Strikeout => if pitches < 3 {
                3
            } else {
                pitches
            },
            _ => pitches,
        };
        pit.pitches += charged;
        pit.pitcher_outs += result_outs;
        frame.charge(result_outs, result == Expect::Error);
    }

    /// Plays one plate appearance: `result` is how it ended, `target` where
    /// the ball went, `fielder_id` who fielded it and `pitches` how many
    /// pitches it took.
    pub fn plate_appearance(
        &mut self,
        frame: &mut Frame,
        boxscore: &mut GameLog,
        result: Expect,
        target: Position,
        fielder_id: PlayerId,
        pitches: u32,
    )
        requires
            old(self).playable(*old(frame), result, pitches),
        ensures
            Self::played(
                *old(self),
                *final(self),
                *old(frame),
                *final(frame),
                old(boxscore)@,
                final(boxscore)@,
                result,
                target,
                fielder_id,
                pitches,
            ),
            final(frame).wf(),
            final(self).playbyplay == old(self).playbyplay,
    {
        if frame.inning.half == InningHalf::Top {
            Self::play(
                &mut self.away,
                &mut self.home,
                frame,
                boxscore,
                result,
                target,
                fielder_id,
                pitches,
            );
        } else {
            Self::play(
                &mut self.home,
                &mut self.away,
                frame,
                boxscore,
                result,
                target,
                fielder_id,
                pitches,
            );
        }
    }

    /// Whether the sides can change: the game is not over and stands between
    /// two halves.
    pub open spec fn can_turn(self, frame: Frame) -> bool {
        !self.complete(frame.inning) && frame.turnable()
    }

    /// Tells whether the sides can change.
    pub fn can_change_sides(&self, frame: &Frame) -> (b: bool)
        ensures
            b == self.can_turn(*frame),
    {
        !self.is_complete(&frame.inning) && frame.can_turn()
    }

    /// Changes sides between two halves: the side that has just batted leaves
    /// the bases, the outs start again, and after the bottom half the next
    /// inning begins.
    pub fn change_sides(&mut self, frame: &mut Frame)
        requires
            old(self).can_turn(*old(frame)),
        ensures
            *final(frame) == old(frame).turned(),
            final(frame).wf(),
            final(frame).inning.live(),
            final(self).batting_side(old(frame).inning).onbase@ == Seq::new(
                4,
                |i: int| None::<RunnerInfo>,
            ),
            final(self).batting_side(old(frame).inning).same_but_bases(
                old(self).batting_side(old(frame).inning),
            ),
            final(self).batting_side(old(frame).inning).runs_in == old(self).batting_side(
                old(frame).inning,
            ).runs_in,
            final(self).pitching_side(old(frame).inning) == old(self).pitching_side(
                old(frame).inning,
            ),
            final(self).playbyplay == old(self).playbyplay,
    {
        if frame.inning.half == InningHalf::Middle {
            self.away.onbase = [None, None, None, None];
            assert(self.away.onbase@ =~= Seq::new(4, |i: int| None::<RunnerInfo>));
            frame.inning.half = InningHalf::Bottom;
        } else {
            self.home.onbase = [None, None, None, None];
            assert(self.home.onbase@ =~= Seq::new(4, |i: int| None::<RunnerInfo>));
            frame.inning.number += 1;
            frame.inning.half = InningHalf::Top;
        }
        frame.outs = 0;
        frame.virtual_outs = 0;
    }
}

impl PitcherRecord {
    /// Whether the pitcher left with his team ahead (`leading`) or behind.
    pub open spec fn left_in_front(self, leading: bool) -> bool {
        if leading {
            self.run_diff_out > 0
        } else {
            self.run_diff_out < 0
        }
    }

    fn in_front(&self, leading: bool) -> (b: bool)
        ensures
            b == self.left_in_front(leading),
    {
        if leading {
            self.run_diff_out > 0
        } else {
            self.run_diff_out < 0
        }
    }
}

/// Walking back from stint `idx`: where the unbroken run of stints that ended
/// in front (or behind) begins; `idx + 1` when stint `idx` did not.
pub open spec fn streak_start(records: Seq<PitcherRecord>, leading: bool, idx: int) -> int
    decreases idx + 1,
{
    if idx < 0 || idx >= records.len() || !records[idx].left_in_front(leading) {
        idx + 1
    } else {
        streak_start(records, leading, idx - 1)
    }
}

/// The pitcher of the decision: the first of the stints that, up to the end
/// of the game, all ended in front (the winner) or all behind (the loser).
pub open spec fn decision(records: Seq<PitcherRecord>, leading: bool) -> Option<PlayerId> {
    let start = decision_index(records, leading);
    if start < records.len() {
        Some(records[start].pitcher)
    } else {
        None
    }
}

/// Holds, walking back from stint `idx` to the winner's: one for each pitcher
/// until the winner's stint or the first stint is reached.
pub open spec fn hold_entries(records: Seq<PitcherRecord>, winner: PlayerId, idx: int) -> Seq<
    GameLogEvent,
>
    decreases idx,
{
    if idx > 0 && idx < records.len() && records[idx].pitcher != winner {
        seq![entry(records[idx].pitcher, Stat::Phld)] + hold_entries(records, winner, idx - 1)
    } else {
        Seq::empty()
    }
}

/// Where the stints begin that, up to the end of the game, all ended in front
/// (or behind): the stint of the decision. The number of stints when the last
/// one did not end so.
pub open spec fn decision_index(records: Seq<PitcherRecord>, leading: bool) -> int {
    streak_start(records, leading, records.len() - 1)
}

/// Whether the pitcher who finished earns a save behind `winner`: he is not
/// the winner, and he came in no more than three runs ahead or got nine outs.
pub open spec fn saves(last: PitcherRecord, winner: PlayerId) -> bool {
    (last.run_diff_in <= 3 || last.outs >= 9) && last.pitcher != winner
}

/// The credit one side's pitchers get: the win, with a complete game when
/// there was one stint and a shutout when the opponent did not score; the
/// save for the pitcher who finished; a hold for every pitcher between the
/// winner and the one who finished, the latest first; then the loss, with a
/// complete game when there was one stint.
pub open spec fn credit_entries(records: Seq<PitcherRecord>, oppo_r: i8) -> Seq<GameLogEvent> {
    let last = records.len() - 1;
    (match decision(records, true) {
        Some(w) => seq![entry(w, Stat::Pw)] + (if last == 0 {
            seq![entry(w, Stat::Pcg)] + (if oppo_r == 0 {
                seq![entry(w, Stat::Psho)]
            } else {
                Seq::empty()
            })
        } else {
            Seq::empty()
        }) + (if saves(records[last], w) {
            seq![entry(records[last].pitcher, Stat::Psv)]
        } else {
            Seq::empty()
        }) + (if decision_index(records, true) < last {
            hold_entries(records, w, last - 1)
        } else {
            Seq::empty()
        }),
        None => Seq::empty(),
    }) + (match decision(records, false) {
        Some(l) => seq![entry(l, Stat::Pl)] + (if last == 0 {
            seq![entry(l, Stat::Pcg)]
        } else {
            Seq::empty()
        }),
        None => Seq::empty(),
    })
}

impl Game {
    /// The pitcher who gets the win (`leading`) or the loss, and the stint he
    /// gets it for.
    fn decided(records: &Vec<PitcherRecord>, leading: bool) -> (who: (Option<PlayerId>, usize))
        requires
            records@.len() >= 1,
        ensures
            who.0 == decision(records@, leading),
            who.1 == decision_index(records@, leading),
    {
        let mut idx: usize = records.len();
        let mut who: Option<PlayerId> = None;
        while idx > 0 && records[idx - 1].in_front(leading)
            invariant
                idx <= records.len(),
                streak_start(records@, leading, records@.len() - 1) == streak_start(
                    records@,
                    leading,
                    idx - 1,
                ),
                who == if idx < records.len() {
                    Some(records@[idx as int].pitcher)
                } else {
                    None
                },
            decreases idx,
        {
            idx -= 1;
            who = Some(records[idx].pitcher);
        }
        (who, idx)
    }

    /// Gives the pitchers of one side their win, loss, save and holds.
    pub fn record_wls(boxscore: &mut GameLog, sb: &Scoreboard, oppo_r: i8)
        requires
            sb.pitcher_record@.len() >= 1,
        ensures
            final(boxscore)@ == old(boxscore)@ + credit_entries(sb.pitcher_record@, oppo_r),
    {
        Self::credit(boxscore, &sb.pitcher_record, oppo_r);
    }

    /// Writes the credit for a list of stints.
    fn credit(boxscore: &mut GameLog, stints: &Vec<PitcherRecord>, oppo_r: i8)
        requires
            stints@.len() >= 1,
        ensures
            final(boxscore)@ == old(boxscore)@ + credit_entries(stints@, oppo_r),
    {
        let ghost start = boxscore@;
        let ghost records = stints@;
        let last_pitcher: usize = stints.len() - 1;
        let (winner, won_at) = Self::decided(stints, true);
        let (loser, _) = Self::decided(stints, false);
        if let Some(w) = winner {
            Self::record_stat(boxscore, w, Stat::Pw, None);
            if last_pitcher == 0 {
                Self::record_stat(boxscore, w, Stat::Pcg, None);
                if oppo_r == 0 {
                    Self::record_stat(boxscore, w, Stat::Psho, None);
                }
            }
            let last_pr = stints[last_pitcher];
            if (last_pr.run_diff_in <= 3 || last_pr.outs >= 9) && last_pr.pitcher != w {
                Self::record_stat(boxscore, last_pr.pitcher, Stat::Psv, None);
            }
            let ghost head = boxscore@;
            if won_at < last_pitcher {
                let mut hold_idx: usize = last_pitcher - 1;
                while hold_idx > 0 && stints[hold_idx].pitcher != w
                    invariant
                        hold_idx < last_pitcher,
                        last_pitcher == records.len() - 1,
                        records == stints@,
                        boxscore@ + hold_entries(records, w, hold_idx as int) =~= head
                            + hold_entries(records, w, last_pitcher - 1),
                    decreases hold_idx,
                {
                    Self::record_stat(
                        boxscore,
                        stints[hold_idx].pitcher,
                        Stat::Phld,
                        None,
                    );
                    hold_idx -= 1;
                }
            }
            assert(boxscore@ =~= head + if won_at < last_pitcher {
                hold_entries(records, w, last_pitcher - 1)
            } else {
                Seq::empty()
            });
        }
        let ghost won = boxscore@;
        if let Some(l) = loser {
            Self::record_stat(boxscore, l, Stat::Pl, None);
            if last_pitcher == 0 {
                Self::record_stat(boxscore, l, Stat::Pcg, None);
            }
        }
        assert(boxscore@ =~= start + credit_entries(records, oppo_r));
    }
}

/// The pitchers a side has used: those of the finished stints, then the one
/// on the mound.
pub open spec fn used_pitchers(side: Scoreboard) -> Seq<PlayerId> {
    side.pitcher_record@.map_values(|r: PitcherRecord| r.pitcher).push(side.pitcher)
}

/// The players of `roster`, in order, who play `role` and have not pitched.
pub open spec fn relievers(
    roster: Seq<PlayerId>,
    used: Seq<PlayerId>,
    players: Map<PlayerId, Player>,
    role: Position,
) -> Seq<PlayerId>
    decreases roster.len(),
{
    if roster.len() == 0 {
        Seq::empty()
    } else {
        let rest = relievers(roster.drop_last(), used, players, role);
        let id = roster.last();
        if !used.contains(id) && players.contains_key(id) && players[id].pos == role {
            rest.push(id)
        } else {
            rest
        }
    }
}

/// The role called for by a lead of one to three runs late in the game: the
/// setup man in the eighth, the closer from the ninth on, unless he is
/// pitching already.
pub open spec fn late_role(run_diff: int, inning: u8, current: Position) -> Option<Position> {
    if 0 < run_diff <= 3 {
        if inning == 8 && current != Position::Setup {
            Some(Position::Setup)
        } else if inning >= 9 && current != Position::Closer {
            Some(Position::Closer)
        } else {
            None
        }
    } else {
        None
    }
}

/// The role that takes over from a pitcher who has reached his workload: long
/// relief before the seventh inning, short relief from then on.
pub open spec fn tired_role(inning: u8) -> Position {
    if inning < 7 {
        Position::LongRelief
    } else {
        Position::ShortRelief
    }
}

/// The pitchers the next one is drawn from. A late lead asks for its role
/// first; when that gives nobody and the pitcher has reached his workload,
/// the relief role is asked for; else nobody.
pub open spec fn bullpen(
    side: Scoreboard,
    bat_r: u8,
    inning: u8,
    roster: Seq<PlayerId>,
    players: Map<PlayerId, Player>,
) -> Seq<PlayerId> {
    let current = players[side.pitcher].pos;
    let used = used_pitchers(side);
    let late = match late_role(side.r - bat_r, inning, current) {
        Some(role) => relievers(roster, used, players, role),
        None => Seq::empty(),
    };
    if late.len() > 0 {
        late
    } else if side.pitches >= Game::workload(current) {
        relievers(roster, used, players, tired_role(inning))
    } else {
        Seq::empty()
    }
}

/// What a pitching change does to a side: the stint of the old pitcher is
/// filed and the new one starts with nothing on his count.
pub open spec fn relieved(before: Scoreboard, after: Scoreboard, bat_r: u8, new: PlayerId) -> bool {
    &&& after.pitcher == new
    &&& after.pitches == 0
    &&& after.pitcher_outs == 0
    &&& after.pitcher_run_diff_in == before.r - bat_r
    &&& after.pitcher_record@ == before.pitcher_record@.push(before.stint(bat_r as i8))
    &&& after.bases() == before.bases()
    &&& after.id == before.id
    &&& after.r == before.r
    &&& after.h == before.h
    &&& after.e == before.e
    &&& after.bo == before.bo
    &&& after.ab == before.ab
}

/// Whether every player of `roster` is known.
pub open spec fn all_known(roster: Seq<PlayerId>, players: Map<PlayerId, Player>) -> bool {
    forall|i: int| 0 <= i < roster.len() ==> players.contains_key(#[trigger] roster[i])
}

impl Scoreboard {
    /// Whether `id` has pitched for this side.
    fn has_pitched(&self, id: PlayerId) -> (b: bool)
        ensures
            b == used_pitchers(*self).contains(id),
    {
        let ghost used = used_pitchers(*self);
        if self.pitcher == id {
            assert(used[used.len() - 1] == id);
            return true;
        }
        let mut i: usize = 0;
        while i < self.pitcher_record.len()
            invariant
                i <= self.pitcher_record.len(),
                used == used_pitchers(*self),
                self.pitcher != id,
                forall|j: int| 0 <= j < i ==> used[j] != id,
            decreases self.pitcher_record.len() - i,
        {
            if self.pitcher_record[i].pitcher == id {
                assert(used[i as int] == id);
                return true;
            }
            i += 1;
        }
        false
    }

    /// The players of `roster` who play `role` and have not pitched.
    fn relief_pool(&self, roster: &Vec<PlayerId>, players: &PlayerMap, role: Position) -> (pool: Vec<
        PlayerId,
    >)
        requires
            all_known(roster@, players@),
        ensures
            pool@ == relievers(roster@, used_pitchers(*self), players@, role),
    {
        let mut pool: Vec<PlayerId> = Vec::new();
        let mut i: usize = 0;
        assert(roster@.take(0) =~= Seq::empty());
        while i < roster.len()
            invariant
                i <= roster.len(),
                all_known(roster@, players@),
                pool@ == relievers(roster@.take(i as int), used_pitchers(*self), players@, role),
            decreases roster.len() - i,
        {
            let id = roster[i];
            proof {
                assert(roster@.take(i + 1).drop_last() =~= roster@.take(i as int));
                assert(roster@.take(i + 1).last() == id);
            }
            if !self.has_pitched(id) {
                let player = players.get(&id);
                assert(players@.contains_key(roster@[i as int]));
                if let Some(p) = player {
                    if p.pos == role {
                        pool.push(id);
                    }
                }
            }
            i += 1;
        }
        assert(roster@.take(roster@.len() as int) =~= roster@);
        pool
    }

    /// Changes the pitcher when the game calls for it and the bullpen has
    /// somebody.
    fn relieve(
        &mut self,
        bat_r: u8,
        inning: &Inning,
        roster: &Vec<PlayerId>,
        players: &PlayerMap,
        boxscore: &mut GameLog,
        rng: &mut ThreadRng,
    )
        requires
            all_known(roster@, players@),
            players@.contains_key(old(self).pitcher),
            old(self).r <= i8::MAX,
            bat_r <= i8::MAX,
        ensures
            ({
                let pool = bullpen(*old(self), bat_r, inning.number, roster@, players@);
                if pool.len() == 0 {
                    *final(self) == *old(self) && final(boxscore)@ == old(boxscore)@
                } else {
                    &&& pool.contains(final(self).pitcher)
                    &&& relieved(*old(self), *final(self), bat_r, final(self).pitcher)
                    &&& final(boxscore)@ == old(boxscore)@.push(
                        entry(final(self).pitcher, Stat::G),
                    )
                }
            }),
    {
        let bat_diff = bat_r as i8;
        let pit_r = self.r as i8;
        let current = match players.get(&self.pitcher) {
            Some(p) => p.pos,
            None => Position::StartingPitcher,
        };
        let pitch_max = Game::max_pitches_for_pos(current);
        let run_diff: i8 = pit_r - bat_diff;

        let mut sub: Option<PlayerId> = None;
        if run_diff > 0 && run_diff <= 3 {
            if inning.number == 8 && current != Position::Setup {
                let pool = self.relief_pool(roster, players, Position::Setup);
                sub = pick_one(rng, &pool);
            } else if inning.number >= 9 && current != Position::Closer {
                let pool = self.relief_pool(roster, players, Position::Closer);
                sub = pick_one(rng, &pool);
            }
        }
        if sub.is_none() && self.pitches >= pitch_max {
            if inning.number < 7 {
                let pool = self.relief_pool(roster, players, Position::LongRelief);
                sub = pick_one(rng, &pool);
            } else {
                let pool = self.relief_pool(roster, players, Position::ShortRelief);
                sub = pick_one(rng, &pool);
            }
        }
        if let Some(new_pitcher) = sub {
            self.record_pitcher(bat_diff);
            self.pitcher = new_pitcher;
            self.pitches = 0;
            self.pitcher_outs = 0;
            self.pitcher_run_diff_in = run_diff;
            Game::record_stat(boxscore, new_pitcher, Stat::G, None);
        }
    }
}

impl Game {
    /// Before a plate appearance, changes the pitcher of the side in the
    /// field when the game calls for it: with a lead of one to three runs the
    /// setup man comes in for the eighth and the closer from the ninth on, and
    /// a pitcher who has reached his workload gives way to long relief before
    /// the seventh and to short relief after. The new pitcher is drawn from
    /// the teammates in that role who have not pitched; with none, the
    /// pitcher stays.
    pub fn sub_pitcher(
        &mut self,
        inning: &Inning,
        teams: &TeamMap,
        players: &PlayerMap,
        boxscore: &mut GameLog,
        rng: &mut ThreadRng,
    )
        requires
            old(self).relievable(*inning, teams@, players@),
        ensures
            final(self).batting_side(*inning) == old(self).batting_side(*inning),
            final(self).playbyplay == old(self).playbyplay,
            ({
                let before = old(self).pitching_side(*inning);
                let after = final(self).pitching_side(*inning);
                let bat_r = old(self).batting_side(*inning).r;
                let pool = bullpen(
                    before,
                    bat_r,
                    inning.number,
                    teams@[before.id].players@,
                    players@,
                );
                if pool.len() == 0 {
                    after == before && final(boxscore)@ == old(boxscore)@
                } else {
                    &&& pool.contains(after.pitcher)
                    &&& relieved(before, after, bat_r, after.pitcher)
                    &&& final(boxscore)@ == old(boxscore)@.push(entry(after.pitcher, Stat::G))
                }
            }),
    {
        if self.is_away_ab(inning) {
            let team = teams.get(&self.home.id);
            if let Some(t) = team {
                let bat_r = self.away.r;
                self.home.relieve(bat_r, inning, &t.players, players, boxscore, rng);
            }
        } else {
            let team = teams.get(&self.away.id);
            if let Some(t) = team {
                let bat_r = self.home.r;
                self.away.relieve(bat_r, inning, &t.players, players, boxscore, rng);
            }
        }
    }
}

/// A batter considered for the lineup, with his on-base rate so far.
#[derive(Copy, Clone, Debug, PartialEq, Eq, Structural)]
pub struct Candidate {
    pub id: PlayerId,
    pub pos: Position,
    pub obp: u32,
}

/// The players of `roster` who do not pitch, in roster order, each with his
/// on-base rate.
pub open spec fn batters(roster: Seq<PlayerId>, players: Map<PlayerId, Player>) -> Seq<Candidate>
    decreases roster.len(),
{
    if roster.len() == 0 {
        Seq::empty()
    } else {
        let rest = batters(roster.drop_last(), players);
        let id = roster.last();
        if players.contains_key(id) && !players[id].pos.pitcher() {
            rest.push(
                Candidate {
                    id,
                    pos: players[id].pos,
                    obp: on_base_rate(players[id].stat_stream@) as u32,
                },
            )
        } else {
            rest
        }
    }
}

/// A list ordered from the highest on-base rate down, with `c` put in: ahead
/// of everyone whose rate is not higher than his.
pub open spec fn ranked_insert(list: Seq<Candidate>, c: Candidate) -> Seq<Candidate>
    decreases list.len(),
{
    if list.len() == 0 {
        seq![c]
    } else if list.last().obp > c.obp {
        list.push(c)
    } else {
        ranked_insert(list.drop_last(), c).push(list.last())
    }
}

/// The candidates from the highest on-base rate down; of two with the same
/// rate the one who comes later in the list given is ranked first.
pub open spec fn ranking(candidates: Seq<Candidate>) -> Seq<Candidate>
    decreases candidates.len(),
{
    if candidates.len() == 0 {
        Seq::empty()
    } else {
        ranked_insert(ranking(candidates.drop_last()), candidates.last())
    }
}

/// Whether each candidate has at least the on-base rate of the next.
pub open spec fn descending(list: Seq<Candidate>) -> bool {
    forall|i: int, j: int| 0 <= i < j < list.len() ==> list[i].obp >= list[j].obp
}

/// Putting `c` at `at` is the ranked insertion when everyone before has a
/// higher rate and nobody from there on has.
pub proof fn lemma_ranked_insert_at(list: Seq<Candidate>, c: Candidate, at: int)
    requires
        0 <= at <= list.len(),
        at > 0 ==> list[at - 1].obp > c.obp,
        forall|j: int| at <= j < list.len() ==> list[j].obp <= c.obp,
    ensures
        ranked_insert(list, c) == list.insert(at, c),
    decreases list.len() - at,
{
    if list.len() == 0 {
        assert(list.insert(at, c) =~= seq![c]);
    } else if at == list.len() {
        assert(list.insert(at, c) =~= list.push(c));
    } else {
        lemma_ranked_insert_at(list.drop_last(), c, at);
        assert(list.insert(at, c) =~= list.drop_last().insert(at, c).push(list.last()));
    }
}

/// Ranked insertion keeps a descending list descending and adds just `c`.
pub proof fn lemma_ranked_insert_descending(list: Seq<Candidate>, c: Candidate)
    requires
        descending(list),
    ensures
        descending(ranked_insert(list, c)),
        ranked_insert(list, c).to_multiset() == list.to_multiset().insert(c),
        ranked_insert(list, c).len() == list.len() + 1,
    decreases list.len(),
{
    broadcast use vstd::seq_lib::group_to_multiset_ensures;

    if list.len() == 0 {
        assert(list =~= Seq::empty());
        assert(seq![c] =~= Seq::<Candidate>::empty().push(c));
    } else if list.last().obp > c.obp {
    } else {
        let front = list.drop_last();
        lemma_ranked_insert_descending(front, c);
        let put = ranked_insert(front, c);
        assert(list =~= front.push(list.last()));
        assert forall|i: int| 0 <= i < put.len() implies (#[trigger] put[i]).obp
            >= list.last().obp by {
            assert(put.to_multiset().count(put[i]) > 0);
            if put[i] != c {
                assert(front.to_multiset().count(put[i]) > 0);
                let k = choose|k: int| 0 <= k < front.len() && front[k] == put[i];
                assert(list[k] == put[i]);
            }
        }
    }
}

/// The ranking is in descending order of on-base rate and holds exactly the
/// candidates given.
pub proof fn lemma_ranking_descending(candidates: Seq<Candidate>)
    ensures
        descending(ranking(candidates)),
        ranking(candidates).to_multiset() == candidates.to_multiset(),
        ranking(candidates).len() == candidates.len(),
    decreases candidates.len(),
{
    broadcast use vstd::seq_lib::group_to_multiset_ensures;

    if candidates.len() == 0 {
        assert(candidates =~= Seq::empty());
    } else {
        lemma_ranking_descending(candidates.drop_last());
        lemma_ranked_insert_descending(ranking(candidates.drop_last()), candidates.last());
        assert(candidates =~= candidates.drop_last().push(candidates.last()));
    }
}

/// Whether some slot of the order fields `pos`.
pub open spec fn has_position(bo: Seq<DefenseInfo>, pos: Position) -> bool {
    slot_of(bo, pos, 0) < bo.len()
}

/// The batting order after the first `n` of the ranked candidates have been
/// looked at, and the number of slots given out: each candidate whose position
/// nobody fields yet takes the next slot, as long as there is one.
pub open spec fn filled(bo: Seq<DefenseInfo>, ranked: Seq<Candidate>, n: int) -> (
    Seq<DefenseInfo>,
    int,
)
    decreases n,
{
    if n <= 0 {
        (bo, 0)
    } else {
        let (order, index) = filled(bo, ranked, n - 1);
        let c = ranked[n - 1];
        if !has_position(order, c.pos) && index < 9 {
            (order.update(index, DefenseInfo { player: c.id, pos: c.pos }), index + 1)
        } else {
            (order, index)
        }
    }
}

/// The first candidate at or after `from` who could stand in for `starter`:
/// another player at the same position. The number of candidates when there
/// is none.
pub open spec fn backup_index(ranked: Seq<Candidate>, starter: DefenseInfo, from: int) -> int
    decreases ranked.len() - from,
{
    if from >= ranked.len() || (from >= 0 && ranked[from].id != starter.player && ranked[from].pos
        == starter.pos) {
        from
    } else {
        backup_index(ranked, starter, from + 1)
    }
}

/// What resting can do to one slot: the position stays, and the batter is the
/// starter or his backup. Without a backup, or with no fatigue at all, the
/// starter stays; a starter at or over his threshold sits.
pub open spec fn rested(
    before: DefenseInfo,
    after: DefenseInfo,
    ranked: Seq<Candidate>,
    players: Map<PlayerId, Player>,
    year: u32,
) -> bool {
    let b = backup_index(ranked, before, 0);
    &&& after.pos == before.pos
    &&& if b >= ranked.len() || players[before.player].fatigue == 0 {
        after.player == before.player
    } else if players[before.player].fatigue >= players[before.player].threshold(year) {
        after.player == ranked[b].id
    } else {
        after.player == before.player || after.player == ranked[b].id
    }
}

/// The players after the first `n` batters of the order have each been given
/// one game of fatigue.
pub open spec fn fatigued(players: Map<PlayerId, Player>, bo: Seq<DefenseInfo>, n: int) -> Map<
    PlayerId,
    Player,
>
    decreases n,
{
    if n <= 0 {
        players
    } else {
        let prev = fatigued(players, bo, n - 1);
        let id = bo[n - 1].player;
        prev.insert(id, Player { fatigue: (prev[id].fatigue + 1) as u16, ..prev[id] })
    }
}

/// A start entered for each of the first `n` batters of the order.
pub open spec fn start_entries(bo: Seq<DefenseInfo>, n: int) -> Seq<GameLogEvent>
    decreases n,
{
    if n <= 0 {
        Seq::empty()
    } else {
        start_entries(bo, n - 1).push(entry(bo[n - 1].player, Stat::Gs))
    }
}

/// Whether every batter of the order is known and can take one more game of
/// fatigue for each slot he fills.
pub open spec fn can_start(bo: Seq<DefenseInfo>, players: Map<PlayerId, Player>) -> bool {
    forall|i: int|
        0 <= i < bo.len() ==> players.contains_key(#[trigger] bo[i].player) && players[bo[i].player].fatigue
            + 9 <= u16::MAX
}

/// Whether the season of every player of `roster` can be compiled and none
/// was born after `year`.
pub open spec fn all_ready(roster: Seq<PlayerId>, players: Map<PlayerId, Player>, year: u32) -> bool {
    forall|i: int|
        0 <= i < roster.len() ==> players.contains_key(#[trigger] roster[i])
            && players[roster[i]].compilable() && players[roster[i]].born <= year
}

impl Scoreboard {
    /// Tells whether the order has somebody at every position that is not a
    /// pitcher's.
    pub fn is_fully_fielded(&self) -> (b: bool)
        ensures
            b == fully_fielded(self.bo@),
    {
        let field = [
            Position::Catcher,
            Position::FirstBase,
            Position::SecondBase,
            Position::ThirdBase,
            Position::ShortStop,
            Position::LeftField,
            Position::CenterField,
            Position::RightField,
            Position::DesignatedHitter,
        ];
        assert(field@ =~= batting_positions());
        let mut i: usize = 0;
        while i < 9
            invariant
                i <= 9,
                field@ == batting_positions(),
                forall|k: int| 0 <= k < i ==> has_position(self.bo@, #[trigger] batting_positions()[k]),
            decreases 9 - i,
        {
            if !self.has_fielder(field[i]) {
                assert(!has_position(self.bo@, batting_positions()[i as int]));
                return false;
            }
            i += 1;
        }
        true
    }

    /// Tells whether some slot of the order fields `pos`.
    pub fn has_fielder(&self, pos: Position) -> (b: bool)
        ensures
            b == has_position(self.bo@, pos),
    {
        let mut i: usize = 0;
        while i < 9
            invariant
                i <= 9,
                slot_of(self.bo@, pos, 0) == slot_of(self.bo@, pos, i as int),
            decreases 9 - i,
        {
            if self.bo[i].pos == pos {
                return true;
            }
            i += 1;
        }
        false
    }
}

impl Game {
    /// The batters of a roster, best on-base rate first.
    pub fn rank_batters(roster: &Vec<PlayerId>, players: &PlayerMap) -> (ranked: Vec<Candidate>)
        requires
            forall|i: int|
                0 <= i < roster@.len() ==> players@.contains_key(#[trigger] roster@[i])
                    && players@[roster@[i]].compilable(),
        ensures
            ranked@ == ranking(batters(roster@, players@)),
    {
        let mut ranked: Vec<Candidate> = Vec::new();
        let mut i: usize = 0;
        assert(roster@.take(0) =~= Seq::empty());
        while i < roster.len()
            invariant
                i <= roster.len(),
                forall|i: int|
                    0 <= i < roster@.len() ==> players@.contains_key(#[trigger] roster@[i])
                        && players@[roster@[i]].compilable(),
                ranked@ == ranking(batters(roster@.take(i as int), players@)),
            decreases roster.len() - i,
        {
            let id = roster[i];
            proof {
                assert(roster@.take(i + 1).drop_last() =~= roster@.take(i as int));
                assert(roster@.take(i + 1).last() == id);
                assert(players@.contains_key(roster@[i as int]));
            }
            if let Some(p) = players.get(&id) {
                if !p.pos.is_pitcher() {
                    let stats = p.get_stats();
                    let c = Candidate { id, pos: p.pos, obp: stats.b_obp };
                    let mut at: usize = ranked.len();
                    while at > 0 && ranked[at - 1].obp <= c.obp
                        invariant
                            at <= ranked.len(),
                            forall|j: int| at <= j < ranked@.len() ==> ranked@[j].obp <= c.obp,
                        decreases at,
                    {
                        at -= 1;
                    }
                    proof {
                        lemma_ranked_insert_at(ranked@, c, at as int);
                        let before = batters(roster@.take(i as int), players@);
                        assert(batters(roster@.take(i + 1), players@) == before.push(c));
                        assert(before.push(c).drop_last() =~= before);
                    }
                    ranked.insert(at, c);
                }
            }
            i += 1;
        }
        assert(roster@.take(roster@.len() as int) =~= roster@);
        ranked
    }

    /// Gives the slots of the batting order to the ranked candidates: going
    /// down the ranking, a candidate starts when nobody fields his position
    /// yet.
    pub fn fill_order(scoreboard: &mut Scoreboard, ranked: &Vec<Candidate>)
        ensures
            final(scoreboard).bo@ == filled(old(scoreboard).bo@, ranked@, ranked@.len() as int).0,
            final(scoreboard).bases() == old(scoreboard).bases(),
            final(scoreboard).same_but_bases(
                Scoreboard { bo: final(scoreboard).bo, ..*old(scoreboard) },
            ),
    {
        let mut index: usize = 0;
        let mut n: usize = 0;
        while n < ranked.len()
            invariant
                n <= ranked.len(),
                index <= 9,
                (scoreboard.bo@, index as int) == filled(old(scoreboard).bo@, ranked@, n as int),
                scoreboard.bases() == old(scoreboard).bases(),
                scoreboard.same_but_bases(Scoreboard { bo: scoreboard.bo, ..*old(scoreboard) }),
            decreases ranked.len() - n,
        {
            let c = ranked[n];
            if !scoreboard.has_fielder(c.pos) && index < 9 {
                scoreboard.bo[index] = DefenseInfo { player: c.id, pos: c.pos };
                index += 1;
            }
            n += 1;
        }
    }

    /// Rests tired starters: each batter of the order who has a backup sits
    /// with a chance of his fatigue over his threshold, at most one.
    pub fn rest_starters(
        scoreboard: &mut Scoreboard,
        ranked: &Vec<Candidate>,
        players: &PlayerMap,
        year: u32,
        rng: &mut ThreadRng,
    )
        requires
            forall|i: int|
                0 <= i < 9 ==> players@.contains_key(#[trigger] old(scoreboard).bo@[i].player)
                    && players@[old(scoreboard).bo@[i].player].born <= year,
        ensures
            forall|i: int|
                0 <= i < 9 ==> rested(
                    old(scoreboard).bo@[i],
                    #[trigger] final(scoreboard).bo@[i],
                    ranked@,
                    players@,
                    year,
                ),
            final(scoreboard).bases() == old(scoreboard).bases(),
            final(scoreboard).same_but_bases(
                Scoreboard { bo: final(scoreboard).bo, ..*old(scoreboard) },
            ),
    {
        let mut s: usize = 0;
        while s < 9
            invariant
                s <= 9,
                forall|i: int|
                    0 <= i < 9 ==> players@.contains_key(#[trigger] old(scoreboard).bo@[i].player)
                        && players@[old(scoreboard).bo@[i].player].born <= year,
                forall|i: int|
                    0 <= i < s ==> rested(
                        old(scoreboard).bo@[i],
                        #[trigger] scoreboard.bo@[i],
                        ranked@,
                        players@,
                        year,
                    ),
                forall|i: int| s <= i < 9 ==> scoreboard.bo@[i] == old(scoreboard).bo@[i],
                scoreboard.bases() == old(scoreboard).bases(),
                scoreboard.same_but_bases(Scoreboard { bo: scoreboard.bo, ..*old(scoreboard) }),
            decreases 9 - s,
        {
            let starter = scoreboard.bo[s];
            let ghost before = scoreboard.bo@;
            let mut b: usize = 0;
            while b < ranked.len() && !(ranked[b].id != starter.player && ranked[b].pos
                == starter.pos)
                invariant
                    b <= ranked.len(),
                    backup_index(ranked@, starter, 0) == backup_index(ranked@, starter, b as int),
                decreases ranked.len() - b,
            {
                b += 1;
            }
            if b < ranked.len() {
                assert(players@.contains_key(old(scoreboard).bo@[s as int].player));
                if let Some(p) = players.get(&starter.player) {
                    let threshold = p.fatigue_threshold(year);
                    let tired: u32 = if (p.fatigue as u64) < threshold {
                        p.fatigue as u32
                    } else {
                        threshold as u32
                    };
                    if draw_ratio(rng, tired, threshold as u32) {
                        scoreboard.bo[s] = DefenseInfo { player: ranked[b].id, pos: starter.pos };
                    }
                }
            }
            assert forall|i: int| 0 <= i < s + 1 implies rested(
                old(scoreboard).bo@[i],
                #[trigger] scoreboard.bo@[i],
                ranked@,
                players@,
                year,
            ) by {
                if i < s {
                    assert(scoreboard.bo@[i] == before[i]);
                }
            }
            s += 1;
        }
    }

    /// Enters a start for each batter of the order and adds a game to his
    /// fatigue.
    pub fn start_batters(scoreboard: &Scoreboard, players: &mut PlayerMap, boxscore: &mut GameLog)
        requires
            can_start(scoreboard.bo@, old(players)@),
        ensures
            final(players)@ == fatigued(old(players)@, scoreboard.bo@, 9),
            final(boxscore)@ == old(boxscore)@ + start_entries(scoreboard.bo@, 9),
    {
        let mut s: usize = 0;
        while s < 9
            invariant
                s <= 9,
                can_start(scoreboard.bo@, old(players)@),
                players@ == fatigued(old(players)@, scoreboard.bo@, s as int),
                players@.dom() == old(players)@.dom(),
                forall|id: PlayerId| #[trigger]
                    players@.contains_key(id) ==> players@[id].fatigue <= old(players)@[id].fatigue
                        + s,
                boxscore@ == old(boxscore)@ + start_entries(scoreboard.bo@, s as int),
            decreases 9 - s,
        {
            let id = scoreboard.bo[s].player;
            Self::record_stat(boxscore, id, Stat::Gs, None);
            assert(players@.contains_key(scoreboard.bo@[s as int].player));
            let ghost prev = players@;
            match players.remove(&id) {
                Some(mut p) => {
                    p.fatigue += 1;
                    players.insert(id, p);
                },
                None => {},
            }
            proof {
                assert(players@ =~= prev.insert(
                    id,
                    Player { fatigue: (prev[id].fatigue + 1) as u16, ..prev[id] },
                ));
                assert(players@.dom() =~= old(players)@.dom());
                assert(boxscore@ =~= old(boxscore)@ + start_entries(scoreboard.bo@, s + 1));
            }
            s += 1;
        }
    }
}

/// The rotation after its first starter has gone to the back.
pub open spec fn rotated(rotation: Seq<PlayerId>) -> Seq<PlayerId> {
    seq![rotation[1], rotation[2], rotation[3], rotation[4], rotation[0]]
}

/// Every ranked batter is a known player of the roster who does not pitch.
pub proof fn lemma_batters_known(roster: Seq<PlayerId>, players: Map<PlayerId, Player>)
    ensures
        forall|k: int|
            0 <= k < batters(roster, players).len() ==> {
                let c = #[trigger] batters(roster, players)[k];
                &&& roster.contains(c.id)
                &&& players.contains_key(c.id)
                &&& players[c.id].pos == c.pos
                &&& !c.pos.pitcher()
            },
    decreases roster.len(),
{
    if roster.len() > 0 {
        lemma_batters_known(roster.drop_last(), players);
        let rest = batters(roster.drop_last(), players);
        assert forall|k: int| 0 <= k < batters(roster, players).len() implies {
            let c = #[trigger] batters(roster, players)[k];
            &&& roster.contains(c.id)
            &&& players.contains_key(c.id)
            &&& players[c.id].pos == c.pos
            &&& !c.pos.pitcher()
        } by {
            if k < rest.len() {
                let c = rest[k];
                let j = choose|j: int| 0 <= j < roster.drop_last().len() && roster.drop_last()[j] == c.id;
                assert(roster[j] == c.id);
            } else {
                assert(roster[roster.len() - 1] == roster.last());
            }
        }
    }
}

/// Everyone in the ranking is one of the candidates.
pub proof fn lemma_ranking_members(candidates: Seq<Candidate>)
    ensures
        forall|k: int|
            0 <= k < ranking(candidates).len() ==> candidates.contains(
                #[trigger] ranking(candidates)[k],
            ),
{
    broadcast use vstd::seq_lib::group_to_multiset_ensures;

    lemma_ranking_descending(candidates);
    assert forall|k: int| 0 <= k < ranking(candidates).len() implies candidates.contains(
        #[trigger] ranking(candidates)[k],
    ) by {
        let c = ranking(candidates)[k];
        assert(ranking(candidates).to_multiset().count(c) > 0);
        assert(candidates.to_multiset().count(c) > 0);
    }
}

/// The events of a play-by-play that are entered for `id`, in order.
pub open spec fn events_of(log: Seq<GameLogEvent>, id: PlayerId) -> Seq<Stat>
    decreases log.len(),
{
    if log.len() == 0 {
        Seq::empty()
    } else if log.last().player == id {
        events_of(log.drop_last(), id).push(log.last().event)
    } else {
        events_of(log.drop_last(), id)
    }
}

/// Whether every line of a play-by-play is for a known player.
pub open spec fn log_known(log: Seq<GameLogEvent>, players: Map<PlayerId, Player>) -> bool {
    forall|i: int| 0 <= i < log.len() ==> players.contains_key(#[trigger] log[i].player)
}

/// Whether `after` is `before` with the events of `log` entered for each
/// player.
pub open spec fn entered(
    before: Map<PlayerId, Player>,
    after: Map<PlayerId, Player>,
    log: Seq<GameLogEvent>,
) -> bool {
    &&& after.dom() == before.dom()
    &&& forall|id: PlayerId| #[trigger]
        before.contains_key(id) ==> {
            &&& after[id].stat_stream@ == before[id].stat_stream@ + events_of(log, id)
            &&& after[id].same_person(before[id])
            &&& after[id].fatigue == before[id].fatigue
        }
}

/// The team with one more game entered: a win when `us` is more than `them`.
pub open spec fn with_result(team: Team, us: u8, them: u8) -> Team {
    Team {
        results: Results {
            win: (team.results.win + if us > them {
                1int
            } else {
                0int
            }) as u32,
            lose: (team.results.lose + if us > them {
                0int
            } else {
                1int
            }) as u32,
        },
        ..team
    }
}

impl Game {
    /// Sends the first starter of the rotation to the mound, enters his start
    /// and moves the rotation on by one; gives the side he throws from.
    pub fn setup_pitcher(
        players: &PlayerMap,
        teams: &mut TeamMap,
        scoreboard: &mut Scoreboard,
        boxscore: &mut GameLog,
    ) -> (throws: Handedness)
        requires
            old(teams)@.contains_key(old(scoreboard).id),
            players@.contains_key(old(teams)@[old(scoreboard).id].rotation@[0]),
        ensures
            final(scoreboard).pitcher == old(teams)@[old(scoreboard).id].rotation@[0],
            throws == players@[final(scoreboard).pitcher].throws,
            final(boxscore)@ == old(boxscore)@.push(entry(final(scoreboard).pitcher, Stat::Gs)),
            final(teams)@.dom() == old(teams)@.dom(),
            forall|id: TeamId|
                id != old(scoreboard).id && old(teams)@.contains_key(id) ==> final(teams)@[id]
                    == old(teams)@[id],
            final(teams)@[old(scoreboard).id].rotation@ == rotated(
                old(teams)@[old(scoreboard).id].rotation@,
            ),
            final(teams)@[old(scoreboard).id].players == old(teams)@[old(scoreboard).id].players,
            final(teams)@[old(scoreboard).id].results == old(teams)@[old(scoreboard).id].results,
            final(teams)@[old(scoreboard).id].history == old(teams)@[old(scoreboard).id].history,
            final(teams)@[old(scoreboard).id].loc == old(teams)@[old(scoreboard).id].loc,
            final(teams)@[old(scoreboard).id].nickname == old(teams)@[old(scoreboard).id].nickname,
            final(scoreboard).bases() == old(scoreboard).bases(),
            final(scoreboard).same_but_bases(
                Scoreboard { pitcher: final(scoreboard).pitcher, ..*old(scoreboard) },
            ),
    {
        let id = scoreboard.id;
        let mut throws = Handedness::Right;
        match teams.remove(&id) {
            Some(mut team) => {
                let starter = team.rotation[0];
                scoreboard.pitcher = starter;
                Self::record_stat(boxscore, starter, Stat::Gs, None);
                team.rotation = [
                    team.rotation[1],
                    team.rotation[2],
                    team.rotation[3],
                    team.rotation[4],
                    starter,
                ];
                assert(team.rotation@ =~= rotated(old(teams)@[id].rotation@));
                teams.insert(id, team);
                if let Some(p) = players.get(&starter) {
                    throws = p.throws;
                }
            },
            None => {},
        }
        assert(teams@.dom() =~= old(teams)@.dom());
        throws
    }

    /// Builds the batting order of one side: the batters of the roster are
    /// ranked by on-base rate and given the slots, tired starters may sit for
    /// their backups, and every batter who starts has a start entered and a
    /// game added to his fatigue.
    pub fn setup_bo(
        players: &mut PlayerMap,
        teams: &TeamMap,
        scoreboard: &mut Scoreboard,
        boxscore: &mut GameLog,
        year: u32,
        rng: &mut ThreadRng,
    )
        requires
            teams@.contains_key(old(scoreboard).id),
            all_ready(teams@[old(scoreboard).id].players@, old(players)@, year),
            forall|i: int|
                0 <= i < teams@[old(scoreboard).id].players@.len() ==> old(players)@[#[trigger] teams@[old(
                    scoreboard,
                ).id].players@[i]].fatigue + 9 <= u16::MAX,
            ({
                let ranked = ranking(batters(teams@[old(scoreboard).id].players@, old(players)@));
                let order = filled(old(scoreboard).bo@, ranked, ranked.len() as int).0;
                forall|i: int|
                    0 <= i < 9 ==> old(players)@.contains_key(#[trigger] order[i].player) && old(
                        players,
                    )@[order[i].player].born <= year && old(players)@[order[i].player].fatigue + 9
                        <= u16::MAX
            }),
        ensures
            ({
                let ranked = ranking(batters(teams@[old(scoreboard).id].players@, old(players)@));
                let order = filled(old(scoreboard).bo@, ranked, ranked.len() as int).0;
                forall|i: int|
                    0 <= i < 9 ==> rested(
                        order[i],
                        #[trigger] final(scoreboard).bo@[i],
                        ranked,
                        old(players)@,
                        year,
                    )
            }),
            final(players)@ == fatigued(old(players)@, final(scoreboard).bo@, 9),
            forall|i: int|
                0 <= i < 9 ==> old(players)@.contains_key(#[trigger] final(scoreboard).bo@[i].player)
                    && old(players)@[final(scoreboard).bo@[i].player].fatigue + 9 <= u16::MAX,
            final(boxscore)@ == old(boxscore)@ + start_entries(final(scoreboard).bo@, 9),
            final(scoreboard).bases() == old(scoreboard).bases(),
            final(scoreboard).same_but_bases(
                Scoreboard { bo: final(scoreboard).bo, ..*old(scoreboard) },
            ),
    {
        if let Some(team) = teams.get(&scoreboard.id) {
            let ranked = Self::rank_batters(&team.players, players);
            Self::fill_order(scoreboard, &ranked);
            let ghost order = scoreboard.bo@;
            Self::rest_starters(scoreboard, &ranked, players, year, rng);
            proof {
                let roster = team.players@;
                lemma_batters_known(roster, players@);
                lemma_ranking_members(batters(roster, players@));
                assert forall|i: int| 0 <= i < 9 implies players@.contains_key(
                    #[trigger] scoreboard.bo@[i].player,
                ) && players@[scoreboard.bo@[i].player].fatigue + 9 <= u16::MAX by {
                    assert(rested(order[i], scoreboard.bo@[i], ranked@, players@, year));
                    let b = backup_index(ranked@, order[i], 0);
                    if scoreboard.bo@[i].player != order[i].player {
                        lemma_backup_index(ranked@, order[i], 0);
                        let c = ranked@[b];
                        assert(batters(roster, players@).contains(c));
                        let k = choose|k: int|
                            0 <= k < batters(roster, players@).len() && batters(roster, players@)[k]
                                == c;
                        assert(roster.contains(batters(roster, players@)[k].id));
                        let j = choose|j: int| 0 <= j < roster.len() && roster[j] == c.id;
                        assert(players@[roster[j]].fatigue + 9 <= u16::MAX);
                    }
                }
            }
            Self::start_batters(scoreboard, players, boxscore);
        }
    }

    /// Sets both sides up for the game: the starting pitchers first, then the
    /// batting orders, the home side before the visitors each time.
    pub fn setup_game(
        &mut self,
        players: &mut PlayerMap,
        teams: &mut TeamMap,
        boxscore: &mut GameLog,
        year: u32,
        rng: &mut ThreadRng,
    )
        requires
            Self::can_set_up(*old(self), old(players)@, old(teams)@, year),
        ensures
            final(self).playbyplay == old(self).playbyplay,
            final(self).home.pitcher == old(teams)@[old(self).home.id].rotation@[0],
            final(self).away.pitcher == old(teams)@[old(self).away.id].rotation@[0],
            final(teams)@.dom() == old(teams)@.dom(),
            final(teams)@[old(self).home.id].rotation@ == rotated(
                old(teams)@[old(self).home.id].rotation@,
            ),
            final(teams)@[old(self).away.id].rotation@ == rotated(
                old(teams)@[old(self).away.id].rotation@,
            ),
            forall|id: TeamId| #[trigger]
                old(teams)@.contains_key(id) ==> {
                    &&& final(teams)@[id].players == old(teams)@[id].players
                    &&& final(teams)@[id].results == old(teams)@[id].results
                    &&& final(teams)@[id].history == old(teams)@[id].history
                    &&& final(teams)@[id].loc == old(teams)@[id].loc
                    &&& final(teams)@[id].nickname == old(teams)@[id].nickname
                    &&& id != old(self).home.id && id != old(self).away.id ==> final(teams)@[id]
                        == old(teams)@[id]
                },
            forall|i: int|
                0 <= i < 9 ==> rested(
                    lineup(
                        old(self).home.bo@,
                        old(teams)@[old(self).home.id].players@,
                        old(players)@,
                    )[i],
                    #[trigger] final(self).home.bo@[i],
                    ranking(batters(old(teams)@[old(self).home.id].players@, old(players)@)),
                    old(players)@,
                    year,
                ),
            forall|i: int|
                0 <= i < 9 ==> rested(
                    lineup(
                        old(self).away.bo@,
                        old(teams)@[old(self).away.id].players@,
                        old(players)@,
                    )[i],
                    #[trigger] final(self).away.bo@[i],
                    ranking(batters(old(teams)@[old(self).away.id].players@, old(players)@)),
                    fatigued(old(players)@, final(self).home.bo@, 9),
                    year,
                ),
            final(self).home.bases() == old(self).home.bases(),
            final(self).away.bases() == old(self).away.bases(),
            final(self).home.same_but_bases(
                Scoreboard {
                    bo: final(self).home.bo,
                    pitcher: final(self).home.pitcher,
                    ..old(self).home
                },
            ),
            final(self).away.same_but_bases(
                Scoreboard {
                    bo: final(self).away.bo,
                    pitcher: final(self).away.pitcher,
                    ..old(self).away
                },
            ),
            final(players)@ == fatigued(
                fatigued(old(players)@, final(self).home.bo@, 9),
                final(self).away.bo@,
                9,
            ),
            final(boxscore)@ == old(boxscore)@.push(entry(final(self).home.pitcher, Stat::Gs)).push(
                entry(final(self).away.pitcher, Stat::Gs),
            ) + start_entries(final(self).home.bo@, 9) + start_entries(final(self).away.bo@, 9),
    {
        let _home_hand = Self::setup_pitcher(players, teams, &mut self.home, boxscore);
        let _away_hand = Self::setup_pitcher(players, teams, &mut self.away, boxscore);
        Self::setup_bo(players, teams, &mut self.home, boxscore, year, rng);
        proof {
            Self::lemma_still_ready(
                old(players)@,
                players@,
                self.home.bo@,
                self.away.bo@,
                teams@[self.away.id].players@,
                year,
            );
        }
        Self::setup_bo(players, teams, &mut self.away, boxscore, year, rng);
    }

    /// Whether both sides can be set up: the two teams are different and
    /// known, their first starters are known, and each side is ready.
    pub open spec fn can_set_up(
        game: Game,
        players: Map<PlayerId, Player>,
        teams: Map<TeamId, Team>,
        year: u32,
    ) -> bool {
        &&& game.home.id != game.away.id
        &&& teams.contains_key(game.home.id)
        &&& teams.contains_key(game.away.id)
        &&& players.contains_key(teams[game.home.id].rotation@[0])
        &&& players.contains_key(teams[game.away.id].rotation@[0])
        &&& side_ready(game.home.bo@, teams[game.home.id].players@, players, year)
        &&& side_ready(game.away.bo@, teams[game.away.id].players@, players, year)
    }

    /// Setting up the home side leaves the visitors ready to be set up.
    proof fn lemma_still_ready(
        before: Map<PlayerId, Player>,
        after: Map<PlayerId, Player>,
        home_bo: Seq<DefenseInfo>,
        away_bo: Seq<DefenseInfo>,
        roster: Seq<PlayerId>,
        year: u32,
    )
        requires
            side_ready(away_bo, roster, before, year),
            home_bo.len() == 9,
            forall|i: int|
                0 <= i < 9 ==> before.contains_key(#[trigger] home_bo[i].player)
                    && before[home_bo[i].player].fatigue + 9 <= u16::MAX,
            after == fatigued(before, home_bo, 9),
        ensures
            after.dom() == before.dom(),
            all_ready(roster, after, year),
            forall|i: int| 0 <= i < roster.len() ==> after[#[trigger] roster[i]].fatigue + 9 <= u16::MAX,
            batters(roster, after) == batters(roster, before),
            lineup(away_bo, roster, after) == lineup(away_bo, roster, before),
            forall|i: int|
                0 <= i < 9 ==> {
                    let id = #[trigger] lineup(away_bo, roster, after)[i].player;
                    after.contains_key(id) && after[id].born <= year && after[id].fatigue + 9
                        <= u16::MAX
                },
    {
        Self::lemma_fatigued(before, home_bo, 9);
        lemma_batters_same(roster, before, after);
        assert forall|i: int| 0 <= i < roster.len() implies after.contains_key(
            #[trigger] roster[i],
        ) && after[roster[i]].compilable() && after[roster[i]].born <= year && after[roster[i]].fatigue
            + 9 <= u16::MAX by {
            assert(before.contains_key(roster[i]));
        }
        assert forall|i: int| 0 <= i < 9 implies {
            let id = #[trigger] lineup(away_bo, roster, after)[i].player;
            after.contains_key(id) && after[id].born <= year && after[id].fatigue + 9 <= u16::MAX
        } by {
            let id = lineup(away_bo, roster, before)[i].player;
            assert(before.contains_key(id));
        }
    }

    /// Fatigue changes nothing but the fatigue, and adds at most one game for
    /// each slot.
    pub proof fn lemma_fatigued(players: Map<PlayerId, Player>, bo: Seq<DefenseInfo>, n: int)
        requires
            0 <= n <= bo.len(),
            forall|i: int|
                0 <= i < n ==> players.contains_key(#[trigger] bo[i].player)
                    && players[bo[i].player].fatigue + n <= u16::MAX,
        ensures
            fatigued(players, bo, n).dom() == players.dom(),
            forall|id: PlayerId| #[trigger]
                players.contains_key(id) ==> {
                    let after = fatigued(players, bo, n)[id];
                    &&& after.same_person(players[id])
                    &&& after.stat_stream == players[id].stat_stream
                    &&& players[id].fatigue <= after.fatigue <= players[id].fatigue + n
                },
        decreases n,
    {
        if n > 0 {
            Self::lemma_fatigued(players, bo, n - 1);
            let prev = fatigued(players, bo, n - 1);
            let id = bo[n - 1].player;
            assert(players.contains_key(bo[n - 1].player));
            assert(prev[id].fatigue + 1 <= u16::MAX);
            assert(fatigued(players, bo, n).dom() =~= players.dom());
        }
    }

    /// Enters the events of the game for the players they belong to and keeps
    /// the play-by-play.
    pub fn end_of_game(&mut self, players: &mut PlayerMap, boxscore: GameLog)
        requires
            log_known(boxscore@, old(players)@),
        ensures
            entered(old(players)@, final(players)@, boxscore@),
            final(self).playbyplay@ == boxscore@,
            final(self).home == old(self).home,
            final(self).away == old(self).away,
    {
        let mut i: usize = 0;
        assert(boxscore@.take(0) =~= Seq::empty());
        assert forall|id: PlayerId| #[trigger] players@.contains_key(id) implies players@[id].stat_stream@
            + events_of(boxscore@.take(0), id) == players@[id].stat_stream@ by {
            assert(players@[id].stat_stream@ + Seq::<Stat>::empty() =~= players@[id].stat_stream@);
        }
        while i < boxscore.len()
            invariant
                i <= boxscore.len(),
                log_known(boxscore@, old(players)@),
                entered(old(players)@, players@, boxscore@.take(i as int)),
            decreases boxscore.len() - i,
        {
            let event = boxscore[i];
            let ghost prev = players@;
            assert(prev.contains_key(boxscore@[i as int].player));
            match players.remove(&event.player) {
                Some(mut p) => {
                    p.record_stat(event.event);
                    players.insert(event.player, p);
                },
                None => {},
            }
            proof {
                let log = boxscore@.take(i as int);
                let next = boxscore@.take(i + 1);
                assert(next.drop_last() =~= log);
                assert(next.last() == event);
                assert(players@.dom() =~= old(players)@.dom());
                assert forall|id: PlayerId| #[trigger]
                    old(players)@.contains_key(id) implies players@[id].stat_stream@ == old(
                    players,
                )@[id].stat_stream@ + events_of(next, id) by {
                    if id == event.player {
                        assert(players@[id].stat_stream@ =~= old(players)@[id].stat_stream@
                            + events_of(log, id).push(event.event));
                    }
                }
            }
            i += 1;
        }
        assert(boxscore@.take(boxscore@.len() as int) =~= boxscore@);
        self.playbyplay = boxscore;
    }

    /// Enters one game in a team's tally.
    fn enter_result(teams: &mut TeamMap, id: TeamId, us: u8, them: u8)
        requires
            old(teams)@.contains_key(id),
            old(teams)@[id].results.win < u32::MAX,
            old(teams)@[id].results.lose < u32::MAX,
        ensures
            final(teams)@.dom() == old(teams)@.dom(),
            forall|other: TeamId|
                other != id && old(teams)@.contains_key(other) ==> final(teams)@[other] == old(
                    teams,
                )@[other],
            final(teams)@[id].results.win == with_result(old(teams)@[id], us, them).results.win,
            final(teams)@[id].results.lose == with_result(old(teams)@[id], us, them).results.lose,
            final(teams)@[id].players == old(teams)@[id].players,
            final(teams)@[id].rotation == old(teams)@[id].rotation,
            final(teams)@[id].history == old(teams)@[id].history,
            final(teams)@[id].loc == old(teams)@[id].loc,
            final(teams)@[id].nickname == old(teams)@[id].nickname,
    {
        match teams.remove(&id) {
            Some(mut team) => {
                team.results(us, them);
                teams.insert(id, team);
            },
            None => {},
        }
        assert(teams@.dom() =~= old(teams)@.dom());
    }

    /// The play-by-play of a finished game: what was written while it was
    /// played, then the credit for the pitchers of the side that was last in
    /// the field, then for those of the other side.
    pub open spec fn final_log(self, inning: Inning, boxscore: Seq<GameLogEvent>) -> Seq<
        GameLogEvent,
    > {
        let pit = self.pitching_side(inning);
        let bat = self.batting_side(inning);
        boxscore + credit_entries(pit.pitcher_record@.push(pit.stint(bat.r as i8)), bat.r as i8)
            + credit_entries(bat.pitcher_record@.push(bat.stint(pit.r as i8)), pit.r as i8)
    }

    /// Ends a game that is over: the last stints are filed, the pitchers get
    /// their credit, both teams get the result, and every player gets his
    /// events. The game that is kept has a winner.
    pub fn wrap_up(
        &mut self,
        inning: &Inning,
        teams: &mut TeamMap,
        players: &mut PlayerMap,
        boxscore: GameLog,
    )
        requires
            old(self).closable(*inning, old(teams)@, old(players)@, boxscore@),
        ensures
            final(self).home.r != final(self).away.r,
            final(self).complete(*inning),
            final(self).playbyplay@ == old(self).final_log(*inning, boxscore@),
            entered(old(players)@, final(players)@, final(self).playbyplay@),
            final(self).home.pitcher_record@ == old(self).home.pitcher_record@.push(
                old(self).home.stint(old(self).away.r as i8),
            ),
            final(self).away.pitcher_record@ == old(self).away.pitcher_record@.push(
                old(self).away.stint(old(self).home.r as i8),
            ),
            final(self).home.bases() == old(self).home.bases(),
            final(self).away.bases() == old(self).away.bases(),
            final(self).home.same_but_bases(
                Scoreboard { pitcher_record: final(self).home.pitcher_record, ..old(self).home },
            ),
            final(self).away.same_but_bases(
                Scoreboard { pitcher_record: final(self).away.pitcher_record, ..old(self).away },
            ),
            final(teams)@.dom() == old(teams)@.dom(),
            forall|id: TeamId| #[trigger]
                old(teams)@.contains_key(id) ==> {
                    &&& final(teams)@[id].players == old(teams)@[id].players
                    &&& final(teams)@[id].rotation == old(teams)@[id].rotation
                    &&& final(teams)@[id].history == old(teams)@[id].history
                    &&& final(teams)@[id].loc == old(teams)@[id].loc
                    &&& final(teams)@[id].nickname == old(teams)@[id].nickname
                    &&& id != old(self).home.id && id != old(self).away.id ==> final(teams)@[id]
                        == old(teams)@[id]
                },
            final(teams)@[old(self).home.id].results == with_result(
                old(teams)@[old(self).home.id],
                old(self).home.r,
                old(self).away.r,
            ).results,
            final(teams)@[old(self).away.id].results == with_result(
                old(teams)@[old(self).away.id],
                old(self).away.r,
                old(self).home.r,
            ).results,
    {
        let mut boxscore = boxscore;
        let home_r = self.home.r as i8;
        let away_r = self.away.r as i8;
        if self.is_away_ab(inning) {
            self.home.record_pitcher(away_r);
            Self::record_wls(&mut boxscore, &self.home, away_r);
            self.away.record_pitcher(home_r);
            Self::record_wls(&mut boxscore, &self.away, home_r);
        } else {
            self.away.record_pitcher(home_r);
            Self::record_wls(&mut boxscore, &self.away, home_r);
            self.home.record_pitcher(away_r);
            Self::record_wls(&mut boxscore, &self.home, away_r);
        }
        Self::enter_result(teams, self.home.id, self.home.r, self.away.r);
        Self::enter_result(teams, self.away.id, self.away.r, self.home.r);
        self.end_of_game(players, boxscore);
    }
}

/// The batting order as it is filled from a roster.
pub open spec fn lineup(
    bo: Seq<DefenseInfo>,
    roster: Seq<PlayerId>,
    players: Map<PlayerId, Player>,
) -> Seq<DefenseInfo> {
    let ranked = ranking(batters(roster, players));
    filled(bo, ranked, ranked.len() as int).0
}

/// Whether a side can be set up from a roster: every player of the roster and
/// every batter of the order, as it is filled from the roster, is known, was
/// born by `year` and has room for the fatigue of two lineups, and the season
/// of every player of the roster can be compiled.
pub open spec fn side_ready(
    bo: Seq<DefenseInfo>,
    roster: Seq<PlayerId>,
    players: Map<PlayerId, Player>,
    year: u32,
) -> bool {
    &&& forall|i: int|
        0 <= i < roster.len() ==> {
            let id = #[trigger] roster[i];
            &&& players.contains_key(id)
            &&& players[id].compilable()
            &&& players[id].born <= year
            &&& players[id].fatigue + 18 <= u16::MAX
        }
    &&& forall|i: int|
        0 <= i < 9 ==> {
            let id = #[trigger] lineup(bo, roster, players)[i].player;
            &&& players.contains_key(id)
            &&& players[id].born <= year
            &&& players[id].fatigue + 18 <= u16::MAX
        }
}

/// The batters of a roster depend only on who is known, where he plays and
/// what he has done this season.
pub proof fn lemma_batters_same(
    roster: Seq<PlayerId>,
    before: Map<PlayerId, Player>,
    after: Map<PlayerId, Player>,
)
    requires
        after.dom() == before.dom(),
        forall|id: PlayerId| #[trigger]
            before.contains_key(id) ==> after[id].pos == before[id].pos && after[id].stat_stream
                == before[id].stat_stream,
    ensures
        batters(roster, after) == batters(roster, before),
    decreases roster.len(),
{
    if roster.len() > 0 {
        lemma_batters_same(roster.drop_last(), before, after);
        let id = roster.last();
        assert(after.contains_key(id) == before.contains_key(id));
    }
}

/// The backup, if there is one, is another player at the starter's position.
pub proof fn lemma_backup_index(ranked: Seq<Candidate>, starter: DefenseInfo, from: int)
    requires
        0 <= from,
    ensures
        from <= backup_index(ranked, starter, from),
        backup_index(ranked, starter, from) < ranked.len() ==> {
            let b = backup_index(ranked, starter, from);
            ranked[b].id != starter.player && ranked[b].pos == starter.pos
        },
    decreases ranked.len() - from,
{
    if from < ranked.len() && !(ranked[from].id != starter.player && ranked[from].pos
        == starter.pos) {
        lemma_backup_index(ranked, starter, from + 1);
    }
}

/// Where the game stood when a line of the play-by-play was written.
#[derive(Copy, Clone, Debug, PartialEq, Eq, Structural)]
pub struct EventFrame {
    pub inning: usize,
    pub tophalf: bool,
    pub error: bool,
}

/// The state of a replay of the play-by-play: the frame of the next line and
/// the outs counted in the half.
pub struct Replay {
    pub frame: EventFrame,
    pub outs: int,
}

/// Whether the event ends a batter's turn with an out in his line.
pub open spec fn batter_out(event: Stat) -> bool {
    matches!(event, Stat::Bo | Stat::Bso | Stat::Bgidp | Stat::Bcs)
}

/// The replay after one more event. A fielding error marks the out that
/// follows as not made; a double play counts two; the third out of a half
/// changes sides, and after the bottom half the inning goes up.
pub open spec fn replay_step(state: Replay, event: Stat) -> Replay {
    let error = state.frame.error || event == Stat::Fe;
    let outs = state.outs + if event == Stat::Bgidp {
        1int
    } else {
        0int
    } + if batter_out(event) && !error {
        1int
    } else {
        0int
    };
    if batter_out(event) && outs == 3 {
        Replay {
            frame: EventFrame {
                inning: if state.frame.tophalf {
                    state.frame.inning
                } else {
                    (state.frame.inning + 1) as usize
                },
                tophalf: !state.frame.tophalf,
                error: false,
            },
            outs: 0,
        }
    } else {
        Replay {
            frame: EventFrame {
                inning: state.frame.inning,
                tophalf: state.frame.tophalf,
                error: if batter_out(event) {
                    false
                } else {
                    error
                },
            },
            outs,
        }
    }
}

/// The replay after the first `n` lines, from the top of the first.
pub open spec fn replayed(log: Seq<GameLogEvent>, n: int) -> Replay
    decreases n,
{
    if n <= 0 {
        Replay { frame: EventFrame { inning: 1, tophalf: true, error: false }, outs: 0 }
    } else {
        replay_step(replayed(log, n - 1), log[n - 1].event)
    }
}

/// Whether `result` can come out of a draw over `weights`: an outcome with
/// positive weight, or an out when nothing has weight.
pub open spec fn drawn_from(weights: Seq<(Expect, u32)>, result: Expect) -> bool {
    if total_weight(weights) == 0 {
        result == Expect::Out
    } else {
        exists|i: int| 0 <= i < weights.len() && #[trigger] weights[i].0 == result && weights[i].1 > 0
    }
}

impl Game {
    /// Draws how a plate appearance ends from the blended weights of batter
    /// and pitcher.
    pub fn get_expected_pa(weights: &Vec<(Expect, u32)>, rng: &mut ThreadRng) -> (result: Expect)
        requires
            total_weight(weights@) <= u32::MAX,
        ensures
            drawn_from(weights@, result),
    {
        Self::expected_or_out(pick_weighted(rng, weights))
    }

    /// The outcome drawn, or an out when the draw gave none.
    pub fn expected_or_out(drawn: Option<Expect>) -> (result: Expect)
        ensures
            result == match drawn {
                Some(e) => e,
                None => Expect::Out,
            },
    {
        match drawn {
            Some(e) => e,
            None => Expect::Out,
        }
    }

    /// An out on which the fielder erred is an error; anything else stands.
    pub fn check_for_error(result: Expect, erred: bool) -> (checked: Expect)
        ensures
            checked == if result == Expect::Out && erred {
                Expect::Error
            } else {
                result
            },
    {
        if result == Expect::Out && erred {
            Expect::Error
        } else {
            result
        }
    }
}

/// For each line of the play-by-play of `game`, in order, the inning and half
/// it belongs to and whether a fielding error is pending.
pub fn for_each_event(game: &Game) -> (frames: Vec<EventFrame>)
    requires
        game.playbyplay@.len() < usize::MAX / 2,
    ensures
        frames@.len() == game.playbyplay@.len(),
        forall|i: int|
            0 <= i < frames@.len() ==> #[trigger] frames@[i] == replayed(game.playbyplay@, i).frame,
{
    let mut frames: Vec<EventFrame> = Vec::new();
    let mut inning: usize = 1;
    let mut tophalf = true;
    let mut outs: usize = 0;
    let mut error = false;
    let mut i: usize = 0;
    while i < game.playbyplay.len()
        invariant
            i <= game.playbyplay.len(),
            game.playbyplay@.len() < usize::MAX / 2,
            frames@.len() == i,
            forall|k: int|
                0 <= k < i ==> #[trigger] frames@[k] == replayed(game.playbyplay@, k).frame,
            replayed(game.playbyplay@, i as int) == (Replay {
                frame: EventFrame { inning, tophalf, error },
                outs: outs as int,
            }),
            inning <= i + 1,
            outs <= 2 * i,
        decreases game.playbyplay.len() - i,
    {
        let event = game.playbyplay[i].event;
        frames.push(EventFrame { inning, tophalf, error });
        if event == Stat::Fe {
            error = true;
        }
        if event == Stat::Bgidp {
            outs += 1;
        }
        if matches!(event, Stat::Bo | Stat::Bso | Stat::Bgidp | Stat::Bcs) {
            if !error {
                outs += 1;
            }
            error = false;
            if outs == 3 {
                if !tophalf {
                    inning += 1;
                }
                tophalf = !tophalf;
                outs = 0;
            }
        }
        i += 1;
    }
    frames
}

impl Game {
    /// Whether a plate appearance can be played: the game is not over, it is
    /// in a half, and the counters of the frame and of both sides have room
    /// for it.
    pub open spec fn playable(self, frame: Frame, result: Expect, pitches: u32) -> bool {
        &&& !self.complete(frame.inning)
        &&& frame.wf()
        &&& frame.inning.live()
        &&& frame.virtual_outs + 3 <= u8::MAX
        &&& can_bat(self.batting_side(frame.inning))
        &&& can_pitch(self.pitching_side(frame.inning), result, pitches)
    }

    /// Whether the pitcher of the side in the field can be changed: the game
    /// is not over, the team and the players of its roster are known, so is
    /// the pitcher, and the scores fit a run difference.
    pub open spec fn relievable(
        self,
        inning: Inning,
        teams: Map<TeamId, Team>,
        players: Map<PlayerId, Player>,
    ) -> bool {
        &&& !self.complete(inning)
        &&& teams.contains_key(self.pitching_side(inning).id)
        &&& all_known(teams[self.pitching_side(inning).id].players@, players)
        &&& players.contains_key(self.pitching_side(inning).pitcher)
        &&& self.home.r <= i8::MAX
        &&& self.away.r <= i8::MAX
    }

    /// Whether the game can be wrapped up: it is over, the scores fit a run
    /// difference, the two teams are different and known with room in their
    /// tallies, and every line of the play-by-play, with the credit for the
    /// pitchers, is for a known player.
    pub open spec fn closable(
        self,
        inning: Inning,
        teams: Map<TeamId, Team>,
        players: Map<PlayerId, Player>,
        boxscore: Seq<GameLogEvent>,
    ) -> bool {
        &&& self.complete(inning)
        &&& self.home.r <= i8::MAX
        &&& self.away.r <= i8::MAX
        &&& self.home.id != self.away.id
        &&& teams.contains_key(self.home.id)
        &&& teams.contains_key(self.away.id)
        &&& teams[self.home.id].results.win < u32::MAX
        &&& teams[self.home.id].results.lose < u32::MAX
        &&& teams[self.away.id].results.win < u32::MAX
        &&& teams[self.away.id].results.lose < u32::MAX
        &&& log_known(self.final_log(inning, boxscore), players)
    }

    /// Tells whether a plate appearance can be played.
    pub fn can_play(&self, frame: &Frame, result: Expect, pitches: u32) -> (b: bool)
        ensures
            b == self.playable(*frame, result, pitches),
    {
        if self.is_complete(&frame.inning) {
            return false;
        }
        let live = frame.inning.half == InningHalf::Top || frame.inning.half == InningHalf::Bottom;
        if !(frame.outs <= 3 && frame.outs <= frame.virtual_outs && live == (frame.outs < 3)) {
            return false;
        }
        if !live || frame.virtual_outs > u8::MAX - 3 {
            return false;
        }
        let away_bats = frame.inning.half == InningHalf::Top;
        let (bat, pit) = if away_bats {
            (&self.away, &self.home)
        } else {
            (&self.home, &self.away)
        };
        let charged: u32 = match result {
            Expect::Walk => if pitches < 4 {
                4
            } else {
                pitches
            },
            Expect::Strikeout => if pitches < 3 {
                3
            } else {
                pitches
            },
            _ => pitches,
        };
        bat.ab < 9 && bat.runs_in.len() == 0 && bat.r <= 123 && bat.h < u8::MAX && bat.e < u8::MAX
            && pit.pitches <= u32::MAX - charged && pit.pitcher_outs <= u8::MAX - 2
    }

    /// Tells whether the pitcher of the side in the field can be changed.
    pub fn can_relieve(&self, inning: &Inning, teams: &TeamMap, players: &PlayerMap) -> (b: bool)
        ensures
            b == self.relievable(*inning, teams@, players@),
    {
        let pit = if self.is_away_ab(inning) {
            &self.home
        } else {
            &self.away
        };
        if self.is_complete(inning) || self.home.r > 127 || self.away.r > 127 {
            return false;
        }
        if !players.contains_key(&pit.pitcher) {
            return false;
        }
        match teams.get(&pit.id) {
            Some(team) => Self::knows_all(&team.players, players),
            None => false,
        }
    }

    /// Tells whether every player of a roster is known.
    pub fn knows_all(roster: &Vec<PlayerId>, players: &PlayerMap) -> (b: bool)
        ensures
            b == all_known(roster@, players@),
    {
        let mut i: usize = 0;
        while i < roster.len()
            invariant
                i <= roster.len(),
                forall|k: int| 0 <= k < i ==> players@.contains_key(#[trigger] roster@[k]),
            decreases roster.len() - i,
        {
            if !players.contains_key(&roster[i]) {
                return false;
            }
            i += 1;
        }
        true
    }

    /// Tells whether every line of a log is for a known player.
    pub fn knows_log(log: &GameLog, players: &PlayerMap) -> (b: bool)
        ensures
            b == log_known(log@, players@),
    {
        let mut i: usize = 0;
        while i < log.len()
            invariant
                i <= log.len(),
                forall|k: int| 0 <= k < i ==> players@.contains_key(#[trigger] log@[k].player),
            decreases log.len() - i,
        {
            if !players.contains_key(&log[i].player) {
                return false;
            }
            i += 1;
        }
        true
    }

    /// The stints of a side with the one under way filed.
    fn stints_closed(side: &Scoreboard, other_r: i8) -> (stints: Vec<PitcherRecord>)
        requires
            side.r <= i8::MAX,
            0 <= other_r,
        ensures
            stints@ == side.pitcher_record@.push(side.stint(other_r)),
    {
        let mut stints: Vec<PitcherRecord> = Vec::new();
        let mut i: usize = 0;
        while i < side.pitcher_record.len()
            invariant
                i <= side.pitcher_record.len(),
                stints@ == side.pitcher_record@.take(i as int),
            decreases side.pitcher_record.len() - i,
        {
            stints.push(side.pitcher_record[i]);
            assert(stints@ =~= side.pitcher_record@.take(i + 1));
            i += 1;
        }
        assert(side.pitcher_record@.take(side.pitcher_record@.len() as int) =~= side.pitcher_record@);
        stints.push(
            PitcherRecord {
                pitcher: side.pitcher,
                outs: side.pitcher_outs,
                run_diff_in: side.pitcher_run_diff_in,
                run_diff_out: side.r as i8 - other_r,
            },
        );
        stints
    }

    /// Tells whether the game can be wrapped up.
    pub fn can_wrap_up(
        &self,
        inning: &Inning,
        teams: &TeamMap,
        players: &PlayerMap,
        boxscore: &GameLog,
    ) -> (b: bool)
        ensures
            b == self.closable(*inning, teams@, players@, boxscore@),
    {
        if !self.is_complete(inning) || self.home.r > 127 || self.away.r > 127 || self.home.id
            == self.away.id {
            return false;
        }
        let home_ok = match teams.get(&self.home.id) {
            Some(t) => t.results.win < u32::MAX && t.results.lose < u32::MAX,
            None => false,
        };
        let away_ok = match teams.get(&self.away.id) {
            Some(t) => t.results.win < u32::MAX && t.results.lose < u32::MAX,
            None => false,
        };
        if !home_ok || !away_ok {
            return false;
        }
        let (bat, pit) = if self.is_away_ab(inning) {
            (&self.away, &self.home)
        } else {
            (&self.home, &self.away)
        };
        let mut credit: GameLog = Vec::new();
        let pit_stints = Self::stints_closed(pit, bat.r as i8);
        Self::credit(&mut credit, &pit_stints, bat.r as i8);
        let bat_stints = Self::stints_closed(bat, pit.r as i8);
        Self::credit(&mut credit, &bat_stints, pit.r as i8);
        let known = Self::knows_log(boxscore, players) && Self::knows_log(&credit, players);
        proof {
            let whole = self.final_log(*inning, boxscore@);
            assert(whole =~= boxscore@ + credit@);
            if known {
                assert forall|i: int| 0 <= i < whole.len() implies players@.contains_key(
                    #[trigger] whole[i].player,
                ) by {
                    if i < boxscore@.len() {
                        assert(whole[i] == boxscore@[i]);
                    } else {
                        assert(whole[i] == credit@[i - boxscore@.len()]);
                    }
                }
            }
            if log_known(whole, players@) {
                assert forall|i: int| 0 <= i < boxscore@.len() implies players@.contains_key(
                    #[trigger] boxscore@[i].player,
                ) by {
                    assert(whole[i] == boxscore@[i]);
                }
                assert forall|i: int| 0 <= i < credit@.len() implies players@.contains_key(
                    #[trigger] credit@[i].player,
                ) by {
                    assert(whole[boxscore@.len() + i] == credit@[i]);
                }
            }
        }
        known
    }

    /// Tells whether both sides can be set up.
    pub fn ready(&self, players: &PlayerMap, teams: &TeamMap, year: u32) -> (b: bool)
        ensures
            b == Self::can_set_up(*self, players@, teams@, year),
    {
        if self.home.id == self.away.id {
            return false;
        }
        let (home, away) = match (teams.get(&self.home.id), teams.get(&self.away.id)) {
            (Some(h), Some(a)) => (h, a),
            _ => {
                return false;
            },
        };
        if !players.contains_key(&home.rotation[0]) || !players.contains_key(&away.rotation[0]) {
            return false;
        }
        Self::is_side_ready(&self.home, &home.players, players, year) && Self::is_side_ready(
            &self.away,
            &away.players,
            players,
            year,
        )
    }

    /// Tells whether a side can be set up from a roster.
    pub fn is_side_ready(side: &Scoreboard, roster: &Vec<PlayerId>, players: &PlayerMap, year: u32) -> (b:
        bool)
        ensures
            b == side_ready(side.bo@, roster@, players@, year),
    {
        let mut r: usize = 0;
        while r < roster.len()
            invariant
                r <= roster.len(),
                forall|k: int|
                    0 <= k < r ==> {
                        let id = #[trigger] roster@[k];
                        &&& players@.contains_key(id)
                        &&& players@[id].compilable()
                        &&& players@[id].born <= year
                        &&& players@[id].fatigue + 18 <= u16::MAX
                    },
            decreases roster.len() - r,
        {
            let fit = match players.get(&roster[r]) {
                Some(p) => p.can_compile() && p.born <= year && p.fatigue <= u16::MAX - 18,
                None => false,
            };
            if !fit {
                assert(!({
                    let id = roster@[r as int];
                    &&& players@.contains_key(id)
                    &&& players@[id].compilable()
                    &&& players@[id].born <= year
                    &&& players@[id].fatigue + 18 <= u16::MAX
                }));
                return false;
            }
            r += 1;
        }
        let ranked = Self::rank_batters(roster, players);
        let mut scratch = Scoreboard::new(side.id);
        scratch.bo = side.bo;
        Self::fill_order(&mut scratch, &ranked);
        let mut i: usize = 0;
        while i < 9
            invariant
                i <= 9,
                scratch.bo@ == lineup(side.bo@, roster@, players@),
                forall|k: int|
                    0 <= k < i ==> {
                        let id = #[trigger] scratch.bo@[k].player;
                        &&& players@.contains_key(id)
                        &&& players@[id].born <= year
                        &&& players@[id].fatigue + 18 <= u16::MAX
                    },
            decreases 9 - i,
        {
            let fit = match players.get(&scratch.bo[i].player) {
                Some(p) => p.born <= year && p.fatigue <= u16::MAX - 18,
                None => false,
            };
            if !fit {
                assert(!({
                    let id = lineup(side.bo@, roster@, players@)[i as int].player;
                    &&& players@.contains_key(id)
                    &&& players@[id].born <= year
                    &&& players@[id].fatigue + 18 <= u16::MAX
                }));
                return false;
            }
            i += 1;
        }
        true
    }
}

/// The positions of a batting order: every position that is not a pitcher's.
pub open spec fn batting_positions() -> Seq<Position> {
    seq![
        Position::Catcher,
        Position::FirstBase,
        Position::SecondBase,
        Position::ThirdBase,
        Position::ShortStop,
        Position::LeftField,
        Position::CenterField,
        Position::RightField,
        Position::DesignatedHitter,
    ]
}

/// Whether the order has somebody at every position that is not a pitcher's.
pub open spec fn fully_fielded(bo: Seq<DefenseInfo>) -> bool {
    forall|i: int| 0 <= i < 9 ==> has_position(bo, #[trigger] batting_positions()[i])
}

/// In an order that is fully fielded every position but a pitcher's is
/// fielded.
pub proof fn lemma_fully_fielded(bo: Seq<DefenseInfo>, pos: Position)
    requires
        fully_fielded(bo),
        !pos.pitcher(),
    ensures
        has_position(bo, pos),
{
    let f = batting_positions();
    assert(has_position(bo, f[0]));
    assert(has_position(bo, f[1]));
    assert(has_position(bo, f[2]));
    assert(has_position(bo, f[3]));
    assert(has_position(bo, f[4]));
    assert(has_position(bo, f[5]));
    assert(has_position(bo, f[6]));
    assert(has_position(bo, f[7]));
    assert(has_position(bo, f[8]));
}

impl Game {
    /// What one plate appearance does to a game: the side at bat runs the
    /// bases and scores, the pitcher is charged, the outs are counted, and the
    /// lines are written to the play-by-play in the making.
    pub open spec fn played(
        before: Game,
        after: Game,
        frame: Frame,
        next_frame: Frame,
        log: Seq<GameLogEvent>,
        next_log: Seq<GameLogEvent>,
        result: Expect,
        target: Position,
        fielder_id: PlayerId,
        pitches: u32,
    ) -> bool {
        let batting = before.batting_side(frame.inning);
        let pitching = before.pitching_side(frame.inning);
        &&& batted(
            batting,
            after.batting_side(frame.inning),
            frame,
            pitching.pitcher,
            result,
            target,
        )
        &&& pitched(
            pitching,
            after.pitching_side(frame.inning),
            batting,
            frame,
            result,
            target,
            pitches,
        )
        &&& next_frame == frame.charged(
            outs_made(batting.bases(), result, target, frame.outs as int),
            result == Expect::Error,
        )
        &&& next_log == log + written(batting, pitching, frame, result, target, fielder_id)
        &&& after.playbyplay == before.playbyplay
    }

    /// The player who fields `pos` for a side: the pitcher for any pitching
    /// role, else the first in the batting order at that position.
    pub open spec fn fielder(side: Scoreboard, pos: Position) -> PlayerId {
        if pos.pitcher() {
            side.pitcher
        } else {
            side.bo@[slot_of(side.bo@, pos, 0)].player
        }
    }

    /// Whether a plate appearance can be resolved: the game is in a half, the
    /// counters have room whatever the outcome, batter and pitcher are known
    /// with spray charts that can be drawn from, the weights of the outcomes
    /// can be added up, and the side in the field has somebody at every
    /// position that is not a pitcher's.
    pub open spec fn resolvable(
        self,
        frame: Frame,
        players: Map<PlayerId, Player>,
        weights: Seq<(Expect, u32)>,
        pitches: u32,
    ) -> bool {
        let batting = self.batting_side(frame.inning);
        let pitching = self.pitching_side(frame.inning);
        &&& self.playable(frame, Expect::Walk, pitches)
        &&& total_weight(weights) <= u32::MAX
        &&& players.contains_key(batting.bo@[batting.ab as int].player)
        &&& players.contains_key(pitching.pitcher)
        &&& players[batting.bo@[batting.ab as int].player].bat_spray.drawable()
        &&& players[pitching.pitcher].pit_spray.drawable()
        &&& fully_fielded(pitching.bo@)
    }

    /// Tells whether a plate appearance can be resolved.
    pub fn can_resolve(
        &self,
        frame: &Frame,
        players: &PlayerMap,
        weights: &Vec<(Expect, u32)>,
        pitches: u32,
    ) -> (b: bool)
        ensures
            b == self.resolvable(*frame, players@, weights@, pitches),
    {
        if !self.can_play(frame, Expect::Walk, pitches) || !crate::chance::can_draw(weights) {
            return false;
        }
        let (bat, pit) = if self.is_away_ab(&frame.inning) {
            (&self.away, &self.home)
        } else {
            (&self.home, &self.away)
        };
        let charts = match (players.get(&bat.bo[bat.ab].player), players.get(&pit.pitcher)) {
            (Some(b), Some(p)) => b.bat_spray.is_drawable() && p.pit_spray.is_drawable(),
            _ => false,
        };
        if !charts {
            return false;
        }
        pit.is_fully_fielded()
    }

    /// The batter who is up and the pitcher he faces.
    pub fn matchup(&self, inning: &Inning) -> (ids: (PlayerId, PlayerId))
        requires
            self.batting_side(*inning).ab < 9,
        ensures
            ids.0 == self.batting_side(*inning).bo@[self.batting_side(*inning).ab as int].player,
            ids.1 == self.pitching_side(*inning).pitcher,
    {
        if self.is_away_ab(inning) {
            (self.away.bo[self.away.ab].player, self.home.pitcher)
        } else {
            (self.home.bo[self.home.ab].player, self.away.pitcher)
        }
    }

    /// Resolves one plate appearance. The outcome is drawn from the weights,
    /// and where the ball goes from the spray charts of batter and pitcher.
    /// When it is an out and `erred` tells that the fielder misplays it, it
    /// becomes an error. Then the plate appearance is played. Gives how it
    /// went and where the ball went.
    pub fn resolve(
        &mut self,
        frame: &mut Frame,
        boxscore: &mut GameLog,
        players: &PlayerMap,
        weights: &Vec<(Expect, u32)>,
        erred: bool,
        pitches: u32,
        rng: &mut ThreadRng,
    ) -> (went: (Expect, Position))
        requires
            old(self).resolvable(*old(frame), players@, weights@, pitches),
        ensures
            ({
                let batting = old(self).batting_side(old(frame).inning);
                let pitching = old(self).pitching_side(old(frame).inning);
                let batter = players@[batting.bo@[batting.ab as int].player];
                let pitcher = players@[pitching.pitcher];
                exists|drawn: Expect|
                    {
                        &&& #[trigger] drawn_from(weights@, drawn)
                        &&& Player::sprayed(batter.bat_spray.merged(pitcher.pit_spray, drawn), went.1)
                        &&& went.0 == if drawn == Expect::Out && erred {
                            Expect::Error
                        } else {
                            drawn
                        }
                    }
            }),
            Self::played(
                *old(self),
                *final(self),
                *old(frame),
                *final(frame),
                old(boxscore)@,
                final(boxscore)@,
                went.0,
                went.1,
                Self::fielder(old(self).pitching_side(old(frame).inning), went.1),
                pitches,
            ),
            final(frame).wf(),
    {
        let (batter_id, pitcher_id) = self.matchup(&frame.inning);
        let drawn = Self::get_expected_pa(weights, rng);
        let target = match (players.get(&batter_id), players.get(&pitcher_id)) {
            (Some(batter), Some(pitcher)) => Player::determine_spray(
                &batter.bat_spray,
                &pitcher.pit_spray,
                &drawn,
                rng,
            ),
            _ => Position::CenterField,
        };
        proof {
            if !target.pitcher() {
                lemma_fully_fielded(old(self).pitching_side(frame.inning).bo@, target);
            }
        }
        let fielder_id = if self.is_away_ab(&frame.inning) {
            self.home.player_at_pos(target)
        } else {
            self.away.player_at_pos(target)
        };
        let result = Self::check_for_error(drawn, erred);
        assert(drawn_from(weights@, drawn));
        self.plate_appearance(frame, boxscore, result, target, fielder_id, pitches);
        (result, target)
    }
}

impl Frame {
    /// Whether the sides can change: the game is between two halves and the
    /// inning can still be counted up.
    pub open spec fn turnable(self) -> bool {
        self.wf() && !self.inning.live() && self.inning.number < u8::MAX
    }

    /// Tells whether the sides can change.
    pub fn can_turn(&self) -> (b: bool)
        ensures
            b == self.turnable(),
    {
        let live = self.inning.half == InningHalf::Top || self.inning.half == InningHalf::Bottom;
        self.outs <= 3 && self.outs <= self.virtual_outs && live == (self.outs < 3) && !live
            && self.inning.number < u8::MAX
    }
}

/// What a plate appearance writes depends on nothing but the batter who is
/// up, the runners, the pitcher, the outs, and how the plate appearance went:
/// two games that agree in these get the same lines.
pub proof fn lemma_same_play_same_lines(
    batting: Scoreboard,
    pitching: Scoreboard,
    other_batting: Scoreboard,
    other_pitching: Scoreboard,
    frame: Frame,
    other_frame: Frame,
    result: Expect,
    target: Position,
    fielder: PlayerId,
)
    requires
        batting.ab < 9,
        batting.ab == other_batting.ab,
        batting.bo@[batting.ab as int].player == other_batting.bo@[batting.ab as int].player,
        batting.bases() == other_batting.bases(),
        pitching.pitcher == other_pitching.pitcher,
        frame.outs == other_frame.outs,
        frame.earned() == other_frame.earned(),
    ensures
        written(batting, pitching, frame, result, target, fielder) == written(
            other_batting,
            other_pitching,
            other_frame,
            result,
            target,
            fielder,
        ),
        outs_made(batting.bases(), result, target, frame.outs as int) == outs_made(
            other_batting.bases(),
            result,
            target,
            other_frame.outs as int,
        ),
{
}

/// Whether a line of the play-by-play is left out of the line score: the
/// credit given to pitchers and the outs they get.
pub open spec fn off_the_line(event: Stat) -> bool {
    matches!(
        event,
        Stat::Pw | Stat::Pcg | Stat::Psho | Stat::Pl | Stat::Psv | Stat::Pbs | Stat::Phld | Stat::Po
            | Stat::Pso
    )
}

/// The runs of one side by inning after one more line: the inning is opened
/// when it is the next one, and a run counts for it.
pub open spec fn line_step(runs: Seq<u32>, inning: usize, event: Stat) -> Seq<u32> {
    let opened = if runs.len() < inning {
        runs.push(0)
    } else {
        runs
    };
    if event == Stat::Br && 1 <= inning <= opened.len() {
        opened.update(inning - 1, (opened[inning - 1] + 1) as u32)
    } else {
        opened
    }
}

/// The runs by inning of the visitors and of the home side, as the first `n`
/// lines of a play-by-play give them.
pub open spec fn line_score(log: Seq<GameLogEvent>, n: int) -> (Seq<u32>, Seq<u32>)
    decreases n,
{
    if n <= 0 {
        (Seq::empty(), Seq::empty())
    } else {
        let (away, home) = line_score(log, n - 1);
        let frame = replayed(log, n - 1).frame;
        let event = log[n - 1].event;
        if off_the_line(event) {
            (away, home)
        } else if frame.tophalf {
            (line_step(away, frame.inning, event), home)
        } else {
            (away, line_step(home, frame.inning, event))
        }
    }
}

/// The player of the last of the first `n` lines that enters `stat`, if any.
pub open spec fn last_with(log: Seq<GameLogEvent>, stat: Stat, n: int) -> Option<PlayerId>
    decreases n,
{
    if n <= 0 {
        None
    } else if log[n - 1].event == stat {
        Some(log[n - 1].player)
    } else {
        last_with(log, stat, n - 1)
    }
}

/// The head of a box score: the runs of both sides by inning and the pitchers
/// of the decision.
pub struct BoxScore {
    pub away_runs: Vec<u32>,
    pub home_runs: Vec<u32>,
    pub winner: Option<PlayerId>,
    pub loser: Option<PlayerId>,
    pub save: Option<PlayerId>,
}

/// No inning of a line score has more runs than lines were read.
pub proof fn lemma_line_score_bounded(log: Seq<GameLogEvent>, n: int)
    requires
        0 <= n <= log.len(),
        n <= u32::MAX,
    ensures
        forall|k: int| 0 <= k < line_score(log, n).0.len() ==> #[trigger] line_score(log, n).0[k] <= n,
        forall|k: int| 0 <= k < line_score(log, n).1.len() ==> #[trigger] line_score(log, n).1[k] <= n,
    decreases n,
{
    if n > 0 {
        lemma_line_score_bounded(log, n - 1);
        let (away, home) = line_score(log, n - 1);
        let frame = replayed(log, n - 1).frame;
        let event = log[n - 1].event;
        lemma_line_step_bounded(away, frame.inning, event, n - 1);
        lemma_line_step_bounded(home, frame.inning, event, n - 1);
    }
}

/// One more line adds at most one run to an inning.
pub proof fn lemma_line_step_bounded(runs: Seq<u32>, inning: usize, event: Stat, n: int)
    requires
        0 <= n < u32::MAX,
        forall|k: int| 0 <= k < runs.len() ==> #[trigger] runs[k] <= n,
    ensures
        forall|k: int|
            0 <= k < line_step(runs, inning, event).len() ==> #[trigger] line_step(
                runs,
                inning,
                event,
            )[k] <= n + 1,
{
    let opened = if runs.len() < inning {
        runs.push(0)
    } else {
        runs
    };
    assert forall|k: int| 0 <= k < opened.len() implies #[trigger] opened[k] <= n by {
        if k < runs.len() {
            assert(opened[k] == runs[k]);
        }
    }
}

impl Game {
    /// The events of the play-by-play that are entered for a player, in
    /// order.
    pub fn events_for(&self, id: PlayerId) -> (events: Vec<Stat>)
        ensures
            events@ == events_of(self.playbyplay@, id),
    {
        let mut events: Vec<Stat> = Vec::new();
        let mut i: usize = 0;
        assert(self.playbyplay@.take(0) =~= Seq::empty());
        while i < self.playbyplay.len()
            invariant
                i <= self.playbyplay.len(),
                events@ == events_of(self.playbyplay@.take(i as int), id),
            decreases self.playbyplay.len() - i,
        {
            proof {
                assert(self.playbyplay@.take(i + 1).drop_last() =~= self.playbyplay@.take(i as int));
                assert(self.playbyplay@.take(i + 1).last() == self.playbyplay@[i as int]);
            }
            if self.playbyplay[i].player == id {
                events.push(self.playbyplay[i].event);
            }
            i += 1;
        }
        assert(self.playbyplay@.take(self.playbyplay@.len() as int) =~= self.playbyplay@);
        events
    }

    /// The head of the box score of the game.
    pub fn box_score(&self) -> (head: BoxScore)
        requires
            self.playbyplay@.len() < u32::MAX,
            self.playbyplay@.len() < usize::MAX / 2,
        ensures
            (head.away_runs@, head.home_runs@) == line_score(
                self.playbyplay@,
                self.playbyplay@.len() as int,
            ),
            head.winner == last_with(self.playbyplay@, Stat::Pw, self.playbyplay@.len() as int),
            head.loser == last_with(self.playbyplay@, Stat::Pl, self.playbyplay@.len() as int),
            head.save == last_with(self.playbyplay@, Stat::Psv, self.playbyplay@.len() as int),
    {
        let frames = for_each_event(self);
        let mut away_runs: Vec<u32> = Vec::new();
        let mut home_runs: Vec<u32> = Vec::new();
        let mut winner: Option<PlayerId> = None;
        let mut loser: Option<PlayerId> = None;
        let mut save: Option<PlayerId> = None;
        let ghost log = self.playbyplay@;
        let mut i: usize = 0;
        while i < self.playbyplay.len()
            invariant
                i <= self.playbyplay.len(),
                log == self.playbyplay@,
                log.len() < u32::MAX,
                frames@.len() == log.len(),
                forall|k: int|
                    0 <= k < frames@.len() ==> #[trigger] frames@[k] == replayed(log, k).frame,
                (away_runs@, home_runs@) == line_score(log, i as int),
                winner == last_with(log, Stat::Pw, i as int),
                loser == last_with(log, Stat::Pl, i as int),
                save == last_with(log, Stat::Psv, i as int),
            decreases self.playbyplay.len() - i,
        {
            let event = self.playbyplay[i];
            let frame = frames[i];
            proof {
                lemma_line_score_bounded(log, i as int);
                assert(away_runs@ == line_score(log, i as int).0);
                assert(home_runs@ == line_score(log, i as int).1);
                assert(frame == replayed(log, i as int).frame);
            }
            match event.event {
                Stat::Pw => {
                    winner = Some(event.player);
                },
                Stat::Pl => {
                    loser = Some(event.player);
                },
                Stat::Psv => {
                    save = Some(event.player);
                },
                _ => {},
            }
            let skip = matches!(
                event.event,
                Stat::Pw | Stat::Pcg | Stat::Psho | Stat::Pl | Stat::Psv | Stat::Pbs | Stat::Phld
                    | Stat::Po | Stat::Pso
            );
            if !skip {
                if frame.tophalf {
                    Self::count_run(&mut away_runs, frame.inning, event.event, Ghost(i as int));
                } else {
                    Self::count_run(&mut home_runs, frame.inning, event.event, Ghost(i as int));
                }
            }
            i += 1;
        }
        BoxScore { away_runs, home_runs, winner, loser, save }
    }

    /// Enters one line in the runs of a side by inning.
    fn count_run(runs: &mut Vec<u32>, inning: usize, event: Stat, Ghost(n): Ghost<int>)
        requires
            n < u32::MAX,
            forall|k: int| 0 <= k < old(runs)@.len() ==> #[trigger] old(runs)@[k] <= n,
        ensures
            final(runs)@ == line_step(old(runs)@, inning, event),
    {
        if runs.len() < inning {
            runs.push(0);
        }
        if event == Stat::Br && 1 <= inning && inning <= runs.len() {
            let so_far = runs[inning - 1];
            runs.set(inning - 1, so_far + 1);
        }
    }
}

/// A batter who moves up from the empty box ends on the base he was to
/// reach, with the bases behind him empty, or has scored after four bases as
/// the last of those who did.
pub proof fn lemma_batter_arrives(bases: Bases, batter: RunnerInfo, amt: int)
    requires
        bases.onbase.len() == 4,
        bases.onbase[0] is None,
        1 <= amt <= 4,
    ensures
        ({
            let after = bases.with_batter(batter).advance_through(0, amt);
            &&& after.onbase.len() == 4
            &&& forall|j: int| 0 <= j < amt && j < 4 ==> after.onbase[j] is None
            &&& amt < 4 ==> after.onbase[amt] == Some(batter)
            &&& amt == 4 ==> after.runs_in.len() > 0 && after.runs_in.last() == batter
        }),
{
    let b0 = bases.with_batter(batter);
    b0.lemma_gap(0);
    let b1 = b0.advance(0);
    assert(b1.onbase.len() == 4 && b1.onbase[0] is None && b1.onbase[1] == Some(batter));
    assert(b0.advance_through(0, 1) == b1) by {
        reveal_with_fuel(Bases::advance_through, 2);
    }
    if amt >= 2 {
        b1.lemma_gap(1);
        let b2 = b1.advance(1);
        assert(b2.onbase.len() == 4 && b2.onbase[0] is None && b2.onbase[1] is None
            && b2.onbase[2] == Some(batter));
        assert(b0.advance_through(0, 2) == b2) by {
            reveal_with_fuel(Bases::advance_through, 3);
        }
        if amt >= 3 {
            b2.lemma_gap(2);
            let b3 = b2.advance(2);
            assert(b3.onbase.len() == 4 && b3.onbase[0] is None && b3.onbase[1] is None
                && b3.onbase[2] is None && b3.onbase[3] == Some(batter));
            assert(b0.advance_through(0, 3) == b3) by {
                reveal_with_fuel(Bases::advance_through, 4);
            }
            if amt >= 4 {
                b3.lemma_gap(3);
                assert(b3.gap(4) == 4);
                let b4 = b3.advance(3);
                assert(b4.onbase.len() == 4 && b4.onbase[0] is None && b4.onbase[1] is None
                    && b4.onbase[2] is None && b4.onbase[3] is None);
                assert(b4.runs_in == b3.runs_in.push(batter));
                assert(b0.advance_through(0, 4) == b4) by {
                    reveal_with_fuel(Bases::advance_through, 5);
                }
            }
        }
    }
}

/// One when the base is taken, else zero.
pub open spec fn taken(base: Option<RunnerInfo>) -> int {
    if base is Some {
        1
    } else {
        0
    }
}

/// The number of runners on the bases, the batter's box counted in.
pub open spec fn on_base(bases: Bases) -> int {
    taken(bases.onbase[0]) + taken(bases.onbase[1]) + taken(bases.onbase[2]) + taken(bases.onbase[3])
}

/// Advancing a runner loses nobody: whoever leaves the bases has scored.
pub proof fn lemma_advance_keeps_runners(bases: Bases, start: int)
    requires
        bases.onbase.len() == 4,
    ensures
        on_base(bases.advance(start)) + bases.advance(start).runs_in.len() == on_base(bases)
            + bases.runs_in.len(),
{
    if 0 <= start <= 3 {
        bases.lemma_gap(start);
        bases.lemma_gap(0);
        bases.lemma_gap(1);
        bases.lemma_gap(2);
        bases.lemma_gap(3);
        assert(bases.gap(4) == 4);
    }
}

/// Moving up several bases loses nobody.
pub proof fn lemma_advance_through_keeps_runners(bases: Bases, from: int, upto: int)
    requires
        bases.onbase.len() == 4,
    ensures
        on_base(bases.advance_through(from, upto)) + bases.advance_through(from, upto).runs_in.len()
            == on_base(bases) + bases.runs_in.len(),
    decreases upto - from,
{
    if from < upto {
        lemma_advance_keeps_runners(bases, from);
        lemma_advance_scores(bases, from);
        lemma_advance_through_keeps_runners(bases.advance(from), from + 1, upto);
    }
}

/// A plate appearance loses nobody: with the batter's box empty before it,
/// the runners on base and those who scored are afterwards as many as
/// before, with the batter added when he reaches base and a runner taken off
/// when the out is a double play.
pub proof fn lemma_nobody_lost(
    bases: Bases,
    result: Expect,
    target: Position,
    outs: int,
    runner: RunnerInfo,
)
    requires
        bases.onbase.len() == 4,
        bases.onbase[0] is None,
    ensures
        ({
            let after = bases_after(bases, result, target, outs, runner);
            on_base(after) + after.runs_in.len() == on_base(bases) + bases.runs_in.len() + (if result.bases()
                > 0 {
                1int
            } else {
                0int
            }) - (if outs_made(bases, result, target, outs) == 2 {
                1int
            } else {
                0int
            })
        }),
{
    lemma_advance_keeps_runners(bases, 3);
    lemma_advance_scores(bases, 3);
    lemma_advance_keeps_runners(bases.advance(3), 2);
    lemma_advance_scores(bases.advance(3), 2);
    lemma_advance_keeps_runners(bases, 1);
    let moved = if result == Expect::Single && target == Position::RightField {
        bases.advance(3).advance(2)
    } else {
        bases
    };
    let put = moved.with_batter(
        if result == Expect::Error {
            RunnerInfo { runner: runner.runner, pitcher: runner.pitcher, earned: false }
        } else {
            runner
        },
    );
    lemma_advance_through_keeps_runners(put, 0, result.bases());
    assert(moved.onbase[0] is None) by {
        bases.lemma_gap(3);
        bases.advance(3).lemma_gap(2);
        bases.advance(3).lemma_gap(3);
    }
}

impl Inning {
    /// The halves the visitors have batted to the end, in a game that began
    /// at the top of the first and went on a half at a time.
    pub open spec fn away_halves(self) -> int {
        self.number - 1 + if self.half == InningHalf::Top {
            0int
        } else {
            1int
        }
    }

    /// The halves the home side has batted to the end.
    pub open spec fn home_halves(self) -> int {
        self.number - 1 + if self.half == InningHalf::End {
            1int
        } else {
            0int
        }
    }
}

/// The third out of a half adds that half to those its side has batted, and
/// nothing else does: a plate appearance that leaves the half open and a
/// change of sides leave both counts as they are.
pub proof fn lemma_halves_go_one_at_a_time(frame: Frame, made: int, error: bool)
    requires
        frame.wf(),
        0 <= made,
        frame.outs + made <= 3,
        frame.inning.number < u8::MAX,
    ensures
        frame.inning.live() ==> frame.charged(made, error).inning.away_halves()
            == frame.inning.away_halves() + if frame.inning.half == InningHalf::Top && frame.outs
            + made == 3 {
            1int
        } else {
            0int
        },
        frame.inning.live() ==> frame.charged(made, error).inning.home_halves()
            == frame.inning.home_halves() + if frame.inning.half == InningHalf::Bottom && frame.outs
            + made == 3 {
            1int
        } else {
            0int
        },
        !frame.inning.live() ==> frame.turned().inning.away_halves() == frame.inning.away_halves()
            && frame.turned().inning.home_halves() == frame.inning.home_halves(),
{
}

/// How a game that is over has gone: the visitors have batted nine halves or
/// more; when they lead, the home side has batted as many; when the home
/// side leads, it has batted at most one half fewer, the last of which it
/// did not need or did not finish.
pub proof fn lemma_complete_course(game: Game, inning: Inning)
    requires
        game.complete(inning),
    ensures
        inning.away_halves() >= 9,
        game.away.r > game.home.r ==> inning.home_halves() == inning.away_halves(),
        game.home.r > game.away.r ==> inning.away_halves() - 1 <= inning.home_halves()
            <= inning.away_halves(),
{
}

/// A game that is over has a winner.
pub proof fn lemma_complete_has_winner(game: Game, inning: Inning)
    requires
        game.complete(inning),
    ensures
        game.home.r != game.away.r,
        inning.number >= 9,
        inning.half != InningHalf::Top,
        game.away.r > game.home.r ==> inning.half == InningHalf::End,
{
}

/// In every well-formed frame the sides change on exactly three outs, and the
/// virtual outs are never fewer than the real ones.
pub proof fn lemma_three_outs(frame: Frame)
    requires
        frame.wf(),
    ensures
        !frame.inning.live() <==> frame.outs == 3,
        frame.virtual_outs >= frame.outs,
{
}

} // verus!
