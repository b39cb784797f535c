//! A game kept by its line score alone: the runs, the bases and where the
//! inning stands, without a play-by-play.

use crate::game::{slot_of, Bases, DefenseInfo, Inning, InningHalf, RunnerInfo};
use crate::player::{PlayerId, Position};
use crate::team::TeamId;
use vstd::prelude::*;

verus! {

/// One team's side of the line score.
pub struct Scoreboard {
    pub id: TeamId,
    pub onbase: [Option<RunnerInfo>; 4],
    pub runs_in: Vec<RunnerInfo>,
    pub r: u8,
    pub bo: [DefenseInfo; 9],
    pub ab: usize,
    pub pitcher_of_record: PlayerId,
}

/// The bases after the batter, standing in the box, has pushed the runners
/// `n` times: each push moves the unbroken line of runners from first on up
/// one base and puts the batter on first, and he stays in the box as well.
pub open spec fn pushed(bases: Bases, batter: RunnerInfo, n: int) -> Bases
    decreases n,
{
    if n <= 0 {
        bases.with_batter(batter)
    } else {
        pushed(bases, batter, n - 1).advance(0).with_batter(batter)
    }
}

/// The bases with the first `amt` emptied.
pub open spec fn cleared(bases: Bases, amt: int) -> Bases {
    Bases {
        onbase: Seq::new(
            4,
            |j: int|
                if j < amt {
                    None
                } else {
                    bases.onbase[j]
                },
        ),
        runs_in: bases.runs_in,
    }
}

impl Scoreboard {
    /// The bases of this side, as a value.
    pub open spec fn bases(self) -> Bases {
        Bases { onbase: self.onbase@, runs_in: self.runs_in@ }
    }

    /// Whether everything but the bases and the runners who scored is as in
    /// `other`.
    pub open spec fn same_but_bases(self, other: Scoreboard) -> bool {
        &&& self.id == other.id
        &&& self.r == other.r
        &&& self.bo == other.bo
        &&& self.ab == other.ab
        &&& self.pitcher_of_record == other.pitcher_of_record
    }

    /// A side that has not played yet.
    pub open spec fn fresh(self, id: TeamId) -> bool {
        &&& self.id == id
        &&& self.r == 0
        &&& self.onbase@ == Seq::new(4, |i: int| None::<RunnerInfo>)
        &&& self.runs_in@.len() == 0
        &&& self.bo@ == Seq::new(
            9,
            |i: int| DefenseInfo { player: 0, pos: Position::StartingPitcher },
        )
        &&& self.ab == 0
        &&& self.pitcher_of_record == 0
    }

    /// A side that has not played yet.
    pub fn new(id: TeamId) -> (s: Self)
        ensures
            s.fresh(id),
    {
        let empty = DefenseInfo { player: 0, pos: Position::StartingPitcher };
        let s = Scoreboard {
            id,
            onbase: [None, None, None, None],
            runs_in: Vec::new(),
            r: 0,
            bo: [empty, empty, empty, empty, empty, empty, empty, empty, empty],
            ab: 0,
            pitcher_of_record: 0,
        };
        assert(s.onbase@ =~= Seq::new(4, |i: int| None::<RunnerInfo>));
        assert(s.bo@ =~= Seq::new(
            9,
            |i: int| DefenseInfo { player: 0, pos: Position::StartingPitcher },
        ));
        s
    }

    /// Puts the batter on and moves him up `amt` bases, pushing the runners
    /// ahead of him; gives the outs made, which is none.
    pub fn advance_onbase(
        &mut self,
        batter: PlayerId,
        pitcher: PlayerId,
        earned: bool,
        amt: u8,
    ) -> (outs: u8)
        requires
            amt <= 4,
        ensures
            outs == 0,
            final(self).bases() == cleared(
                pushed(
                    old(self).bases(),
                    RunnerInfo { runner: batter, pitcher, earned },
                    amt as int,
                ),
                amt as int,
            ),
            final(self).same_but_bases(*old(self)),
    {
        let runner = RunnerInfo { runner: batter, pitcher, earned };
        self.onbase[0] = Some(runner);
        let mut n: u8 = 0;
        while n < amt
            invariant
                n <= amt,
                self.onbase@[0] == Some(runner),
                self.bases() == pushed(old(self).bases(), runner, n as int),
                self.same_but_bases(*old(self)),
            decreases amt - n,
        {
            let ghost before = self.bases();
            proof {
                before.lemma_gap(0);
                before.lemma_gap(1);
                before.lemma_gap(2);
                before.lemma_gap(3);
                assert(before.gap(4) == 4);
                assert(before.onbase[0] == Some(runner));
            }
            if self.onbase[1].is_some() {
                if self.onbase[2].is_some() {
                    if self.onbase[3].is_some() {
                        let scored = self.onbase[3].unwrap();
                        self.runs_in.push(scored);
                    }
                    self.onbase[3] = self.onbase[2];
                }
                self.onbase[2] = self.onbase[1];
            }
            self.onbase[1] = self.onbase[0];
            assert(self.bases().onbase =~= before.advance(0).with_batter(runner).onbase);
            n += 1;
        }
        let ghost moved = self.bases();
        assert(cleared(moved, 0).onbase =~= moved.onbase);
        let mut idx: usize = 0;
        while idx < amt as usize
            invariant
                idx <= amt,
                amt <= 4,
                self.bases() == cleared(moved, idx as int),
                self.same_but_bases(*old(self)),
            decreases amt - idx,
        {
            self.onbase[idx] = None;
            assert(self.bases().onbase =~= cleared(moved, idx + 1).onbase);
            idx += 1;
        }
        0
    }

    /// The player who fields `pos`: the pitcher of record for any pitching
    /// role, else the first in the batting order at that position.
    pub fn player_at_pos(&self, pos: Position) -> (id: PlayerId)
        requires
            pos.pitcher() || slot_of(self.bo@, pos, 0) < 9,
        ensures
            id == if pos.pitcher() {
                self.pitcher_of_record
            } else {
                self.bo@[slot_of(self.bo@, pos, 0)].player
            },
    {
        if pos.is_pitcher() {
            return self.pitcher_of_record;
        }
        let mut i: usize = 0;
        while i < 9
            invariant
                i <= 9,
                !pos.pitcher(),
                slot_of(self.bo@, pos, 0) == slot_of(self.bo@, pos, i as int),
                slot_of(self.bo@, pos, 0) < 9,
            decreases 9 - i,
        {
            if self.bo[i].pos == pos {
                return self.bo[i].player;
            }
            i += 1;
        }
        self.pitcher_of_record
    }

    /// Adds the runners who scored to the run total.
    pub fn record_runs(&mut self)
        requires
            old(self).r + old(self).runs_in@.len() <= u8::MAX,
        ensures
            final(self).r == old(self).r + old(self).runs_in@.len(),
            final(self).runs_in@.len() == 0,
            final(self).onbase == old(self).onbase,
            final(self).id == old(self).id,
            final(self).bo == old(self).bo,
            final(self).ab == old(self).ab,
            final(self).pitcher_of_record == old(self).pitcher_of_record,
    {
        self.r += self.runs_in.len() as u8;
        self.runs_in.clear();
    }
}

/// A game and where it stands.
pub struct Game {
    pub home: Scoreboard,
    pub away: Scoreboard,
    pub inning: Inning,
    pub outs: u8,
    pub virtual_outs: u8,
}

impl Game {
    /// The game is over once nine innings are reached and the home team leads
    /// after the visitors have batted, or the visitors lead at the end of an
    /// inning.
    pub open spec fn over(self) -> bool {
        self.inning.number >= 9 && ((self.inning.half != InningHalf::Top && self.home.r
            > self.away.r) || (self.inning.half == InningHalf::End && self.away.r > self.home.r))
    }

    /// A game at the top of the first.
    pub fn new(home: TeamId, away: TeamId) -> (g: Self)
        ensures
            g.home.fresh(home),
            g.away.fresh(away),
            g.inning == (Inning { number: 1, half: InningHalf::Top }),
            g.outs == 0,
            g.virtual_outs == 0,
    {
        Self {
            home: Scoreboard::new(home),
            away: Scoreboard::new(away),
            inning: Inning { number: 1, half: InningHalf::Top },
            outs: 0,
            virtual_outs: 0,
        }
    }

    /// Tells whether the game is over.
    pub fn complete(&self) -> (b: bool)
        ensures
            b == self.over(),
    {
        self.inning.number >= 9 && ((self.inning.half != InningHalf::Top && self.home.r
            > self.away.r) || (self.inning.half == InningHalf::End && self.away.r > self.home.r))
    }

    /// Tells whether the visitors bat, or have just batted.
    pub fn is_away_ab(&self) -> (b: bool)
        ensures
            b == self.inning.away_bats(),
    {
        self.inning.half == InningHalf::Top || self.inning.half == InningHalf::Middle
    }

    /// The side at bat, to be changed, and the side in the field.
    pub fn home_away(&mut self) -> (sides: (&mut Scoreboard, &Scoreboard))
        ensures
            *sides.0 == if old(self).inning.away_bats() {
                old(self).away
            } else {
                old(self).home
            },
            *sides.1 == if old(self).inning.away_bats() {
                old(self).home
            } else {
                old(self).away
            },
            *final(self) == if old(self).inning.away_bats() {
                Game { away: *final(sides.0), ..*old(self) }
            } else {
                Game { home: *final(sides.0), ..*old(self) }
            },
    {
        if self.is_away_ab() {
            (&mut self.away, &self.home)
        } else {
            (&mut self.home, &self.away)
        }
    }
}

/// A line-score game that is over has a winner.
pub proof fn lemma_over_has_winner(game: Game)
    requires
        game.over(),
    ensures
        game.home.r != game.away.r,
{
}

} // verus!
