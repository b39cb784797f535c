//! The fixture list of a season: every team meets every other at home and
//! away, in rounds that are each played four times.

use crate::chance::shuffle;
use crate::game::Game;
use crate::team::TeamId;
use rand::rngs::ThreadRng;
use vstd::arithmetic::div_mod::lemma_fundamental_div_mod_converse;
use vstd::prelude::*;

verus! {

/// A pairing: the home team, then the visitors.
pub type Pairing = (TeamId, TeamId);

/// The pairings of `home` with the first `upto` teams of the list, itself
/// left out.
pub open spec fn home_pairings(teams: Seq<TeamId>, home: TeamId, upto: int) -> Seq<Pairing>
    decreases upto,
{
    if upto <= 0 {
        Seq::empty()
    } else if teams[upto - 1] != home {
        home_pairings(teams, home, upto - 1).push((home, teams[upto - 1]))
    } else {
        home_pairings(teams, home, upto - 1)
    }
}

/// The pairings that have one of the first `upto` teams at home, against
/// every other team.
pub open spec fn pairings_upto(teams: Seq<TeamId>, upto: int) -> Seq<Pairing>
    decreases upto,
{
    if upto <= 0 {
        Seq::empty()
    } else {
        pairings_upto(teams, upto - 1) + home_pairings(teams, teams[upto - 1], teams.len() as int)
    }
}

/// Every pairing of two different teams, each team at home against each
/// other one.
pub open spec fn all_pairings(teams: Seq<TeamId>) -> Seq<Pairing> {
    pairings_upto(teams, teams.len() as int)
}

/// The first pairing at or after `from` that has `team` at home against one
/// of `waiting`; the number of pairings when there is none.
pub open spec fn fixture_index(
    raw: Seq<Pairing>,
    team: TeamId,
    waiting: Seq<TeamId>,
    from: int,
) -> int
    decreases raw.len() - from,
{
    if from >= raw.len() || (from >= 0 && raw[from].0 == team && waiting.contains(raw[from].1)) {
        from
    } else {
        fixture_index(raw, team, waiting, from + 1)
    }
}

/// One round. The teams are taken from the end of `picks`; each in turn gets
/// the first open pairing in which it is at home against a team that still
/// waits, and that team then waits no more. A team for which there is no such
/// pairing sits the round out. Gives the pairings left open and the round.
pub open spec fn round(raw: Seq<Pairing>, picks: Seq<TeamId>) -> (Seq<Pairing>, Seq<Pairing>)
    decreases picks.len(),
{
    if picks.len() == 0 {
        (raw, Seq::empty())
    } else {
        let team = picks.last();
        let waiting = picks.drop_last();
        let idx = fixture_index(raw, team, waiting, 0);
        if 0 <= idx < raw.len() {
            let still = without_team(waiting, raw[idx].1);
            proof {
                lemma_without_team_len(waiting, raw[idx].1);
            }
            let (left, rest) = round(raw.remove(idx), still);
            (left, seq![raw[idx]] + rest)
        } else {
            round(raw, waiting)
        }
    }
}

/// The list without any occurrence of `team`.
pub open spec fn without_team(teams: Seq<TeamId>, team: TeamId) -> Seq<TeamId>
    decreases teams.len(),
{
    if teams.len() == 0 {
        Seq::empty()
    } else if teams.last() == team {
        without_team(teams.drop_last(), team)
    } else {
        without_team(teams.drop_last(), team).push(teams.last())
    }
}

/// Taking a team out never makes the list longer, and leaves it out.
pub proof fn lemma_without_team_len(teams: Seq<TeamId>, team: TeamId)
    ensures
        without_team(teams, team).len() <= teams.len(),
        teams.contains(team) ==> without_team(teams, team).len() < teams.len(),
        !without_team(teams, team).contains(team),
        forall|other: TeamId|
            other != team ==> (#[trigger] without_team(teams, team).contains(other)
                <==> teams.contains(other)),
    decreases teams.len(),
{
    if teams.len() > 0 {
        lemma_without_team_len(teams.drop_last(), team);
        let front = without_team(teams.drop_last(), team);
        let all = without_team(teams, team);
        assert forall|other: TeamId| other != team implies (#[trigger] all.contains(other)
            <==> teams.contains(other)) by {
            assert(front.contains(other) <==> teams.drop_last().contains(other));
            if all.contains(other) {
                let k = choose|k: int| 0 <= k < all.len() && all[k] == other;
                if k < front.len() {
                    assert(front.contains(other));
                    let j = choose|j: int|
                        0 <= j < teams.drop_last().len() && teams.drop_last()[j] == other;
                    assert(teams[j] == other);
                } else {
                    assert(teams[teams.len() - 1] == other);
                }
            }
            if teams.contains(other) {
                let j = choose|j: int| 0 <= j < teams.len() && teams[j] == other;
                if j < teams.len() - 1 {
                    assert(teams.drop_last()[j] == other);
                    assert(front.contains(other));
                    let k = choose|k: int| 0 <= k < front.len() && front[k] == other;
                    assert(all[k] == other);
                } else {
                    assert(all[all.len() - 1] == other);
                }
            }
        }
        if all.contains(team) {
            let k = choose|k: int| 0 <= k < all.len() && all[k] == team;
            if k < front.len() {
                assert(front[k] == team);
            }
        }
        if teams.contains(team) && teams.last() != team {
            let j = choose|j: int| 0 <= j < teams.len() && teams[j] == team;
            assert(teams.drop_last()[j] == team);
        }
    }
}

/// The season made of the rounds in `matchups`, `per_day` games to a day: each
/// day is played four times running before the next comes.
pub open spec fn expanded(matchups: Seq<Pairing>, per_day: int) -> Seq<Pairing> {
    Seq::new(
        (4 * matchups.len()) as nat,
        |k: int| matchups[(k / (4 * per_day)) * per_day + k % per_day],
    )
}

/// The season's games in the order they are played.
pub struct Schedule {
    pub games: Vec<Game>,
}

impl Default for Schedule {
    fn default() -> (s: Self)
        ensures
            s.games@.len() == 0,
    {
        Schedule { games: Vec::new() }
    }
}

impl Schedule {
    /// The pairings of the games, in order.
    pub open spec fn fixtures(self) -> Seq<Pairing> {
        Seq::new(self.games@.len(), |k: int| (self.games@[k].home.id, self.games@[k].away.id))
    }

    /// Every pairing of two different teams of the list.
    pub fn pairings(teams: &[TeamId]) -> (raw: Vec<Pairing>)
        ensures
            raw@ == all_pairings(teams@),
    {
        let mut raw: Vec<Pairing> = Vec::new();
        let n = teams.len();
        let mut i: usize = 0;
        while i < n
            invariant
                i <= n,
                n == teams.len(),
                raw@ == pairings_upto(teams@, i as int),
            decreases n - i,
        {
            let home = teams[i];
            let ghost before = raw@;
            let mut j: usize = 0;
            while j < n
                invariant
                    j <= n,
                    n == teams.len(),
                    home == teams@[i as int],
                    raw@ == before + home_pairings(teams@, home, j as int),
                decreases n - j,
            {
                let away = teams[j];
                if home != away {
                    raw.push((home, away));
                }
                assert(raw@ =~= before + home_pairings(teams@, home, j + 1));
                j += 1;
            }
            i += 1;
        }
        raw
    }

    /// Every pairing of two different teams, in a drawn order.
    pub fn draw_pairings(teams: &[TeamId], rng: &mut ThreadRng) -> (raw: Vec<Pairing>)
        ensures
            raw@.to_multiset() == all_pairings(teams@).to_multiset(),
            raw@.len() == all_pairings(teams@).len(),
    {
        let mut raw = Self::pairings(teams);
        shuffle(rng, &mut raw);
        raw
    }

    /// Takes every occurrence of `team` out of the list.
    fn drop_team(teams: &mut Vec<TeamId>, team: TeamId)
        ensures
            final(teams)@ == without_team(old(teams)@, team),
    {
        let mut kept: Vec<TeamId> = Vec::new();
        let mut i: usize = 0;
        assert(teams@.take(0) =~= Seq::empty());
        while i < teams.len()
            invariant
                i <= teams.len(),
                teams@ == old(teams)@,
                kept@ == without_team(teams@.take(i as int), team),
            decreases teams.len() - i,
        {
            proof {
                assert(teams@.take(i + 1).drop_last() =~= teams@.take(i as int));
                assert(teams@.take(i + 1).last() == teams@[i as int]);
            }
            if teams[i] != team {
                kept.push(teams[i]);
            }
            i += 1;
        }
        assert(teams@.take(teams@.len() as int) =~= teams@);
        *teams = kept;
    }

    /// Whether `team` is in the list.
    fn waits(teams: &Vec<TeamId>, team: TeamId) -> (b: bool)
        ensures
            b == teams@.contains(team),
    {
        let mut i: usize = 0;
        while i < teams.len()
            invariant
                i <= teams.len(),
                forall|k: int| 0 <= k < i ==> teams@[k] != team,
            decreases teams.len() - i,
        {
            if teams[i] == team {
                return true;
            }
            i += 1;
        }
        false
    }

    /// Builds one round from the open pairings, taking the teams from the end
    /// of `teams_to_pick`, and adds it to `matchups`.
    pub fn pick_round(
        raw_matchups: &mut Vec<Pairing>,
        teams_to_pick: Vec<TeamId>,
        matchups: &mut Vec<Pairing>,
    )
        ensures
            final(raw_matchups)@ == round(old(raw_matchups)@, teams_to_pick@).0,
            final(matchups)@ == old(matchups)@ + round(old(raw_matchups)@, teams_to_pick@).1,
            final(raw_matchups)@.to_multiset().add(final(matchups)@.to_multiset()) == old(
                raw_matchups,
            )@.to_multiset().add(old(matchups)@.to_multiset()),
    {
        let mut teams_to_pick = teams_to_pick;
        let ghost picks = teams_to_pick@;
        proof {
            lemma_round_conserves(raw_matchups@, picks);
            let r = round(raw_matchups@, picks);
            vstd::seq_lib::lemma_multiset_commutative(matchups@, r.1);
            assert(r.0.to_multiset().add((matchups@ + r.1).to_multiset()) =~= raw_matchups@.to_multiset().add(
                matchups@.to_multiset(),
            ));
        }
        assert(matchups@ + round(raw_matchups@, teams_to_pick@).1 =~= old(matchups)@ + round(
            old(raw_matchups)@,
            picks,
        ).1);
        while teams_to_pick.len() > 0
            invariant
                round(raw_matchups@, teams_to_pick@).0 == round(old(raw_matchups)@, picks).0,
                matchups@ + round(raw_matchups@, teams_to_pick@).1 == old(matchups)@ + round(
                    old(raw_matchups)@,
                    picks,
                ).1,
            decreases teams_to_pick.len(),
        {
            let ghost before = teams_to_pick@;
            let ghost raw = raw_matchups@;
            let ghost done = matchups@;
            if let Some(team) = teams_to_pick.pop() {
                assert(teams_to_pick@ =~= before.drop_last());
                let mut idx: usize = 0;
                while idx < raw_matchups.len() && !(raw_matchups[idx].0 == team && Self::waits(
                    &teams_to_pick,
                    raw_matchups[idx].1,
                ))
                    invariant
                        idx <= raw_matchups.len(),
                        raw_matchups@ == raw,
                        fixture_index(raw, team, teams_to_pick@, 0) == fixture_index(
                            raw,
                            team,
                            teams_to_pick@,
                            idx as int,
                        ),
                    decreases raw_matchups.len() - idx,
                {
                    idx += 1;
                }
                if idx < raw_matchups.len() {
                    let game = raw_matchups.remove(idx);
                    matchups.push(game);
                    proof {
                        lemma_without_team_len(teams_to_pick@, game.1);
                    }
                    Self::drop_team(&mut teams_to_pick, game.1);
                    assert(matchups@ + round(raw_matchups@, teams_to_pick@).1 =~= done + (
                    seq![game] + round(raw_matchups@, teams_to_pick@).1));
                }
            }
        }
        assert(matchups@ + Seq::<Pairing>::empty() =~= matchups@);
    }

    /// Builds the next round over the teams in a drawn order.
    pub fn next_round(
        raw_matchups: &mut Vec<Pairing>,
        teams: &[TeamId],
        matchups: &mut Vec<Pairing>,
        rng: &mut ThreadRng,
    )
        ensures
            exists|picks: Seq<TeamId>|
                {
                    &&& picks.to_multiset() == teams@.to_multiset()
                    &&& final(raw_matchups)@ == #[trigger] round(old(raw_matchups)@, picks).0
                    &&& final(matchups)@ == old(matchups)@ + round(old(raw_matchups)@, picks).1
                },
            final(raw_matchups)@.to_multiset().add(final(matchups)@.to_multiset()) == old(
                raw_matchups,
            )@.to_multiset().add(old(matchups)@.to_multiset()),
    {
        let mut teams_to_pick: Vec<TeamId> = Vec::new();
        let mut i: usize = 0;
        while i < teams.len()
            invariant
                i <= teams.len(),
                teams_to_pick@ == teams@.take(i as int),
            decreases teams.len() - i,
        {
            teams_to_pick.push(teams[i]);
            assert(teams_to_pick@ =~= teams@.take(i + 1));
            i += 1;
        }
        assert(teams@.take(teams@.len() as int) =~= teams@);
        shuffle(rng, &mut teams_to_pick);
        let ghost picks = teams_to_pick@;
        Self::pick_round(raw_matchups, teams_to_pick, matchups);
        assert(raw_matchups@ == round(old(raw_matchups)@, picks).0);
    }

    /// Lays the rounds out as a season: the games come a day at a time, half
    /// as many as there are teams, and each day is played four times running.
    pub fn expand(matchups: &Vec<Pairing>, team_count: usize) -> (schedule: Schedule)
        requires
            team_count >= 2,
            (matchups@.len() as int) % (team_count as int / 2) == 0,
        ensures
            schedule.fixtures() == expanded(matchups@, team_count as int / 2),
            forall|k: int|
                0 <= k < schedule.games@.len() ==> {
                    let g = #[trigger] schedule.games@[k];
                    g.home.fresh(g.home.id) && g.away.fresh(g.away.id) && g.playbyplay@.len() == 0
                },
    {
        let per_day: usize = team_count / 2;
        let mut games: Vec<Game> = Vec::new();
        let mut idx: usize = 0;
        let ghost mut day: int = 0;
        let ghost want = expanded(matchups@, per_day as int);
        while idx < matchups.len()
            invariant
                per_day > 0,
                idx <= matchups.len(),
                idx == day * per_day,
                0 <= day,
                (matchups@.len() as int) % (per_day as int) == 0,
                want == expanded(matchups@, per_day as int),
                games@.len() == 4 * idx,
                forall|k: int|
                    0 <= k < games@.len() ==> {
                        let g = #[trigger] games@[k];
                        &&& (g.home.id, g.away.id) == want[k]
                        &&& g.home.fresh(g.home.id)
                        &&& g.away.fresh(g.away.id)
                        &&& g.playbyplay@.len() == 0
                    },
            decreases matchups.len() - idx,
        {
            proof {
                lemma_whole_day(matchups@.len() as int, per_day as int, day);
            }
            let mut rep: usize = 0;
            while rep < 4
                invariant
                    per_day > 0,
                    rep <= 4,
                    idx + per_day <= matchups.len(),
                    idx == day * per_day,
                    0 <= day,
                    want == expanded(matchups@, per_day as int),
                    games@.len() == 4 * idx + rep * per_day,
                    forall|k: int|
                        0 <= k < games@.len() ==> {
                            let g = #[trigger] games@[k];
                            &&& (g.home.id, g.away.id) == want[k]
                            &&& g.home.fresh(g.home.id)
                            &&& g.away.fresh(g.away.id)
                            &&& g.playbyplay@.len() == 0
                        },
                decreases 4 - rep,
            {
                let mut offset: usize = 0;
                while offset < per_day
                    invariant
                        per_day > 0,
                        rep < 4,
                        offset <= per_day,
                        idx + per_day <= matchups.len(),
                        idx == day * per_day,
                        0 <= day,
                        want == expanded(matchups@, per_day as int),
                        games@.len() == 4 * idx + rep * per_day + offset,
                        forall|k: int|
                            0 <= k < games@.len() ==> {
                                let g = #[trigger] games@[k];
                                &&& (g.home.id, g.away.id) == want[k]
                                &&& g.home.fresh(g.home.id)
                                &&& g.away.fresh(g.away.id)
                                &&& g.playbyplay@.len() == 0
                            },
                    decreases per_day - offset,
                {
                    let game = matchups[idx + offset];
                    proof {
                        lemma_expanded_at(
                            matchups@,
                            per_day as int,
                            day,
                            rep as int,
                            offset as int,
                        );
                        assert(4 * idx + rep * per_day + offset == (4 * day + rep) * per_day
                            + offset) by (nonlinear_arith)
                            requires
                                idx == day * per_day,
                        ;
                    }
                    games.push(Game::new(game.0, game.1));
                    offset += 1;
                }
                assert(4 * idx + rep * per_day + per_day == 4 * idx + (rep + 1) * per_day)
                    by (nonlinear_arith);
                rep += 1;
            }
            assert(4 * idx + 4 * per_day == 4 * (idx + per_day)) by (nonlinear_arith);
            assert(idx + per_day == (day + 1) * per_day) by (nonlinear_arith)
                requires
                    idx == day * per_day,
            ;
            idx += per_day;
            proof {
                day = day + 1;
            }
        }
        let schedule = Schedule { games };
        assert(schedule.fixtures() =~= want);
        schedule
    }
}

/// A list whose length is a whole number of days has a whole day left after
/// `day` whole days, if anything is left.
pub proof fn lemma_whole_day(len: int, per_day: int, day: int)
    requires
        per_day > 0,
        0 <= day,
        len % per_day == 0,
        day * per_day < len,
    ensures
        day * per_day + per_day <= len,
{
    let days = len / per_day;
    assert(len == days * per_day) by (nonlinear_arith)
        requires
            len % per_day == 0,
            days == len / per_day,
            per_day > 0,
    ;
    assert(day < days) by (nonlinear_arith)
        requires
            day * per_day < days * per_day,
            per_day > 0,
    ;
    assert(day * per_day + per_day <= days * per_day) by (nonlinear_arith)
        requires
            day + 1 <= days,
            per_day > 0,
    ;
}

/// Game `offset` of day `day` of the rounds is game `offset` of each of the
/// four days of the season that replay it.
pub proof fn lemma_expanded_at(matchups: Seq<Pairing>, per_day: int, day: int, rep: int, offset: int)
    requires
        per_day > 0,
        0 <= day,
        0 <= rep < 4,
        0 <= offset < per_day,
        day * per_day + per_day <= matchups.len(),
    ensures
        0 <= (4 * day + rep) * per_day + offset < 4 * matchups.len(),
        expanded(matchups, per_day)[(4 * day + rep) * per_day + offset] == matchups[day * per_day
            + offset],
{
    let k = (4 * day + rep) * per_day + offset;
    assert(0 <= rep * per_day + offset < 4 * per_day) by (nonlinear_arith)
        requires
            0 <= rep < 4,
            0 <= offset < per_day,
    ;
    assert(k == day * (4 * per_day) + (rep * per_day + offset)) by (nonlinear_arith)
        requires
            k == (4 * day + rep) * per_day + offset,
    ;
    lemma_fundamental_div_mod_converse(k, 4 * per_day, day, rep * per_day + offset);
    lemma_fundamental_div_mod_converse(k, per_day, 4 * day + rep, offset);
    assert(0 <= k < 4 * matchups.len()) by (nonlinear_arith)
        requires
            k == day * (4 * per_day) + (rep * per_day + offset),
            0 <= rep * per_day + offset < 4 * per_day,
            day * per_day + per_day <= matchups.len(),
            0 <= day,
            0 <= offset < per_day,
    ;
}

/// Whether `pairing` sets two different teams of the list against each other,
/// the home team among the first `upto`.
pub open spec fn pairs_up(teams: Seq<TeamId>, upto: int, pairing: Pairing) -> bool {
    exists|i: int, x: int|
        0 <= i < upto && 0 <= x < teams.len() && i != x && #[trigger] teams[i] == pairing.0
            && #[trigger] teams[x] == pairing.1
}

/// With no team listed twice, the pairings of one team at home against the
/// first `upto` teams are all different, and there is one for each of those
/// teams but itself.
pub proof fn lemma_home_pairings(teams: Seq<TeamId>, hi: int, upto: int)
    requires
        teams.no_duplicates(),
        0 <= hi < teams.len(),
        0 <= upto <= teams.len(),
    ensures
        home_pairings(teams, teams[hi], upto).len() == if hi < upto {
            upto - 1
        } else {
            upto
        },
        home_pairings(teams, teams[hi], upto).no_duplicates(),
        forall|k: int|
            0 <= k < home_pairings(teams, teams[hi], upto).len() ==> {
                let p = #[trigger] home_pairings(teams, teams[hi], upto)[k];
                p.0 == teams[hi] && exists|x: int|
                    0 <= x < upto && x != hi && #[trigger] teams[x] == p.1
            },
        forall|x: int|
            0 <= x < upto && x != hi ==> home_pairings(teams, teams[hi], upto).contains(
                (teams[hi], #[trigger] teams[x]),
            ),
    decreases upto,
{
    if upto > 0 {
        lemma_home_pairings(teams, hi, upto - 1);
        let prev = home_pairings(teams, teams[hi], upto - 1);
        let all = home_pairings(teams, teams[hi], upto);
        if upto - 1 != hi {
            assert(teams[upto - 1] != teams[hi]);
            assert(all == prev.push((teams[hi], teams[upto - 1])));
            assert forall|k: int| 0 <= k < all.len() implies {
                let p = #[trigger] all[k];
                p.0 == teams[hi] && exists|x: int|
                    0 <= x < upto && x != hi && #[trigger] teams[x] == p.1
            } by {
                if k < prev.len() {
                    let p = prev[k];
                    let x = choose|x: int| 0 <= x < upto - 1 && x != hi && #[trigger] teams[x] == p.1;
                    assert(teams[x] == all[k].1);
                } else {
                    assert(teams[upto - 1] == all[k].1);
                }
            }
            assert forall|a: int, b: int| 0 <= a < all.len() && 0 <= b < all.len() && a
                != b implies all[a] != all[b] by {
                if a < prev.len() && b < prev.len() {
                } else if a < prev.len() {
                    let p = prev[a];
                    let x = choose|x: int| 0 <= x < upto - 1 && x != hi && #[trigger] teams[x] == p.1;
                    assert(teams[x] != teams[upto - 1]);
                } else {
                    let p = prev[b];
                    let x = choose|x: int| 0 <= x < upto - 1 && x != hi && #[trigger] teams[x] == p.1;
                    assert(teams[x] != teams[upto - 1]);
                }
            }
            assert forall|x: int| 0 <= x < upto && x != hi implies all.contains(
                (teams[hi], #[trigger] teams[x]),
            ) by {
                if x < upto - 1 {
                    assert(prev.contains((teams[hi], teams[x])));
                    let k = choose|k: int| 0 <= k < prev.len() && prev[k] == (teams[hi], teams[x]);
                    assert(all[k] == (teams[hi], teams[x]));
                } else {
                    assert(all[all.len() - 1] == (teams[hi], teams[x]));
                }
            }
        } else {
            assert(all == prev);
        }
    }
}

/// With no team listed twice, the pairings with the first `upto` teams at home
/// are all different, each sets two different teams against each other, and
/// every such pairing is among them.
pub proof fn lemma_pairings_upto(teams: Seq<TeamId>, upto: int)
    requires
        teams.no_duplicates(),
        0 <= upto <= teams.len(),
    ensures
        pairings_upto(teams, upto).len() == upto * (teams.len() - 1),
        pairings_upto(teams, upto).no_duplicates(),
        forall|k: int|
            0 <= k < pairings_upto(teams, upto).len() ==> pairs_up(
                teams,
                upto,
                #[trigger] pairings_upto(teams, upto)[k],
            ),
        forall|i: int, x: int|
            0 <= i < upto && 0 <= x < teams.len() && i != x ==> pairings_upto(teams, upto).contains(
                (#[trigger] teams[i], #[trigger] teams[x]),
            ),
    decreases upto,
{
    if upto > 0 {
        let n = teams.len() as int;
        lemma_pairings_upto(teams, upto - 1);
        lemma_home_pairings(teams, upto - 1, n);
        let prev = pairings_upto(teams, upto - 1);
        let row = home_pairings(teams, teams[upto - 1], n);
        let all = pairings_upto(teams, upto);
        assert(all == prev + row);
        assert(all.len() == upto * (n - 1)) by (nonlinear_arith)
            requires
                all.len() == (upto - 1) * (n - 1) + (n - 1),
        ;
        assert forall|k: int| 0 <= k < all.len() implies pairs_up(teams, upto, #[trigger] all[k]) by {
            if k < prev.len() {
                assert(pairs_up(teams, upto - 1, prev[k]));
                let (i, x) = choose|i: int, x: int|
                    0 <= i < upto - 1 && 0 <= x < teams.len() && i != x && #[trigger] teams[i]
                        == prev[k].0 && #[trigger] teams[x] == prev[k].1;
                assert(teams[i] == all[k].0 && teams[x] == all[k].1);
            } else {
                let p = row[k - prev.len()];
                let x = choose|x: int| 0 <= x < n && x != upto - 1 && #[trigger] teams[x] == p.1;
                assert(teams[upto - 1] == all[k].0 && teams[x] == all[k].1);
            }
        }
        assert forall|a: int, b: int| 0 <= a < b < all.len() implies all[a] != all[b] by {
            if b < prev.len() {
            } else if a >= prev.len() {
                assert(row[a - prev.len()] != row[b - prev.len()]);
            } else {
                assert(pairs_up(teams, upto - 1, prev[a]));
                let (i, x) = choose|i: int, x: int|
                    0 <= i < upto - 1 && 0 <= x < teams.len() && i != x && #[trigger] teams[i]
                        == prev[a].0 && #[trigger] teams[x] == prev[a].1;
                assert(teams[i] != teams[upto - 1]);
                assert(row[b - prev.len()].0 == teams[upto - 1]);
            }
        }
        assert forall|i: int, x: int| 0 <= i < upto && 0 <= x < teams.len() && i != x implies all.contains(
            (#[trigger] teams[i], #[trigger] teams[x]),
        ) by {
            if i < upto - 1 {
                assert(prev.contains((teams[i], teams[x])));
                let k = choose|k: int| 0 <= k < prev.len() && prev[k] == (teams[i], teams[x]);
                assert(all[k] == (teams[i], teams[x]));
            } else {
                assert(row.contains((teams[i], teams[x])));
                let k = choose|k: int| 0 <= k < row.len() && row[k] == (teams[i], teams[x]);
                assert(all[prev.len() + k] == (teams[i], teams[x]));
            }
        }
    }
}

/// The number of pairings of `n` teams is a whole number of days.
pub proof fn lemma_whole_days(n: int)
    requires
        n >= 2,
    ensures
        (n * (n - 1)) % (n / 2) == 0,
{
    let p = n / 2;
    if n % 2 == 0 {
        assert(n * (n - 1) == (2 * (n - 1)) * p + 0) by (nonlinear_arith)
            requires
                n == 2 * p,
        ;
        lemma_fundamental_div_mod_converse(n * (n - 1), p, 2 * (n - 1), 0);
    } else {
        assert(n * (n - 1) == (2 * n) * p + 0) by (nonlinear_arith)
            requires
                n == 2 * p + 1,
        ;
        lemma_fundamental_div_mod_converse(n * (n - 1), p, 2 * n, 0);
    }
}

/// Whether `pairing` is game `m` of the rounds, and in the season is played on
/// the four days that replay the day of game `m`, in the place of game `m`,
/// and at no other time.
pub open spec fn played_at(matchups: Seq<Pairing>, per_day: int, pairing: Pairing, m: int) -> bool {
    &&& 0 <= m < matchups.len()
    &&& matchups[m] == pairing
    &&& forall|k: int|
        0 <= k < 4 * matchups.len() ==> (#[trigger] expanded(matchups, per_day)[k] == pairing <==> k
            / (4 * per_day) == m / per_day && k % per_day == m % per_day)
}

/// Whether `pairing` is played on four days running, in the same place of
/// the day, and at no other time.
pub open spec fn played_four_days(matchups: Seq<Pairing>, per_day: int, pairing: Pairing) -> bool {
    exists|m: int| played_at(matchups, per_day, pairing, m)
}

/// Once every pairing has gone into a round, the season is sound. For `n`
/// different teams, with `n` at least two, and rounds that hold each pairing
/// of two of them once: the season has `n * (n - 1) * 4` games, and each
/// pairing is played on four days running, in the same place of the day, and
/// at no other time.
pub proof fn lemma_season(teams: Seq<TeamId>, matchups: Seq<Pairing>)
    requires
        teams.no_duplicates(),
        teams.len() >= 2,
        matchups.to_multiset() == all_pairings(teams).to_multiset(),
    ensures
        ({
            let n = teams.len() as int;
            let per_day = n / 2;
            let season = expanded(matchups, per_day);
            &&& (matchups.len() as int) % per_day == 0
            &&& season.len() == n * (n - 1) * 4
            &&& forall|i: int, x: int|
                0 <= i < n && 0 <= x < n && i != x ==> played_four_days(
                    matchups,
                    per_day,
                    (#[trigger] teams[i], #[trigger] teams[x]),
                )
        }),
{
    broadcast use vstd::seq_lib::group_to_multiset_ensures;

    let n = teams.len() as int;
    let per_day = n / 2;
    let season = expanded(matchups, per_day);
    let all = all_pairings(teams);
    lemma_pairings_upto(teams, n);
    lemma_whole_days(n);
    vstd::seq_lib::to_multiset_len(matchups);
    vstd::seq_lib::to_multiset_len(all);
    assert(matchups.len() == all.len());
    assert(matchups.len() == n * (n - 1));
    assert((matchups.len() as int) % per_day == 0);
    all.lemma_multiset_has_no_duplicates();
    matchups.lemma_multiset_has_no_duplicates_conv();
    assert(season.len() == n * (n - 1) * 4) by (nonlinear_arith)
        requires
            season.len() == 4 * matchups.len(),
            matchups.len() == n * (n - 1),
    ;
    assert forall|i: int, x: int| 0 <= i < n && 0 <= x < n && i != x implies played_four_days(
        matchups,
        per_day,
        (#[trigger] teams[i], #[trigger] teams[x]),
    ) by {
        let pairing = (teams[i], teams[x]);
        assert(all.contains(pairing));
        assert(all.to_multiset().count(pairing) > 0);
        assert(matchups.contains(pairing));
        let m = choose|m: int| 0 <= m < matchups.len() && matchups[m] == pairing;
        assert forall|k: int| 0 <= k < season.len() implies (#[trigger] season[k] == pairing <==> k
            / (4 * per_day) == m / per_day && k % per_day == m % per_day) by {
            lemma_season_index(matchups.len() as int, per_day, k);
            let at = (k / (4 * per_day)) * per_day + k % per_day;
            assert(season[k] == matchups[at]);
            lemma_fundamental_div_mod_converse(at, per_day, k / (4 * per_day), k % per_day);
            vstd::arithmetic::div_mod::lemma_fundamental_div_mod(m, per_day);
            if k / (4 * per_day) == m / per_day && k % per_day == m % per_day {
                assert(at == m) by (nonlinear_arith)
                    requires
                        at == (k / (4 * per_day)) * per_day + k % per_day,
                        m == per_day * (m / per_day) + m % per_day,
                        k / (4 * per_day) == m / per_day,
                        k % per_day == m % per_day,
                ;
            }
        }
        assert(played_at(matchups, per_day, pairing, m));
    }
}

/// Game `k` of the season replays a game of the rounds: the one in the same
/// place of the day, a quarter as many days in.
pub proof fn lemma_season_index(len: int, per_day: int, k: int)
    requires
        per_day > 0,
        len >= 0,
        len % per_day == 0,
        0 <= k < 4 * len,
    ensures
        0 <= (k / (4 * per_day)) * per_day + k % per_day < len,
        0 <= k % per_day < per_day,
        0 <= k / (4 * per_day),
{
    let c = k / (4 * per_day);
    let r = k % per_day;
    let days = len / per_day;
    vstd::arithmetic::div_mod::lemma_fundamental_div_mod(k, 4 * per_day);
    vstd::arithmetic::div_mod::lemma_fundamental_div_mod(len, per_day);
    vstd::arithmetic::div_mod::lemma_mod_pos_bound(k, per_day);
    vstd::arithmetic::div_mod::lemma_mod_pos_bound(k, 4 * per_day);
    vstd::arithmetic::div_mod::lemma_div_pos_is_pos(k, 4 * per_day);
    assert(c < days) by (nonlinear_arith)
        requires
            k == (4 * per_day) * c + k % (4 * per_day),
            0 <= k % (4 * per_day),
            k < 4 * len,
            len == per_day * days,
            per_day > 0,
    ;
    assert(c * per_day + r < len) by (nonlinear_arith)
        requires
            c < days,
            0 <= c,
            0 <= r < per_day,
            len == per_day * days,
    ;
    assert(0 <= c * per_day) by (nonlinear_arith)
        requires
            0 <= c,
            per_day > 0,
    ;
}

/// Whether no team plays twice in the list of pairings.
pub open spec fn meets_once(games: Seq<Pairing>) -> bool {
    &&& forall|i: int| 0 <= i < games.len() ==> (#[trigger] games[i]).0 != games[i].1
    &&& forall|i: int, j: int|
        0 <= i < j < games.len() ==> {
            let a = #[trigger] games[i];
            let b = #[trigger] games[j];
            a.0 != b.0 && a.0 != b.1 && a.1 != b.0 && a.1 != b.1
        }
}

/// The pairing found for a team has it at home against a team that waits.
pub proof fn lemma_fixture_index(raw: Seq<Pairing>, team: TeamId, waiting: Seq<TeamId>, from: int)
    requires
        0 <= from,
    ensures
        from <= fixture_index(raw, team, waiting, from),
        fixture_index(raw, team, waiting, from) < raw.len() ==> {
            let idx = fixture_index(raw, team, waiting, from);
            raw[idx].0 == team && waiting.contains(raw[idx].1)
        },
    decreases raw.len() - from,
{
    if from < raw.len() && !(raw[from].0 == team && waiting.contains(raw[from].1)) {
        lemma_fixture_index(raw, team, waiting, from + 1);
    }
}

/// Taking a team out of a list without repeats leaves no repeats.
pub proof fn lemma_without_team_distinct(teams: Seq<TeamId>, team: TeamId)
    requires
        teams.no_duplicates(),
    ensures
        without_team(teams, team).no_duplicates(),
    decreases teams.len(),
{
    if teams.len() > 0 {
        let front = teams.drop_last();
        lemma_without_team_distinct(front, team);
        lemma_without_team_len(front, team);
        let kept = without_team(front, team);
        if teams.last() != team {
            assert(!front.contains(teams.last())) by {
                if front.contains(teams.last()) {
                    let j = choose|j: int| 0 <= j < front.len() && front[j] == teams.last();
                    assert(teams[j] == teams[teams.len() - 1]);
                }
            }
            assert(!kept.contains(teams.last()));
            let all = kept.push(teams.last());
            assert forall|a: int, b: int| 0 <= a < all.len() && 0 <= b < all.len() && a
                != b implies all[a] != all[b] by {
                if a < kept.len() && b < kept.len() {
                } else if a < kept.len() {
                    assert(kept.contains(kept[a]));
                } else {
                    assert(kept.contains(kept[b]));
                }
            }
        }
    }
}

/// A round takes its games from the open pairings and leaves the others
/// open: no pairing is lost and none is made up.
pub proof fn lemma_round_conserves(raw: Seq<Pairing>, picks: Seq<TeamId>)
    ensures
        raw.to_multiset() == round(raw, picks).0.to_multiset().add(
            round(raw, picks).1.to_multiset(),
        ),
        raw.len() == round(raw, picks).0.len() + round(raw, picks).1.len(),
    decreases picks.len(),
{
    broadcast use vstd::seq_lib::group_to_multiset_ensures;

    if picks.len() == 0 {
        assert(Seq::<Pairing>::empty().to_multiset() =~= vstd::multiset::Multiset::empty());
        assert(raw.to_multiset().add(vstd::multiset::Multiset::empty()) =~= raw.to_multiset());
    } else {
        let team = picks.last();
        let waiting = picks.drop_last();
        let idx = fixture_index(raw, team, waiting, 0);
        lemma_fixture_index(raw, team, waiting, 0);
        if idx < raw.len() {
            let g = raw[idx];
            let still = without_team(waiting, g.1);
            let open = raw.remove(idx);
            lemma_without_team_len(waiting, g.1);
            lemma_round_conserves(open, still);
            let (left, rest) = round(open, still);
            let all = seq![g] + rest;
            assert(round(raw, picks).1 == all);
            assert(round(raw, picks).0 == left);
            vstd::seq_lib::to_multiset_remove(raw, idx);
            assert(raw.to_multiset() =~= open.to_multiset().insert(g));
            assert(seq![g] =~= Seq::<Pairing>::empty().push(g));
            vstd::seq_lib::lemma_multiset_commutative(seq![g], rest);
            assert(all.to_multiset() =~= rest.to_multiset().insert(g));
            assert(raw.to_multiset() =~= left.to_multiset().add(all.to_multiset()));
        } else {
            lemma_round_conserves(raw, waiting);
        }
    }
}

/// A round takes its games from the open pairings and leaves the others
/// open; it has no team twice, and only teams that were to be picked.
pub proof fn lemma_round(raw: Seq<Pairing>, picks: Seq<TeamId>)
    requires
        picks.no_duplicates(),
        forall|k: int| 0 <= k < raw.len() ==> (#[trigger] raw[k]).0 != raw[k].1,
    ensures
        raw.to_multiset() == round(raw, picks).0.to_multiset().add(
            round(raw, picks).1.to_multiset(),
        ),
        raw.len() == round(raw, picks).0.len() + round(raw, picks).1.len(),
        2 * round(raw, picks).1.len() <= picks.len(),
        meets_once(round(raw, picks).1),
        forall|k: int|
            0 <= k < round(raw, picks).1.len() ==> {
                let g = #[trigger] round(raw, picks).1[k];
                picks.contains(g.0) && picks.contains(g.1)
            },
        forall|k: int|
            0 <= k < round(raw, picks).0.len() ==> (#[trigger] round(raw, picks).0[k]).0 != round(
                raw,
                picks,
            ).0[k].1,
    decreases picks.len(),
{
    broadcast use vstd::seq_lib::group_to_multiset_ensures;

    if picks.len() == 0 {
        assert(Seq::<Pairing>::empty().to_multiset() =~= vstd::multiset::Multiset::empty());
        assert(raw.to_multiset().add(vstd::multiset::Multiset::empty()) =~= raw.to_multiset());
    } else {
        let team = picks.last();
        let waiting = picks.drop_last();
        let idx = fixture_index(raw, team, waiting, 0);
        lemma_fixture_index(raw, team, waiting, 0);
        assert(waiting.no_duplicates());
        assert(!waiting.contains(team)) by {
            if waiting.contains(team) {
                let j = choose|j: int| 0 <= j < waiting.len() && waiting[j] == team;
                assert(picks[j] == picks[picks.len() - 1]);
            }
        }
        assert forall|t: TeamId| waiting.contains(t) implies picks.contains(t) by {
            let j = choose|j: int| 0 <= j < waiting.len() && waiting[j] == t;
            assert(picks[j] == t);
        }
        assert(picks.contains(team)) by {
            assert(picks[picks.len() - 1] == team);
        }
        if idx < raw.len() {
            let g = raw[idx];
            let still = without_team(waiting, g.1);
            let open = raw.remove(idx);
            lemma_without_team_len(waiting, g.1);
            lemma_without_team_distinct(waiting, g.1);
            lemma_round(open, still);
            let (left, rest) = round(open, still);
            let all = seq![g] + rest;
            assert(round(raw, picks).1 == all);
            assert(round(raw, picks).0 == left);
            vstd::seq_lib::to_multiset_remove(raw, idx);
            assert(raw.to_multiset() =~= open.to_multiset().insert(g));
            assert(seq![g] =~= Seq::<Pairing>::empty().push(g));
            vstd::seq_lib::lemma_multiset_commutative(seq![g], rest);
            assert(all.to_multiset() =~= rest.to_multiset().insert(g));
            assert(raw.to_multiset() =~= left.to_multiset().add(all.to_multiset()));
            assert forall|k: int| 0 <= k < all.len() implies {
                let h = #[trigger] all[k];
                picks.contains(h.0) && picks.contains(h.1)
            } by {
                if k > 0 {
                    let h = rest[k - 1];
                    assert(still.contains(h.0) && still.contains(h.1));
                    assert(h.0 != g.1 && h.1 != g.1);
                    assert(waiting.contains(h.0) && waiting.contains(h.1));
                }
            }
            assert forall|i: int, j: int| 0 <= i < j < all.len() implies {
                let a = #[trigger] all[i];
                let b = #[trigger] all[j];
                a.0 != b.0 && a.0 != b.1 && a.1 != b.0 && a.1 != b.1
            } by {
                let b = rest[j - 1];
                assert(still.contains(b.0) && still.contains(b.1));
                if i == 0 {
                    assert(b.0 != g.1 && b.1 != g.1);
                    assert(waiting.contains(b.0) && waiting.contains(b.1));
                } else {
                    assert(all[i] == rest[i - 1]);
                }
            }
            assert forall|i: int| 0 <= i < all.len() implies (#[trigger] all[i]).0 != all[i].1 by {
                if i > 0 {
                    assert(all[i] == rest[i - 1]);
                }
            }
        } else {
            lemma_round(raw, waiting);
            let r = round(raw, waiting).1;
            assert forall|k: int| 0 <= k < r.len() implies {
                let g = #[trigger] r[k];
                picks.contains(g.0) && picks.contains(g.1)
            } by {
                assert(waiting.contains(r[k].0) && waiting.contains(r[k].1));
            }
        }
    }
}

/// A day of the season has no team twice when the day of the rounds it
/// replays has none twice, as is the case when every round is full.
pub proof fn lemma_day_group(matchups: Seq<Pairing>, per_day: int, day: int, rep: int)
    requires
        per_day > 0,
        0 <= day,
        0 <= rep < 4,
        day * per_day + per_day <= matchups.len(),
        meets_once(matchups.subrange(day * per_day, day * per_day + per_day)),
    ensures
        0 <= (4 * day + rep) * per_day,
        (4 * day + rep) * per_day + per_day <= 4 * matchups.len(),
        meets_once(
            expanded(matchups, per_day).subrange(
                (4 * day + rep) * per_day,
                (4 * day + rep) * per_day + per_day,
            ),
        ),
{
    let start = (4 * day + rep) * per_day;
    let season = expanded(matchups, per_day);
    let from = matchups.subrange(day * per_day, day * per_day + per_day);
    assert(0 <= day * per_day) by (nonlinear_arith)
        requires
            0 <= day,
            per_day > 0,
    ;
    assert(0 <= start) by (nonlinear_arith)
        requires
            start == (4 * day + rep) * per_day,
            0 <= day,
            0 <= rep,
            per_day > 0,
    ;
    lemma_expanded_at(matchups, per_day, day, rep, per_day - 1);
    let group = season.subrange(start, start + per_day);
    assert forall|i: int| 0 <= i < per_day implies #[trigger] group[i] == from[i] by {
        lemma_expanded_at(matchups, per_day, day, rep, i);
    }
    assert(group =~= from);
}

/// Every game of the season that rounds lay out sets two different teams of
/// the list against each other, when the rounds hold pairings of the list
/// only.
pub proof fn lemma_season_games(teams: Seq<TeamId>, matchups: Seq<Pairing>)
    requires
        teams.no_duplicates(),
        teams.len() >= 2,
        matchups.to_multiset() == all_pairings(teams).to_multiset(),
    ensures
        forall|k: int|
            0 <= k < 4 * matchups.len() ==> {
                let g = #[trigger] expanded(matchups, teams.len() as int / 2)[k];
                g.0 != g.1 && teams.contains(g.0) && teams.contains(g.1)
            },
{
    broadcast use vstd::seq_lib::group_to_multiset_ensures;

    let n = teams.len() as int;
    let per_day = n / 2;
    let all = all_pairings(teams);
    lemma_pairings_upto(teams, n);
    lemma_whole_days(n);
    vstd::seq_lib::to_multiset_len(matchups);
    vstd::seq_lib::to_multiset_len(all);
    assert forall|k: int| 0 <= k < 4 * matchups.len() implies {
        let g = #[trigger] expanded(matchups, per_day)[k];
        g.0 != g.1 && teams.contains(g.0) && teams.contains(g.1)
    } by {
        lemma_season_index(matchups.len() as int, per_day, k);
        let at = (k / (4 * per_day)) * per_day + k % per_day;
        let g = matchups[at];
        assert(expanded(matchups, per_day)[k] == g);
        assert(matchups.to_multiset().count(g) > 0);
        assert(all.contains(g));
        let j = choose|j: int| 0 <= j < all.len() && all[j] == g;
        assert(pairs_up(teams, n, all[j]));
        let (i, x) = choose|i: int, x: int|
            0 <= i < n && 0 <= x < teams.len() && i != x && #[trigger] teams[i] == g.0
                && #[trigger] teams[x] == g.1;
        assert(teams[i] != teams[x]);
    }
}

/// Whether `schedule` is the season of the teams that the rounds in
/// `matchups` lay out: four games for every pairing of two different teams
/// and no other game, each pairing on four days running in the same place of
/// the day, and no game played yet.
pub open spec fn season_of(schedule: Schedule, teams: Seq<TeamId>, matchups: Seq<Pairing>) -> bool {
    let n = teams.len() as int;
    &&& schedule.fixtures() == expanded(matchups, n / 2)
    &&& schedule.games@.len() == n * (n - 1) * 4
    &&& forall|i: int, x: int|
        0 <= i < n && 0 <= x < n && i != x ==> played_four_days(
            matchups,
            n / 2,
            (#[trigger] teams[i], #[trigger] teams[x]),
        )
    &&& forall|k: int|
        0 <= k < schedule.games@.len() ==> {
            let g = #[trigger] schedule.games@[k];
            &&& g.home.id != g.away.id
            &&& teams.contains(g.home.id)
            &&& teams.contains(g.away.id)
            &&& g.home.fresh(g.home.id)
            &&& g.away.fresh(g.away.id)
            &&& g.playbyplay@.len() == 0
        }
}

/// The rounds of a season in the making: the teams, the pairings still open
/// and those placed in a round so far. Between them the open and the placed
/// pairings are always every pairing of two different teams, each once.
pub struct Rounds {
    teams: Vec<TeamId>,
    raw_matchups: Vec<Pairing>,
    matchups: Vec<Pairing>,
}

impl Rounds {
    #[verifier::type_invariant]
    spec fn sound(self) -> bool {
        &&& self.teams@.len() >= 2
        &&& self.teams@.no_duplicates()
        &&& self.raw_matchups@.to_multiset().add(self.matchups@.to_multiset()) == all_pairings(
            self.teams@,
        ).to_multiset()
    }

    /// The teams of the season.
    pub closed spec fn teams(self) -> Seq<TeamId> {
        self.teams@
    }

    /// The pairings not placed in a round yet.
    pub closed spec fn open(self) -> Seq<Pairing> {
        self.raw_matchups@
    }

    /// The pairings placed so far, round after round.
    pub closed spec fn placed(self) -> Seq<Pairing> {
        self.matchups@
    }

    /// Tells whether no team is listed twice.
    pub fn distinct(teams: &[TeamId]) -> (b: bool)
        ensures
            b == teams@.no_duplicates(),
    {
        let mut i: usize = 0;
        while i < teams.len()
            invariant
                i <= teams.len(),
                forall|a: int, b: int| 0 <= a < b < i ==> teams@[a] != teams@[b],
            decreases teams.len() - i,
        {
            let mut j: usize = 0;
            while j < i
                invariant
                    j <= i,
                    i < teams.len(),
                    forall|a: int| 0 <= a < j ==> teams@[a] != teams@[i as int],
                decreases i - j,
            {
                if teams[j] == teams[i] {
                    assert(teams@[j as int] == teams@[i as int]);
                    return false;
                }
                j += 1;
            }
            i += 1;
        }
        true
    }

    /// Starts the rounds of a season: every pairing of two different teams is
    /// open, in a drawn order, and none is placed. A season takes two teams
    /// or more and no team twice; else nothing is started.
    pub fn new(teams: &[TeamId], rng: &mut ThreadRng) -> (rounds: Option<Rounds>)
        ensures
            rounds is Some <==> teams@.len() >= 2 && teams@.no_duplicates(),
            rounds matches Some(r) ==> r.teams() == teams@ && r.placed().len() == 0
                && r.open().to_multiset() == all_pairings(teams@).to_multiset(),
    {
        if teams.len() < 2 || !Self::distinct(teams) {
            return None;
        }
        let mut list: Vec<TeamId> = Vec::new();
        let mut i: usize = 0;
        while i < teams.len()
            invariant
                i <= teams.len(),
                list@ == teams@.take(i as int),
            decreases teams.len() - i,
        {
            list.push(teams[i]);
            assert(list@ =~= teams@.take(i + 1));
            i += 1;
        }
        assert(teams@.take(teams@.len() as int) =~= teams@);
        let raw_matchups = Schedule::draw_pairings(teams, rng);
        let matchups: Vec<Pairing> = Vec::new();
        proof {
            broadcast use vstd::seq_lib::group_to_multiset_ensures;

            assert(matchups@ =~= Seq::empty());
            assert(matchups@.to_multiset() =~= vstd::multiset::Multiset::empty());
            assert(raw_matchups@.to_multiset().add(matchups@.to_multiset())
                =~= raw_matchups@.to_multiset());
        }
        Some(Rounds { teams: list, raw_matchups, matchups })
    }

    /// Tells whether every pairing is placed.
    pub fn is_complete(&self) -> (b: bool)
        ensures
            b == (self.open().len() == 0),
    {
        self.raw_matchups.len() == 0
    }

    /// The number of pairings placed so far.
    pub fn placed_len(&self) -> (n: usize)
        ensures
            n == self.placed().len(),
    {
        self.matchups.len()
    }

    /// Builds the next round over the teams in a drawn order and adds it to
    /// the rounds placed.
    pub fn next_round(self, rng: &mut ThreadRng) -> (next: Rounds)
        ensures
            next.teams() == self.teams(),
            exists|picks: Seq<TeamId>|
                {
                    &&& picks.to_multiset() == self.teams().to_multiset()
                    &&& next.open() == #[trigger] round(self.open(), picks).0
                    &&& next.placed() == self.placed() + round(self.open(), picks).1
                },
    {
        proof {
            use_type_invariant(&self);
        }
        let teams = self.teams;
        let mut raw_matchups = self.raw_matchups;
        let mut matchups = self.matchups;
        Schedule::next_round(&mut raw_matchups, teams.as_slice(), &mut matchups, rng);
        let ghost picks = choose|picks: Seq<TeamId>|
            {
                &&& picks.to_multiset() == teams@.to_multiset()
                &&& raw_matchups@ == #[trigger] round(self.raw_matchups@, picks).0
                &&& matchups@ == self.matchups@ + round(self.raw_matchups@, picks).1
            };
        let next = Rounds { teams, raw_matchups, matchups };
        assert(next.open() == round(self.open(), picks).0);
        next
    }

    /// Lays the rounds out as a season once every pairing is placed; nothing
    /// before that.
    pub fn finish(self) -> (season: Option<Schedule>)
        ensures
            season is Some <==> self.open().len() == 0,
            season matches Some(schedule) ==> season_of(schedule, self.teams(), self.placed()),
    {
        proof {
            use_type_invariant(&self);
        }
        if self.raw_matchups.len() > 0 {
            return None;
        }
        proof {
            broadcast use vstd::seq_lib::group_to_multiset_ensures;

            assert(self.raw_matchups@ =~= Seq::empty());
            assert(self.raw_matchups@.to_multiset() =~= vstd::multiset::Multiset::empty());
            assert(self.raw_matchups@.to_multiset().add(self.matchups@.to_multiset())
                =~= self.matchups@.to_multiset());
            lemma_season(self.teams@, self.matchups@);
            lemma_season_games(self.teams@, self.matchups@);
        }
        let schedule = Schedule::expand(&self.matchups, self.teams.len());
        proof {
            let n = self.teams@.len() as int;
            let want = expanded(self.matchups@, n / 2);
            assert(schedule.games@.len() == want.len());
            assert forall|k: int| 0 <= k < schedule.games@.len() implies {
                let g = #[trigger] schedule.games@[k];
                &&& g.home.id != g.away.id
                &&& self.teams@.contains(g.home.id)
                &&& self.teams@.contains(g.away.id)
                &&& g.home.fresh(g.home.id)
                &&& g.away.fresh(g.away.id)
                &&& g.playbyplay@.len() == 0
            } by {
                assert(schedule.fixtures()[k] == want[k]);
            }
        }
        Some(schedule)
    }
}

} // verus!
