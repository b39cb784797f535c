//! A league: its teams in standing order, its schedule, and the best marks
//! any of its players has set.

use crate::player::{Player, PlayerId, PlayerMap};
use crate::schedule::Schedule;
use crate::stat::{Stat, Stats};
use crate::team::{Team, TeamId, TeamMap};
use vstd::prelude::*;

verus! {

broadcast use vstd::std_specs::hash::group_hash_axioms;

/// A league record: the mark, who set it, for which team and in which year.
#[derive(Copy, Clone, Debug, PartialEq, Eq, Structural)]
pub struct LeagueRecord {
    pub player_id: PlayerId,
    pub team_id: TeamId,
    pub record: u32,
    pub year: u32,
}

/// The statistics a league keeps records for.
pub open spec fn record_stats() -> Seq<Stat> {
    seq![
        Stat::Bhr,
        Stat::Br,
        Stat::Brbi,
        Stat::Bso,
        Stat::Bh,
        Stat::B2b,
        Stat::B3b,
        Stat::Bbb,
        Stat::Bsb,
        Stat::Bavg,
        Stat::Bobp,
        Stat::Bslg,
        Stat::Pw,
        Stat::Psv,
        Stat::Pso,
        Stat::Pwhip,
        Stat::Pera,
    ]
}

/// The statistics a league keeps records for, in the order the records are kept.
pub const RECORD_STATS: [Stat; 17] = [
    Stat::Bhr,
    Stat::Br,
    Stat::Brbi,
    Stat::Bso,
    Stat::Bh,
    Stat::B2b,
    Stat::B3b,
    Stat::Bbb,
    Stat::Bsb,
    Stat::Bavg,
    Stat::Bobp,
    Stat::Bslg,
    Stat::Pw,
    Stat::Psv,
    Stat::Pso,
    Stat::Pwhip,
    Stat::Pera,
];

/// The record for `stat` once a player's season has been held against it. A
/// first mark always stands. A later one replaces the record when it is
/// better, higher or, for a statistic where less is better, lower, and the
/// player has the playing time to qualify.
pub open spec fn record_after(
    record: Option<LeagueRecord>,
    stat: Stat,
    totals: Stats,
    player_id: PlayerId,
    team_id: TeamId,
    year: u32,
    games: u32,
) -> Option<LeagueRecord> {
    let mark = totals.field(stat);
    let set = Some(LeagueRecord { player_id, team_id, record: mark, year });
    match record {
        None => set,
        Some(rec) => if (stat.reverse_sorted() && rec.record <= mark) || (!stat.reverse_sorted()
            && rec.record >= mark) {
            record
        } else if !stat.qualified(totals, games) {
            record
        } else {
            set
        },
    }
}

/// Holds a player's season against the league records, one for each of the
/// record statistics, and enters the marks that beat them.
pub fn check_record(
    records: &mut Vec<Option<LeagueRecord>>,
    player_stats: &Stats,
    player_id: PlayerId,
    team_id: TeamId,
    year: u32,
    games: u32,
)
    requires
        old(records)@.len() == 17,
        games * 31 <= u32::MAX,
    ensures
        final(records)@.len() == 17,
        forall|k: int|
            0 <= k < 17 ==> #[trigger] final(records)@[k] == record_after(
                old(records)@[k],
                record_stats()[k],
                *player_stats,
                player_id,
                team_id,
                year,
                games,
            ),
{
    let stats = RECORD_STATS;
    assert(stats@ =~= record_stats());
    let mut k: usize = 0;
    while k < 17
        invariant
            k <= 17,
            stats@ == record_stats(),
            games * 31 <= u32::MAX,
            records@.len() == 17,
            forall|j: int| k <= j < 17 ==> records@[j] == old(records)@[j],
            forall|j: int|
                0 <= j < k ==> #[trigger] records@[j] == record_after(
                    old(records)@[j],
                    record_stats()[j],
                    *player_stats,
                    player_id,
                    team_id,
                    year,
                    games,
                ),
        decreases 17 - k,
    {
        let stat = stats[k];
        let pval = player_stats.get_stat(stat);
        let mut keep = false;
        if let Some(rec) = records[k] {
            let reverse = stat.is_reverse_sort();
            if (reverse && rec.record <= pval) || (!reverse && rec.record >= pval) {
                keep = true;
            } else if !stat.is_qualified(player_stats, games) {
                keep = true;
            }
        }
        if !keep {
            records.set(k, Some(LeagueRecord { record: pval, player_id, team_id, year }));
        }
        k += 1;
    }
}

/// `list`, which is in order of losses, with `team` put in: behind every team
/// that has no more losses than it.
pub open spec fn placed(list: Seq<(TeamId, u32)>, team: (TeamId, u32)) -> Seq<(TeamId, u32)>
    decreases list.len(),
{
    if list.len() == 0 {
        seq![team]
    } else if list.last().1 <= team.1 {
        list.push(team)
    } else {
        placed(list.drop_last(), team).push(list.last())
    }
}

/// The teams with their losses, fewest losses first; teams with the same
/// losses keep the order they were in.
pub open spec fn standings(teams: Seq<TeamId>, data: Map<TeamId, Team>) -> Seq<(TeamId, u32)>
    decreases teams.len(),
{
    if teams.len() == 0 {
        Seq::empty()
    } else {
        placed(standings(teams.drop_last(), data), (teams.last(), data[teams.last()].results.lose))
    }
}

/// Whether each team has no more losses than the next.
pub open spec fn ascending(list: Seq<(TeamId, u32)>) -> bool {
    forall|i: int, j: int| 0 <= i < j < list.len() ==> list[i].1 <= list[j].1
}

/// Putting `team` at `at` is the placing when nobody before has more losses
/// and everybody from there on has.
pub proof fn lemma_placed_at(list: Seq<(TeamId, u32)>, team: (TeamId, u32), at: int)
    requires
        0 <= at <= list.len(),
        at > 0 ==> list[at - 1].1 <= team.1,
        forall|j: int| at <= j < list.len() ==> list[j].1 > team.1,
    ensures
        placed(list, team) == list.insert(at, team),
    decreases list.len() - at,
{
    if list.len() == 0 {
        assert(list.insert(at, team) =~= seq![team]);
    } else if at == list.len() {
        assert(list.insert(at, team) =~= list.push(team));
    } else {
        lemma_placed_at(list.drop_last(), team, at);
        assert(list.insert(at, team) =~= list.drop_last().insert(at, team).push(list.last()));
    }
}

/// Placing keeps the order of losses and adds just the team.
pub proof fn lemma_placed_ascending(list: Seq<(TeamId, u32)>, team: (TeamId, u32))
    requires
        ascending(list),
    ensures
        ascending(placed(list, team)),
        placed(list, team).to_multiset() == list.to_multiset().insert(team),
        placed(list, team).len() == list.len() + 1,
    decreases list.len(),
{
    broadcast use vstd::seq_lib::group_to_multiset_ensures;

    if list.len() == 0 {
        assert(list =~= Seq::empty());
        assert(seq![team] =~= Seq::<(TeamId, u32)>::empty().push(team));
    } else if list.last().1 <= team.1 {
    } else {
        let front = list.drop_last();
        lemma_placed_ascending(front, team);
        let put = placed(front, team);
        assert(list =~= front.push(list.last()));
        assert forall|i: int| 0 <= i < put.len() implies (#[trigger] put[i]).1 <= list.last().1 by {
            assert(put.to_multiset().count(put[i]) > 0);
            if put[i] != team {
                assert(front.to_multiset().count(put[i]) > 0);
                let k = choose|k: int| 0 <= k < front.len() && front[k] == put[i];
                assert(list[k] == put[i]);
            }
        }
    }
}

/// The standings are in order of losses and hold exactly the teams given.
pub proof fn lemma_standings_ascending(teams: Seq<TeamId>, data: Map<TeamId, Team>)
    ensures
        ascending(standings(teams, data)),
        standings(teams, data).len() == teams.len(),
        standings(teams, data).to_multiset() == teams.map_values(
            |t: TeamId| (t, data[t].results.lose),
        ).to_multiset(),
    decreases teams.len(),
{
    broadcast use vstd::seq_lib::group_to_multiset_ensures;

    let with_losses = |t: TeamId| (t, data[t].results.lose);
    if teams.len() == 0 {
        assert(teams.map_values(with_losses) =~= Seq::empty());
    } else {
        lemma_standings_ascending(teams.drop_last(), data);
        lemma_placed_ascending(
            standings(teams.drop_last(), data),
            (teams.last(), data[teams.last()].results.lose),
        );
        assert(teams.map_values(with_losses) =~= teams.drop_last().map_values(with_losses).push(
            with_losses(teams.last()),
        ));
    }
}

/// A league. Its records are kept in the order of the record statistics.
pub struct League {
    pub id: u32,
    pub teams: Vec<TeamId>,
    pub schedule: Schedule,
    pub cur_idx: usize,
    pub records: Vec<Option<LeagueRecord>>,
}

/// The last `count` of `teams`, last first; all of them when there are fewer.
pub open spec fn drawn_teams(teams: Seq<TeamId>, count: int) -> Seq<TeamId>
    decreases count,
{
    if count <= 0 || teams.len() == 0 {
        Seq::empty()
    } else {
        seq![teams.last()] + drawn_teams(teams.drop_last(), count - 1)
    }
}

impl League {
    /// The games of the day that comes next: from the first game not played
    /// yet, half as many as there are teams, as far as the schedule goes.
    pub open spec fn today(self) -> (int, int) {
        let upto = self.cur_idx + self.teams@.len() / 2;
        (
            self.cur_idx as int,
            if upto <= self.schedule.games@.len() {
                upto
            } else {
                self.schedule.games@.len() as int
            },
        )
    }

    /// Whether games are left to play.
    pub open spec fn in_season(self) -> bool {
        self.cur_idx < self.schedule.games@.len()
    }

    /// A league of the last `team_count` of the teams that remain, with no
    /// schedule yet and no record set.
    pub fn new(id: u32, team_count: usize, remaining_teams: &mut Vec<TeamId>) -> (league: League)
        ensures
            league.id == id,
            league.teams@ == drawn_teams(old(remaining_teams)@, team_count as int),
            final(remaining_teams)@ == old(remaining_teams)@.take(
                old(remaining_teams)@.len() - league.teams@.len(),
            ),
            league.schedule.games@.len() == 0,
            league.cur_idx == 0,
            league.records@ == Seq::new(17, |k: int| None::<LeagueRecord>),
    {
        let mut teams: Vec<TeamId> = Vec::new();
        let mut n: usize = 0;
        let ghost all = remaining_teams@;
        assert(all.take(all.len() as int) =~= all);
        while n < team_count
            invariant
                n <= team_count,
                teams@.len() <= all.len(),
                remaining_teams@ == all.take(all.len() - teams@.len()),
                teams@ + drawn_teams(remaining_teams@, team_count - n) == drawn_teams(
                    all,
                    team_count as int,
                ),
            decreases team_count - n,
        {
            let ghost before = remaining_teams@;
            let ghost done = teams@;
            if let Some(team) = remaining_teams.pop() {
                teams.push(team);
                assert(remaining_teams@ =~= all.take(all.len() - teams@.len()));
                assert(remaining_teams@ =~= before.drop_last());
                assert(teams@ + drawn_teams(remaining_teams@, team_count - n - 1) =~= done + (
                seq![team] + drawn_teams(before.drop_last(), team_count - n - 1)));
            }
            n += 1;
        }
        assert(teams@ + Seq::<TeamId>::empty() =~= teams@);
        let mut records: Vec<Option<LeagueRecord>> = Vec::new();
        let mut k: usize = 0;
        while k < 17
            invariant
                k <= 17,
                records@ == Seq::new(k as nat, |j: int| None::<LeagueRecord>),
            decreases 17 - k,
        {
            records.push(None);
            assert(records@ =~= Seq::new((k + 1) as nat, |j: int| None::<LeagueRecord>));
            k += 1;
        }
        League { id, teams, schedule: Schedule::default(), cur_idx: 0, records }
    }

    /// Starts a new season: the tallies of the league's teams are cleared and
    /// the new schedule is taken up from its first game.
    pub fn reset_schedule(&mut self, teams: &mut TeamMap, schedule: Schedule)
        requires
            forall|i: int|
                0 <= i < old(self).teams@.len() ==> old(teams)@.contains_key(
                    #[trigger] old(self).teams@[i],
                ),
        ensures
            final(self).schedule == schedule,
            final(self).cur_idx == 0,
            final(self).id == old(self).id,
            final(self).teams == old(self).teams,
            final(self).records == old(self).records,
            final(teams)@.dom() == old(teams)@.dom(),
            forall|id: TeamId| #[trigger]
                old(teams)@.contains_key(id) ==> {
                    let before = old(teams)@[id];
                    let after = final(teams)@[id];
                    &&& after.players == before.players
                    &&& after.rotation == before.rotation
                    &&& after.history == before.history
                    &&& after.loc == before.loc
                    &&& after.nickname == before.nickname
                    &&& if old(self).teams@.contains(id) {
                        after.results.win == 0 && after.results.lose == 0
                    } else {
                        after.results == before.results
                    }
                },
    {
        let mut i: usize = 0;
        while i < self.teams.len()
            invariant
                i <= self.teams.len(),
                *self == *old(self),
                teams@.dom() == old(teams)@.dom(),
                forall|id: TeamId| #[trigger]
                    old(teams)@.contains_key(id) ==> {
                        let before = old(teams)@[id];
                        let after = teams@[id];
                        &&& after.players == before.players
                        &&& after.rotation == before.rotation
                        &&& after.history == before.history
                        &&& after.loc == before.loc
                        &&& after.nickname == before.nickname
                        &&& if self.teams@.take(i as int).contains(id) {
                            after.results.win == 0 && after.results.lose == 0
                        } else {
                            after.results == before.results
                        }
                    },
                forall|i: int|
                    0 <= i < self.teams@.len() ==> old(teams)@.contains_key(
                        #[trigger] self.teams@[i],
                    ),
            decreases self.teams.len() - i,
        {
            let id = self.teams[i];
            assert(old(teams)@.contains_key(self.teams@[i as int]));
            let ghost prev = teams@;
            match teams.remove(&id) {
                Some(mut team) => {
                    team.results.reset();
                    teams.insert(id, team);
                },
                None => {},
            }
            proof {
                assert(teams@.dom() =~= old(teams)@.dom());
                let done = self.teams@.take(i as int);
                let next = self.teams@.take(i + 1);
                assert(next =~= done.push(id));
                assert forall|t: TeamId| next.contains(t) <==> (done.contains(t) || t == id) by {
                    if next.contains(t) {
                        let k = choose|k: int| 0 <= k < next.len() && next[k] == t;
                        if k < done.len() {
                            assert(done[k] == t);
                        }
                    }
                    if done.contains(t) {
                        let k = choose|k: int| 0 <= k < done.len() && done[k] == t;
                        assert(next[k] == t);
                    }
                    if t == id {
                        assert(next[i as int] == t);
                    }
                }
            }
            i += 1;
        }
        assert(self.teams@.take(self.teams@.len() as int) =~= self.teams@);
        self.schedule = schedule;
        self.cur_idx = 0;
    }

    /// Moves the league on by one day. While games are left, gives the part
    /// of the schedule to play today and counts it as played. When none is
    /// left, puts the teams in the order of the standings and gives nothing.
    pub fn sim(&mut self, team_data: &TeamMap) -> (day: Option<(usize, usize)>)
        requires
            old(self).cur_idx + old(self).teams@.len() / 2 <= usize::MAX,
            forall|i: int|
                0 <= i < old(self).teams@.len() ==> team_data@.contains_key(
                    #[trigger] old(self).teams@[i],
                ),
        ensures
            day is Some <==> old(self).in_season(),
            day matches Some(d) ==> (d.0 as int, d.1 as int) == old(self).today()
                && final(self).cur_idx == old(self).cur_idx + old(self).teams@.len() / 2
                && final(self).teams == old(self).teams,
            day is None ==> final(self).cur_idx == old(self).cur_idx && final(self).teams@
                == standings(old(self).teams@, team_data@).map_values(|t: (TeamId, u32)| t.0),
            final(self).id == old(self).id,
            final(self).schedule == old(self).schedule,
            final(self).records == old(self).records,
    {
        if self.cur_idx < self.schedule.games.len() {
            let per_day: usize = self.teams.len() / 2;
            let from = self.cur_idx;
            let upto = if from + per_day <= self.schedule.games.len() {
                from + per_day
            } else {
                self.schedule.games.len()
            };
            self.cur_idx += per_day;
            return Some((from, upto));
        }
        let mut ranked: Vec<(TeamId, u32)> = Vec::new();
        let mut i: usize = 0;
        assert(self.teams@.take(0) =~= Seq::empty());
        while i < self.teams.len()
            invariant
                i <= self.teams.len(),
                *self == *old(self),
                ranked@ == standings(self.teams@.take(i as int), team_data@),
                forall|i: int|
                    0 <= i < self.teams@.len() ==> team_data@.contains_key(
                        #[trigger] self.teams@[i],
                    ),
            decreases self.teams.len() - i,
        {
            let id = self.teams[i];
            proof {
                assert(self.teams@.take(i + 1).drop_last() =~= self.teams@.take(i as int));
                assert(self.teams@.take(i + 1).last() == id);
                assert(team_data@.contains_key(self.teams@[i as int]));
            }
            let losses = match team_data.get(&id) {
                Some(t) => t.get_losses(),
                None => 0,
            };
            let mut at: usize = ranked.len();
            while at > 0 && ranked[at - 1].1 > losses
                invariant
                    at <= ranked.len(),
                    forall|j: int| at <= j < ranked@.len() ==> ranked@[j].1 > losses,
                decreases at,
            {
                at -= 1;
            }
            proof {
                lemma_placed_at(ranked@, (id, losses), at as int);
            }
            ranked.insert(at, (id, losses));
            i += 1;
        }
        assert(self.teams@.take(self.teams@.len() as int) =~= self.teams@);
        let mut teams: Vec<TeamId> = Vec::new();
        let mut k: usize = 0;
        while k < ranked.len()
            invariant
                k <= ranked.len(),
                teams@ == ranked@.take(k as int).map_values(|t: (TeamId, u32)| t.0),
            decreases ranked.len() - k,
        {
            teams.push(ranked[k].0);
            assert(teams@ =~= ranked@.take(k + 1).map_values(|t: (TeamId, u32)| t.0));
            k += 1;
        }
        assert(ranked@.take(ranked@.len() as int) =~= ranked@);
        self.teams = teams;
        None
    }

    /// Moves `count` teams between two leagues: the last `count` of the upper
    /// league go down and the first `count` of the lower league come up. Those
    /// coming up join the end of the upper league in their order; those going
    /// down come to the front of the lower league, the last of them first.
    pub fn exchange(upper: &mut Vec<TeamId>, lower: &mut Vec<TeamId>, count: usize)
        requires
            count <= old(upper)@.len(),
            count <= old(lower)@.len(),
        ensures
            final(upper)@ == old(upper)@.take(old(upper)@.len() - count) + old(lower)@.take(
                count as int,
            ),
            final(lower)@ == old(upper)@.skip(old(upper)@.len() - count).reverse() + old(
                lower,
            )@.skip(count as int),
    {
        let len = upper.len();
        let ghost up = upper@;
        let ghost low = lower@;
        let relegated = upper.split_off(len - count);
        let mut promoted: Vec<TeamId> = Vec::new();
        let mut n: usize = 0;
        while n < count
            invariant
                n <= count,
                count <= low.len(),
                promoted@ == low.take(n as int),
                lower@ == low.skip(n as int),
            decreases count - n,
        {
            let team = lower.remove(0);
            promoted.push(team);
            assert(promoted@ =~= low.take(n + 1));
            assert(lower@ =~= low.skip(n + 1));
            n += 1;
        }
        upper.append(&mut promoted);
        let mut k: usize = 0;
        assert(relegated@.take(0).reverse() + low.skip(count as int) =~= low.skip(count as int));
        while k < relegated.len()
            invariant
                k <= relegated.len(),
                relegated@ == up.skip(up.len() - count),
                lower@ == relegated@.take(k as int).reverse() + low.skip(count as int),
            decreases relegated.len() - k,
        {
            lower.insert(0, relegated[k]);
            assert(lower@ =~= relegated@.take(k + 1).reverse() + low.skip(count as int));
            k += 1;
        }
        assert(relegated@.take(relegated@.len() as int) =~= relegated@);
    }
}

/// Everything the end of a season writes to: the players, the teams and the
/// records of the league.
pub struct Books {
    pub players: Map<PlayerId, Player>,
    pub teams: Map<TeamId, Team>,
    pub records: Seq<Option<LeagueRecord>>,
}

/// The records after the seasons of the first `n` players of a roster have
/// been held against them, one after the other.
pub open spec fn records_through(
    records: Seq<Option<LeagueRecord>>,
    roster: Seq<PlayerId>,
    players: Map<PlayerId, Player>,
    team_id: TeamId,
    year: u32,
    games: u32,
    n: int,
) -> Seq<Option<LeagueRecord>>
    decreases n,
{
    if n <= 0 {
        records
    } else {
        let prev = records_through(records, roster, players, team_id, year, games, n - 1);
        let id = roster[n - 1];
        Seq::new(
            17,
            |k: int|
                record_after(
                    prev[k],
                    record_stats()[k],
                    Stats::compiled(players[id].stat_stream@),
                    id,
                    team_id,
                    year,
                    games,
                ),
        )
    }
}

/// Whether a team's season can be closed: the team is known, its players are
/// known, each once, with seasons that can be compiled, and its tally and its
/// place fit their counters.
pub open spec fn can_close(books: Books, league_idx: usize, rank: usize, team_id: TeamId) -> bool {
    &&& books.records.len() == 17
    &&& books.teams.contains_key(team_id)
    &&& books.teams[team_id].players@.no_duplicates()
    &&& forall|i: int|
        0 <= i < books.teams[team_id].players@.len() ==> books.players.contains_key(
            #[trigger] books.teams[team_id].players@[i],
        ) && books.players[books.teams[team_id].players@[i]].compilable()
    &&& (books.teams[team_id].results.win + books.teams[team_id].results.lose) * 31 <= u32::MAX
    &&& books.teams[team_id].can_file(league_idx, rank)
}

/// What closing a team's season does: each player of the roster has his
/// season held against the records and filed, and the team has its season
/// filed under the place it finished in.
pub open spec fn team_closed(
    before: Books,
    after: Books,
    league_id: u32,
    league_idx: usize,
    rank: usize,
    team_id: TeamId,
    year: u32,
) -> bool {
    let team = before.teams[team_id];
    let roster = team.players@;
    let games = (team.results.win + team.results.lose) as u32;
    &&& after.records == records_through(
        before.records,
        roster,
        before.players,
        team_id,
        year,
        games,
        roster.len() as int,
    )
    &&& after.players.dom() == before.players.dom()
    &&& forall|id: PlayerId| #[trigger]
        before.players.contains_key(id) ==> if roster.contains(id) {
            after.players[id].filed(before.players[id], year, league_id, team_id)
        } else {
            after.players[id] == before.players[id]
        }
    &&& after.teams.dom() == before.teams.dom()
    &&& forall|id: TeamId| #[trigger]
        before.teams.contains_key(id) && id != team_id ==> after.teams[id] == before.teams[id]
    &&& after.teams[team_id].season_filed(team, year, league_idx, rank, team.results)
}

/// Tells whether a team's season can be closed.
pub fn ready_to_close(
    records: &Vec<Option<LeagueRecord>>,
    league_idx: usize,
    rank: usize,
    team_id: TeamId,
    teams: &TeamMap,
    players: &PlayerMap,
) -> (b: bool)
    ensures
        b == can_close(
            Books { players: players@, teams: teams@, records: records@ },
            league_idx,
            rank,
            team_id,
        ),
{
    if records.len() != 17 {
        return false;
    }
    let team = match teams.get(&team_id) {
        Some(t) => t,
        None => {
            return false;
        },
    };
    let max: u64 = 0xffff_ffff;
    if (team.results.win as u64 + team.results.lose as u64) * 31 > max {
        return false;
    }
    if team.history.wins as u64 + team.results.win as u64 > max || team.history.losses as u64
        + team.results.lose as u64 > max {
        return false;
    }
    if league_idx > 42_949_671 || rank > 0xffff_ffff {
        return false;
    }
    if (league_idx as u64 + 1) * 100 + (rank as u64 + 1) > max {
        return false;
    }
    let mut i: usize = 0;
    while i < team.players.len()
        invariant
            i <= team.players.len(),
            teams@.contains_key(team_id),
            *team == teams@[team_id],
            forall|k: int|
                0 <= k < i ==> players@.contains_key(#[trigger] team.players@[k])
                    && players@[team.players@[k]].compilable(),
            forall|a: int, b: int| 0 <= a < b < i ==> team.players@[a] != team.players@[b],
        decreases team.players.len() - i,
    {
        let id = team.players[i];
        let fit = match players.get(&id) {
            Some(p) => p.can_compile(),
            None => false,
        };
        if !fit {
            proof {
                let books = Books { players: players@, teams: teams@, records: records@ };
                let roster = books.teams[team_id].players@;
                assert(!(books.players.contains_key(roster[i as int])
                    && books.players[roster[i as int]].compilable()));
            }
            return false;
        }
        let mut j: usize = 0;
        while j < i
            invariant
                j <= i,
                i < team.players.len(),
                teams@.contains_key(team_id),
                *team == teams@[team_id],
                id == team.players@[i as int],
                forall|a: int| 0 <= a < j ==> team.players@[a] != id,
            decreases i - j,
        {
            if team.players[j] == id {
                proof {
                    let books = Books { players: players@, teams: teams@, records: records@ };
                    let roster = books.teams[team_id].players@;
                    assert(roster[j as int] == roster[i as int]);
                    assert(!roster.no_duplicates());
                }
                return false;
            }
            j += 1;
        }
        i += 1;
    }
    true
}

/// Closes the season of one team of a league that finished at `rank`.
pub fn close_team(
    records: &mut Vec<Option<LeagueRecord>>,
    league_id: u32,
    league_idx: usize,
    rank: usize,
    team_id: TeamId,
    teams: &mut TeamMap,
    players: &mut PlayerMap,
    year: u32,
)
    requires
        can_close(
            Books { players: old(players)@, teams: old(teams)@, records: old(records)@ },
            league_idx,
            rank,
            team_id,
        ),
    ensures
        team_closed(
            Books { players: old(players)@, teams: old(teams)@, records: old(records)@ },
            Books { players: final(players)@, teams: final(teams)@, records: final(records)@ },
            league_id,
            league_idx,
            rank,
            team_id,
            year,
        ),
{
    let ghost before = Books { players: players@, teams: teams@, records: records@ };
    match teams.remove(&team_id) {
        Some(mut team) => {
            let ghost roster = team.players@;
            let games = team.results.games();
            let mut i: usize = 0;
            while i < team.players.len()
                invariant
                    i <= team.players.len(),
                    team == before.teams[team_id],
                    roster == team.players@,
                    roster.no_duplicates(),
                    games * 31 <= u32::MAX,
                    forall|k: int|
                        0 <= k < roster.len() ==> before.players.contains_key(#[trigger] roster[k])
                            && before.players[roster[k]].compilable(),
                    records@.len() == 17,
                    records@ == records_through(
                        before.records,
                        roster,
                        before.players,
                        team_id,
                        year,
                        games,
                        i as int,
                    ),
                    players@.dom() == before.players.dom(),
                    forall|k: int|
                        0 <= k < i ==> players@[#[trigger] roster[k]].filed(
                            before.players[roster[k]],
                            year,
                            league_id,
                            team_id,
                        ),
                    forall|k: int|
                        i <= k < roster.len() ==> players@[#[trigger] roster[k]]
                            == before.players[roster[k]],
                    forall|id: PlayerId| #[trigger]
                        before.players.contains_key(id) && !roster.contains(id) ==> players@[id]
                            == before.players[id],
                decreases team.players.len() - i,
            {
                let player_id = team.players[i];
                let ghost prev = players@;
                assert(before.players.contains_key(roster[i as int]));
                assert(players@[roster[i as int]] == before.players[roster[i as int]]);
                match players.remove(&player_id) {
                    Some(mut player) => {
                        let stats = player.get_stats();
                        check_record(records, &stats, player_id, team_id, year, games);
                        player.record_stat_history(year, league_id, team_id);
                        players.insert(player_id, player);
                    },
                    None => {},
                }
                proof {
                    assert(players@.dom() =~= before.players.dom());
                    assert(records@ =~= records_through(
                        before.records,
                        roster,
                        before.players,
                        team_id,
                        year,
                        games,
                        i + 1,
                    ));
                    assert forall|k: int| 0 <= k < i + 1 implies players@[#[trigger] roster[k]].filed(
                        before.players[roster[k]],
                        year,
                        league_id,
                        team_id,
                    ) by {
                        if k < i {
                            assert(roster[k] != roster[i as int]);
                        }
                    }
                    assert forall|k: int| i + 1 <= k < roster.len() implies players@[#[trigger] roster[k]]
                        == before.players[roster[k]] by {
                        assert(roster[k] != roster[i as int]);
                    }
                    assert forall|id: PlayerId| #[trigger]
                        before.players.contains_key(id) && !roster.contains(id) implies players@[id]
                        == before.players[id] by {
                        assert(roster[i as int] == player_id);
                    }
                }
                i += 1;
            }
            let results = team.results;
            team.record_results(year, league_idx, rank, results);
            teams.insert(team_id, team);
            proof {
                assert(teams@.dom() =~= before.teams.dom());
                assert forall|id: PlayerId| #[trigger] before.players.contains_key(id) implies if roster.contains(
                    id,
                ) {
                    players@[id].filed(before.players[id], year, league_id, team_id)
                } else {
                    players@[id] == before.players[id]
                } by {
                    if roster.contains(id) {
                        let k = choose|k: int| 0 <= k < roster.len() && roster[k] == id;
                        assert(players@[roster[k]].filed(
                            before.players[roster[k]],
                            year,
                            league_id,
                            team_id,
                        ));
                    }
                }
            }
        },
        None => {},
    }
}

/// Whether a team's season could be closed from the books `before` and
/// closing it gave the books `after`.
#[verifier::opaque]
pub open spec fn season_closed(
    before: Books,
    after: Books,
    league_id: u32,
    league_idx: usize,
    rank: usize,
    team_id: TeamId,
    year: u32,
) -> bool {
    can_close(before, league_idx, rank, team_id) && team_closed(
        before,
        after,
        league_id,
        league_idx,
        rank,
        team_id,
        year,
    )
}

/// Whether a team's season cannot be closed from the books.
#[verifier::opaque]
pub open spec fn stuck(books: Books, league_idx: usize, rank: usize, team_id: TeamId) -> bool {
    !can_close(books, league_idx, rank, team_id)
}

/// Whether `chain` tells how the seasons of the first `closed` teams of a
/// league were closed, one after the other in standing order, from the first
/// of its books to the last, and that the next team, if there is one, could
/// not be closed.
pub open spec fn books_closed(
    chain: Seq<Books>,
    closed: int,
    league_id: u32,
    league_idx: usize,
    teams: Seq<TeamId>,
    year: u32,
) -> bool {
    &&& 0 <= closed <= teams.len()
    &&& chain.len() == closed + 1
    &&& forall|i: int|
        0 <= i < closed ==> season_closed(
            #[trigger] chain[i],
            chain[i + 1],
            league_id,
            league_idx,
            i as usize,
            teams[i],
            year,
        )
    &&& closed < teams.len() ==> stuck(chain[closed], league_idx, closed as usize, teams[closed])
}

impl League {
    /// Closes the season of each team of the league, in standing order, as
    /// far as they can be closed, and gives the number closed: all of them
    /// unless a team or a player is missing or a counter has no room.
    pub fn close_books(
        &mut self,
        league_idx: usize,
        teams: &mut TeamMap,
        players: &mut PlayerMap,
        year: u32,
    ) -> (closed: usize)
        ensures
            exists|chain: Seq<Books>|
                {
                    &&& #[trigger] books_closed(
                        chain,
                        closed as int,
                        old(self).id,
                        league_idx,
                        old(self).teams@,
                        year,
                    )
                    &&& chain[0] == (Books {
                        players: old(players)@,
                        teams: old(teams)@,
                        records: old(self).records@,
                    })
                    &&& chain[closed as int] == (Books {
                        players: final(players)@,
                        teams: final(teams)@,
                        records: final(self).records@,
                    })
                },
            final(self).id == old(self).id,
            final(self).teams == old(self).teams,
            final(self).schedule == old(self).schedule,
            final(self).cur_idx == old(self).cur_idx,
    {
        let ghost mut chain: Seq<Books> = seq![
            Books { players: players@, teams: teams@, records: self.records@ },
        ];
        let mut rank: usize = 0;
        while rank < self.teams.len()
            invariant
                rank <= self.teams.len(),
                self.id == old(self).id,
                self.teams == old(self).teams,
                self.schedule == old(self).schedule,
                self.cur_idx == old(self).cur_idx,
                chain.len() == rank + 1,
                chain[0] == (Books {
                    players: old(players)@,
                    teams: old(teams)@,
                    records: old(self).records@,
                }),
                chain[rank as int] == (Books {
                    players: players@,
                    teams: teams@,
                    records: self.records@,
                }),
                forall|i: int|
                    0 <= i < rank ==> season_closed(
                        #[trigger] chain[i],
                        chain[i + 1],
                        self.id,
                        league_idx,
                        i as usize,
                        self.teams@[i],
                        year,
                    ),
            decreases self.teams.len() - rank,
        {
            let team_id = self.teams[rank];
            let ghost now = Books { players: players@, teams: teams@, records: self.records@ };
            let ok = Self::close_next(
                &mut self.records,
                self.id,
                league_idx,
                rank,
                team_id,
                teams,
                players,
                year,
            );
            if !ok {
                proof {
                    assert(chain[rank as int] == now);
                    assert(books_closed(
                        chain,
                        rank as int,
                        old(self).id,
                        league_idx,
                        old(self).teams@,
                        year,
                    ));
                }
                return rank;
            }
            proof {
                let before = chain;
                chain = chain.push(
                    Books { players: players@, teams: teams@, records: self.records@ },
                );
                assert forall|i: int| 0 <= i < rank + 1 implies season_closed(
                    #[trigger] chain[i],
                    chain[i + 1],
                    self.id,
                    league_idx,
                    i as usize,
                    self.teams@[i],
                    year,
                ) by {
                    if i < rank {
                        assert(chain[i] == before[i]);
                        assert(chain[i + 1] == before[i + 1]);
                    }
                }
            }
            rank += 1;
        }
        proof {
            assert(books_closed(
                chain,
                rank as int,
                old(self).id,
                league_idx,
                old(self).teams@,
                year,
            ));
        }
        rank
    }

    /// Closes the season of one team if it can be closed; tells whether it
    /// was.
    fn close_next(
        records: &mut Vec<Option<LeagueRecord>>,
        league_id: u32,
        league_idx: usize,
        rank: usize,
        team_id: TeamId,
        teams: &mut TeamMap,
        players: &mut PlayerMap,
        year: u32,
    ) -> (ok: bool)
        ensures
            ok ==> season_closed(
                Books { players: old(players)@, teams: old(teams)@, records: old(records)@ },
                Books { players: final(players)@, teams: final(teams)@, records: final(records)@ },
                league_id,
                league_idx,
                rank,
                team_id,
                year,
            ),
            !ok ==> stuck(
                Books { players: old(players)@, teams: old(teams)@, records: old(records)@ },
                league_idx,
                rank,
                team_id,
            ) && final(players)@ == old(players)@ && final(teams)@ == old(teams)@ && final(records)@
                == old(records)@,
    {
        reveal(season_closed);
        reveal(stuck);
        if !ready_to_close(records, league_idx, rank, team_id, teams, players) {
            return false;
        }
        close_team(records, league_id, league_idx, rank, team_id, teams, players, year);
        true
    }
}

} // verus!
