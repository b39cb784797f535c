use imp019::data::LocData;
use imp019::league::{
    check_record, close_team, ready_to_close, League, LeagueRecord, RECORD_STATS,
};
use imp019::player::{Handedness, Player, PlayerMap, Position, SprayChart};
use imp019::schedule::Schedule;
use imp019::stat::{Stat, Stats};
use imp019::team::{Team, TeamMap};

fn team(wins: u32, losses: u32) -> Team {
    let loc = LocData { abbr: "A", city: "B", state: "C", country: "US", population: 1, lang: "EN" };
    let mut t = Team::new(loc, "N".to_string(), 2040);
    t.results.win = wins;
    t.results.lose = losses;
    t
}

fn player(stream: Vec<Stat>) -> Player {
    Player {
        active: true,
        name_first: "Al",
        name_last: "Oe",
        birthplace: String::new(),
        born: 2020,
        pos: Position::Catcher,
        bats: Handedness::Right,
        throws: Handedness::Right,
        bat_spray: SprayChart::new(),
        pit_spray: SprayChart::new(),
        stat_stream: stream,
        historical: Vec::new(),
        fatigue: 3,
    }
}

fn record_of(records: &[Option<LeagueRecord>], stat: Stat) -> Option<LeagueRecord> {
    records[RECORD_STATS.iter().position(|s| *s == stat).unwrap()]
}

#[test]
fn a_league_takes_its_teams_from_the_end_of_the_list() {
    let mut remaining = vec![1, 2, 3, 4, 5];
    let league = League::new(7, 3, &mut remaining);
    assert_eq!(league.id, 7);
    assert_eq!(league.teams, vec![5, 4, 3]);
    assert_eq!(remaining, vec![1, 2]);
    assert_eq!(league.cur_idx, 0);
    assert!(league.schedule.games.is_empty());
    assert_eq!(league.records, vec![None; 17]);
    let short = League::new(8, 3, &mut remaining);
    assert_eq!(short.teams, vec![2, 1]);
    assert!(remaining.is_empty());
}

#[test]
fn a_first_mark_always_stands() {
    let mut records = vec![None; 17];
    let stats = Stats::compile_stats(&[Stat::Bhr, Stat::Bhr, Stat::Bo]);
    check_record(&mut records, &stats, 11, 22, 2049, 100);
    let hr = record_of(&records, Stat::Bhr).unwrap();
    assert_eq!(hr, LeagueRecord { player_id: 11, team_id: 22, record: 2, year: 2049 });
    // not qualified for the average, but the first all the same
    assert_eq!(record_of(&records, Stat::Bavg).unwrap().record, 666);
    assert_eq!(record_of(&records, Stat::Pera).unwrap().record, 0);
}

#[test]
fn a_later_mark_must_be_better_and_qualified() {
    let mut records = vec![None; 17];
    let first = Stats::compile_stats(&[Stat::Bhr, Stat::Bhr, Stat::Bo, Stat::Bo]);
    check_record(&mut records, &first, 1, 10, 2049, 0);

    // same number of home runs: the record stays
    check_record(&mut records, &first, 2, 10, 2050, 0);
    assert_eq!(record_of(&records, Stat::Bhr).unwrap().player_id, 1);

    // more home runs and a better average, but too few plate appearances for the average
    let better = Stats::compile_stats(&[Stat::Bhr, Stat::Bhr, Stat::Bhr, Stat::Bo]);
    check_record(&mut records, &better, 3, 10, 2051, 10);
    assert_eq!(
        record_of(&records, Stat::Bhr).unwrap(),
        LeagueRecord { player_id: 3, team_id: 10, record: 3, year: 2051 }
    );
    assert_eq!(record_of(&records, Stat::Bavg).unwrap().player_id, 1);

    // one game played asks for three plate appearances
    check_record(&mut records, &better, 4, 10, 2052, 1);
    assert_eq!(
        record_of(&records, Stat::Bavg).unwrap(),
        LeagueRecord { player_id: 4, team_id: 10, record: 750, year: 2052 }
    );
}

#[test]
fn for_an_earned_run_average_less_is_better() {
    let mut records = vec![None; 17];
    let mut outs = vec![Stat::Po; 27];
    outs.push(Stat::Per);
    outs.push(Stat::Per);
    let two = Stats::compile_stats(&outs);
    outs.push(Stat::Per);
    let three = Stats::compile_stats(&outs);
    check_record(&mut records, &three, 1, 10, 2049, 1);
    assert_eq!(record_of(&records, Stat::Pera).unwrap().record, 3000);
    check_record(&mut records, &two, 2, 10, 2050, 1);
    assert_eq!(record_of(&records, Stat::Pera).unwrap().record, 2000);
    check_record(&mut records, &three, 3, 10, 2051, 1);
    assert_eq!(record_of(&records, Stat::Pera).unwrap().player_id, 2);
}

#[test]
fn a_day_is_half_as_many_games_as_teams() {
    let mut remaining = vec![1, 2, 3, 4];
    let mut league = League::new(1, 4, &mut remaining);
    let teams: TeamMap =
        [(1, team(3, 9)), (2, team(8, 4)), (3, team(6, 6)), (4, team(8, 4))].into_iter().collect();
    league.schedule = Schedule::expand(&vec![(1, 2), (3, 4), (2, 1)], 2);
    assert_eq!(league.schedule.games.len(), 12);
    league.cur_idx = 9;
    assert_eq!(league.sim(&teams), Some((9, 11)));
    assert_eq!(league.cur_idx, 11);
    assert_eq!(league.teams, vec![4, 3, 2, 1]);
    // the last day is cut short by the end of the schedule
    assert_eq!(league.sim(&teams), Some((11, 12)));
    assert_eq!(league.cur_idx, 13);
    // after the season the teams are put in order of losses
    assert_eq!(league.sim(&teams), None);
    assert_eq!(league.teams, vec![4, 2, 3, 1]);
    assert_eq!(league.cur_idx, 13);
}

#[test]
fn a_new_season_clears_the_tallies_of_the_league() {
    let mut remaining = vec![1, 2, 3];
    let mut league = League::new(1, 2, &mut remaining);
    let mut teams: TeamMap = [(1, team(3, 9)), (2, team(8, 4)), (3, team(6, 6))].into_iter().collect();
    league.cur_idx = 40;
    league.reset_schedule(&mut teams, Schedule::expand(&vec![(3, 2), (2, 3)], 2));
    assert_eq!(league.cur_idx, 0);
    assert_eq!(league.schedule.games.len(), 8);
    assert_eq!((teams[&3].results.win, teams[&3].results.lose), (0, 0));
    assert_eq!((teams[&2].results.win, teams[&2].results.lose), (0, 0));
    assert_eq!((teams[&1].results.win, teams[&1].results.lose), (3, 9));
}

#[test]
fn teams_go_down_and_come_up() {
    let mut upper = vec![1, 2, 3, 4, 5];
    let mut lower = vec![6, 7, 8, 9];
    League::exchange(&mut upper, &mut lower, 2);
    assert_eq!(upper, vec![1, 2, 3, 6, 7]);
    assert_eq!(lower, vec![5, 4, 8, 9]);
    League::exchange(&mut upper, &mut lower, 0);
    assert_eq!(upper, vec![1, 2, 3, 6, 7]);
    assert_eq!(lower, vec![5, 4, 8, 9]);
}

#[test]
fn closing_a_team_files_its_season() {
    let mut teams: TeamMap = [(10, team(60, 40)), (20, team(50, 50))].into_iter().collect();
    teams.get_mut(&10).unwrap().players = vec![1, 2];
    let mut players: PlayerMap = [
        (1, player(vec![Stat::Bhr, Stat::Bo])),
        (2, player(vec![Stat::Bhr, Stat::Bhr, Stat::Bo])),
        (3, player(vec![Stat::Bhr, Stat::Bhr, Stat::Bhr])),
    ]
    .into_iter()
    .collect();
    let mut records = vec![None; 17];
    assert!(ready_to_close(&records, 1, 2, 10, &teams, &players));
    assert!(!ready_to_close(&records, 1, 2, 30, &teams, &players));
    assert!(!ready_to_close(&vec![None; 16], 1, 2, 10, &teams, &players));
    teams.get_mut(&20).unwrap().players = vec![3, 3];
    assert!(!ready_to_close(&records, 1, 2, 20, &teams, &players));
    teams.get_mut(&20).unwrap().players = vec![3, 4];
    assert!(!ready_to_close(&records, 1, 2, 20, &teams, &players));
    close_team(&mut records, 5, 1, 2, 10, &mut teams, &mut players, 2049);

    assert_eq!(
        record_of(&records, Stat::Bhr),
        Some(LeagueRecord { player_id: 2, team_id: 10, record: 2, year: 2049 })
    );
    for id in [1u64, 2] {
        let p = &players[&id];
        assert!(p.stat_stream.is_empty());
        assert_eq!(p.historical.len(), 1);
        let h = &p.historical[0];
        assert_eq!((h.year, h.league, h.team, h.stats.b_hr), (2049, 5, 10, id as u32));
        assert_eq!(p.fatigue, 3);
    }
    assert_eq!(players[&3].stat_stream.len(), 3);
    assert!(players[&3].historical.is_empty());

    let t = &teams[&10];
    assert_eq!((t.history.wins, t.history.losses), (60, 40));
    assert_eq!(t.history.best, Some(203));
    assert_eq!(t.history.results.len(), 1);
    assert_eq!((t.history.results[0].win, t.history.results[0].lose), (60, 40));
    assert_eq!((t.results.win, t.results.lose), (60, 40));
    assert!(teams[&20].history.results.is_empty());
}

#[test]
fn closing_the_books_goes_through_the_standings() {
    let mut teams: TeamMap = [(10, team(60, 40)), (20, team(50, 50))].into_iter().collect();
    teams.get_mut(&10).unwrap().players = vec![1];
    teams.get_mut(&20).unwrap().players = vec![2];
    let mut players: PlayerMap =
        [(1, player(vec![Stat::Bhr])), (2, player(vec![Stat::Bhr, Stat::Bhr]))].into_iter().collect();
    let mut remaining = vec![30, 10, 20];
    let mut league = League::new(4, 3, &mut remaining);
    assert_eq!(league.teams, vec![20, 10, 30]);

    // team 30 is unknown: the two before it are closed
    assert_eq!(league.close_books(2, &mut teams, &mut players, 2049), 2);
    assert_eq!(teams[&20].history.best, Some(301));
    assert_eq!(teams[&10].history.best, Some(302));
    assert_eq!(record_of(&league.records, Stat::Bhr).unwrap().player_id, 2);
    assert!(players[&1].stat_stream.is_empty() && players[&2].stat_stream.is_empty());
    assert_eq!((players[&1].historical[0].league, players[&1].historical[0].team), (4, 10));

    league.teams = vec![10, 20];
    assert_eq!(league.close_books(0, &mut teams, &mut players, 2050), 2);
    assert_eq!(teams[&10].history.results.len(), 2);
    assert_eq!(teams[&10].history.best, Some(101));
    assert_eq!(teams[&10].history.worst, Some(302));
}
