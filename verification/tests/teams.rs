use imp019::data::LocData;
use imp019::player::{Handedness, Player, PlayerMap, Position, SprayChart};
use imp019::results::Results;
use imp019::team::{Team, Wanted};

fn loc() -> LocData {
    LocData { abbr: "SPR", city: "Springfield", state: "IL", country: "US", population: 114_000, lang: "EN" }
}

fn team() -> Team {
    Team::new(loc(), "Isotopes".to_string(), 2049)
}

fn player(pos: Position) -> Player {
    Player {
        active: true,
        name_first: "Al",
        name_last: "Oe",
        birthplace: String::new(),
        born: 2020,
        pos,
        bats: Handedness::Right,
        throws: Handedness::Right,
        bat_spray: SprayChart::new(),
        pit_spray: SprayChart::new(),
        stat_stream: Vec::new(),
        historical: Vec::new(),
        fatigue: 0,
    }
}

fn players(list: &[(u64, Position)]) -> PlayerMap {
    list.iter().map(|(id, pos)| (*id, player(*pos))).collect()
}

#[test]
fn a_new_team_has_nothing_yet() {
    let t = team();
    assert!(t.players.is_empty());
    assert_eq!(t.rotation, [0, 0, 0, 0, 0]);
    assert_eq!((t.get_wins(), t.get_losses()), (0, 0));
    assert_eq!(t.history.founded, 2049);
    assert_eq!((t.history.best, t.history.worst), (None, None));
    assert_eq!(t.abbr(), "SPR");
    assert_eq!(t.name(), "Springfield Isotopes (IL-US)");
    assert_eq!(t.win_pct(), 0);
}

#[test]
fn results_count_wins_and_losses() {
    let mut t = team();
    t.results(5, 3);
    t.results(2, 3);
    t.results(4, 1);
    assert_eq!((t.get_wins(), t.get_losses()), (2, 1));
    assert_eq!(t.results.games(), 3);
    assert_eq!(t.win_pct(), 667);
    t.results.reset();
    assert_eq!((t.get_wins(), t.get_losses()), (0, 0));
    let r = Results::new();
    assert_eq!((r.win, r.lose), (0, 0));
}

#[test]
fn a_filed_season_goes_into_the_history() {
    let mut t = team();
    t.results.win = 90;
    t.results.lose = 62;
    t.record_results(2049, 1, 3, Results { win: 90, lose: 62 });
    assert_eq!((t.history.wins, t.history.losses), (90, 62));
    assert_eq!((t.history.best, t.history.worst), (Some(204), Some(204)));
    t.record_results(2050, 0, 11, Results { win: 80, lose: 72 });
    assert_eq!((t.history.wins, t.history.losses), (180, 124));
    assert_eq!((t.history.best, t.history.worst), (Some(112), Some(204)));
    t.record_results(2051, 2, 0, Results { win: 1, lose: 2 });
    assert_eq!((t.history.best, t.history.worst), (Some(112), Some(301)));
    assert_eq!(t.history.results.len(), 3);
    let last = &t.history.results[1];
    assert_eq!((last.year, last.league, last.rank, last.win, last.lose), (2050, 1, 12, 80, 72));
}

#[test]
fn rosters_carry_more_of_some_positions() {
    assert_eq!(Team::players_per_position(Position::StartingPitcher), 5);
    assert_eq!(Team::players_per_position(Position::LongRelief), 3);
    assert_eq!(Team::players_per_position(Position::ShortRelief), 3);
    assert_eq!(Team::players_per_position(Position::Catcher), 2);
    assert_eq!(Team::players_per_position(Position::Closer), 1);
    assert_eq!(Team::players_per_position(Position::ShortStop), 1);
}

#[test]
fn picking_takes_the_first_wanted_player() {
    let all = players(&[
        (1, Position::Catcher),
        (2, Position::ShortStop),
        (3, Position::LeftField),
        (4, Position::ThirdBase),
    ]);
    let mut pool = vec![1, 9, 3, 2, 4];
    assert_eq!(Team::pick(&mut pool, &all, &Wanted::Infield), Some(2));
    assert_eq!(pool, vec![1, 9, 3, 4]);
    assert_eq!(Team::pick(&mut pool, &all, &Wanted::Exactly(Position::Catcher)), Some(1));
    assert_eq!(Team::pick(&mut pool, &all, &Wanted::Outfield), Some(3));
    assert_eq!(Team::pick(&mut pool, &all, &Wanted::Outfield), None);
    assert_eq!(pool, vec![9, 4]);
}

#[test]
fn filling_in_stops_at_the_number_wanted() {
    let all = players(&[
        (1, Position::Catcher),
        (2, Position::Catcher),
        (3, Position::Catcher),
        (4, Position::FirstBase),
    ]);
    let mut t = team();
    t.players = vec![4, 2];
    let mut pool = vec![1, 3];
    assert_eq!(t.count_at(&all, &Wanted::Exactly(Position::Catcher)), 1);
    t.fill_in(&mut pool, &all, 2, &Wanted::Exactly(Position::Catcher));
    assert_eq!(t.players, vec![4, 2, 1]);
    assert_eq!(pool, vec![3]);
    t.fill_in(&mut pool, &all, 2, &Wanted::Exactly(Position::Catcher));
    assert_eq!(t.players, vec![4, 2, 1]);
    t.fill_in(&mut pool, &all, 6, &Wanted::Outfield);
    assert_eq!(t.players, vec![4, 2, 1]);
    assert_eq!(pool, vec![3]);
}

#[test]
fn populating_fills_the_roster_and_the_rotation() {
    let mut list = Vec::new();
    let mut id = 0u64;
    for pos in Position::all() {
        for _ in 0..8 {
            id += 1;
            list.push((id, pos));
        }
    }
    let all = players(&list);
    let mut pool: Vec<u64> = (1..=id).collect();
    let mut t = team();
    t.populate(&mut pool, &all);

    let count = |wanted: Wanted| t.count_at(&all, &wanted);
    assert_eq!(count(Wanted::Exactly(Position::StartingPitcher)), 5);
    assert_eq!(count(Wanted::Exactly(Position::LongRelief)), 3);
    assert_eq!(count(Wanted::Exactly(Position::ShortRelief)), 3);
    assert_eq!(count(Wanted::Exactly(Position::Catcher)), 2);
    assert_eq!(count(Wanted::Exactly(Position::Setup)), 1);
    assert_eq!(count(Wanted::Exactly(Position::Closer)), 1);
    assert_eq!(count(Wanted::Exactly(Position::DesignatedHitter)), 1);
    assert_eq!(count(Wanted::Infield), 6);
    assert_eq!(count(Wanted::Outfield), 4);
    assert_eq!(t.players.len(), 5 + 3 + 3 + 2 + 1 + 1 + 1 + 6 + 4);
    assert_eq!(t.rotation, [1, 2, 3, 4, 5]);
    assert_eq!(pool.len() + t.players.len(), id as usize);
    for p in &t.players {
        assert!(!pool.contains(p));
    }
}

#[test]
fn a_short_pool_leaves_the_rest_of_the_rotation() {
    let all = players(&[(1, Position::StartingPitcher), (2, Position::StartingPitcher)]);
    let mut pool = vec![2, 1];
    let mut t = team();
    t.rotation = [9, 9, 9, 9, 9];
    t.populate(&mut pool, &all);
    assert_eq!(t.players, vec![2, 1]);
    assert_eq!(t.rotation, [2, 1, 9, 9, 9]);
    assert!(pool.is_empty());
}

#[test]
fn retired_players_leave_and_claimed_players_are_taken() {
    let mut all = players(&[
        (1, Position::Catcher),
        (2, Position::Catcher),
        (3, Position::Catcher),
    ]);
    all.get_mut(&2).unwrap().active = false;
    let mut t = team();
    t.players = vec![3, 2, 1];
    t.release_retired(&all);
    assert_eq!(t.players, vec![3, 1]);
    let mut pool = vec![1, 2, 3, 4];
    t.claim(&mut pool);
    assert_eq!(pool, vec![2, 4]);
}

#[test]
fn what_is_wanted() {
    assert!(Wanted::Infield.accepts(Position::FirstBase));
    assert!(!Wanted::Infield.accepts(Position::Catcher));
    assert!(Wanted::Outfield.accepts(Position::RightField));
    assert!(!Wanted::Outfield.accepts(Position::DesignatedHitter));
    assert!(Wanted::Exactly(Position::Setup).accepts(Position::Setup));
    assert!(!Wanted::Exactly(Position::Setup).accepts(Position::Closer));
}
