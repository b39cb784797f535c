use imp019::data::{Data, LocData};
use imp019::player::{
    collect_all_active, generate_players, player_ids, rest_all, retire_players, Expect,
    Handedness, Player, PlayerMap, Position, SprayChart,
};
use imp019::stat::Stat;

fn player(pos: Position, born: u32) -> Player {
    Player {
        active: true,
        name_first: "Jo",
        name_last: "Doe",
        birthplace: String::new(),
        born,
        pos,
        bats: Handedness::Right,
        throws: Handedness::Left,
        bat_spray: SprayChart::new(),
        pit_spray: SprayChart::new(),
        stat_stream: Vec::new(),
        historical: Vec::new(),
        fatigue: 0,
    }
}

fn data() -> Data {
    Data::new(
        "SPR,Springfield,IL,US,114000,EN\nMTL,Montreal,QC,CA,1700000,FR\nNON,Nowhere,XX,US,0,EN\n",
        "EN,FR\nBears,Ours\nKings,Rois\n",
        &vec![("US", "Al,3\nBo,0\n"), ("CA", "Luc,2\n")],
        &vec![("US", "Smith,5\n"), ("CA", "Roy,1\n")],
        "",
    )
}

#[test]
fn positions_by_kind() {
    let pitchers = [
        Position::StartingPitcher,
        Position::LongRelief,
        Position::ShortRelief,
        Position::Setup,
        Position::Closer,
    ];
    let infield =
        [Position::FirstBase, Position::SecondBase, Position::ThirdBase, Position::ShortStop];
    let outfield = [Position::LeftField, Position::CenterField, Position::RightField];
    for pos in Position::all() {
        assert_eq!(pos.is_pitcher(), pitchers.contains(&pos));
        assert_eq!(pos.is_infield(), infield.contains(&pos));
        assert_eq!(pos.is_outfield(), outfield.contains(&pos));
    }
    assert_eq!(Position::all().len(), 14);
    assert_eq!(Position::default(), Position::StartingPitcher);
    assert_eq!(Position::ShortStop.label(), "SS");
    assert_eq!(Position::Setup.label(), "SU");
    assert_eq!(Handedness::Switch.label(), "S");
}

#[test]
fn outcomes_go_into_both_lines() {
    assert_eq!(Expect::Single.to_batting_stat(), Stat::B1b);
    assert_eq!(Expect::HomeRun.to_batting_stat(), Stat::Bhr);
    assert_eq!(Expect::Strikeout.to_batting_stat(), Stat::Bso);
    assert_eq!(Expect::Error.to_batting_stat(), Stat::Bo);
    assert_eq!(Expect::Walk.to_pitching_stat(), Some(Stat::Pbb));
    assert_eq!(Expect::Strikeout.to_pitching_stat(), Some(Stat::Pso));
    assert_eq!(Expect::Error.to_pitching_stat(), Some(Stat::Po));
    assert_eq!(Expect::Out.to_pitching_stat(), Some(Stat::Po));
}

#[test]
fn thresholds_fall_with_age() {
    assert_eq!(player(Position::Catcher, 2030).age(2049), 19);
    assert_eq!(player(Position::Catcher, 2030).fatigue_threshold(2049), 3844);
    assert_eq!(player(Position::Catcher, 2049).fatigue_threshold(2049), 10000);
    assert_eq!(player(Position::Catcher, 2000).fatigue_threshold(2049), 4);
    assert_eq!(player(Position::Catcher, 1990).fatigue_threshold(2049), 4);
}

#[test]
fn nobody_retires_by_thirty_and_everybody_by_forty_five() {
    let mut rng = rand::thread_rng();
    let young = player(Position::Catcher, 2019);
    let old = player(Position::Catcher, 2004);
    let ancient = player(Position::Catcher, 1980);
    let mid = player(Position::Catcher, 2011);
    let (mut stays, mut goes) = (0, 0);
    for _ in 0..400 {
        assert!(!young.should_retire(2049, &mut rng));
        assert!(old.should_retire(2049, &mut rng));
        assert!(ancient.should_retire(2049, &mut rng));
        if mid.should_retire(2049, &mut rng) {
            goes += 1;
        } else {
            stays += 1;
        }
    }
    // at 38 the chance is 64 in 225
    assert!(goes > 0 && stays > goes);
}

#[test]
fn sides_pick_the_rates() {
    assert_eq!(Player::bat_expect_vs(Handedness::Left), 0);
    assert_eq!(Player::bat_expect_vs(Handedness::Right), 1);
    assert_eq!(Player::bat_expect_vs(Handedness::Switch), 1);
    assert_eq!(Player::pit_expect_vs(Handedness::Left), 0);
    assert_eq!(Player::pit_expect_vs(Handedness::Switch), 1);
}

#[test]
fn weights_are_scaled_to_a_thousand() {
    let mut spray = vec![(Position::LeftField, 150), (Position::CenterField, 100), (Position::RightField, 50)];
    Player::normalize(&mut spray);
    assert_eq!(
        spray,
        vec![(Position::LeftField, 500), (Position::CenterField, 333), (Position::RightField, 166)]
    );
}

#[test]
fn batters_have_batting_sprays_and_pitchers_pitching_sprays() {
    let mut rng = rand::thread_rng();
    let mut seen = Vec::new();
    for _ in 0..30 {
        let chart = Player::generate_bat_spray(&mut rng, &Position::Catcher);
        let single = chart.get(Expect::Single).unwrap();
        assert_eq!(single.len(), 9);
        assert_eq!(single[0].0, Position::StartingPitcher);
        assert_eq!(single[8].0, Position::RightField);
        let total: u32 = single.iter().map(|o| o.1).sum();
        assert!(total <= 1000 && total > 990);
        // a draw of 0 to 2 among at least 330 is under ten in a thousand
        assert!(single[0].1 < 10);
        assert!(single[3].1 >= 10_000 / 660 && single[3].1 < 20_000 / 330 + 1);
        assert!(single[6].1 >= 100_000 / 660 && single[6].1 <= 200_000 / 400);
        seen.push(single.clone());
        for e in [Expect::Double, Expect::Triple, Expect::HomeRun] {
            let s = chart.get(e).unwrap();
            assert_eq!(
                s.iter().map(|o| o.0).collect::<Vec<_>>(),
                vec![Position::LeftField, Position::CenterField, Position::RightField]
            );
            for (_, w) in s {
                assert!(*w >= 100_000 / 500 && *w <= 200_000 / 400);
            }
        }
        assert_eq!(
            chart.get(Expect::Out).unwrap().iter().map(|o| o.1).collect::<Vec<_>>(),
            vec![62, 62, 125, 125, 125, 125, 125, 125, 125]
        );
        assert!(chart.get(Expect::Walk).is_none());
        assert!(chart.get(Expect::Strikeout).is_none());
    }
    seen.dedup();
    assert!(seen.len() > 1);

    let none = Player::generate_bat_spray(&mut rng, &Position::Closer);
    assert!(none.get(Expect::Single).is_none() && none.get(Expect::Out).is_none());
    let pit = Player::generate_pit_spray(&mut rng, &Position::Closer);
    assert!(pit.get(Expect::Single).is_some() && pit.get(Expect::Out).is_some());
    let none = Player::generate_pit_spray(&mut rng, &Position::Catcher);
    assert!(none.get(Expect::HomeRun).is_none());
}

#[test]
fn the_ball_goes_where_the_spray_says() {
    let mut rng = rand::thread_rng();
    let mut bat = SprayChart::new();
    let mut pit = SprayChart::new();
    bat.single = Some(vec![(Position::LeftField, 1), (Position::ShortStop, 0)]);
    bat.double = Some(vec![(Position::LeftField, 5)]);
    pit.double = Some(vec![(Position::RightField, 0), (Position::FirstBase, 7)]);
    bat.out = Some(vec![(Position::Catcher, 0), (Position::ThirdBase, 0)]);
    for _ in 0..50 {
        assert_eq!(Player::determine_spray(&bat, &pit, &Expect::Single, &mut rng), Position::LeftField);
        // the pitcher's chart goes before the batter's
        assert_eq!(Player::determine_spray(&bat, &pit, &Expect::Double, &mut rng), Position::FirstBase);
        // nothing with weight, and nothing at all
        assert_eq!(Player::determine_spray(&bat, &pit, &Expect::Out, &mut rng), Position::CenterField);
        assert_eq!(Player::determine_spray(&bat, &pit, &Expect::Triple, &mut rng), Position::CenterField);
        assert_eq!(Player::determine_spray(&bat, &pit, &Expect::Walk, &mut rng), Position::CenterField);
    }
    assert_eq!(Player::spray_target(None), Position::CenterField);
    assert_eq!(Player::spray_target(Some(Position::Catcher)), Position::Catcher);
}

#[test]
fn events_are_kept_until_the_season_is_filed() {
    let mut p = player(Position::Catcher, 2020);
    p.record_stat(Stat::B1b);
    p.record_stat(Stat::Bo);
    assert_eq!(p.stat_stream, vec![Stat::B1b, Stat::Bo]);
    assert_eq!(p.get_stats().b_avg, 500);
    p.record_stat_history(2049, 2, 17);
    assert!(p.stat_stream.is_empty());
    assert_eq!(p.historical.len(), 1);
    assert_eq!((p.historical[0].year, p.historical[0].league, p.historical[0].team), (2049, 2, 17));
    assert_eq!(p.historical[0].stats.b_avg, 500);
    p.record_stat(Stat::Bhr);
    p.reset_stats();
    assert!(p.stat_stream.is_empty());
    assert_eq!(p.historical.len(), 1);
}

#[test]
fn names() {
    let p = player(Position::Catcher, 2020);
    assert_eq!(p.fullname(), "Jo Doe");
    assert_eq!(p.fname(), "J. Doe");
}

#[test]
fn a_new_player_is_drawn_from_the_tables() {
    let data = data();
    let mut rng = rand::thread_rng();
    let (mut us, mut ca) = (0, 0);
    for _ in 0..60 {
        let p = Player::new(&data, &Position::ShortStop, 2049, 21, &mut rng);
        assert!(p.active);
        assert_eq!((p.born, p.pos, p.fatigue), (2028, Position::ShortStop, 0));
        assert!(p.stat_stream.is_empty() && p.historical.is_empty());
        assert_ne!(p.throws, Handedness::Switch);
        assert!(p.bat_spray.get(Expect::Single).is_some());
        assert!(p.pit_spray.get(Expect::Single).is_none());
        if p.birthplace == "Springfield, IL, US" {
            us += 1;
            assert_eq!((p.name_first, p.name_last), ("Al", "Smith"));
        } else {
            ca += 1;
            assert_eq!(p.birthplace, "Montreal, QC, CA");
            assert_eq!((p.name_first, p.name_last), ("Luc", "Roy"));
        }
    }
    assert!(ca > us);
    let p = Player::new(&data, &Position::Closer, 2049, 30, &mut rng);
    assert!(p.bat_spray.get(Expect::Single).is_none());
    assert!(p.pit_spray.get(Expect::Single).is_some());
}

#[test]
fn new_players_get_the_next_keys() {
    let data = data();
    let mut rng = rand::thread_rng();
    let mut players = PlayerMap::new();
    assert_eq!(generate_players(&mut players, &vec![20, 25, 30], 2049, &data, &mut rng), 1);
    assert_eq!(players.len(), 3);
    assert_eq!(players[&1].born, 2029);
    assert_eq!(players[&3].born, 2019);
    players.remove(&2);
    players.insert(40, player(Position::Catcher, 2000));
    assert_eq!(generate_players(&mut players, &vec![18], 2049, &data, &mut rng), 41);
    assert_eq!(players[&41].born, 2031);
    assert_eq!(players.len(), 4);
    assert_eq!(generate_players(&mut players, &vec![], 2049, &data, &mut rng), 42);
    assert_eq!(players.len(), 4);
    let mut ids = player_ids(&players);
    ids.sort();
    assert_eq!(ids, vec![1, 3, 40, 41]);
}

#[test]
fn the_season_ends_for_the_players() {
    let mut rng = rand::thread_rng();
    let mut players: PlayerMap = [
        (1, player(Position::Catcher, 2025)),
        (2, player(Position::Catcher, 2000)),
        (3, player(Position::Catcher, 1999)),
        (4, player(Position::Catcher, 2026)),
    ]
    .into_iter()
    .collect();
    players.get_mut(&1).unwrap().fatigue = 77;
    players.get_mut(&4).unwrap().active = false;

    rest_all(&mut players);
    assert!(players.values().all(|p| p.fatigue == 0));

    let mut active = collect_all_active(&players);
    active.sort();
    assert_eq!(active, vec![1, 2, 3]);

    assert_eq!(retire_players(&mut players, 2049, &mut rng), 2);
    assert!(players[&1].active);
    assert!(!players[&2].active && !players[&3].active && !players[&4].active);
    assert_eq!(collect_all_active(&players), vec![1]);
    assert_eq!(retire_players(&mut players, 2049, &mut rng), 0);
}

#[test]
fn places_agree_field_by_field() {
    let a = LocData { abbr: "A", city: "B", state: "C", country: "US", population: 1, lang: "EN" };
    let mut b = a;
    assert!(a.same(&b));
    b.population = 2;
    assert!(!a.same(&b));
}

#[test]
fn weights_must_add_up_to_be_drawn_from() {
    assert!(imp019::chance::can_draw(&vec![(1u8, u32::MAX - 1), (2, 1)]));
    assert!(!imp019::chance::can_draw(&vec![(1u8, u32::MAX - 1), (2, 1), (3, 1)]));
    assert!(imp019::chance::can_draw::<u8>(&vec![]));
    let mut chart = SprayChart::new();
    assert!(chart.is_drawable());
    chart.triple = Some(vec![(Position::LeftField, u32::MAX), (Position::RightField, 1)]);
    assert!(!chart.is_drawable());
    chart.triple = Some(vec![(Position::LeftField, u32::MAX)]);
    assert!(chart.is_drawable());
    assert!(data().usable());
    assert!(!Data::new("", "", &vec![], &vec![], "").usable());
    assert!(!Data::new("A,B,C,US,0,EN\n", "", &vec![], &vec![], "").usable());
    assert!(!Data::new("A,B,C,US,4294967295,EN\nD,E,F,US,1,EN", "", &vec![], &vec![], "").usable());
    assert!(!Data::new("A,B,C,US,1,EN", "", &vec![("US", "a,4294967295\nb,1")], &vec![], "").usable());
}
