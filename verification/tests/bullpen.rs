use imp019::data::LocData;
use imp019::game::{
    Candidate, DefenseInfo, Frame, Game, GameLogEvent, Inning, InningHalf, PitcherRecord,
};
use imp019::player::{Expect, Handedness, Player, PlayerMap, Position, SprayChart};
use imp019::stat::Stat;
use imp019::team::{Team, TeamMap};

fn player(pos: Position, stream: Vec<Stat>) -> Player {
    Player {
        active: true,
        name_first: "Jo",
        name_last: "Doe",
        birthplace: String::new(),
        born: 2020,
        pos,
        bats: Handedness::Right,
        throws: Handedness::Left,
        bat_spray: SprayChart::new(),
        pit_spray: SprayChart::new(),
        stat_stream: stream,
        historical: Vec::new(),
        fatigue: 0,
    }
}

fn team(players: Vec<u64>, rotation: [u64; 5]) -> Team {
    let loc = LocData { abbr: "A", city: "B", state: "C", country: "US", population: 1, lang: "EN" };
    let mut t = Team::new(loc, "N".to_string(), 2040);
    t.players = players;
    t.rotation = rotation;
    t
}

/// Home team 1 with a full staff: starters 1 to 5, long relief 11 and 12,
/// short relief 21 and 22, setup 31, closer 41; pitcher 1 is on the mound.
fn staffed() -> (Game, TeamMap, PlayerMap) {
    let mut players = PlayerMap::new();
    for id in 1..=5 {
        players.insert(id, player(Position::StartingPitcher, vec![]));
    }
    for id in [11, 12] {
        players.insert(id, player(Position::LongRelief, vec![]));
    }
    for id in [21, 22] {
        players.insert(id, player(Position::ShortRelief, vec![]));
    }
    players.insert(31, player(Position::Setup, vec![]));
    players.insert(41, player(Position::Closer, vec![]));
    let roster = vec![1, 2, 3, 4, 5, 11, 12, 21, 22, 31, 41];
    let mut teams = TeamMap::new();
    teams.insert(1, team(roster, [1, 2, 3, 4, 5]));
    teams.insert(2, team(vec![], [0; 5]));
    let mut g = Game::new(1, 2);
    g.home.pitcher = 1;
    (g, teams, players)
}

fn top(number: u8) -> Inning {
    Inning { number, half: InningHalf::Top }
}

#[test]
fn a_fresh_pitcher_in_a_level_game_stays() {
    let (mut g, teams, players) = staffed();
    let mut rng = rand::thread_rng();
    let mut log = Vec::new();
    g.home.pitches = 109;
    for inning in 1..=12 {
        g.sub_pitcher(&top(inning), &teams, &players, &mut log, &mut rng);
    }
    assert_eq!(g.home.pitcher, 1);
    assert!(g.home.pitcher_record.is_empty());
    assert!(log.is_empty());
}

#[test]
fn a_pitcher_at_his_workload_gives_way_to_relief() {
    let mut rng = rand::thread_rng();
    for (inning, pool) in [(3u8, [11u64, 12]), (6, [11, 12]), (7, [21, 22]), (9, [21, 22])] {
        let mut drawn = Vec::new();
        for _ in 0..40 {
            let (mut g, teams, players) = staffed();
            let mut log = Vec::new();
            g.home.pitches = 110;
            g.home.pitcher_outs = 14;
            g.home.pitcher_run_diff_in = 0;
            g.home.r = 2;
            g.away.r = 6;
            g.sub_pitcher(&top(inning), &teams, &players, &mut log, &mut rng);
            assert!(pool.contains(&g.home.pitcher));
            assert_eq!((g.home.pitches, g.home.pitcher_outs, g.home.pitcher_run_diff_in), (0, 0, -4));
            assert_eq!(
                g.home.pitcher_record,
                vec![PitcherRecord { pitcher: 1, outs: 14, run_diff_in: 0, run_diff_out: -4 }]
            );
            assert_eq!(log, vec![GameLogEvent { player: g.home.pitcher, event: Stat::G, target: None }]);
            assert_eq!((g.home.r, g.away.r), (2, 6));
            drawn.push(g.home.pitcher);
        }
        // both of the role come up
        assert!(drawn.contains(&pool[0]) && drawn.contains(&pool[1]));
    }
}

#[test]
fn a_close_lead_brings_the_setup_man_and_the_closer() {
    let mut rng = rand::thread_rng();
    for (inning, lead, expect) in
        [(8u8, 1u8, 31u64), (8, 3, 31), (9, 2, 41), (11, 1, 41), (8, 4, 1), (7, 2, 1), (9, 0, 1)]
    {
        let (mut g, teams, players) = staffed();
        let mut log = Vec::new();
        g.home.r = 5 + lead;
        g.away.r = 5;
        g.sub_pitcher(&top(inning), &teams, &players, &mut log, &mut rng);
        assert_eq!(g.home.pitcher, expect);
        if expect != 1 {
            assert_eq!(g.home.pitcher_run_diff_in, lead as i8);
        }
    }
}

#[test]
fn nobody_pitches_twice_and_an_empty_bullpen_keeps_the_pitcher() {
    let mut rng = rand::thread_rng();
    let (mut g, teams, players) = staffed();
    let mut log = Vec::new();
    g.home.r = 6;
    g.away.r = 5;
    g.sub_pitcher(&top(9), &teams, &players, &mut log, &mut rng);
    assert_eq!(g.home.pitcher, 41);
    // the closer is pitching: no change
    g.sub_pitcher(&top(9), &teams, &players, &mut log, &mut rng);
    assert_eq!(g.home.pitcher, 41);
    // the setup man has the eighth, and then no second setup man is left
    g.sub_pitcher(&top(8), &teams, &players, &mut log, &mut rng);
    assert_eq!(g.home.pitcher, 31);
    g.home.record_pitcher(5);
    g.home.pitcher = 5;
    g.sub_pitcher(&top(8), &teams, &players, &mut log, &mut rng);
    assert_eq!(g.home.pitcher, 5);
    // nor a closer, but a tired pitcher still gets short relief
    g.home.pitches = 200;
    g.sub_pitcher(&top(9), &teams, &players, &mut log, &mut rng);
    assert!([21, 22].contains(&g.home.pitcher));
    let used: Vec<u64> = g.home.pitcher_record.iter().map(|r| r.pitcher).collect();
    assert_eq!(used, vec![1, 41, 31, 5]);
    assert_eq!(log.len(), 3);
}

#[test]
fn the_visitors_change_pitchers_in_the_bottom_half() {
    let mut rng = rand::thread_rng();
    let (mut g, mut teams, mut players) = staffed();
    players.insert(99, player(Position::Closer, vec![]));
    players.insert(98, player(Position::StartingPitcher, vec![]));
    teams.get_mut(&2).unwrap().players = vec![98, 99];
    g.away.pitcher = 98;
    g.away.r = 3;
    g.home.r = 2;
    let mut log = Vec::new();
    g.sub_pitcher(&Inning { number: 9, half: InningHalf::Bottom }, &teams, &players, &mut log, &mut rng);
    assert_eq!(g.away.pitcher, 99);
    assert_eq!(g.home.pitcher, 1);
}

#[test]
fn outcomes_are_drawn_by_weight() {
    let mut rng = rand::thread_rng();
    let mut seen = Vec::new();
    for _ in 0..300 {
        let weights = vec![(Expect::Single, 0), (Expect::Walk, 3), (Expect::Out, 0), (Expect::HomeRun, 1)];
        let got = Game::get_expected_pa(&weights, &mut rng);
        assert!(got == Expect::Walk || got == Expect::HomeRun);
        if !seen.contains(&got) {
            seen.push(got);
        }
        assert_eq!(Game::get_expected_pa(&vec![(Expect::Triple, 9)], &mut rng), Expect::Triple);
        // nothing to draw from is an out
        assert_eq!(Game::get_expected_pa(&vec![(Expect::Triple, 0)], &mut rng), Expect::Out);
        assert_eq!(Game::get_expected_pa(&vec![], &mut rng), Expect::Out);
    }
    assert_eq!(seen.len(), 2);
    assert_eq!(Game::expected_or_out(None), Expect::Out);
    assert_eq!(Game::expected_or_out(Some(Expect::Walk)), Expect::Walk);
}

fn hits(n: usize, outs: usize) -> Vec<Stat> {
    let mut s = vec![Stat::B1b; n];
    s.extend(vec![Stat::Bo; outs]);
    s
}

/// Team 1 with two players at every batting position: ids 10 + k hit better
/// than ids 20 + k, except at catcher.
fn lineup_team() -> (TeamMap, PlayerMap, Vec<Position>) {
    let field = vec![
        Position::Catcher,
        Position::FirstBase,
        Position::SecondBase,
        Position::ThirdBase,
        Position::ShortStop,
        Position::LeftField,
        Position::CenterField,
        Position::RightField,
        Position::DesignatedHitter,
    ];
    let mut players = PlayerMap::new();
    let mut roster = Vec::new();
    for (k, pos) in field.iter().enumerate() {
        let k = k as u64;
        players.insert(10 + k, player(*pos, hits(k as usize + 2, 10)));
        players.insert(20 + k, player(*pos, hits(1, 10)));
        roster.push(20 + k);
        roster.push(10 + k);
    }
    players.get_mut(&20).unwrap().stat_stream = hits(9, 1);
    players.insert(1, player(Position::StartingPitcher, vec![]));
    roster.push(1);
    let mut teams = TeamMap::new();
    teams.insert(1, team(roster, [1, 2, 3, 4, 5]));
    (teams, players, field)
}

#[test]
fn batters_are_ranked_by_on_base_rate() {
    let (teams, players, _) = lineup_team();
    let ranked = Game::rank_batters(&teams[&1].players, &players);
    assert_eq!(ranked.len(), 18);
    assert_eq!(ranked[0], Candidate { id: 20, pos: Position::Catcher, obp: 900 });
    assert_eq!(ranked[1], Candidate { id: 18, pos: Position::DesignatedHitter, obp: 500 });
    for pair in ranked.windows(2) {
        assert!(pair[0].obp >= pair[1].obp);
    }
    // of those with the same rate the one later in the roster comes first
    let low: Vec<u64> = ranked.iter().filter(|c| c.obp == 90).map(|c| c.id).collect();
    assert_eq!(low, vec![28, 27, 26, 25, 24, 23, 22, 21]);
}

#[test]
fn the_best_at_each_position_starts() {
    let (teams, players, field) = lineup_team();
    let ranked = Game::rank_batters(&teams[&1].players, &players);
    let mut g = Game::new(1, 2);
    Game::fill_order(&mut g.home, &ranked);
    let order: Vec<u64> = g.home.bo.iter().map(|d| d.player).collect();
    assert_eq!(order, vec![20, 18, 17, 16, 15, 14, 13, 12, 11]);
    for d in g.home.bo.iter() {
        assert_eq!(players[&d.player].pos, d.pos);
    }
    let mut filled: Vec<Position> = g.home.bo.iter().map(|d| d.pos).collect();
    filled.sort_by_key(|p| field.iter().position(|f| f == p));
    assert_eq!(filled, field);
}

#[test]
fn rested_starters_stay_and_worn_out_starters_sit() {
    let (teams, mut players, _) = lineup_team();
    let mut rng = rand::thread_rng();
    let ranked = Game::rank_batters(&teams[&1].players, &players);
    // born 2020, so in 2049 the threshold is (21 * 2) squared
    players.get_mut(&20).unwrap().fatigue = 1764;
    players.get_mut(&18).unwrap().fatigue = 60000;
    players.get_mut(&17).unwrap().fatigue = 882;
    let (mut sat, mut stayed) = (0, 0);
    for _ in 0..200 {
        let mut g = Game::new(1, 2);
        Game::fill_order(&mut g.home, &ranked);
        Game::rest_starters(&mut g.home, &ranked, &players, 2049, &mut rng);
        let order: Vec<u64> = g.home.bo.iter().map(|d| d.player).collect();
        assert_eq!(order[0], 10);
        assert_eq!(order[1], 28);
        assert_eq!(&order[3..], &[16, 15, 14, 13, 12, 11]);
        assert_eq!(g.home.bo[0].pos, Position::Catcher);
        match order[2] {
            17 => stayed += 1,
            27 => sat += 1,
            other => panic!("{} bats in the third slot", other),
        }
    }
    assert!(sat > 50 && stayed > 50);
}

#[test]
fn setting_up_a_side() {
    let (mut teams, mut players, _) = lineup_team();
    let mut rng = rand::thread_rng();
    let mut g = Game::new(1, 2);
    let mut log = Vec::new();
    let throws = Game::setup_pitcher(&players, &mut teams, &mut g.home, &mut log);
    assert_eq!(throws, Handedness::Left);
    assert_eq!(g.home.pitcher, 1);
    assert_eq!(teams[&1].rotation, [2, 3, 4, 5, 1]);
    assert_eq!(log, vec![GameLogEvent { player: 1, event: Stat::Gs, target: None }]);

    Game::setup_bo(&mut players, &teams, &mut g.home, &mut log, 2049, &mut rng);
    let order: Vec<u64> = g.home.bo.iter().map(|d| d.player).collect();
    assert_eq!(order, vec![20, 18, 17, 16, 15, 14, 13, 12, 11]);
    assert_eq!(log.len(), 10);
    for (k, id) in order.iter().enumerate() {
        assert_eq!(log[k + 1], GameLogEvent { player: *id, event: Stat::Gs, target: None });
        assert_eq!(players[id].fatigue, 1);
    }
    assert_eq!(players[&10].fatigue, 0);
    assert_eq!(players[&1].fatigue, 0);
}

#[test]
fn setting_up_a_game_sets_up_both_sides() {
    let (mut teams, mut players, _) = lineup_team();
    let mut rng = rand::thread_rng();
    let mut roster = Vec::new();
    for k in 0..9u64 {
        let pos = players[&(10 + k)].pos;
        players.insert(50 + k, player(pos, vec![]));
        roster.push(50 + k);
    }
    players.insert(60, player(Position::StartingPitcher, vec![]));
    roster.push(60);
    teams.insert(2, team(roster, [60, 61, 62, 63, 64]));
    let mut g = Game::new(1, 2);
    let mut log = Vec::new();
    assert!(g.ready(&players, &teams, 2049));
    assert!(!g.ready(&players, &teams, 2019));
    g.setup_game(&mut players, &mut teams, &mut log, 2049, &mut rng);
    assert_eq!((g.home.pitcher, g.away.pitcher), (1, 60));
    assert_eq!(teams[&2].rotation, [61, 62, 63, 64, 60]);
    assert_eq!(log.len(), 20);
    assert_eq!((log[0].player, log[1].player), (1, 60));
    let away: Vec<u64> = g.away.bo.iter().map(|d| d.player).collect();
    assert_eq!(away, vec![58, 57, 56, 55, 54, 53, 52, 51, 50]);
    assert!(log.iter().all(|e| e.event == Stat::Gs));
}

#[test]
fn wrapping_up_files_the_stints_and_gives_everyone_his_events() {
    let (mut g, mut teams, mut players) = staffed();
    players.insert(70, player(Position::StartingPitcher, vec![]));
    players.insert(101, player(Position::Catcher, vec![Stat::Gs]));
    g.away.pitcher = 70;
    g.home.r = 4;
    g.away.r = 2;
    g.home.pitcher_outs = 27;
    g.away.pitcher_outs = 24;
    let log = vec![
        GameLogEvent { player: 101, event: Stat::B1b, target: Some(Position::LeftField) },
        GameLogEvent { player: 70, event: Stat::P1b, target: None },
        GameLogEvent { player: 101, event: Stat::Br, target: None },
    ];
    // the game ended after the top of the ninth
    g.wrap_up(&Inning { number: 9, half: InningHalf::Middle }, &mut teams, &mut players, log);

    assert_eq!(
        g.home.pitcher_record,
        vec![PitcherRecord { pitcher: 1, outs: 27, run_diff_in: 0, run_diff_out: 2 }]
    );
    assert_eq!(
        g.away.pitcher_record,
        vec![PitcherRecord { pitcher: 70, outs: 24, run_diff_in: 0, run_diff_out: -2 }]
    );
    let tail: Vec<(u64, Stat)> = g.playbyplay[3..].iter().map(|e| (e.player, e.event)).collect();
    assert_eq!(tail, vec![(1, Stat::Pw), (1, Stat::Pcg), (70, Stat::Pl), (70, Stat::Pcg)]);
    assert_eq!((teams[&1].results.win, teams[&1].results.lose), (1, 0));
    assert_eq!((teams[&2].results.win, teams[&2].results.lose), (0, 1));
    assert_eq!(players[&101].stat_stream, vec![Stat::Gs, Stat::B1b, Stat::Br]);
    assert_eq!(players[&70].stat_stream, vec![Stat::P1b, Stat::Pl, Stat::Pcg]);
    assert_eq!(players[&1].stat_stream, vec![Stat::Pw, Stat::Pcg]);
    assert!(players[&2].stat_stream.is_empty());

    // with the visitors blanked the winner has a shutout too
    let (mut g, mut teams, mut players) = staffed();
    players.insert(70, player(Position::StartingPitcher, vec![]));
    g.away.pitcher = 70;
    g.home.r = 1;
    g.wrap_up(&Inning { number: 9, half: InningHalf::Middle }, &mut teams, &mut players, vec![]);
    assert_eq!(players[&1].stat_stream, vec![Stat::Pw, Stat::Pcg, Stat::Psho]);
}

#[test]
fn a_default_slot_is_the_pitcher_with_no_player() {
    assert_eq!(DefenseInfo::default(), DefenseInfo { player: 0, pos: Position::StartingPitcher });
}

#[test]
fn a_game_says_what_it_is_ready_for() {
    let (mut g, mut teams, mut players) = staffed();
    // team 2 has no roster to fill an order from
    assert!(!g.ready(&players, &teams, 2049));

    let frame = Frame::new();
    assert!(g.can_play(&frame, Expect::Single, 3));
    assert!(!frame.can_turn());
    g.away.r = 124;
    assert!(!g.can_play(&frame, Expect::Single, 3));
    g.away.r = 123;
    g.home.pitches = u32::MAX - 3;
    assert!(g.can_play(&frame, Expect::Single, 3));
    assert!(!g.can_play(&frame, Expect::Walk, 3));
    let mut between = frame;
    between.outs = 3;
    between.virtual_outs = 3;
    between.inning.half = InningHalf::Middle;
    assert!(!g.can_play(&between, Expect::Single, 3));
    assert!(between.can_turn());
    between.inning.number = u8::MAX;
    assert!(!between.can_turn());
    let mut broken = frame;
    broken.outs = 3;
    assert!(!g.can_play(&broken, Expect::Single, 3) && !broken.can_turn());

    // a game that is over takes no plate appearance, change of pitchers or of sides
    let mut over = game_over();
    let ninth = Frame { inning: Inning { number: 9, half: InningHalf::Bottom }, outs: 1, virtual_outs: 1 };
    assert!(over.is_complete(&ninth.inning));
    assert!(!over.can_play(&ninth, Expect::Single, 3));
    let after = Frame { inning: Inning { number: 9, half: InningHalf::Middle }, outs: 3, virtual_outs: 3 };
    assert!(after.can_turn() && !over.can_change_sides(&after));
    over.home.r = 2;
    assert!(over.can_play(&ninth, Expect::Single, 3));
    assert!(over.can_change_sides(&after));

    assert!(g.can_relieve(&top(1), &teams, &players));
    assert!(g.can_relieve(&Inning { number: 9, half: InningHalf::Middle }, &teams, &players));
    g.home.r = g.away.r + 1;
    assert!(!g.can_relieve(&Inning { number: 9, half: InningHalf::Middle }, &teams, &players));
    g.home.r = 0;
    // the visitors' pitcher is nobody
    assert!(!g.can_relieve(&Inning { number: 1, half: InningHalf::Bottom }, &teams, &players));
    teams.get_mut(&1).unwrap().players.push(77);
    assert!(!g.can_relieve(&top(1), &teams, &players));
    assert!(!Game::knows_all(&vec![1, 77], &players));
    assert!(Game::knows_all(&vec![1, 2], &players));

    let middle = Inning { number: 9, half: InningHalf::Middle };
    let log = vec![GameLogEvent { player: 1, event: Stat::Gs, target: None }];
    g.away.r = 5;
    g.home.r = 5;
    players.insert(0, player(Position::StartingPitcher, vec![]));
    // a level game is not over
    assert!(!g.can_wrap_up(&middle, &teams, &players, &log));
    players.remove(&0);
    g.home.r = 6;
    assert!(!g.can_wrap_up(&Inning { number: 8, half: InningHalf::End }, &teams, &players, &log));
    // the visitors' pitcher would take the loss, and he is unknown
    assert!(!g.can_wrap_up(&middle, &teams, &players, &log));
    players.insert(0, player(Position::StartingPitcher, vec![]));
    assert!(g.can_wrap_up(&middle, &teams, &players, &log));
    let stranger = vec![GameLogEvent { player: 500, event: Stat::Gs, target: None }];
    assert!(!g.can_wrap_up(&middle, &teams, &players, &stranger));
    assert!(Game::knows_log(&log, &players) && !Game::knows_log(&stranger, &players));
    g.home.r = 128;
    assert!(!g.can_wrap_up(&middle, &teams, &players, &log));

    assert!(g.home.has_fielder(Position::StartingPitcher));
    assert!(!g.home.has_fielder(Position::Catcher));
}

fn game_over() -> Game {
    let mut g = Game::new(1, 2);
    g.home.r = 3;
    g.away.r = 2;
    g
}
