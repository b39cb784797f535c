use imp019::game::{
    for_each_event, DefenseInfo, EventFrame, Frame, Game, GameLogEvent, Inning, InningHalf,
    RunnerInfo,
};
use imp019::player::{Expect, Handedness, Player, PlayerMap, Position, SprayChart};
use imp019::stat::Stat;

const PITCHER: u64 = 50;

/// A game between teams 1 (home) and 2 (away); away batters are 101 to 109,
/// home batters 201 to 209.
fn game() -> Game {
    let mut g = Game::new(1, 2);
    let field = [
        Position::Catcher,
        Position::FirstBase,
        Position::SecondBase,
        Position::ThirdBase,
        Position::ShortStop,
        Position::LeftField,
        Position::CenterField,
        Position::RightField,
        Position::DesignatedHitter,
    ];
    for i in 0..9 {
        g.away.bo[i] = DefenseInfo { player: 101 + i as u64, pos: field[i] };
        g.home.bo[i] = DefenseInfo { player: 201 + i as u64, pos: field[i] };
    }
    g.home.pitcher = PITCHER;
    g.away.pitcher = 60;
    g
}

fn line(player: u64, event: Stat, target: Option<Position>) -> GameLogEvent {
    GameLogEvent { player, event, target }
}

fn on(runner: u64) -> Option<RunnerInfo> {
    Some(RunnerInfo { runner, pitcher: PITCHER, earned: true })
}

#[test]
fn a_single_puts_the_batter_on_first() {
    let mut g = game();
    let mut frame = Frame::new();
    let mut log = Vec::new();
    g.plate_appearance(&mut frame, &mut log, Expect::Single, Position::CenterField, 207, 5);
    assert_eq!(g.away.onbase, [None, on(101), None, None]);
    assert_eq!((g.away.r, g.away.h, g.away.e, g.away.ab), (0, 1, 0, 1));
    assert_eq!((g.home.pitches, g.home.pitcher_outs), (5, 0));
    assert_eq!((frame.outs, frame.virtual_outs), (0, 0));
    assert_eq!(frame.inning, Inning { number: 1, half: InningHalf::Top });
    assert_eq!(
        log,
        vec![
            line(101, Stat::B1b, Some(Position::CenterField)),
            line(PITCHER, Stat::P1b, None),
        ]
    );
}

#[test]
fn a_home_run_clears_the_bases() {
    let mut g = game();
    let mut frame = Frame::new();
    let mut log = Vec::new();
    g.away.onbase = [None, on(108), None, on(109)];
    g.away.ab = 2;
    g.plate_appearance(&mut frame, &mut log, Expect::HomeRun, Position::LeftField, 206, 2);
    assert_eq!(g.away.onbase, [None, None, None, None]);
    assert_eq!((g.away.r, g.away.h, g.away.ab), (3, 1, 3));
    assert!(g.away.runs_in.is_empty());
    assert_eq!(
        log,
        vec![
            line(103, Stat::Bhr, Some(Position::LeftField)),
            line(103, Stat::Brbi, None),
            line(103, Stat::Brbi, None),
            line(103, Stat::Brbi, None),
            line(PITCHER, Stat::Phr, None),
            line(109, Stat::Br, None),
            line(PITCHER, Stat::Per, None),
            line(108, Stat::Br, None),
            line(PITCHER, Stat::Per, None),
            line(103, Stat::Br, None),
            line(PITCHER, Stat::Per, None),
        ]
    );
}

#[test]
fn a_double_moves_a_runner_only_as_far_as_he_is_pushed() {
    let mut g = game();
    let mut frame = Frame::new();
    let mut log = Vec::new();
    g.away.onbase = [None, None, on(105), None];
    g.plate_appearance(&mut frame, &mut log, Expect::Double, Position::RightField, 208, 3);
    assert_eq!(g.away.onbase, [None, None, on(101), on(105)]);
    assert_eq!(g.away.r, 0);
}

#[test]
fn a_single_to_right_moves_the_runners_on_third_and_second_first() {
    let mut g = game();
    let mut frame = Frame::new();
    let mut log = Vec::new();
    g.away.onbase = [None, None, on(105), on(106)];
    g.plate_appearance(&mut frame, &mut log, Expect::Single, Position::RightField, 208, 3);
    assert_eq!(g.away.onbase, [None, on(101), None, on(105)]);
    assert_eq!(g.away.r, 1);

    // the same runners stay put on a single to center
    let mut g = game();
    let mut frame = Frame::new();
    let mut log = Vec::new();
    g.away.onbase = [None, None, on(105), on(106)];
    g.plate_appearance(&mut frame, &mut log, Expect::Single, Position::CenterField, 207, 3);
    assert_eq!(g.away.onbase, [None, on(101), on(105), on(106)]);
    assert_eq!(g.away.r, 0);
}

#[test]
fn walks_take_four_pitches_and_strikeouts_three() {
    let mut g = game();
    let mut frame = Frame::new();
    let mut log = Vec::new();
    g.plate_appearance(&mut frame, &mut log, Expect::Walk, Position::CenterField, 207, 1);
    assert_eq!(g.home.pitches, 4);
    assert_eq!(g.away.onbase, [None, on(101), None, None]);
    assert_eq!(g.away.h, 0);
    g.plate_appearance(&mut frame, &mut log, Expect::Strikeout, Position::CenterField, 207, 2);
    assert_eq!(g.home.pitches, 7);
    assert_eq!((frame.outs, frame.virtual_outs, g.home.pitcher_outs), (1, 1, 1));
    g.plate_appearance(&mut frame, &mut log, Expect::HitByPitch, Position::CenterField, 207, 1);
    assert_eq!(g.home.pitches, 8);
    g.plate_appearance(&mut frame, &mut log, Expect::Walk, Position::CenterField, 207, 9);
    assert_eq!(g.home.pitches, 17);
    assert_eq!(g.away.onbase, [None, on(104), on(103), on(101)]);
    assert_eq!(
        log,
        vec![
            line(101, Stat::Bbb, None),
            line(PITCHER, Stat::Pbb, None),
            line(102, Stat::Bso, None),
            line(PITCHER, Stat::Pso, None),
            line(103, Stat::Bhbp, None),
            line(PITCHER, Stat::Phbp, None),
            line(104, Stat::Bbb, None),
            line(PITCHER, Stat::Pbb, None),
        ]
    );
}

#[test]
fn an_error_puts_the_batter_on_unearned_and_adds_a_virtual_out() {
    let mut g = game();
    let mut frame = Frame::new();
    let mut log = Vec::new();
    g.away.onbase = [None, on(107), on(108), on(109)];
    g.plate_appearance(&mut frame, &mut log, Expect::Error, Position::ShortStop, 205, 4);
    assert_eq!(
        g.away.onbase,
        [
            None,
            Some(RunnerInfo { runner: 101, pitcher: PITCHER, earned: false }),
            on(107),
            on(108)
        ]
    );
    assert_eq!((g.away.r, g.away.h, g.away.e), (1, 0, 1));
    assert_eq!((frame.outs, frame.virtual_outs), (0, 1));
    assert_eq!(g.home.pitcher_outs, 0);
    assert_eq!(
        log,
        vec![
            line(205, Stat::Fe, None),
            line(101, Stat::Bo, Some(Position::ShortStop)),
            line(PITCHER, Stat::Po, None),
            line(109, Stat::Br, None),
            line(PITCHER, Stat::Per, None),
        ]
    );
}

#[test]
fn runs_after_three_virtual_outs_are_unearned() {
    let mut g = game();
    let mut frame = Frame::new();
    let mut log = Vec::new();
    frame.outs = 2;
    frame.virtual_outs = 3;
    g.plate_appearance(&mut frame, &mut log, Expect::HomeRun, Position::LeftField, 206, 3);
    assert_eq!(
        log,
        vec![
            line(101, Stat::Bhr, Some(Position::LeftField)),
            line(101, Stat::Brbi, None),
            line(PITCHER, Stat::Phr, None),
            line(101, Stat::Br, None),
            line(PITCHER, Stat::Pr, None),
        ]
    );
}

#[test]
fn an_out_to_the_outfield_scores_the_runner_on_third() {
    let mut g = game();
    let mut frame = Frame::new();
    let mut log = Vec::new();
    g.away.onbase = [None, on(107), None, on(109)];
    g.plate_appearance(&mut frame, &mut log, Expect::Out, Position::LeftField, 206, 3);
    assert_eq!(g.away.onbase, [None, on(107), None, None]);
    assert_eq!((g.away.r, frame.outs), (1, 1));
    assert_eq!(
        log,
        vec![
            line(206, Stat::Fpo, None),
            line(101, Stat::Bo, Some(Position::LeftField)),
            line(101, Stat::Brbi, None),
            line(PITCHER, Stat::Po, None),
            line(109, Stat::Br, None),
            line(PITCHER, Stat::Per, None),
        ]
    );
}

#[test]
fn an_out_to_the_catcher_moves_the_runner_on_first_when_third_is_empty() {
    let mut g = game();
    let mut frame = Frame::new();
    let mut log = Vec::new();
    g.away.onbase = [None, on(107), None, None];
    g.plate_appearance(&mut frame, &mut log, Expect::Out, Position::Catcher, 201, 3);
    assert_eq!(g.away.onbase, [None, None, on(107), None]);
    assert_eq!(frame.outs, 1);

    let mut g = game();
    let mut frame = Frame::new();
    g.away.onbase = [None, on(107), None, on(109)];
    g.plate_appearance(&mut frame, &mut log, Expect::Out, Position::StartingPitcher, PITCHER, 3);
    assert_eq!(g.away.onbase, [None, on(107), None, on(109)]);
}

#[test]
fn an_infield_out_takes_the_runner_on_second_for_a_second_out() {
    let mut g = game();
    let mut frame = Frame::new();
    let mut log = Vec::new();
    g.away.onbase = [None, on(107), on(108), None];
    g.plate_appearance(&mut frame, &mut log, Expect::Out, Position::ShortStop, 205, 3);
    assert_eq!(g.away.onbase, [None, on(107), None, None]);
    assert_eq!((frame.outs, frame.virtual_outs, g.home.pitcher_outs), (2, 2, 2));

    // not with two out already
    let mut g = game();
    let mut frame = Frame::new();
    frame.outs = 2;
    frame.virtual_outs = 2;
    g.away.onbase = [None, on(107), on(108), None];
    g.plate_appearance(&mut frame, &mut log, Expect::Out, Position::ShortStop, 205, 3);
    assert_eq!(g.away.onbase, [None, on(107), on(108), None]);
    assert_eq!(frame.outs, 3);
    assert_eq!(frame.inning.half, InningHalf::Middle);
}

#[test]
fn the_third_out_ends_the_half_and_the_sides_change() {
    let mut g = game();
    let mut frame = Frame::new();
    let mut log = Vec::new();
    g.away.onbase = [None, on(107), None, None];
    for _ in 0..3 {
        assert_eq!(frame.inning.half, InningHalf::Top);
        g.plate_appearance(&mut frame, &mut log, Expect::Strikeout, Position::CenterField, 207, 3);
    }
    assert_eq!(frame.outs, 3);
    assert_eq!(frame.inning, Inning { number: 1, half: InningHalf::Middle });
    assert_eq!(g.away.ab, 3);

    g.change_sides(&mut frame);
    assert_eq!(frame, Frame { inning: Inning { number: 1, half: InningHalf::Bottom }, outs: 0, virtual_outs: 0 });
    assert_eq!(g.away.onbase, [None, None, None, None]);

    for _ in 0..3 {
        g.plate_appearance(&mut frame, &mut log, Expect::Strikeout, Position::CenterField, 107, 3);
    }
    assert_eq!(frame.inning, Inning { number: 1, half: InningHalf::End });
    assert_eq!(g.home.ab, 3);
    assert_eq!(g.away.pitcher_outs, 3);
    g.change_sides(&mut frame);
    assert_eq!(frame, Frame { inning: Inning { number: 2, half: InningHalf::Top }, outs: 0, virtual_outs: 0 });
}

#[test]
fn the_batting_order_comes_round() {
    let mut g = game();
    let mut frame = Frame::new();
    let mut log = Vec::new();
    g.away.ab = 8;
    g.plate_appearance(&mut frame, &mut log, Expect::Walk, Position::CenterField, 207, 4);
    assert_eq!(g.away.ab, 0);
    assert_eq!(log[0].player, 109);
}

#[test]
fn the_game_is_over_when_the_leader_need_not_bat() {
    let mut g = game();
    let at = |number: u8, half: InningHalf| Inning { number, half };
    g.home.r = 3;
    g.away.r = 2;
    assert!(!g.is_complete(&at(8, InningHalf::End)));
    assert!(!g.is_complete(&at(9, InningHalf::Top)));
    assert!(g.is_complete(&at(9, InningHalf::Middle)));
    assert!(g.is_complete(&at(9, InningHalf::Bottom)));
    assert!(g.is_complete(&at(9, InningHalf::End)));
    assert!(g.is_complete(&at(12, InningHalf::Bottom)));
    g.away.r = 4;
    assert!(!g.is_complete(&at(9, InningHalf::Middle)));
    assert!(!g.is_complete(&at(9, InningHalf::Bottom)));
    assert!(g.is_complete(&at(9, InningHalf::End)));
    g.home.r = 4;
    for half in [InningHalf::Top, InningHalf::Middle, InningHalf::Bottom, InningHalf::End] {
        assert!(!g.is_complete(&at(9, half)));
        assert!(!g.is_complete(&at(30, half)));
    }
}

#[test]
fn sides_by_half() {
    let mut g = game();
    let top = Inning { number: 1, half: InningHalf::Top };
    let bottom = Inning { number: 1, half: InningHalf::Bottom };
    assert!(g.is_away_ab(&top));
    assert!(g.is_away_ab(&Inning { number: 1, half: InningHalf::Middle }));
    assert!(!g.is_away_ab(&bottom));
    assert!(!g.is_away_ab(&Inning { number: 1, half: InningHalf::End }));
    assert_eq!(g.batting(&top).id, 2);
    assert_eq!(g.pitching(&top).id, 1);
    assert_eq!(g.batting(&bottom).id, 1);
    assert_eq!(g.pitching(&bottom).id, 2);
    let (bat, pit) = g.batting_pitching(&top);
    bat.r = 9;
    assert_eq!(pit.id, 1);
    assert_eq!(g.away.r, 9);
}

#[test]
fn fielders_by_position() {
    let g = game();
    assert_eq!(g.home.player_at_pos(Position::ShortStop), 205);
    assert_eq!(g.home.player_at_pos(Position::DesignatedHitter), 209);
    assert_eq!(g.home.player_at_pos(Position::StartingPitcher), PITCHER);
    assert_eq!(g.home.player_at_pos(Position::Closer), PITCHER);
}

#[test]
fn workloads_by_role() {
    assert_eq!(Game::max_pitches_for_pos(Position::StartingPitcher), 110);
    assert_eq!(Game::max_pitches_for_pos(Position::LongRelief), 50);
    assert_eq!(Game::max_pitches_for_pos(Position::ShortRelief), 25);
    assert_eq!(Game::max_pitches_for_pos(Position::Setup), 25);
    assert_eq!(Game::max_pitches_for_pos(Position::Closer), 25);
    assert_eq!(Game::max_pitches_for_pos(Position::Catcher), u32::MAX);
}

#[test]
fn an_out_becomes_an_error_only_when_the_fielder_errs() {
    assert_eq!(Game::check_for_error(Expect::Out, true), Expect::Error);
    assert_eq!(Game::check_for_error(Expect::Out, false), Expect::Out);
    assert_eq!(Game::check_for_error(Expect::Single, true), Expect::Single);
    assert_eq!(Game::check_for_error(Expect::Strikeout, true), Expect::Strikeout);
}

#[test]
fn the_same_plays_write_the_same_log() {
    let plays = [
        (Expect::Single, Position::RightField, 208u64, 4u32),
        (Expect::Walk, Position::CenterField, 207, 6),
        (Expect::Out, Position::ShortStop, 205, 2),
        (Expect::Error, Position::ThirdBase, 204, 3),
        (Expect::Triple, Position::LeftField, 206, 1),
        (Expect::Strikeout, Position::CenterField, 207, 5),
        (Expect::HomeRun, Position::CenterField, 207, 2),
    ];
    let run = || {
        let mut g = game();
        let mut frame = Frame::new();
        let mut log = Vec::new();
        for (result, target, fielder, pitches) in plays {
            if frame.inning.half == InningHalf::Middle {
                g.change_sides(&mut frame);
            }
            g.plate_appearance(&mut frame, &mut log, result, target, fielder, pitches);
        }
        (log, frame, g.away.r, g.home.r)
    };
    let first = run();
    let second = run();
    assert_eq!(first, second);
    assert!(first.1.virtual_outs >= first.1.outs);
}

#[test]
fn replaying_the_log_finds_innings_and_halves() {
    let mut g = game();
    let out = |p: u64| line(p, Stat::Bo, None);
    g.playbyplay = vec![
        line(1, Stat::Gs, None),
        out(101),
        line(205, Stat::Fe, None),
        out(102),
        line(103, Stat::Bso, None),
        line(104, Stat::Bgidp, None),
        out(201),
        out(202),
        out(203),
        out(105),
    ];
    let frames = for_each_event(&g);
    let want = |inning: usize, tophalf: bool, error: bool| EventFrame { inning, tophalf, error };
    assert_eq!(
        frames,
        vec![
            want(1, true, false),
            want(1, true, false),
            want(1, true, false),
            want(1, true, true),
            want(1, true, false),
            want(1, true, false),
            // the double play made it four outs, which never comes to three
            want(1, true, false),
            want(1, true, false),
            want(1, true, false),
            want(1, true, false),
        ]
    );

    g.playbyplay = vec![out(101), out(102), out(103), out(201), out(202), out(203), out(104)];
    let frames = for_each_event(&g);
    assert_eq!(frames[2], want(1, true, false));
    assert_eq!(frames[3], want(1, false, false));
    assert_eq!(frames[6], want(2, true, false));
}

fn somebody(bat_spray: SprayChart, pit_spray: SprayChart) -> Player {
    Player {
        active: true,
        name_first: "Jo",
        name_last: "Doe",
        birthplace: String::new(),
        born: 2020,
        pos: Position::Catcher,
        bats: Handedness::Right,
        throws: Handedness::Left,
        bat_spray,
        pit_spray,
        stat_stream: Vec::new(),
        historical: Vec::new(),
        fatigue: 0,
    }
}

#[test]
fn a_plate_appearance_is_resolved_from_weights_and_sprays() {
    let mut rng = rand::thread_rng();
    let mut bat_spray = SprayChart::new();
    bat_spray.single = Some(vec![(Position::LeftField, 1)]);
    bat_spray.out = Some(vec![(Position::ShortStop, 1), (Position::Catcher, 0)]);
    let mut players = PlayerMap::new();
    players.insert(101, somebody(bat_spray, SprayChart::new()));
    players.insert(PITCHER, somebody(SprayChart::new(), SprayChart::new()));

    let g = game();
    let frame = Frame::new();
    assert_eq!(g.matchup(&frame.inning), (101, PITCHER));
    assert!(g.can_resolve(&frame, &players, &vec![(Expect::Single, 1)], 3));
    assert!(!g.can_resolve(&frame, &players, &vec![(Expect::Single, u32::MAX), (Expect::Out, 1)], 3));
    assert!(!g.can_resolve(&frame, &PlayerMap::new(), &vec![(Expect::Single, 1)], 3));
    let mut short = game();
    short.home.bo[8].pos = Position::Catcher;
    assert!(!short.can_resolve(&frame, &players, &vec![(Expect::Single, 1)], 3));
    assert!(short.home.has_fielder(Position::RightField) && !short.home.is_fully_fielded());

    for erred in [false, true] {
        let mut g = game();
        let mut frame = Frame::new();
        let mut log = Vec::new();
        let went = g.resolve(&mut frame, &mut log, &players, &vec![(Expect::Single, 7)], erred, 5, &mut rng);
        assert_eq!(went, (Expect::Single, Position::LeftField));
        assert_eq!(g.away.onbase, [None, on(101), None, None]);
        assert_eq!(log[0], line(101, Stat::B1b, Some(Position::LeftField)));
        assert_eq!(g.home.pitches, 5);

        let mut g = game();
        let mut frame = Frame::new();
        let mut log = Vec::new();
        let went = g.resolve(&mut frame, &mut log, &players, &vec![(Expect::Out, 7)], erred, 2, &mut rng);
        if erred {
            assert_eq!(went, (Expect::Error, Position::ShortStop));
            assert_eq!(log[0], line(205, Stat::Fe, None));
            assert_eq!((frame.outs, frame.virtual_outs, g.away.e), (0, 1, 1));
        } else {
            assert_eq!(went, (Expect::Out, Position::ShortStop));
            assert_eq!(log[0], line(205, Stat::Fpo, None));
            assert_eq!((frame.outs, frame.virtual_outs, g.away.e), (1, 1, 0));
        }

        // with nothing to draw from the batter is out
        let mut g = game();
        let mut frame = Frame::new();
        let mut log = Vec::new();
        let went = g.resolve(&mut frame, &mut log, &players, &vec![], false, 2, &mut rng);
        assert_eq!(went, (Expect::Out, Position::ShortStop));
        let went = g.resolve(&mut frame, &mut log, &players, &vec![(Expect::Walk, 1)], erred, 2, &mut rng);
        assert_eq!(went, (Expect::Walk, Position::CenterField));
        assert_eq!(g.home.pitches, 6);
    }
}

#[test]
fn the_box_score_counts_runs_by_inning() {
    let mut g = game();
    let out = |p: u64| line(p, Stat::Bo, None);
    let run = |p: u64| line(p, Stat::Br, None);
    g.playbyplay = vec![
        line(50, Stat::Gs, None),
        run(101),
        line(50, Stat::Per, None),
        out(102),
        line(50, Stat::Po, None),
        out(103),
        out(104),
        run(201),
        run(202),
        out(203),
        out(204),
        out(205),
        out(105),
        out(106),
        out(107),
        run(206),
        line(50, Stat::Pw, None),
        line(60, Stat::Pl, None),
        line(51, Stat::Psv, None),
    ];
    let head = g.box_score();
    assert_eq!(head.away_runs, vec![1, 0]);
    assert_eq!(head.home_runs, vec![2, 1]);
    assert_eq!((head.winner, head.loser, head.save), (Some(50), Some(60), Some(51)));
    assert_eq!(g.events_for(50), vec![Stat::Gs, Stat::Per, Stat::Po, Stat::Pw]);
    assert_eq!(g.events_for(999), vec![]);

    g.playbyplay.clear();
    let head = g.box_score();
    assert!(head.away_runs.is_empty() && head.home_runs.is_empty());
    assert_eq!((head.winner, head.loser, head.save), (None, None, None));
}
