use imp019::game::{Game, GameLogEvent, PitcherRecord, Scoreboard};
use imp019::stat::Stat;

fn side(records: Vec<PitcherRecord>) -> Scoreboard {
    let mut sb = Scoreboard::new(1);
    sb.pitcher_record = records;
    sb
}

fn stint(pitcher: u64, outs: u8, run_diff_in: i8, run_diff_out: i8) -> PitcherRecord {
    PitcherRecord { pitcher, outs, run_diff_in, run_diff_out }
}

fn credit(records: Vec<PitcherRecord>, oppo_r: i8) -> Vec<(u64, Stat)> {
    let mut log: Vec<GameLogEvent> = Vec::new();
    Game::record_wls(&mut log, &side(records), oppo_r);
    log.iter().map(|e| {
        assert!(e.target.is_none());
        (e.player, e.event)
    }).collect()
}

#[test]
fn starter_wins_and_closer_saves() {
    let got = credit(vec![stint(1, 18, 0, 5), stint(2, 6, 5, 1), stint(3, 3, 1, 2)], 3);
    assert_eq!(got, vec![(1, Stat::Pw), (3, Stat::Psv), (2, Stat::Phld)]);
}

#[test]
fn no_save_with_a_four_run_lead() {
    let got = credit(vec![stint(1, 18, 0, 5), stint(2, 6, 5, 4), stint(3, 3, 4, 6)], 3);
    assert_eq!(got, vec![(1, Stat::Pw), (2, Stat::Phld)]);
}

#[test]
fn nine_outs_earn_a_save_with_any_lead() {
    let got = credit(vec![stint(1, 18, 0, 8), stint(3, 9, 8, 8)], 1);
    assert_eq!(got, vec![(1, Stat::Pw), (3, Stat::Psv)]);
}

#[test]
fn the_win_goes_to_the_first_of_the_stints_that_ended_ahead() {
    // the starter left behind, so the win starts with the reliever
    let got = credit(vec![stint(1, 12, 0, -1), stint(2, 9, -1, 2), stint(3, 6, 2, 1)], 4);
    assert_eq!(got, vec![(2, Stat::Pw), (3, Stat::Psv)]);
}

#[test]
fn holds_go_to_those_between_winner_and_finisher() {
    let got = credit(
        vec![stint(1, 15, 0, 2), stint(2, 3, 2, 2), stint(3, 3, 2, 1), stint(4, 6, 1, 1)],
        2,
    );
    assert_eq!(got, vec![(1, Stat::Pw), (4, Stat::Psv), (3, Stat::Phld), (2, Stat::Phld)]);
}

#[test]
fn complete_game_and_shutout() {
    assert_eq!(
        credit(vec![stint(7, 27, 0, 3)], 0),
        vec![(7, Stat::Pw), (7, Stat::Pcg), (7, Stat::Psho)]
    );
    assert_eq!(credit(vec![stint(7, 27, 0, 3)], 2), vec![(7, Stat::Pw), (7, Stat::Pcg)]);
}

#[test]
fn the_loss_goes_to_the_first_of_the_stints_that_ended_behind() {
    let got = credit(vec![stint(1, 18, 0, 1), stint(2, 3, 1, -1), stint(3, 3, -1, -2)], 5);
    assert_eq!(got, vec![(2, Stat::Pl)]);
    assert_eq!(credit(vec![stint(9, 24, 0, -4)], 4), vec![(9, Stat::Pl), (9, Stat::Pcg)]);
}

#[test]
fn a_level_finish_gives_no_decision() {
    assert_eq!(credit(vec![stint(1, 27, 0, 0)], 3), vec![]);
}

#[test]
fn a_hold_takes_no_small_lead() {
    // the pitcher in between came in five runs ahead
    let got = credit(vec![stint(1, 18, 0, 5), stint(2, 6, 5, 2), stint(3, 3, 2, 2)], 3);
    assert_eq!(got, vec![(1, Stat::Pw), (3, Stat::Psv), (2, Stat::Phld)]);
    let got = credit(
        vec![stint(1, 12, 0, 9), stint(2, 3, 9, 8), stint(3, 3, 8, 8), stint(4, 9, 8, 7)],
        0,
    );
    assert_eq!(got, vec![(1, Stat::Pw), (4, Stat::Psv), (3, Stat::Phld), (2, Stat::Phld)]);
}

#[test]
fn nobody_holds_for_a_winner_who_finishes() {
    // the first two left level and behind; the win is the last pitcher's own
    let got = credit(vec![stint(1, 15, 0, 0), stint(2, 6, 0, -1), stint(3, 6, -1, 2)], 4);
    assert_eq!(got, vec![(3, Stat::Pw)]);
}
