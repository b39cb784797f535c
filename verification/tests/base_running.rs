use imp019::game::{RunnerInfo, Scoreboard};

#[test]
fn game_test_advance_onbase() {
    let mut test = Scoreboard::new(0);
    assert!(test.onbase[0].is_none());
    assert!(test.onbase[1].is_none());
    assert!(test.onbase[2].is_none());
    assert!(test.onbase[3].is_none());

    test.advance_onbase(0);
    assert!(test.onbase[0].is_none());
    assert!(test.onbase[1].is_none());
    assert!(test.onbase[2].is_none());
    assert!(test.onbase[3].is_none());

    test.onbase[0] = Some(RunnerInfo { runner: 23, pitcher: 0, earned: true });
    test.advance_onbase(0);
    assert!(test.onbase[0].is_none());
    assert!(test.onbase[1].is_some());
    assert!(test.onbase[2].is_none());
    assert!(test.onbase[3].is_none());

    test.advance_onbase(0);
    assert!(test.onbase[0].is_none());
    assert!(test.onbase[1].is_some());
    assert!(test.onbase[2].is_none());
    assert!(test.onbase[3].is_none());

    test.advance_onbase(1);
    assert!(test.onbase[0].is_none());
    assert!(test.onbase[1].is_none());
    assert!(test.onbase[2].is_some());
    assert!(test.onbase[3].is_none());

    test.advance_onbase(2);
    test.advance_onbase(3);
    assert!(test.onbase[0].is_none());
    assert!(test.onbase[1].is_none());
    assert!(test.onbase[2].is_none());
    assert!(test.onbase[3].is_none());
    assert_eq!(test.runs_in.len(), 1);

    test.onbase[0] = Some(RunnerInfo { runner: 23, pitcher: 0, earned: true });
    test.onbase[1] = Some(RunnerInfo { runner: 23, pitcher: 0, earned: true });
    test.onbase[2] = Some(RunnerInfo { runner: 23, pitcher: 0, earned: true });
    test.onbase[3] = Some(RunnerInfo { runner: 23, pitcher: 0, earned: true });
    test.advance_onbase(0);
    assert!(test.onbase[0].is_none());
    assert!(test.onbase[1].is_some());
    assert!(test.onbase[2].is_some());
    assert!(test.onbase[3].is_some());
    assert_eq!(test.runs_in.len(), 2);

    test.advance_onbase(1);
    assert!(test.onbase[0].is_none());
    assert!(test.onbase[1].is_none());
    assert!(test.onbase[2].is_some());
    assert!(test.onbase[3].is_some());
    assert_eq!(test.runs_in.len(), 3);

    test.onbase[0] = Some(RunnerInfo { runner: 23, pitcher: 0, earned: true });
    test.advance_onbase(0);
    assert!(test.onbase[0].is_none());
    assert!(test.onbase[1].is_some());
    assert!(test.onbase[2].is_some());
    assert!(test.onbase[3].is_some());
    assert_eq!(test.runs_in.len(), 3);
}

#[test]
fn test_advance_onbase_n() {
    let mut test = Scoreboard::new(0);

    test.advance_batter(1, 0, true, 1);
    assert!(test.onbase[0].is_none());
    assert!(test.onbase[1].is_some());
    assert!(test.onbase[2].is_none());
    assert!(test.onbase[3].is_none());

    test.advance_batter(2, 0, true, 2);
    assert!(test.onbase[0].is_none());
    assert!(test.onbase[1].is_none());
    assert!(test.onbase[2].is_some());
    assert!(test.onbase[3].is_some());

    test.advance_batter(3, 0, true, 1);
    assert!(test.onbase[0].is_none());
    assert!(test.onbase[1].is_some());
    assert!(test.onbase[2].is_some());
    assert!(test.onbase[3].is_some());

    test.advance_batter(4, 0, true, 4);
    assert!(test.onbase[0].is_none());
    assert!(test.onbase[1].is_none());
    assert!(test.onbase[2].is_none());
    assert!(test.onbase[3].is_none());
    assert_eq!(test.runs_in.len(), 4);

    test.runs_in.clear();
    test.advance_batter(3, 0, true, 3);
    test.advance_batter(2, 0, true, 2);
    test.advance_batter(1, 0, true, 3);
    assert!(test.onbase[0].is_none());
    assert!(test.onbase[1].is_none());
    assert!(test.onbase[2].is_none());
    assert!(test.onbase[3].is_some());
    assert_eq!(test.runs_in.len(), 2);

    test.runs_in.clear();
    test.advance_batter(1, 0, true, 4);
    assert!(test.onbase[0].is_none());
    assert!(test.onbase[1].is_none());
    assert!(test.onbase[2].is_none());
    assert!(test.onbase[3].is_none());
    assert_eq!(test.runs_in.len(), 2);

    test.runs_in.clear();
    test.advance_batter(1, 0, true, 4);
    assert!(test.onbase[0].is_none());
    assert!(test.onbase[1].is_none());
    assert!(test.onbase[2].is_none());
    assert!(test.onbase[3].is_none());
    assert_eq!(test.runs_in.len(), 1);
}
