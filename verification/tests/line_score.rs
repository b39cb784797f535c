use imp019::linescore::Scoreboard;

#[test]
fn schedule_test_advance_onbase() {
    let mut test1 = Scoreboard::new(0);
    test1.advance_onbase(1, 0, true, 1);
    assert!(test1.onbase[0].is_none());
    assert!(test1.onbase[1].is_some());
    assert!(test1.onbase[2].is_none());
    assert!(test1.onbase[3].is_none());

    test1.advance_onbase(2, 0, true, 2);
    assert!(test1.onbase[0].is_none());
    assert!(test1.onbase[1].is_none());
    assert!(test1.onbase[2].is_some());
    assert!(test1.onbase[3].is_some());

    test1.advance_onbase(3, 0, true, 1);
    assert!(test1.onbase[0].is_none());
    assert!(test1.onbase[1].is_some());
    assert!(test1.onbase[2].is_some());
    assert!(test1.onbase[3].is_some());

    test1.advance_onbase(4, 0, true, 4);
    assert!(test1.onbase[0].is_none());
    assert!(test1.onbase[1].is_none());
    assert!(test1.onbase[2].is_none());
    assert!(test1.onbase[3].is_none());
    assert_eq!(test1.runs_in.len(), 4);

    test1.runs_in.clear();
    test1.advance_onbase(3, 0, true, 3);
    test1.advance_onbase(2, 0, true, 2);
    test1.advance_onbase(1, 0, true, 3);
    assert!(test1.onbase[0].is_none());
    assert!(test1.onbase[1].is_none());
    assert!(test1.onbase[2].is_none());
    assert!(test1.onbase[3].is_some());
    assert_eq!(test1.runs_in.len(), 2);

    test1.runs_in.clear();
    test1.advance_onbase(1, 0, true, 4);
    assert!(test1.onbase[0].is_none());
    assert!(test1.onbase[1].is_none());
    assert!(test1.onbase[2].is_none());
    assert!(test1.onbase[3].is_none());
    assert_eq!(test1.runs_in.len(), 2);

    test1.runs_in.clear();
    test1.advance_onbase(1, 0, true, 4);
    assert!(test1.onbase[0].is_none());
    assert!(test1.onbase[1].is_none());
    assert!(test1.onbase[2].is_none());
    assert!(test1.onbase[3].is_none());
    assert_eq!(test1.runs_in.len(), 1);
}
