use imp019::schedule::{Rounds, Schedule};
use std::collections::HashMap;

fn pairs(schedule: &Schedule) -> Vec<(u64, u64)> {
    schedule.games.iter().map(|g| (g.home.id, g.away.id)).collect()
}

/// Runs rounds until every pairing is placed, as a season is made.
fn season(teams: &[u64]) -> (Vec<(u64, u64)>, Schedule) {
    let mut rng = rand::thread_rng();
    let mut raw = Schedule::draw_pairings(teams, &mut rng);
    let mut matchups = Vec::new();
    while !raw.is_empty() {
        Schedule::next_round(&mut raw, teams, &mut matchups, &mut rng);
    }
    let schedule = Schedule::expand(&matchups, teams.len());
    (matchups, schedule)
}

#[test]
fn pairings_set_every_team_against_every_other() {
    assert_eq!(
        Schedule::pairings(&[7, 8, 9]),
        vec![(7, 8), (7, 9), (8, 7), (8, 9), (9, 7), (9, 8)]
    );
    assert_eq!(Schedule::pairings(&[4]), vec![]);
    assert_eq!(Schedule::pairings(&[]), vec![]);
    assert_eq!(Schedule::pairings(&[1, 2, 3, 4, 5, 6]).len(), 30);
}

#[test]
fn drawn_pairings_are_the_pairings_in_some_order() {
    let teams: Vec<u64> = (1..=8).collect();
    let mut rng = rand::thread_rng();
    let mut sorted = Schedule::pairings(&teams);
    sorted.sort();
    let mut moved = false;
    for _ in 0..20 {
        let drawn = Schedule::draw_pairings(&teams, &mut rng);
        moved = moved || drawn != Schedule::pairings(&teams);
        let mut again = drawn.clone();
        again.sort();
        assert_eq!(again, sorted);
    }
    assert!(moved);
}

#[test]
fn a_round_takes_the_first_open_pairing_for_each_team() {
    // teams are taken from the end of the list
    let mut raw = vec![(1, 2), (3, 4), (4, 3), (2, 1), (4, 1), (1, 3)];
    let mut matchups = vec![(9, 8)];
    Schedule::pick_round(&mut raw, vec![1, 2, 3, 4], &mut matchups);
    // 4 is at home to 3 first; then of 2 and 1, 2 is at home to 1
    assert_eq!(matchups, vec![(9, 8), (4, 3), (2, 1)]);
    assert_eq!(raw, vec![(1, 2), (3, 4), (4, 1), (1, 3)]);
}

#[test]
fn a_team_without_an_open_pairing_sits_out() {
    let mut raw = vec![(1, 2)];
    let mut matchups = Vec::new();
    // 2 is taken first and has no home game left; by then 1 finds nobody waiting
    Schedule::pick_round(&mut raw, vec![1, 2], &mut matchups);
    assert_eq!(matchups, vec![]);
    assert_eq!(raw, vec![(1, 2)]);
    Schedule::pick_round(&mut raw, vec![2, 1], &mut matchups);
    assert_eq!(matchups, vec![(1, 2)]);
    assert_eq!(raw, vec![]);
}

#[test]
fn each_day_is_played_four_times_running() {
    let matchups = vec![(1, 2), (3, 4), (2, 1), (4, 3)];
    let schedule = Schedule::expand(&matchups, 4);
    assert_eq!(
        pairs(&schedule),
        vec![
            (1, 2),
            (3, 4),
            (1, 2),
            (3, 4),
            (1, 2),
            (3, 4),
            (1, 2),
            (3, 4),
            (2, 1),
            (4, 3),
            (2, 1),
            (4, 3),
            (2, 1),
            (4, 3),
            (2, 1),
            (4, 3),
        ]
    );
    for g in &schedule.games {
        assert_eq!((g.home.r, g.away.r), (0, 0));
        assert!(g.playbyplay.is_empty());
    }
}

#[test]
fn a_season_has_four_games_for_every_pairing() {
    for n in [2u64, 3, 4, 5, 8, 20] {
        let teams: Vec<u64> = (1..=n).map(|t| t * 10).collect();
        let (matchups, schedule) = season(&teams);
        let games = pairs(&schedule);
        assert_eq!(matchups.len() as u64, n * (n - 1));
        assert_eq!(games.len() as u64, n * (n - 1) * 4);

        let mut count: HashMap<(u64, u64), usize> = HashMap::new();
        for g in &games {
            *count.entry(*g).or_insert(0) += 1;
        }
        assert_eq!(count.len() as u64, n * (n - 1));
        for home in &teams {
            for away in &teams {
                if home != away {
                    assert_eq!(count[&(*home, *away)], 4);
                }
            }
        }

        // the four games of a pairing are on four days running, in one place
        let per_day = (n / 2) as usize;
        for (m, pairing) in matchups.iter().enumerate() {
            let (day, place) = (m / per_day, m % per_day);
            for rep in 0..4 {
                assert_eq!(games[(4 * day + rep) * per_day + place], *pairing);
            }
        }
    }
}

#[test]
fn the_next_round_takes_games_from_the_open_pairings() {
    let teams: Vec<u64> = (1..=6).collect();
    let mut rng = rand::thread_rng();
    for _ in 0..50 {
        let mut raw = Schedule::draw_pairings(&teams, &mut rng);
        let before = raw.clone();
        let mut matchups = Vec::new();
        Schedule::next_round(&mut raw, &teams, &mut matchups, &mut rng);
        assert_eq!(raw.len() + matchups.len(), before.len());
        assert!(matchups.len() <= 3);
        let mut seen = Vec::new();
        for (home, away) in &matchups {
            assert!(before.contains(&(*home, *away)));
            assert!(!raw.contains(&(*home, *away)));
            assert!(!seen.contains(home) && !seen.contains(away));
            seen.push(*home);
            seen.push(*away);
        }
    }
}

#[test]
fn short_rounds_can_put_a_team_twice_in_a_day() {
    let mut raw = vec![(4, 1), (3, 1), (2, 3), (4, 2)];
    let mut matchups = Vec::new();
    Schedule::pick_round(&mut raw, vec![2, 1, 3, 4], &mut matchups);
    assert_eq!(matchups, vec![(4, 1)]);
    Schedule::pick_round(&mut raw, vec![1, 4, 2, 3], &mut matchups);
    assert_eq!(matchups, vec![(4, 1), (3, 1)]);
    Schedule::pick_round(&mut raw, vec![1, 4, 3, 2], &mut matchups);
    Schedule::pick_round(&mut raw, vec![1, 2, 3, 4], &mut matchups);
    assert_eq!(matchups, vec![(4, 1), (3, 1), (2, 3), (4, 2)]);
    assert!(raw.is_empty());
    let schedule = Schedule::expand(&matchups, 4);
    // the first day holds two rounds of one game, and team 1 plays in both
    assert_eq!(pairs(&schedule)[..2], [(4, 1), (3, 1)]);
}

#[test]
fn rounds_make_a_season_once_every_pairing_is_placed() {
    let mut rng = rand::thread_rng();
    assert!(Rounds::new(&[], &mut rng).is_none());
    assert!(Rounds::new(&[7], &mut rng).is_none());
    assert!(Rounds::new(&[7, 8, 7], &mut rng).is_none());
    assert!(Rounds::distinct(&[3, 1, 2]) && !Rounds::distinct(&[3, 1, 3]) && Rounds::distinct(&[]));

    for n in [2u64, 3, 6, 9] {
        let teams: Vec<u64> = (1..=n).map(|t| t + 100).collect();
        let mut rounds = Rounds::new(&teams, &mut rng).unwrap();
        assert_eq!(rounds.placed_len(), 0);
        assert!(!rounds.is_complete());
        let mut before = 0;
        while !rounds.is_complete() {
            rounds = rounds.next_round(&mut rng);
            assert!(rounds.placed_len() >= before);
            before = rounds.placed_len();
        }
        assert_eq!(before as u64, n * (n - 1));
        let schedule = rounds.finish().unwrap();
        let games = pairs(&schedule);
        assert_eq!(games.len() as u64, n * (n - 1) * 4);
        for home in &teams {
            for away in &teams {
                let count = games.iter().filter(|g| **g == (*home, *away)).count();
                assert_eq!(count, if home == away { 0 } else { 4 });
            }
        }
        for g in &schedule.games {
            assert!(g.home.id != g.away.id);
            assert_eq!((g.home.r, g.away.r), (0, 0));
        }
    }

    // with pairings still open there is no season yet
    let rounds = Rounds::new(&[1, 2, 3, 4], &mut rng).unwrap();
    assert!(rounds.finish().is_none());
}
