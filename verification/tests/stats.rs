use imp019::stat::{Stat, Stats, STREAM_LIMIT};

fn batting_stream() -> Vec<Stat> {
    vec![
        Stat::Gs,
        Stat::B1b,
        Stat::B1b,
        Stat::B2b,
        Stat::Bhr,
        Stat::Bbb,
        Stat::Bso,
        Stat::Bo,
        Stat::Bo,
        Stat::Bhbp,
        Stat::Br,
        Stat::Brbi,
    ]
}

fn pitching_stream() -> Vec<Stat> {
    let mut stream = vec![Stat::G];
    for _ in 0..6 {
        stream.push(Stat::Po);
    }
    for _ in 0..3 {
        stream.push(Stat::Pso);
    }
    stream.push(Stat::P1b);
    stream.push(Stat::P1b);
    stream.push(Stat::Pbb);
    stream.push(Stat::Per);
    stream.push(Stat::Pr);
    stream
}

#[test]
fn compile_stats_counts_batting_events() {
    let stats = Stats::compile_stats(&batting_stream());
    assert_eq!(stats.g, 1);
    assert_eq!(stats.gs, 1);
    assert_eq!(stats.b_1b, 2);
    assert_eq!(stats.b_2b, 1);
    assert_eq!(stats.b_3b, 0);
    assert_eq!(stats.b_hr, 1);
    assert_eq!(stats.b_bb, 1);
    assert_eq!(stats.b_hbp, 1);
    assert_eq!(stats.b_so, 1);
    assert_eq!(stats.b_o, 3);
    assert_eq!(stats.b_r, 1);
    assert_eq!(stats.b_rbi, 1);
    assert_eq!(stats.b_h, 4);
    assert_eq!(stats.b_ab, 7);
    assert_eq!(stats.b_pa, 9);
    assert_eq!(stats.b_avg, 571);
    assert_eq!(stats.b_obp, 666);
    assert_eq!(stats.b_slg, 1142);
}

#[test]
fn compile_stats_counts_pitching_events() {
    let stats = Stats::compile_stats(&pitching_stream());
    assert_eq!(stats.g, 1);
    assert_eq!(stats.p_o, 9);
    assert_eq!(stats.p_so, 3);
    assert_eq!(stats.p_1b, 2);
    assert_eq!(stats.p_h, 2);
    assert_eq!(stats.p_bb, 1);
    assert_eq!(stats.p_er, 1);
    assert_eq!(stats.p_r, 2);
    assert_eq!(stats.p_bf, 12);
    assert_eq!(stats.p_avg, 181);
    assert_eq!(stats.p_obp, 250);
    assert_eq!(stats.p_slg, 181);
    assert_eq!(stats.p_era, 3000);
    assert_eq!(stats.p_whip, 1000);
}

#[test]
fn compile_stats_of_nothing_is_zero() {
    let stats = Stats::compile_stats(&[]);
    for stat in [Stat::G, Stat::Bh, Stat::Bab, Stat::Bavg, Stat::Pera, Stat::Pwhip, Stat::Fe] {
        assert_eq!(stats.get_stat(stat), 0);
    }
}

#[test]
fn implied_events_count_twice() {
    let stats = Stats::compile_stats(&[Stat::Bibb, Stat::Bgidp, Stat::Pibb, Stat::Gs, Stat::Per]);
    assert_eq!((stats.b_ibb, stats.b_bb), (1, 1));
    assert_eq!((stats.b_gidp, stats.b_o), (1, 1));
    assert_eq!((stats.p_ibb, stats.p_bb), (1, 1));
    assert_eq!((stats.gs, stats.g), (1, 1));
    assert_eq!((stats.p_er, stats.p_r), (1, 1));
}

#[test]
fn calculated_events_in_a_stream_are_passed_over() {
    let stats = Stats::compile_stats(&[Stat::Bh, Stat::Bab, Stat::Bavg, Stat::Ph, Stat::Pera]);
    assert_eq!(stats.b_h, 0);
    assert_eq!(stats.b_ab, 0);
    assert_eq!(stats.p_h, 0);
    assert_eq!(stats.p_era, 0);
}

#[test]
fn season_totals_are_the_sum_of_the_games() {
    let first = batting_stream();
    let second = vec![Stat::B3b, Stat::Bo, Stat::Bo, Stat::Bbb, Stat::Fpo];
    let mut whole = first.clone();
    whole.extend(second.iter().copied());

    let mut summed = Stats::compile_stats(&first);
    summed.compile(&Stats::compile_stats(&second));
    let season = Stats::compile_stats(&whole);

    for stat in [
        Stat::G,
        Stat::Gs,
        Stat::B1b,
        Stat::B2b,
        Stat::B3b,
        Stat::Bhr,
        Stat::Bbb,
        Stat::Bhbp,
        Stat::Bso,
        Stat::Bo,
        Stat::Br,
        Stat::Brbi,
        Stat::Bh,
        Stat::Bab,
        Stat::Bpa,
        Stat::Bavg,
        Stat::Bobp,
        Stat::Bslg,
        Stat::Fpo,
    ] {
        assert_eq!(summed.get_stat(stat), season.get_stat(stat));
    }
    assert_eq!(season.b_h, season.b_1b + season.b_2b + season.b_3b + season.b_hr);
    assert_eq!(season.b_ab, season.b_h + season.b_o);
    assert_eq!(season.b_pa, season.b_ab + season.b_bb + season.b_hbp);
    assert_eq!(season.b_h, 5);
    assert_eq!(season.b_ab, 10);
}

#[test]
fn rates_are_in_thousandths() {
    assert_eq!(Stats::div1000_or_0(1, 3), 333);
    assert_eq!(Stats::div1000_or_0(5, 0), 0);
    assert_eq!(Stats::calc_avg1000(10, 3), 300);
    assert_eq!(Stats::calc_obp1000(12, 3, 1, 1), 416);
    assert_eq!(Stats::calc_slg1000(10, 1, 1, 1, 1), 1000);
    assert_eq!(Stats::calc_era1000(2, 27), 2000);
    assert_eq!(Stats::calc_whip1000(5, 3, 21), 1142);
}

#[test]
fn values_are_written_by_kind() {
    assert_eq!(Stat::Bavg.value(571), "0.571");
    assert_eq!(Stat::Bavg.value(1005), "1.005");
    assert_eq!(Stat::Pera.value(3000), "3.000");
    assert_eq!(Stat::Pwhip.value(12040), "12.040");
    assert_eq!(Stat::Po.value(10), "3.1");
    assert_eq!(Stat::Po.value(0), "0.0");
    assert_eq!(Stat::Bhr.value(12), "12");
    assert_eq!(Stat::G.value(0), "0");
    assert_eq!(Stat::Pso.value(4294967295), "4294967295");
}

#[test]
fn headings() {
    assert_eq!(Stat::Po.label(), "IP");
    assert_eq!(Stat::Pavg.label(), "BAA");
    assert_eq!(Stat::B1b.label(), "1B");
    assert_eq!(Stat::P1b.label(), "1B");
    assert_eq!(Stat::Fe.label(), "E");
}

#[test]
fn kinds_of_statistic() {
    assert!(Stat::Bslg.is_batting());
    assert!(Stat::Br.is_batting());
    assert!(!Stat::Pso.is_batting());
    assert!(!Stat::G.is_batting());
    assert!(Stat::Pera.is_reverse_sort());
    assert!(Stat::Pavg.is_reverse_sort());
    assert!(!Stat::Bavg.is_reverse_sort());
    assert!(!Stat::Pso.is_reverse_sort());
}

#[test]
fn qualifying_takes_playing_time() {
    let mut stats = Stats::compile_stats(&[]);
    stats.b_pa = 309;
    stats.p_o = 299;
    // 100 games ask for 310 plate appearances and 300 outs
    assert!(!Stat::Bavg.is_qualified(&stats, 100));
    assert!(!Stat::Pera.is_qualified(&stats, 100));
    stats.b_pa = 310;
    stats.p_o = 300;
    assert!(Stat::Bavg.is_qualified(&stats, 100));
    assert!(Stat::Bobp.is_qualified(&stats, 100));
    assert!(Stat::Bslg.is_qualified(&stats, 100));
    assert!(Stat::Pera.is_qualified(&stats, 100));
    assert!(Stat::Pwhip.is_qualified(&stats, 100));
    // counting statistics and the average against need none
    let none = Stats::compile_stats(&[]);
    assert!(Stat::Bhr.is_qualified(&none, 100));
    assert!(Stat::Pavg.is_qualified(&none, 100));
}

#[test]
fn the_stream_limit_is_what_the_earned_run_average_allows() {
    assert_eq!(STREAM_LIMIT, (u32::MAX / 27_000) as usize);
    let stream = vec![Stat::Per; 1000];
    let mut with_out = stream.clone();
    with_out.push(Stat::Po);
    assert_eq!(Stats::compile_stats(&with_out).p_era, 27_000_000);
}
