use batch_bench::timing::{
    average_less, concurrency_for, extreme_positions, fraction_less, get_timing_data, Average, Timing,
};

fn avg(total_ms: u128, runs: u64) -> Average {
    Average { total_ms, runs }
}

#[test]
fn fraction_less_compares_exactly() {
    assert!(fraction_less(1, 3, 1, 2));
    assert!(!fraction_less(1, 2, 1, 3));
    assert!(!fraction_less(2, 4, 1, 2));
    assert!(!fraction_less(1, 2, 2, 4));
    assert!(fraction_less(0, 5, 1, 7));
    assert!(!fraction_less(0, 5, 0, 7));
    let big = u128::MAX;
    assert!(fraction_less(big - 1, big, 1, 1));
    assert!(!fraction_less(big, big - 1, 1, 1));
    assert!(fraction_less(big - 2, big - 1, big - 1, big));
}

#[test]
fn average_less_examples() {
    assert!(average_less(&avg(30, 3), &avg(21, 2)));
    assert!(!average_less(&avg(20, 2), &avg(10, 1)));
}

#[test]
fn concurrency_is_rounded_up() {
    assert_eq!(concurrency_for(10, 3), 4);
    assert_eq!(concurrency_for(9, 3), 3);
    assert_eq!(concurrency_for(0, 5), 0);
    assert_eq!(concurrency_for(1, 5), 1);
    assert_eq!(concurrency_for(usize::MAX, 2), usize::MAX / 2 + 1);
}

#[test]
fn timing_records_mean_of_runs() {
    let mut t = Timing::new("https://node".to_string());
    t.init();
    t.start();
    t.iteration(10);
    t.start();
    t.iteration(20);
    assert_eq!(t.total_ms(), 30);
    let m = t.end();
    assert_eq!((m.total_ms, m.runs), (30, 2));
    t.init();
    let m = t.end();
    assert_eq!((m.total_ms, m.runs), (0, 0));
    assert_eq!(t.data().len(), 2);
    assert_eq!(t.node_end_point(), "https://node");
    t.init_write();
    assert!(t.data().is_empty());
}

#[test]
fn extreme_positions_pick_first_of_ties() {
    let d = vec![avg(10, 1), avg(20, 2), avg(30, 1), avg(60, 2), avg(5, 1)];
    assert_eq!(extreme_positions(&d), (5, 3));
    let d = vec![avg(10, 1), avg(10, 1)];
    assert_eq!(extreme_positions(&d), (1, 1));
}

#[test]
fn extreme_positions_skip_missing_and_out_of_range() {
    // 100000 s is not below the ceiling of 100000 s
    let d = vec![avg(0, 0), avg(100_000_000, 1), avg(0, 3)];
    assert_eq!(extreme_positions(&d), (3, 2));
    let d = vec![avg(100_000_000, 1)];
    assert_eq!(extreme_positions(&d), (0, 1));
    let d = vec![avg(99_999_999, 1)];
    assert_eq!(extreme_positions(&d), (1, 1));
    // 100000 ms are 100 s, below the ceiling
    let d = vec![avg(100000, 1)];
    assert_eq!(extreme_positions(&d), (1, 1));
    let d = vec![avg(0, 0)];
    assert_eq!(extreme_positions(&d), (0, 0));
    let d: Vec<Average> = vec![];
    assert_eq!(extreme_positions(&d), (0, 0));
    let d = vec![avg(0, 1)];
    assert_eq!(extreme_positions(&d), (1, 0));
    let d = vec![avg(300_000_000, 2)];
    assert_eq!(extreme_positions(&d), (0, 1));
}

#[test]
fn get_timing_data_names_batch_sizes() {
    let mut t = Timing::new("https://node".to_string());
    // batch sizes 3, 2, 1 in that order
    for (total, runs) in [(30u128, 2u64), (12, 2), (50, 2)] {
        t.init();
        for k in 0..runs {
            t.start();
            t.iteration(if k == 0 { total } else { 0 });
        }
        t.end();
    }
    let e = get_timing_data(&t);
    assert_eq!((e.batch_min, e.concurrency_min), (2, 2));
    assert_eq!((e.time_min.total_ms, e.time_min.runs), (12, 2));
    assert_eq!((e.batch_max, e.concurrency_max), (1, 3));
    assert_eq!((e.time_max.total_ms, e.time_max.runs), (50, 2));
}

#[test]
fn law_fastest_not_slower_on_values() {
    let d = vec![avg(7, 2), avg(3, 1), avg(90, 30), avg(1, 4)];
    let (mi, ma) = extreme_positions(&d);
    let (lo, hi) = (d[mi - 1], d[ma - 1]);
    assert!(lo.total_ms * hi.runs as u128 <= hi.total_ms * lo.runs as u128);
    assert_eq!((mi, ma), (4, 1));
}

#[test]
fn means_are_in_seconds() {
    // two runs of 1500 ms and 2500 ms: a mean of 2 s
    let mut t = Timing::new("https://node".to_string());
    t.init_write();
    t.init();
    t.start();
    t.iteration(1500);
    t.start();
    t.iteration(2500);
    let m = t.end();
    assert_eq!((m.total_ms, m.runs), (4000, 2));
    assert_eq!(m.total_ms as f64 / (1000.0 * m.runs as f64), 2.0);
}

#[test]
fn law_records_follow_ends_on_calls() {
    let mut t = Timing::new("https://node".to_string());
    t.init_write();
    let mut means = vec![];
    for (k, e) in [(1u64, 10u128), (2, 20), (0, 0), (3, 7)] {
        t.init();
        for _ in 0..k {
            t.start();
            t.iteration(e);
        }
        let m = t.end();
        means.push((m.total_ms, m.runs));
    }
    let recorded: Vec<(u128, u64)> = t.data().iter().map(|a| (a.total_ms, a.runs)).collect();
    assert_eq!(recorded, means);
    assert_eq!(recorded, vec![(10, 1), (40, 2), (0, 0), (21, 3)]);
    t.init_write();
    t.init();
    t.end();
    assert_eq!(t.data().len(), 1);
}

#[test]
fn law_mean_of_runs_on_values() {
    let mut t = Timing::new("https://node".to_string());
    t.init_write();
    t.init();
    t.end();
    let es = [120u128, 80, 400, 0];
    t.init();
    for e in es {
        t.start();
        t.iteration(e);
    }
    let m = t.end();
    assert_eq!((m.total_ms, m.runs), (600, 4));
    assert_eq!(m.total_ms as f64 / (1000.0 * m.runs as f64), 0.15);
    let last = t.data()[t.data().len() - 1];
    assert_eq!((last.total_ms, last.runs), (600, 4));
    assert_eq!(t.data().len(), 2);
}
