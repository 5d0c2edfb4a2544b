use batch_bench::query::{batch_ranges, generate_blocks, get_good_url, starts_with_str, Step, Sweep};
use batch_bench::timing::Timing;
use batch_bench::write_csv::{csv_file_name, csv_header, without_slashes};

#[test]
fn get_good_url_adds_scheme() {
    assert_eq!(get_good_url(&"rpc.xdaichain.com/".to_string()), "https://rpc.xdaichain.com/");
    assert_eq!(get_good_url(&"https://sokol.poa.network/".to_string()), "https://sokol.poa.network/");
    assert_eq!(get_good_url(&"http://a".to_string()), "https://http://a");
    assert_eq!(get_good_url(&"".to_string()), "https://");
}

#[test]
fn law_good_url_idempotent_on_values() {
    for node in ["x", "https://x", "http", "https:/"] {
        let once = get_good_url(&node.to_string());
        assert!(once.starts_with("https://"));
        assert_eq!(get_good_url(&once), once);
    }
}

#[test]
fn starts_with_examples() {
    assert!(starts_with_str("https://a", "https://"));
    assert!(!starts_with_str("http", "https://"));
    assert!(starts_with_str("abc", ""));
}

#[test]
fn batch_ranges_cover_items() {
    assert_eq!(batch_ranges(10, 4), vec![(0, 4), (4, 8), (8, 10)]);
    assert_eq!(batch_ranges(8, 4), vec![(0, 4), (4, 8)]);
    assert_eq!(batch_ranges(3, 5), vec![(0, 3)]);
    assert_eq!(batch_ranges(0, 2), vec![]);
    assert_eq!(batch_ranges(3, 1), vec![(0, 1), (1, 2), (2, 3)]);
}

#[test]
fn law_batches_partition_on_values() {
    for total in 0..20usize {
        for batch in 1..8usize {
            let r = batch_ranges(total, batch);
            let mut next = 0;
            for (k, (l, rr)) in r.iter().enumerate() {
                assert_eq!(*l, next);
                assert!(l < rr && rr - l <= batch);
                if k + 1 < r.len() {
                    assert_eq!(rr - l, batch);
                }
                next = *rr;
            }
            assert_eq!(next, total);
        }
    }
}

#[test]
fn generate_blocks_stay_in_range() {
    let b = generate_blocks(50, 7);
    assert_eq!(b.len(), 50);
    assert!(b.iter().all(|x| *x < 7));
    assert_eq!(generate_blocks(5, 1), vec![0; 5]);
    assert!(generate_blocks(0, 0).is_empty());
}

#[test]
fn sweep_runs_every_batch_size() {
    let mut t = Timing::new("https://node".to_string());
    t.init_write();
    let mut s = Sweep::new(3, 2, t);
    let mut seen = vec![];
    let mut kept = 0;
    let mut closed = vec![];
    loop {
        match s.step() {
            Step::Measure { batch, ranges, keep_results } => {
                seen.push((batch, ranges));
                if keep_results {
                    kept += 1;
                }
                s.record_run(batch as u128 * 10);
            }
            Step::Close { batch, concurrency } => {
                let c = s.close_batch();
                assert_eq!((c.batch, c.concurrency), (batch, concurrency));
                closed.push((c.batch, c.concurrency, c.mean.total_ms, c.mean.runs));
            }
            Step::Done => break,
        }
    }
    assert_eq!(kept, 1);
    assert_eq!(seen.len(), 6);
    assert_eq!(seen[0], (3, vec![(0, 3)]));
    assert_eq!(seen[2], (2, vec![(0, 2), (2, 3)]));
    assert_eq!(seen[5], (1, vec![(0, 1), (1, 2), (2, 3)]));
    assert_eq!(closed, vec![(3, 1, 60, 2), (2, 2, 40, 2), (1, 3, 20, 2)]);
    let t = s.into_timing();
    assert_eq!(t.data().len(), 3);
    assert_eq!(t.data()[0].total_ms, 60);
}

#[test]
fn sweep_of_nothing_is_done() {
    let s = Sweep::new(0, 10, Timing::new("https://n".to_string()));
    assert!(matches!(s.step(), Step::Done));
}

#[test]
fn sweep_without_runs_closes_at_once() {
    let mut s = Sweep::new(2, 0, Timing::new("https://n".to_string()));
    assert!(matches!(s.step(), Step::Close { batch: 2, concurrency: 1 }));
    let c = s.close_batch();
    assert_eq!((c.mean.total_ms, c.mean.runs), (0, 0));
}

#[test]
fn csv_file_name_for_node() {
    assert_eq!(csv_file_name("https://rpc.xdaichain.com/", 0), "csv/rpc.xdaichain.com_getBlocks.csv");
    assert_eq!(csv_file_name("https://sokol.poa.network/", 1), "csv/sokol.poa.network_getTransactions.csv");
    assert_eq!(csv_file_name("https://a/b/c", 7), "csv/abc_other.csv");
    assert_eq!(csv_file_name("https://", 0), "csv/_getBlocks.csv");
    assert_eq!(csv_file_name("abcdefghij", 0), "csv/ij_getBlocks.csv");
    assert_eq!(csv_file_name("ab\u{00e9}defgé/", 0), "csv/é_getBlocks.csv");
}

#[test]
fn csv_header_per_stage() {
    assert_eq!(csv_header(0), vec!["block_batch_size", "batch_concurrency", "time"]);
    assert_eq!(csv_header(1), vec!["tx_batch", "tx_concurrency", "time"]);
    assert_eq!(csv_header(2), vec!["tx_batch", "tx_concurrency", "time"]);
}

#[test]
fn without_slashes_removes_all() {
    assert_eq!(without_slashes("/a//b/"), "ab");
    assert_eq!(without_slashes(""), "");
}
