use static_compress::stats::{aggregate, Statistics};

fn counts(s: &Statistics) -> [u64; 6] {
    [
        s.total_compressed(),
        s.total_compressed_now(),
        s.total_uncompressed(),
        s.total_uncompressed_now(),
        s.total_file_count() as u64,
        s.total_file_count_now() as u64,
    ]
}

#[test]
fn new_statistics_are_zero() {
    let s = Statistics::new();
    assert_eq!(counts(&s), [0; 6]);
    assert_eq!(s.savings_ratio(), None);
    assert_eq!(s.savings_ratio_now(), None);
}

#[test]
fn update_counts_fresh_and_up_to_date_files() {
    let mut s = Statistics::new();
    s.update(100, 40, true);
    s.update(50, 20, false);
    assert_eq!(counts(&s), [60, 40, 150, 100, 2, 1]);
}

#[test]
fn savings_ratio_is_exact() {
    let mut s = Statistics::new();
    s.update(1000, 250, true);
    s.update(3000, 3000, false);
    assert_eq!(s.savings_ratio_now(), Some(2500));
    assert_eq!(s.savings_ratio(), Some(8125));
}

#[test]
fn merge_order_does_not_matter() {
    let make = |u: u64, c: u64, fresh: bool| {
        let mut s = Statistics::new();
        s.update(u, c, fresh);
        s
    };
    let mut ab = make(10, 5, true);
    ab.merge(&make(7, 3, false));
    ab.merge(&make(100, 1, true));
    let mut ba = make(100, 1, true);
    ba.merge(&make(7, 3, false));
    ba.merge(&make(10, 5, true));
    assert_eq!(counts(&ab), counts(&ba));
    assert_eq!(counts(&ab), [9, 6, 117, 110, 3, 2]);
}

#[test]
fn aggregate_sums_all_workers() {
    let mut a = Statistics::new();
    a.update(10, 4, true);
    let mut b = Statistics::new();
    b.update(20, 8, false);
    let total = aggregate(&vec![a, b, Statistics::new()]).unwrap();
    assert_eq!(counts(&total), [12, 4, 30, 10, 2, 1]);
}

#[test]
fn aggregate_reports_overflow() {
    let mut a = Statistics::new();
    a.update(u64::MAX, 1, true);
    let mut b = Statistics::new();
    b.update(1, 1, true);
    assert!(a.can_update(0, 0));
    assert!(!a.can_update(1, 0));
    assert!(!a.can_merge(&b));
    assert!(aggregate(&vec![a, b]).is_none());
}

#[test]
fn empty_aggregate_is_zero() {
    let total = aggregate(&Vec::new()).unwrap();
    assert_eq!(counts(&total), [0; 6]);
}
