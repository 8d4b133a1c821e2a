use udp_bench::stats::{sorted, summarize, Summary};

#[test]
fn sorting_orders_ascending() {
    assert_eq!(sorted(vec![3, 1, 2]), vec![1, 2, 3]);
    assert_eq!(sorted(vec![5, 5, 0, u64::MAX]), vec![0, 5, 5, u64::MAX]);
    assert_eq!(sorted(Vec::new()), Vec::<u64>::new());
}

#[test]
fn empty_sample_has_no_summary() {
    assert_eq!(summarize(&Vec::new()), None);
}

#[test]
fn single_value_summary() {
    assert_eq!(
        summarize(&vec![7]),
        Some(Summary { count: 1, sum: 7, min: 7, max: 7, median: 7, q10: 7, q90: 7 })
    );
}

#[test]
fn even_count_takes_upper_median() {
    let s = summarize(&vec![1, 2, 3, 4]).unwrap();
    assert_eq!(s.median, 3);
    assert_eq!(s.q10, 1);
    assert_eq!(s.q90, 4);
}

#[test]
fn ten_values_quantiles() {
    let v: Vec<u64> = (1..=10).map(|x| x * 100).collect();
    let s = summarize(&v).unwrap();
    assert_eq!(s, Summary { count: 10, sum: 5500, min: 100, max: 1000, median: 600, q10: 200, q90: 1000 });
}

#[test]
fn large_values_do_not_overflow_the_sum() {
    let s = summarize(&vec![u64::MAX, u64::MAX, u64::MAX]).unwrap();
    assert_eq!(s.sum, 3 * (u64::MAX as u128));
}
