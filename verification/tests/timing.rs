//! Measured pass times.

use fracturize::timing::{durations, summarize, Slots, MILLISECOND};

#[test]
fn a_summary_of_nothing_says_why_rather_than_dividing_by_zero() {
    let s = summarize("chaos", &vec![]);
    assert!(s.contains("no timings"), "{}", s);
    assert!(s.contains("TIMESTAMP_QUERY"), "should say what is missing: {}", s);
}

#[test]
fn a_summary_reports_both_mean_and_median() {
    let mut ms = vec![MILLISECOND / 10; 9];
    ms.insert(0, 10 * MILLISECOND);
    let s = summarize("chaos", &ms);
    assert!(s.contains("10 passes"), "{}", s);
    assert!(s.contains("median 0.1000"), "median must ignore the outlier: {}", s);
    assert!(s.contains("mean 1.0900"), "mean must include it: {}", s);
    assert!(s.contains("max 10.0000"), "{}", s);
}

#[test]
fn slots_are_claimed_in_pairs_until_none_is_left() {
    let mut s = Slots::new(2);
    assert!(!s.is_full());
    assert_eq!(s.claim(), Some(0));
    assert_eq!(s.claim(), Some(2));
    assert!(s.is_full());
    assert_eq!(s.claim(), None);
    assert_eq!(s.measured(), 2);
}

#[test]
fn a_pass_lasts_from_its_first_tick_to_its_second() {
    assert_eq!(durations(&vec![5, 9, 20, 27]), vec![4, 7]);
    // A clock that ran backwards measured nothing.
    assert_eq!(durations(&vec![9, 5]), vec![0]);
}
