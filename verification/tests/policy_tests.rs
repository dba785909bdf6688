use mmr_oracle::policy::{merge, merge_peaks, PeakOrder};
use mmr_oracle::scope::NumberScope;

#[test]
fn new_keeps_both_ends() {
    let scope = NumberScope::new(3, 9);
    assert_eq!(scope.start, 3);
    assert_eq!(scope.end, 9);
}

#[test]
fn leaf_from_ordinal_is_degenerate() {
    let leaf = NumberScope::from(5);
    assert_eq!(leaf, NumberScope::new(5, 5));
    assert!(leaf.is_leaf());
    assert!(leaf.is_normalized());
}

#[test]
fn is_normalized_compares_the_ends() {
    assert!(NumberScope::new(1, 2).is_normalized());
    assert!(NumberScope::new(2, 2).is_normalized());
    assert!(!NumberScope::new(3, 2).is_normalized());
}

#[test]
fn merge_takes_left_start_and_right_end() {
    let parent = merge(&NumberScope::new(0, 1), &NumberScope::new(2, 3));
    assert_eq!(parent, NumberScope::new(0, 3));
    let swapped = merge(&NumberScope::new(2, 3), &NumberScope::new(0, 1));
    assert_eq!(swapped, NumberScope::new(2, 1));
}

#[test]
fn merge_peaks_left_to_right_puts_the_left_peak_first() {
    let right = NumberScope::new(2, 2);
    let left = NumberScope::new(0, 1);
    assert_eq!(merge_peaks(PeakOrder::LeftToRight, &right, &left), NumberScope::new(0, 2));
}

#[test]
fn merge_peaks_right_to_left_puts_the_right_peak_first() {
    let right = NumberScope::new(2, 2);
    let left = NumberScope::new(0, 1);
    let bagged = merge_peaks(PeakOrder::RightToLeft, &right, &left);
    assert_eq!(bagged, NumberScope::new(2, 1));
    assert!(!bagged.is_normalized());
}

#[test]
fn peak_orders_agree_only_on_equal_ends() {
    let a = NumberScope::new(4, 9);
    let b = NumberScope::new(4, 9);
    assert_eq!(
        merge_peaks(PeakOrder::LeftToRight, &a, &b),
        merge_peaks(PeakOrder::RightToLeft, &a, &b)
    );
    let c = NumberScope::new(4, 8);
    assert_ne!(
        merge_peaks(PeakOrder::LeftToRight, &a, &c),
        merge_peaks(PeakOrder::RightToLeft, &a, &c)
    );
}

#[test]
fn merge_is_associative_on_a_chain() {
    let a = NumberScope::new(0, 0);
    let b = NumberScope::new(1, 1);
    let c = NumberScope::new(2, 2);
    assert_eq!(merge(&merge(&a, &b), &c), merge(&a, &merge(&b, &c)));
}

#[test]
fn text_of_a_leaf_shows_one_number() {
    assert_eq!(NumberScope::new(7, 7).to_text(), "NumberScope(=7)");
}

#[test]
fn text_of_a_range_shows_both_ends() {
    assert_eq!(NumberScope::new(7, 12).to_text(), "NumberScope(7, 12)");
    assert_eq!(NumberScope::new(12, 7).to_text(), "NumberScope(12, 7)");
}

#[test]
fn default_scope_is_the_first_leaf() {
    assert_eq!(NumberScope::default(), NumberScope::new(0, 0));
}
