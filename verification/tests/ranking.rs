use std::cmp::Ordering;

use dldist::ranking::{compare_results, print_count, NUM_PRINT_ALL};
use dldist::results::{calculate_osa_distances, DistanceResult};

fn result(line_a: u32, line_b: u32, dldist: u32, total_length: u64) -> DistanceResult {
    DistanceResult { line_a, line_b, dldist, total_length }
}

fn listed(
    mut results: Vec<DistanceResult>,
    normalize: bool,
    descending: bool,
    n_pairs: u16,
) -> Vec<DistanceResult> {
    results.sort_by(|a, b| compare_results(a, b, normalize, descending));
    let count = print_count(results.len() as u64, n_pairs) as usize;
    results.truncate(count);
    results
}

#[test]
fn raw_distances_compare_as_numbers() {
    let near = result(0, 1, 1, 10);
    let far = result(0, 2, 4, 100);
    assert_eq!(compare_results(&near, &far, false, false), Ordering::Less);
    assert_eq!(compare_results(&far, &near, false, false), Ordering::Greater);
    assert_eq!(compare_results(&near, &near, false, false), Ordering::Equal);
    assert_eq!(compare_results(&near, &result(5, 6, 1, 2), false, false), Ordering::Equal);
}

#[test]
fn descending_turns_the_order_round() {
    let near = result(0, 1, 1, 10);
    let far = result(0, 2, 4, 100);
    assert_eq!(compare_results(&near, &far, false, true), Ordering::Greater);
    assert_eq!(compare_results(&far, &near, false, true), Ordering::Less);
    assert_eq!(compare_results(&near, &near, false, true), Ordering::Equal);
    assert_eq!(compare_results(&near, &far, true, true), Ordering::Less);
    assert_eq!(compare_results(&far, &near, true, true), Ordering::Greater);
}

#[test]
fn normalized_distances_compare_as_fractions() {
    // 1 / 5 against 4 / 50
    let short = result(0, 1, 1, 10);
    let long = result(0, 2, 4, 100);
    assert_eq!(compare_results(&short, &long, true, false), Ordering::Greater);
    assert_eq!(compare_results(&long, &short, true, false), Ordering::Less);
    // 2 / 3 against 4 / 6
    assert_eq!(compare_results(&result(0, 1, 2, 6), &result(2, 3, 4, 12), true, false), Ordering::Equal);
    // fractions that differ by less than a float can tell
    let a = result(0, 1, 1_000_000_000, 4_000_000_001);
    let b = result(0, 2, 1_000_000_000, 4_000_000_000);
    assert_eq!(compare_results(&a, &b, true, false), Ordering::Less);
    assert_eq!(compare_results(&b, &a, true, false), Ordering::Greater);
}

#[test]
fn normalized_distance_of_two_empty_lines_is_zero() {
    let empty = result(0, 1, 0, 0);
    let equal = result(2, 3, 0, 8);
    let apart = result(2, 4, 1, 8);
    assert_eq!(compare_results(&empty, &equal, true, false), Ordering::Equal);
    assert_eq!(compare_results(&equal, &empty, true, false), Ordering::Equal);
    assert_eq!(compare_results(&empty, &apart, true, false), Ordering::Less);
    assert_eq!(compare_results(&apart, &empty, true, false), Ordering::Greater);
    assert_eq!(compare_results(&empty, &empty, true, false), Ordering::Equal);
}

#[test]
fn largest_values_do_not_overflow() {
    let a = result(0, 1, u32::MAX, u64::MAX);
    let b = result(0, 2, u32::MAX, u64::MAX - 1);
    assert_eq!(compare_results(&a, &b, true, false), Ordering::Less);
    assert_eq!(compare_results(&a, &a, true, false), Ordering::Equal);
}

#[test]
fn zero_pairs_asks_for_all_results() {
    assert_eq!(NUM_PRINT_ALL, 0);
    assert_eq!(print_count(6, 0), 6);
    assert_eq!(print_count(0, 0), 0);
    assert_eq!(print_count(9_223_372_030_412_324_865, 0), 9_223_372_030_412_324_865);
}

#[test]
fn listing_is_cut_to_the_requested_count() {
    assert_eq!(print_count(6, 3), 3);
    assert_eq!(print_count(6, 6), 6);
    assert_eq!(print_count(6, 10), 6);
    assert_eq!(print_count(0, 10), 0);
    assert_eq!(print_count(100_000, u16::MAX), 65_535);
}

#[test]
fn top_three_of_four_lines_leave_out_the_three_largest_distances() {
    let lines: Vec<String> =
        ["apple", "apply", "ape", "banana"].iter().map(|text| text.to_string()).collect();
    let results = calculate_osa_distances(&lines);
    assert_eq!(results.len(), 6);
    let top = listed(results.clone(), false, false, 3);
    assert_eq!(
        top,
        vec![result(0, 1, 1, 10), result(0, 2, 2, 8), result(1, 2, 3, 8)]
    );
    let left_out: Vec<&DistanceResult> = results.iter().filter(|r| !top.contains(r)).collect();
    assert_eq!(left_out.len(), 3);
    for excluded in left_out {
        assert_eq!(excluded.dldist, 5);
        for included in &top {
            assert!(included.dldist <= excluded.dldist);
        }
    }
}

#[test]
fn listing_by_normalized_distance() {
    let lines: Vec<String> =
        ["apple", "apply", "ape", "banana"].iter().map(|text| text.to_string()).collect();
    let results = calculate_osa_distances(&lines);
    // 1/5, 2/4, 3/4, 10/11 (twice), 10/9
    let ascending = listed(results.clone(), true, false, 0);
    assert_eq!(
        ascending,
        vec![
            result(0, 1, 1, 10),
            result(0, 2, 2, 8),
            result(1, 2, 3, 8),
            result(0, 3, 5, 11),
            result(1, 3, 5, 11),
            result(2, 3, 5, 9),
        ]
    );
    let descending = listed(results, true, true, 2);
    assert_eq!(descending, vec![result(2, 3, 5, 9), result(0, 3, 5, 11)]);
}

#[test]
fn listing_in_descending_order_of_raw_distance() {
    let lines: Vec<String> =
        ["kitten", "sitting", "kitchen", "mitten"].iter().map(|text| text.to_string()).collect();
    let top = listed(calculate_osa_distances(&lines), false, true, 1);
    assert_eq!(top, vec![result(1, 2, 5, 14)]);
}
