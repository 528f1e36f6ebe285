use dldist::pairs::PairKey;
use dldist::results::{
    calculate_osa_distances, distance_result, is_comparable, CountMismatch, DistanceResult,
    ResultAggregator,
};

fn lines_of(texts: &[&str]) -> Vec<String> {
    texts.iter().map(|text| text.to_string()).collect()
}

fn mean_length(result: &DistanceResult) -> f32 {
    result.total_length as f32 * 0.5
}

fn normalized_dldist(result: &DistanceResult) -> f32 {
    result.dldist as f32 / mean_length(result)
}

#[test]
fn two_equal_lines_give_one_result_of_zero() {
    let results = calculate_osa_distances(&lines_of(&["abc", "abc"]));
    assert_eq!(results.len(), 1);
    assert_eq!(results[0].line_a, 0);
    assert_eq!(results[0].line_b, 1);
    assert_eq!(results[0].dldist, 0);
}

#[test]
fn two_swapped_letters_give_one_result_of_one() {
    let results = calculate_osa_distances(&lines_of(&["ab", "ba"]));
    assert_eq!(results.len(), 1);
    assert_eq!(results[0].dldist, 1);
}

#[test]
fn kitten_and_sitting_give_three() {
    let results = calculate_osa_distances(&lines_of(&["kitten", "sitting"]));
    assert_eq!(results.len(), 1);
    assert_eq!(results[0].dldist, 3);
    assert_eq!(results[0].total_length, 13);
}

#[test]
fn empty_line_against_text() {
    let results = calculate_osa_distances(&lines_of(&["", "abc"]));
    assert_eq!(results.len(), 1);
    assert_eq!(results[0].dldist, 3);
    assert_eq!(results[0].total_length, 3);
    assert_eq!(mean_length(&results[0]), 1.5);
    assert_eq!(normalized_dldist(&results[0]), 2.0);
}

#[test]
fn four_lines_give_six_results_in_row_major_order() {
    let results = calculate_osa_distances(&lines_of(&["kitten", "sitting", "kitchen", "mitten"]));
    assert_eq!(
        results,
        vec![
            DistanceResult { line_a: 0, line_b: 1, dldist: 3, total_length: 13 },
            DistanceResult { line_a: 0, line_b: 2, dldist: 2, total_length: 13 },
            DistanceResult { line_a: 0, line_b: 3, dldist: 1, total_length: 12 },
            DistanceResult { line_a: 1, line_b: 2, dldist: 5, total_length: 14 },
            DistanceResult { line_a: 1, line_b: 3, dldist: 3, total_length: 13 },
            DistanceResult { line_a: 2, line_b: 3, dldist: 3, total_length: 13 },
        ]
    );
}

#[test]
fn fewer_than_two_lines_give_no_results() {
    assert_eq!(calculate_osa_distances(&lines_of(&[])), vec![]);
    assert_eq!(calculate_osa_distances(&lines_of(&["alone"])), vec![]);
}

#[test]
fn result_count_is_the_pair_count() {
    for lines_cnt in 0..12usize {
        let lines: Vec<String> = (0..lines_cnt).map(|i| format!("line {}", i * i)).collect();
        let results = calculate_osa_distances(&lines);
        assert_eq!(results.len(), lines_cnt * lines_cnt.saturating_sub(1) / 2);
    }
}

#[test]
fn blank_lines_keep_their_place() {
    let results = calculate_osa_distances(&lines_of(&["", "", "ab", "ba"]));
    assert_eq!(
        results,
        vec![
            DistanceResult { line_a: 0, line_b: 1, dldist: 0, total_length: 0 },
            DistanceResult { line_a: 0, line_b: 2, dldist: 2, total_length: 2 },
            DistanceResult { line_a: 0, line_b: 3, dldist: 2, total_length: 2 },
            DistanceResult { line_a: 1, line_b: 2, dldist: 2, total_length: 2 },
            DistanceResult { line_a: 1, line_b: 3, dldist: 2, total_length: 2 },
            DistanceResult { line_a: 2, line_b: 3, dldist: 1, total_length: 4 },
        ]
    );
}

#[test]
fn one_pair_is_compared_by_the_bytes_of_its_lines() {
    let pair = PairKey { line_a: 7, line_b: 9 };
    assert_eq!(
        distance_result(pair, "h\u{e9}llo", "hello"),
        DistanceResult { line_a: 7, line_b: 9, dldist: 2, total_length: 11 }
    );
}

#[test]
fn aggregator_hands_over_a_complete_collection() {
    let expected = calculate_osa_distances(&lines_of(&["abc", "acb", "bca"]));
    let mut aggregator = ResultAggregator::new(3);
    for result in expected.iter().rev() {
        aggregator.accept(*result);
    }
    let mut collected = aggregator.finish().unwrap();
    assert_eq!(collected.len(), 3);
    collected.reverse();
    assert_eq!(collected, expected);
}

#[test]
fn aggregator_reports_a_missing_result() {
    let mut aggregator = ResultAggregator::new(3);
    aggregator.accept(DistanceResult { line_a: 0, line_b: 1, dldist: 1, total_length: 6 });
    aggregator.accept(DistanceResult { line_a: 0, line_b: 2, dldist: 2, total_length: 6 });
    assert_eq!(aggregator.finish(), Err(CountMismatch { collected: 2, expected: 3 }));
}

#[test]
fn aggregator_reports_a_result_too_many() {
    let mut aggregator = ResultAggregator::new(2);
    aggregator.accept(DistanceResult { line_a: 0, line_b: 1, dldist: 1, total_length: 6 });
    aggregator.accept(DistanceResult { line_a: 0, line_b: 1, dldist: 1, total_length: 6 });
    assert_eq!(aggregator.finish(), Err(CountMismatch { collected: 2, expected: 1 }));
}

#[test]
fn aggregator_for_fewer_than_two_lines_expects_nothing() {
    assert_eq!(ResultAggregator::new(0).finish(), Ok(vec![]));
    assert_eq!(ResultAggregator::new(1).finish(), Ok(vec![]));
    let mut aggregator = ResultAggregator::new(1);
    aggregator.accept(DistanceResult { line_a: 0, line_b: 1, dldist: 0, total_length: 0 });
    assert_eq!(aggregator.finish(), Err(CountMismatch { collected: 1, expected: 0 }));
}

#[test]
fn ordinary_lines_can_be_compared() {
    assert!(is_comparable(&lines_of(&[])));
    assert!(is_comparable(&lines_of(&["", "abc", "h\u{e9}llo"])));
}
