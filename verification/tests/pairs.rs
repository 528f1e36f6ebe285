use dldist::pairs::{pair_combinations_count, PairEnumerator, PairKey};

fn pairs_among(lines_cnt: u32) -> Vec<(u32, u32)> {
    let mut enumerator = PairEnumerator::new(lines_cnt);
    let mut pairs = Vec::new();
    while let Some(pair) = enumerator.next_pair() {
        pairs.push((pair.line_a, pair.line_b));
    }
    pairs
}

#[test]
fn fewer_than_two_items_have_no_pairs() {
    assert_eq!(pair_combinations_count(0), 0);
    assert_eq!(pair_combinations_count(1), 0);
}

#[test]
fn pair_count_is_n_times_n_minus_one_halved() {
    assert_eq!(pair_combinations_count(2), 1);
    assert_eq!(pair_combinations_count(3), 3);
    assert_eq!(pair_combinations_count(4), 6);
    assert_eq!(pair_combinations_count(10), 45);
    assert_eq!(pair_combinations_count(1000), 499_500);
}

#[test]
fn pair_count_of_many_items_does_not_wrap() {
    assert_eq!(pair_combinations_count(65_537), 2_147_516_416);
    assert_eq!(pair_combinations_count(u32::MAX), 9_223_372_030_412_324_865);
}

#[test]
fn pairs_come_in_row_major_order() {
    assert_eq!(pairs_among(4), vec![(0, 1), (0, 2), (0, 3), (1, 2), (1, 3), (2, 3)]);
    assert_eq!(pairs_among(3), vec![(0, 1), (0, 2), (1, 2)]);
    assert_eq!(pairs_among(2), vec![(0, 1)]);
}

#[test]
fn no_pairs_among_fewer_than_two_lines() {
    assert_eq!(pairs_among(0), vec![]);
    assert_eq!(pairs_among(1), vec![]);
}

#[test]
fn as_many_pairs_are_handed_out_as_are_counted() {
    for lines_cnt in 0..40u32 {
        assert_eq!(pairs_among(lines_cnt).len() as u64, pair_combinations_count(lines_cnt));
    }
}

#[test]
fn every_pair_is_handed_out_once_and_none_is_a_self_pair() {
    let lines_cnt = 25u32;
    let pairs = pairs_among(lines_cnt);
    for &(line_a, line_b) in &pairs {
        assert!(line_a < line_b);
        assert!(line_b < lines_cnt);
    }
    for line_a in 0..lines_cnt {
        for line_b in (line_a + 1)..lines_cnt {
            assert_eq!(pairs.iter().filter(|&&p| p == (line_a, line_b)).count(), 1);
        }
    }
    for window in pairs.windows(2) {
        assert!(window[0] < window[1]);
    }
}

#[test]
fn enumerator_stays_exhausted() {
    let mut enumerator = PairEnumerator::new(2);
    assert_eq!(enumerator.next_pair(), Some(PairKey { line_a: 0, line_b: 1 }));
    assert_eq!(enumerator.next_pair(), None);
    assert_eq!(enumerator.next_pair(), None);
    assert_eq!(enumerator.lines_cnt(), 2);
}

#[test]
fn enumerator_can_be_restarted() {
    let mut enumerator = PairEnumerator::new(3);
    assert_eq!(enumerator.next_pair(), Some(PairKey { line_a: 0, line_b: 1 }));
    assert_eq!(enumerator.next_pair(), Some(PairKey { line_a: 0, line_b: 2 }));
    enumerator.restart();
    assert_eq!(enumerator.next_pair(), Some(PairKey { line_a: 0, line_b: 1 }));
    assert_eq!(enumerator.next_pair(), Some(PairKey { line_a: 0, line_b: 2 }));
    assert_eq!(enumerator.next_pair(), Some(PairKey { line_a: 1, line_b: 2 }));
    assert_eq!(enumerator.next_pair(), None);
    enumerator.restart();
    assert_eq!(enumerator.next_pair(), Some(PairKey { line_a: 0, line_b: 1 }));
}

#[test]
fn enumerator_reaches_the_largest_indices() {
    let mut enumerator = PairEnumerator::new(u32::MAX);
    assert_eq!(enumerator.next_pair(), Some(PairKey { line_a: 0, line_b: 1 }));
    assert_eq!(enumerator.next_pair(), Some(PairKey { line_a: 0, line_b: 2 }));
}
