use search_bench::search::{
    binary_search, interpolated_binary_search, interpolation_search, SearchResult,
};

fn all_three(v: &Vec<u32>, target: u32) -> [SearchResult; 3] {
    [
        binary_search(v, target),
        interpolation_search(v, target),
        interpolated_binary_search(v, target),
    ]
}

#[test]
fn empty_sequence_not_found_with_one_comparison() {
    let v: Vec<u32> = vec![];
    for r in all_three(&v, 42) {
        assert_eq!(r.target_index, None);
        assert_eq!(r.comparison_count, 1);
        assert_eq!(r.array_length, 0);
    }
}

#[test]
fn finds_target_in_distinct_sequence() {
    let v: Vec<u32> = vec![1, 3, 5, 7, 9, 11];
    for r in all_three(&v, 7) {
        assert_eq!(r.target_index, Some(3));
        assert!(r.comparison_count >= 1);
        assert_eq!(r.array_length, 6);
    }
}

#[test]
fn exact_comparison_counts_for_distinct_sequence() {
    let v: Vec<u32> = vec![1, 3, 5, 7, 9, 11];
    assert_eq!(binary_search(&v, 7).comparison_count, 9);
    assert_eq!(interpolation_search(&v, 7).comparison_count, 5);
    assert_eq!(interpolated_binary_search(&v, 7).comparison_count, 3);
}

#[test]
fn all_equal_elements_target_found() {
    let v: Vec<u32> = vec![5, 5, 5, 5, 5];
    for r in all_three(&v, 5) {
        let idx = r.target_index.expect("target is present");
        assert_eq!(v[idx], 5);
    }
    assert_eq!(interpolation_search(&v, 5).target_index, Some(0));
    assert_eq!(interpolated_binary_search(&v, 5).target_index, Some(0));
}

#[test]
fn absent_target_in_all_equal_sequence() {
    let v: Vec<u32> = vec![2, 2, 2];
    for r in all_three(&v, 9) {
        assert_eq!(r.target_index, None);
        assert!(r.comparison_count >= 1);
    }
}

#[test]
fn duplicates_found_at_some_matching_index() {
    let v: Vec<u32> = vec![1, 2, 2, 2, 9];
    for r in all_three(&v, 2) {
        let idx = r.target_index.expect("target is present");
        assert!((1..=3).contains(&idx));
        assert_eq!(v[idx], 2);
    }
}

#[test]
fn target_outside_value_range_not_found() {
    let v: Vec<u32> = vec![10, 20, 30];
    for r in all_three(&v, 5) {
        assert_eq!(r.target_index, None);
    }
    for r in all_three(&v, 99) {
        assert_eq!(r.target_index, None);
    }
}

#[test]
fn single_element_below_target_not_found() {
    let v: Vec<u32> = vec![5];
    for r in all_three(&v, 3) {
        assert_eq!(r.target_index, None);
        assert!(r.comparison_count >= 1);
    }
}

#[test]
fn comparison_count_at_least_one_everywhere() {
    let inputs: Vec<(Vec<u32>, u32)> = vec![
        (vec![], 0),
        (vec![7], 7),
        (vec![7], 8),
        (vec![1, 1, 2, 3, 5, 8], 5),
        (vec![1, 1, 2, 3, 5, 8], 4),
        (vec![0, u32::MAX], u32::MAX),
    ];
    for (v, t) in &inputs {
        for r in all_three(v, *t) {
            assert!(r.comparison_count >= 1);
        }
    }
}

#[test]
fn repeated_invocation_yields_identical_outcomes() {
    let inputs: Vec<(Vec<u32>, u32)> = vec![
        (vec![], 42),
        (vec![1, 3, 5, 7, 9, 11], 7),
        (vec![2, 2, 2], 9),
        (vec![1, 2, 2, 2, 9], 2),
        (vec![10, 20, 30], 5),
    ];
    for (v, t) in &inputs {
        assert_eq!(binary_search(v, *t), binary_search(v, *t));
        assert_eq!(interpolation_search(v, *t), interpolation_search(v, *t));
        assert_eq!(
            interpolated_binary_search(v, *t),
            interpolated_binary_search(v, *t)
        );
    }
}

#[test]
fn found_index_always_holds_target_value() {
    let v: Vec<u32> = vec![0, 3, 3, 4, 10, 10, 10, 11, 500, 100_000];
    for t in [0u32, 3, 4, 10, 11, 500, 100_000] {
        for r in all_three(&v, t) {
            let idx = r.target_index.expect("target is present");
            assert_eq!(v[idx], t);
            assert_eq!(r.array_length, v.len());
        }
    }
    for t in [1u32, 5, 12, 499, 999_999] {
        for r in all_three(&v, t) {
            assert_eq!(r.target_index, None);
        }
    }
}
