use search_bench::harness::{generate_arrays, get_num_arrays, run_benchmarks};

#[test]
fn custom_batch_respects_count_and_length_range() {
    let arrays = generate_arrays(25, 3, 8);
    assert_eq!(arrays.len(), 25);
    for w in arrays.windows(2) {
        assert!(w[0].len() <= w[1].len());
    }
    for a in &arrays {
        assert!(a.len() >= 3 && a.len() < 8);
        for i in 1..a.len() {
            assert!(a[i - 1] <= a[i]);
        }
    }
}

#[test]
fn generated_arrays_are_sorted_bounded_and_ordered_by_length() {
    let arrays = get_num_arrays();
    assert_eq!(arrays.len(), 1000);
    for w in arrays.windows(2) {
        assert!(w[0].len() <= w[1].len());
    }
    for a in &arrays {
        assert!(a.len() >= 2 && a.len() < 500);
        for i in 1..a.len() {
            assert!(a[i - 1] <= a[i]);
        }
        for (k, &v) in a.iter().enumerate() {
            let low = 10 * (k as u32);
            assert!(low <= v && v < low + 10);
        }
    }
}

#[test]
fn benchmark_rows_stay_aligned_and_found() {
    let arrays: Vec<Vec<u32>> = vec![
        vec![1, 2],
        vec![1, 2, 3],
        vec![0, 10, 20, 30, 40],
        vec![7, 7, 7, 7],
    ];
    let results = run_benchmarks(&arrays);
    assert_eq!(results.binary_search_results.len(), arrays.len());
    assert_eq!(results.interp_search_results.len(), arrays.len());
    assert_eq!(results.interp_binary_search_results.len(), arrays.len());

    for (i, a) in arrays.iter().enumerate() {
        let b = &results.binary_search_results[i];
        let p = &results.interp_search_results[i];
        let h = &results.interp_binary_search_results[i];
        assert_eq!(b.array_length, a.len());
        assert_eq!(p.array_length, a.len());
        assert_eq!(h.array_length, a.len());
        assert!(b.comparison_count >= 1);
        assert!(p.comparison_count >= 1);
        assert!(h.comparison_count >= 1);

        // The target comes from the array itself, so every search finds it,
        // and all three find positions holding the same value.
        let bv = a[b.target_index.expect("target present")];
        let pv = a[p.target_index.expect("target present")];
        let hv = a[h.target_index.expect("target present")];
        assert_eq!(bv, pv);
        assert_eq!(bv, hv);
    }
}

#[test]
fn full_batch_runs_and_finds_every_target() {
    let arrays = get_num_arrays();
    let results = run_benchmarks(&arrays);
    assert_eq!(results.binary_search_results.len(), 1000);
    for (i, a) in arrays.iter().enumerate() {
        let b = &results.binary_search_results[i];
        let p = &results.interp_search_results[i];
        let h = &results.interp_binary_search_results[i];
        assert!(b.target_index.is_some());
        assert!(p.target_index.is_some());
        assert!(h.target_index.is_some());
        assert_eq!(b.array_length, a.len());
        assert_eq!(p.array_length, a.len());
        assert_eq!(h.array_length, a.len());
    }
}
