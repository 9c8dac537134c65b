//! The benchmark harness: generates sorted arrays of random lengths and
//! contents, picks a target present in each, and runs the three searches on
//! the same (sequence, target) pair, collecting aligned outcome rows.

use vstd::prelude::*;
use rand::Rng;
use crate::search::{
    SearchResult, binary_search, interpolation_search, interpolated_binary_search, sorted,
    binary_search_spec, interpolation_search_spec, interpolated_binary_search_spec,
    result_matches, MAX_SEQ_LEN,
};

verus! {

/// How many arrays one benchmark batch holds.
pub const BATCH_SIZE: usize = 1000;

/// Smallest generated array length.
pub const MIN_ARRAY_LEN: u64 = 2;

/// Generated array lengths lie strictly below this.
pub const MAX_ARRAY_LEN: u64 = 500;

/// Per-algorithm outcome collections, aligned by index: entry `i` of each
/// vector comes from the same (sequence, target) pair.
pub struct SearchResults {
    pub binary_search_results: Vec<SearchResult>,
    pub interp_search_results: Vec<SearchResult>,
    pub interp_binary_search_results: Vec<SearchResult>,
}

/// One aligned row of outcomes is valid for the sequence it was produced
/// from: some target, taken from the sequence below its last position, was
/// handed to all three algorithms, and each outcome is the one its search's
/// model gives for that target, with the sequence length recorded.
pub open spec fn row_valid(s: Seq<u32>, b: SearchResult, p: SearchResult, h: SearchResult) -> bool {
    exists|k: int|
        0 <= k < s.len() - 1 && {
            &&& result_matches(b, binary_search_spec(s, s[k]))
            &&& result_matches(p, interpolation_search_spec(s, s[k]))
            &&& result_matches(h, interpolated_binary_search_spec(s, s[k]))
            &&& b.array_length == s.len()
            &&& p.array_length == s.len()
            &&& h.array_length == s.len()
        }
}

/// Relies on `rand::thread_rng` and `rand::Rng::gen_range` (rand 0.8):
/// returns a value drawn from the half-open range `lo..hi`; `gen_range`
/// panics only on an empty range, which the precondition rules out.
#[verifier::external_body]
fn rand_u64_in(lo: u64, hi: u64) -> (r: u64)
    requires
        lo < hi,
    ensures
        lo <= r < hi,
{
    rand::thread_rng().gen_range(lo..hi)
}

/// Relies on `slice::sort_unstable_by_key` with key `Vec::len`: reorders the
/// vector into non-decreasing length order; the length is unchanged and
/// every element of the result is an element of the input.
#[verifier::external_body]
fn sort_by_len(arrays: &mut Vec<Vec<u32>>)
    ensures
        final(arrays)@.len() == old(arrays)@.len(),
        forall|i: int, j: int|
            0 <= i <= j < final(arrays)@.len() ==> final(arrays)@[i]@.len()
                <= final(arrays)@[j]@.len(),
        forall|i: int|
            0 <= i < final(arrays)@.len() ==> exists|j: int|
                0 <= j < old(arrays)@.len() && #[trigger] final(arrays)@[i] == #[trigger] old(
                    arrays,
                )@[j],
{
    arrays.sort_unstable_by_key(Vec::len);
}

/// Largest accepted upper bound on generated array lengths: element `k` is
/// drawn from a window starting at `10 * k`, which must stay within `u32`.
pub const LEN_BOUND_CAP: u64 = 400_000_000;

/// Every element of a generated array lies in its widening window:
/// element `k` in `[10 * k, 10 * k + 10)`. The windows never overlap
/// backwards, so such an array is non-decreasing.
pub open spec fn in_windows(a: Seq<u32>) -> bool {
    forall|i: int| 0 <= i < a.len() ==> 10 * i <= #[trigger] a[i] < 10 * i + 10
}

/// Whether one generated array is acceptable benchmark input: non-decreasing,
/// windowed, and of a length the default generator may draw.
pub open spec fn array_ok(a: Seq<u32>) -> bool {
    &&& sorted(a)
    &&& in_windows(a)
    &&& MIN_ARRAY_LEN <= a.len() < MAX_ARRAY_LEN
}

/// Generates `count` arrays, each of a random length in `[min_len, max_len)`
/// with element `k` drawn from `[10 * k, 10 * k + 10)` — a monotonically
/// widening window, so every array is non-decreasing — and sorts the batch by
/// length ascending, giving the downstream chart a monotonic x-axis.
pub fn generate_arrays(count: usize, min_len: u64, max_len: u64) -> (r: Vec<Vec<u32>>)
    requires
        2 <= min_len < max_len <= LEN_BOUND_CAP,
        max_len <= usize::MAX,
    ensures
        r@.len() == count,
        forall|i: int|
            0 <= i < r@.len() ==> sorted(#[trigger] r@[i]@) && in_windows(r@[i]@) && min_len
                <= r@[i]@.len() < max_len,
        forall|i: int, j: int| 0 <= i <= j < r@.len() ==> r@[i]@.len() <= r@[j]@.len(),
{
    let mut num_arrays: Vec<Vec<u32>> = Vec::new();

    let mut made: usize = 0;
    while made < count
        invariant
            2 <= min_len < max_len <= LEN_BOUND_CAP,
            max_len <= usize::MAX,
            made <= count,
            num_arrays@.len() == made,
            forall|i: int|
                0 <= i < made ==> sorted(#[trigger] num_arrays@[i]@) && in_windows(
                    num_arrays@[i]@,
                ) && min_len <= num_arrays@[i]@.len() < max_len,
        decreases count - made,
    {
        let array_size = rand_u64_in(min_len, max_len) as usize;
        let mut num_array: Vec<u32> = Vec::new();

        let mut num_range: u32 = 0;
        let mut k: usize = 0;
        while k < array_size
            invariant
                k <= array_size,
                array_size < LEN_BOUND_CAP,
                num_array@.len() == k,
                num_range == 10 * k,
                forall|i: int|
                    0 <= i < k ==> 10 * i <= #[trigger] num_array@[i] < 10 * i + 10,
            decreases array_size - k,
        {
            let value = rand_u64_in(num_range as u64, num_range as u64 + 10) as u32;
            num_array.push(value);
            num_range += 10;
            k += 1;
        }

        assert forall|i: int, j: int|
            0 <= i <= j < num_array@.len() implies num_array@[i] <= num_array@[j] by {
            assert(num_array@[i] < 10 * i + 10);
            assert(10 * j <= num_array@[j]);
        }
        num_arrays.push(num_array);
        made += 1;
    }

    let ghost unsorted = num_arrays@;
    sort_by_len(&mut num_arrays);

    assert forall|i: int| 0 <= i < num_arrays@.len() implies sorted(#[trigger] num_arrays@[i]@)
        && in_windows(num_arrays@[i]@) && min_len <= num_arrays@[i]@.len() < max_len by {
        let j = choose|j: int| 0 <= j < unsorted.len() && num_arrays@[i] == unsorted[j];
        assert(sorted(unsorted[j]@) && in_windows(unsorted[j]@));
    }
    num_arrays
}

/// Generates the default benchmark batch: `BATCH_SIZE` arrays with lengths
/// in `[MIN_ARRAY_LEN, MAX_ARRAY_LEN)`, ordered by ascending length.
pub fn get_num_arrays() -> (r: Vec<Vec<u32>>)
    ensures
        r@.len() == BATCH_SIZE,
        forall|i: int| 0 <= i < r@.len() ==> array_ok(#[trigger] r@[i]@),
        forall|i: int, j: int| 0 <= i <= j < r@.len() ==> r@[i]@.len() <= r@[j]@.len(),
{
    generate_arrays(BATCH_SIZE, MIN_ARRAY_LEN, MAX_ARRAY_LEN)
}

/// Runs all three searches on every array of the batch, against one target
/// per array taken from the array itself, and collects the outcomes in three
/// index-aligned vectors. Because each array holds its target, every search
/// of the batch ends in a found outcome.
pub fn run_benchmarks(num_arrays: &Vec<Vec<u32>>) -> (r: SearchResults)
    requires
        forall|i: int|
            0 <= i < num_arrays@.len() ==> sorted(#[trigger] num_arrays@[i]@) && 2
                <= num_arrays@[i]@.len() <= MAX_SEQ_LEN,
    ensures
        r.binary_search_results@.len() == num_arrays@.len(),
        r.interp_search_results@.len() == num_arrays@.len(),
        r.interp_binary_search_results@.len() == num_arrays@.len(),
        forall|i: int|
            0 <= i < num_arrays@.len() ==> row_valid(
                #[trigger] num_arrays@[i]@,
                r.binary_search_results@[i],
                r.interp_search_results@[i],
                r.interp_binary_search_results@[i],
            ),
{
    let mut results = SearchResults {
        binary_search_results: Vec::new(),
        interp_search_results: Vec::new(),
        interp_binary_search_results: Vec::new(),
    };

    let mut idx: usize = 0;
    while idx < num_arrays.len()
        invariant
            forall|i: int|
                0 <= i < num_arrays@.len() ==> sorted(#[trigger] num_arrays@[i]@) && 2
                    <= num_arrays@[i]@.len() <= MAX_SEQ_LEN,
            idx <= num_arrays@.len(),
            results.binary_search_results@.len() == idx,
            results.interp_search_results@.len() == idx,
            results.interp_binary_search_results@.len() == idx,
            forall|i: int|
                0 <= i < idx ==> row_valid(
                    #[trigger] num_arrays@[i]@,
                    results.binary_search_results@[i],
                    results.interp_search_results@[i],
                    results.interp_binary_search_results@[i],
                ),
        decreases num_arrays@.len() - idx,
    {
        let num_array = &num_arrays[idx];
        let target_pos = rand_u64_in(0, (num_array.len() - 1) as u64) as usize;
        let target_num = num_array[target_pos];

        results.binary_search_results.push(binary_search(num_array, target_num));
        results.interp_search_results.push(interpolation_search(num_array, target_num));
        results.interp_binary_search_results.push(
            interpolated_binary_search(num_array, target_num),
        );

        assert(row_valid(
            num_arrays@[idx as int]@,
            results.binary_search_results@[idx as int],
            results.interp_search_results@[idx as int],
            results.interp_binary_search_results@[idx as int],
        )) by {
            assert(0 <= target_pos < num_arrays@[idx as int]@.len() - 1
                && num_arrays@[idx as int]@[target_pos as int] == target_num);
        }
        idx += 1;
    }

    results
}

} // verus!
