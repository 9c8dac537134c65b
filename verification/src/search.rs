//! The instrumented search engine: binary search, interpolation search, and
//! a hybrid interpolated binary search, each counting the value comparisons
//! it performs.
//!
//! Every search is a pure function of a non-decreasing sequence and a target.
//! Its whole outcome — the index (or absence), the comparison count, and the
//! recorded length — equals a mathematical model of the algorithm, so two
//! calls on identical inputs yield identical outcomes.

use vstd::prelude::*;
use vstd::arithmetic::div_mod::{lemma_div_is_ordered, lemma_div_multiples_vanish, lemma_div_pos_is_pos};
use vstd::arithmetic::mul::{lemma_mul_inequality, lemma_mul_nonnegative, lemma_mul_upper_bound};

verus! {

/// Greatest sequence length the searches accept. A `Vec<u32>` longer than
/// this cannot exist: an allocation holds at most `isize::MAX` bytes, and
/// each element takes four. The bound keeps every comparison count below
/// `u64::MAX`.
pub const MAX_SEQ_LEN: u64 = 0x2000_0000_0000_0000;

/// The outcome of one search invocation, immutable after creation.
#[derive(Clone, Copy, Debug, PartialEq, Eq)]
pub struct SearchResult {
    /// The position of an element equal to the target, or `None` when the
    /// target does not occur in the sequence.
    pub target_index: Option<usize>,
    /// How many value comparisons the search performed; at least 1 even for
    /// an empty sequence, whose emptiness check itself counts as one.
    pub comparison_count: u64,
    /// The length of the searched sequence, captured for later correlation
    /// of comparison count with input size.
    pub array_length: usize,
}

/// A sequence is non-decreasing: duplicates are permitted.
pub open spec fn sorted(s: Seq<u32>) -> bool {
    forall|i: int, j: int| 0 <= i <= j < s.len() ==> s[i] <= s[j]
}

/// An executable outcome agrees with a model outcome: same index (or the
/// absence of one) and same comparison count.
pub open spec fn result_matches(r: SearchResult, m: (Option<int>, int)) -> bool {
    &&& r.comparison_count == m.1
    &&& match (r.target_index, m.0) {
        (Option::Some(i), Option::Some(j)) => i == j,
        (Option::None, Option::None) => true,
        _ => false,
    }
}

/// Model of binary search on the closed index range `[lo, hi]`: the found
/// index paired with the comparisons charged from the first range-validity
/// check onward. Each iteration charges one comparison for range validity,
/// one for the equality test, and one more for the direction test; the
/// failed validity check that ends the search charges one.
pub open spec fn bin_result(s: Seq<u32>, t: u32, lo: int, hi: int) -> (Option<int>, int)
    decreases hi + 1 - lo,
{
    if lo > hi {
        (Option::<int>::None, 1)
    } else {
        let mid = lo + (hi - lo) / 2;
        if s[mid] == t {
            (Option::Some(mid), 2)
        } else if s[mid] < t {
            let rest = bin_result(s, t, mid + 1, hi);
            (rest.0, 3 + rest.1)
        } else {
            let rest = bin_result(s, t, lo, mid - 1);
            (rest.0, 3 + rest.1)
        }
    }
}

/// Model of the whole binary search: the emptiness check charges one
/// comparison, then the range `[0, len - 1]` is searched.
pub open spec fn binary_search_spec(s: Seq<u32>, t: u32) -> (Option<int>, int) {
    if s.len() == 0 {
        (Option::<int>::None, 1)
    } else {
        let r = bin_result(s, t, 0, s.len() - 1);
        (r.0, 1 + r.1)
    }
}

/// The comparisons charged by the binary-search model are at least 1 and at
/// most linear in the width of the range.
proof fn lemma_bin_count_bound(s: Seq<u32>, t: u32, lo: int, hi: int)
    ensures
        1 <= bin_result(s, t, lo, hi).1,
        lo > hi ==> bin_result(s, t, lo, hi).1 == 1,
        lo <= hi ==> bin_result(s, t, lo, hi).1 <= 3 * (hi + 1 - lo) + 1,
    decreases hi + 1 - lo,
{
    if lo <= hi {
        let mid = lo + (hi - lo) / 2;
        if s[mid] == t {
        } else if s[mid] < t {
            lemma_bin_count_bound(s, t, mid + 1, hi);
        } else {
            lemma_bin_count_bound(s, t, lo, mid - 1);
        }
    }
}

/// Law: `binary_search` is idempotent. Its contract pins every field of the
/// outcome to `binary_search_spec`, a function of the inputs alone, so any
/// two outcomes it admits for identical inputs are identical.
pub proof fn lemma_binary_search_idempotent(s: Seq<u32>, t: u32, r1: SearchResult, r2: SearchResult)
    requires
        result_matches(r1, binary_search_spec(s, t)),
        result_matches(r2, binary_search_spec(s, t)),
        r1.array_length == s.len(),
        r2.array_length == s.len(),
    ensures
        r1 == r2,
{
}

/// Law: `interpolation_search` is idempotent, for the same reason as
/// `binary_search`.
pub proof fn lemma_interpolation_search_idempotent(
    s: Seq<u32>,
    t: u32,
    r1: SearchResult,
    r2: SearchResult,
)
    requires
        result_matches(r1, interpolation_search_spec(s, t)),
        result_matches(r2, interpolation_search_spec(s, t)),
        r1.array_length == s.len(),
        r2.array_length == s.len(),
    ensures
        r1 == r2,
{
}

/// Law: `interpolated_binary_search` is idempotent, for the same reason as
/// `binary_search`.
pub proof fn lemma_interpolated_binary_search_idempotent(
    s: Seq<u32>,
    t: u32,
    r1: SearchResult,
    r2: SearchResult,
)
    requires
        result_matches(r1, interpolated_binary_search_spec(s, t)),
        result_matches(r2, interpolated_binary_search_spec(s, t)),
        r1.array_length == s.len(),
        r2.array_length == s.len(),
    ensures
        r1 == r2,
{
}

/// The interpolation probe for range `[lo, hi]`: a position proportional to
/// where the target should fall between the boundary values.
pub open spec fn interp_probe(s: Seq<u32>, t: u32, lo: int, hi: int) -> int {
    lo + (t - s[lo]) * (hi - lo) / (s[hi] - s[lo])
}

/// A quotient `x * w / d` with `0 <= x <= d` and `0 <= w` stays within
/// `[0, w]`: the interpolation probe cannot leave the current range.
proof fn lemma_probe_offset_in_range(x: int, w: int, d: int)
    requires
        0 <= x <= d,
        0 < d,
        0 <= w,
    ensures
        0 <= x * w / d <= w,
{
    lemma_mul_nonnegative(x, w);
    lemma_div_pos_is_pos(x * w, d);
    lemma_mul_inequality(x, d, w);
    lemma_div_is_ordered(x * w, d * w, d);
    lemma_div_multiples_vanish(w, d);
}

/// Model of interpolation search on the closed range `[lo, hi]`. The loop
/// guard charges three comparisons (boundary inequality and the two bounds
/// on the target), the probe equality test one, and the direction test one
/// more; the final boundary check after the guard fails charges four. The
/// first branch also ends the search on arguments no run ever reaches (a
/// range that is not a well-formed part of the sequence), so the model is
/// total.
pub open spec fn interp_result(s: Seq<u32>, t: u32, lo: int, hi: int) -> (Option<int>, int)
    decreases hi + 1 - lo,
{
    if lo < 0 || hi < lo || hi >= s.len() || s[hi] == s[lo] || t < s[lo] || t > s[hi] {
        if 0 <= lo < s.len() && s[lo] == t {
            (Option::Some(lo), 4)
        } else {
            (Option::<int>::None, 4)
        }
    } else {
        let probe = interp_probe(s, t, lo, hi);
        if !(lo <= probe <= hi) {
            (Option::<int>::None, 4)
        } else if s[probe] == t {
            (Option::Some(probe), 4)
        } else if t < s[probe] {
            let rest = interp_result(s, t, lo, probe - 1);
            (rest.0, 5 + rest.1)
        } else {
            let rest = interp_result(s, t, probe + 1, hi);
            (rest.0, 5 + rest.1)
        }
    }
}

/// Model of the whole interpolation search: the emptiness check charges one
/// comparison, then the range `[0, len - 1]` is searched.
pub open spec fn interpolation_search_spec(s: Seq<u32>, t: u32) -> (Option<int>, int) {
    if s.len() == 0 {
        (Option::<int>::None, 1)
    } else {
        let r = interp_result(s, t, 0, s.len() - 1);
        (r.0, 1 + r.1)
    }
}

/// The comparisons charged by the interpolation-search model are at least 4
/// and at most linear in the width of the range.
proof fn lemma_interp_count_bound(s: Seq<u32>, t: u32, lo: int, hi: int)
    ensures
        4 <= interp_result(s, t, lo, hi).1,
        lo > hi ==> interp_result(s, t, lo, hi).1 == 4,
        lo <= hi ==> interp_result(s, t, lo, hi).1 <= 5 * (hi + 1 - lo) + 4,
    decreases hi + 1 - lo,
{
    if !(lo < 0 || hi < lo || hi >= s.len() || s[hi] == s[lo] || t < s[lo] || t > s[hi]) {
        let probe = interp_probe(s, t, lo, hi);
        if lo <= probe <= hi && s[probe] != t {
            if t < s[probe] {
                lemma_interp_count_bound(s, t, lo, probe - 1);
            } else {
                lemma_interp_count_bound(s, t, probe + 1, hi);
            }
        }
    }
}

/// Model of the hybrid interpolated binary search on the closed range
/// `[lo, hi]`. One comparison is charged for the loop guard, one for the
/// three-way probe test, one for the midpoint test, and one as per-iteration
/// overhead; the final boundary check after the guard fails charges two.
/// As in the interpolation model, the first branch also ends the search on
/// arguments no run ever reaches, so the model is total.
pub open spec fn hybrid_result(s: Seq<u32>, t: u32, lo: int, hi: int) -> (Option<int>, int)
    decreases hi - lo,
{
    if lo < 0 || hi <= lo || hi >= s.len() || s[hi] == s[lo] || t < s[lo] || t > s[hi] {
        if 0 <= lo < s.len() && s[lo] == t {
            (Option::Some(lo), 2)
        } else {
            (Option::<int>::None, 2)
        }
    } else {
        let probe = interp_probe(s, t, lo, hi);
        if !(lo <= probe <= hi) {
            (Option::<int>::None, 2)
        } else if t > s[probe] {
            let mid = probe + (hi - probe) / 2;
            if t <= s[mid] {
                let rest = hybrid_result(s, t, probe + 1, mid);
                (rest.0, 4 + rest.1)
            } else {
                let rest = hybrid_result(s, t, mid + 1, hi);
                (rest.0, 4 + rest.1)
            }
        } else if t < s[probe] {
            let mid = lo + (probe - lo) / 2;
            if t >= s[mid] {
                let rest = hybrid_result(s, t, mid, probe - 1);
                (rest.0, 4 + rest.1)
            } else {
                let rest = hybrid_result(s, t, lo, mid - 1);
                (rest.0, 4 + rest.1)
            }
        } else {
            (Option::Some(probe), 2)
        }
    }
}

/// Model of the whole hybrid search: the emptiness check charges one
/// comparison, then the range `[0, len - 1]` is searched.
pub open spec fn interpolated_binary_search_spec(s: Seq<u32>, t: u32) -> (Option<int>, int) {
    if s.len() == 0 {
        (Option::<int>::None, 1)
    } else {
        let r = hybrid_result(s, t, 0, s.len() - 1);
        (r.0, 1 + r.1)
    }
}

/// The comparisons charged by the hybrid-search model are at least 2 and at
/// most linear in the width of the range.
proof fn lemma_hybrid_count_bound(s: Seq<u32>, t: u32, lo: int, hi: int)
    ensures
        2 <= hybrid_result(s, t, lo, hi).1,
        lo >= hi ==> hybrid_result(s, t, lo, hi).1 == 2,
        lo < hi ==> hybrid_result(s, t, lo, hi).1 <= 4 * (hi - lo) + 2,
    decreases hi - lo,
{
    if !(lo < 0 || hi <= lo || hi >= s.len() || s[hi] == s[lo] || t < s[lo] || t > s[hi]) {
        let probe = interp_probe(s, t, lo, hi);
        if lo <= probe <= hi {
            if t > s[probe] {
                let mid = probe + (hi - probe) / 2;
                if t <= s[mid] {
                    lemma_hybrid_count_bound(s, t, probe + 1, mid);
                } else {
                    lemma_hybrid_count_bound(s, t, mid + 1, hi);
                }
            } else if t < s[probe] {
                let mid = lo + (probe - lo) / 2;
                if t >= s[mid] {
                    lemma_hybrid_count_bound(s, t, mid, probe - 1);
                } else {
                    lemma_hybrid_count_bound(s, t, lo, mid - 1);
                }
            }
        }
    }
}

/// Classic binary search over a non-decreasing sequence, counting value
/// comparisons. Returns the position of some element equal to `target_num`
/// (with duplicates, any matching position), or `None` exactly when the
/// target occurs nowhere in the sequence.
pub fn binary_search(num_array: &Vec<u32>, target_num: u32) -> (r: SearchResult)
    requires
        sorted(num_array@),
        num_array@.len() <= MAX_SEQ_LEN,
    ensures
        r.array_length == num_array@.len(),
        r.comparison_count >= 1,
        num_array@.len() == 0 ==> r.target_index is None && r.comparison_count == 1,
        r.target_index matches Some(i) ==> i < num_array@.len() && num_array@[i as int]
            == target_num,
        (r.target_index is None) <==> (forall|i: int|
            0 <= i < num_array@.len() ==> num_array@[i] != target_num),
        num_array@.len() > 0 && (target_num < num_array@[0] || target_num > num_array@[
            num_array@.len() - 1]) ==> r.target_index is None,
        result_matches(r, binary_search_spec(num_array@, target_num)),
{
    if num_array.len() == 0 {
        return SearchResult {
            target_index: None,
            comparison_count: 1,
            array_length: num_array.len(),
        };
    }

    let ghost s = num_array@;
    let ghost full = bin_result(s, target_num, 0, s.len() - 1);
    proof {
        lemma_bin_count_bound(s, target_num, 0, s.len() - 1);
    }

    let mut start_index: usize = 0;
    let mut end_index: usize = num_array.len() - 1;
    let mut comparison_count: u64 = 1;

    while start_index <= end_index
        invariant
            sorted(s),
            s == num_array@,
            0 < s.len() <= MAX_SEQ_LEN,
            s.len() <= usize::MAX,
            end_index < s.len(),
            start_index <= end_index + 1,
            forall|i: int| 0 <= i < start_index ==> s[i] != target_num,
            forall|i: int| end_index < i < s.len() ==> s[i] != target_num,
            full == bin_result(s, target_num, 0, s.len() - 1),
            full.1 <= 3 * s.len() + 1,
            full.0 == bin_result(s, target_num, start_index as int, end_index as int).0,
            comparison_count + bin_result(s, target_num, start_index as int, end_index as int).1
                == 1 + full.1,
            1 <= bin_result(s, target_num, start_index as int, end_index as int).1,
        decreases end_index + 1 - start_index,
    {
        comparison_count += 1;
        let search_index = start_index + (end_index - start_index) / 2;
        assert(start_index <= search_index <= end_index);

        comparison_count += 1;
        if num_array[search_index] == target_num {
            return SearchResult {
                target_index: Some(search_index),
                comparison_count,
                array_length: num_array.len(),
            };
        }

        comparison_count += 1;
        if num_array[search_index] < target_num {
            start_index = search_index + 1;
        } else {
            if search_index == 0 {
                // The range below the probe is empty: ending here avoids the
                // index underflow of an unchecked `search_index - 1`, and the
                // failed validity check of the now-empty range charges one.
                proof {
                    assert(bin_result(s, target_num, 0, -1) == (Option::<int>::None, 1int));
                }
                comparison_count += 1;
                return SearchResult {
                    target_index: None,
                    comparison_count,
                    array_length: num_array.len(),
                };
            }
            end_index = search_index - 1;
        }
        proof {
            lemma_bin_count_bound(s, target_num, start_index as int, end_index as int);
        }
    }

    comparison_count += 1;
    SearchResult { target_index: None, comparison_count, array_length: num_array.len() }
}

/// Interpolation search over a non-decreasing sequence, counting value
/// comparisons. It probes a position proportional to where the target should
/// fall between the boundary values, so the guard must rule out a degenerate
/// range (equal boundary values) before the division. Returns the position
/// of some element equal to `target_num`, or `None` exactly when the target
/// occurs nowhere in the sequence.
pub fn interpolation_search(num_array: &Vec<u32>, target_num: u32) -> (r: SearchResult)
    requires
        sorted(num_array@),
        num_array@.len() <= MAX_SEQ_LEN,
    ensures
        r.array_length == num_array@.len(),
        r.comparison_count >= 1,
        num_array@.len() == 0 ==> r.target_index is None && r.comparison_count == 1,
        r.target_index matches Some(i) ==> i < num_array@.len() && num_array@[i as int]
            == target_num,
        (r.target_index is None) <==> (forall|i: int|
            0 <= i < num_array@.len() ==> num_array@[i] != target_num),
        num_array@.len() > 0 && (target_num < num_array@[0] || target_num > num_array@[
            num_array@.len() - 1]) ==> r.target_index is None,
        num_array@.len() > 0 && (forall|i: int|
            0 <= i < num_array@.len() ==> num_array@[i] == target_num) ==> r.target_index
            is Some,
        result_matches(r, interpolation_search_spec(num_array@, target_num)),
{
    if num_array.len() == 0 {
        return SearchResult {
            target_index: None,
            comparison_count: 1,
            array_length: num_array.len(),
        };
    }

    let ghost s = num_array@;
    let ghost full = interp_result(s, target_num, 0, s.len() - 1);
    proof {
        lemma_interp_count_bound(s, target_num, 0, s.len() - 1);
    }

    let mut start_index: usize = 0;
    let mut end_index: usize = num_array.len() - 1;
    let mut comparison_count: u64 = 1;

    while num_array[end_index] != num_array[start_index] && target_num >= num_array[start_index]
        && target_num <= num_array[end_index]
        invariant
            sorted(s),
            s == num_array@,
            0 < s.len() <= MAX_SEQ_LEN,
            s.len() <= usize::MAX,
            start_index <= end_index < s.len(),
            forall|i: int| 0 <= i < start_index ==> s[i] != target_num,
            forall|i: int| end_index < i < s.len() ==> s[i] != target_num,
            full == interp_result(s, target_num, 0, s.len() - 1),
            full.1 <= 5 * s.len() + 4,
            full.0 == interp_result(s, target_num, start_index as int, end_index as int).0,
            comparison_count + interp_result(
                s,
                target_num,
                start_index as int,
                end_index as int,
            ).1 == 1 + full.1,
            4 <= interp_result(s, target_num, start_index as int, end_index as int).1,
        decreases end_index - start_index,
    {
        let low_value = num_array[start_index];
        let high_value = num_array[end_index];
        comparison_count += 3;

        // The guard gives `low_value <= target_num <= high_value` and
        // `low_value != high_value`, so the divisor is positive and the
        // probe offset stays within the range width.
        proof {
            lemma_mul_upper_bound(
                (target_num - low_value) as int,
                u32::MAX as int,
                (end_index - start_index) as int,
                MAX_SEQ_LEN as int,
            );
        }
        let numerator = ((target_num - low_value) as u128) * ((end_index - start_index) as u128);
        let offset = numerator / ((high_value - low_value) as u128);
        proof {
            lemma_probe_offset_in_range(
                (target_num - low_value) as int,
                (end_index - start_index) as int,
                (high_value - low_value) as int,
            );
        }
        let interp_index = start_index + (offset as usize);
        assert(start_index <= interp_index <= end_index);
        assert(interp_index as int == interp_probe(s, target_num, start_index as int,
            end_index as int));

        comparison_count += 1;
        if target_num == num_array[interp_index] {
            return SearchResult {
                target_index: Some(interp_index),
                comparison_count,
                array_length: num_array.len(),
            };
        }

        comparison_count += 1;
        if target_num < num_array[interp_index] {
            // `target_num >= low_value` rules out `interp_index == start_index`
            // here, so the decrement cannot underflow.
            assert(interp_index > start_index);
            end_index = interp_index - 1;
        } else {
            assert(interp_index < end_index);
            start_index = interp_index + 1;
        }
        proof {
            lemma_interp_count_bound(s, target_num, start_index as int, end_index as int);
        }
    }

    comparison_count += 4;
    if target_num == num_array[start_index] {
        return SearchResult {
            target_index: Some(start_index),
            comparison_count,
            array_length: num_array.len(),
        };
    }

    SearchResult { target_index: None, comparison_count, array_length: num_array.len() }
}

/// Hybrid interpolated binary search over a non-decreasing sequence,
/// counting value comparisons. Each iteration takes an interpolation probe
/// and then bisects between the probe and the boundary it moved, bounding
/// worst-case narrowing closer to binary search. The guard applies the same
/// degenerate-range check as interpolation search (equal boundary values
/// fall back to a direct boundary comparison), so the division is safe even
/// when a sub-range holds only equal elements. Returns the position of some
/// element equal to `target_num`, or `None` exactly when the target occurs
/// nowhere in the sequence.
pub fn interpolated_binary_search(num_array: &Vec<u32>, target_num: u32) -> (r: SearchResult)
    requires
        sorted(num_array@),
        num_array@.len() <= MAX_SEQ_LEN,
    ensures
        r.array_length == num_array@.len(),
        r.comparison_count >= 1,
        num_array@.len() == 0 ==> r.target_index is None && r.comparison_count == 1,
        r.target_index matches Some(i) ==> i < num_array@.len() && num_array@[i as int]
            == target_num,
        (r.target_index is None) <==> (forall|i: int|
            0 <= i < num_array@.len() ==> num_array@[i] != target_num),
        num_array@.len() > 0 && (target_num < num_array@[0] || target_num > num_array@[
            num_array@.len() - 1]) ==> r.target_index is None,
        num_array@.len() > 0 && (forall|i: int|
            0 <= i < num_array@.len() ==> num_array@[i] == target_num) ==> r.target_index
            is Some,
        result_matches(r, interpolated_binary_search_spec(num_array@, target_num)),
{
    if num_array.len() == 0 {
        return SearchResult {
            target_index: None,
            comparison_count: 1,
            array_length: num_array.len(),
        };
    }

    let ghost s = num_array@;
    let ghost full = hybrid_result(s, target_num, 0, s.len() - 1);
    proof {
        lemma_hybrid_count_bound(s, target_num, 0, s.len() - 1);
    }

    let mut start_index: usize = 0;
    let mut end_index: usize = num_array.len() - 1;
    let mut comparison_count: u64 = 1;

    while start_index < end_index && num_array[end_index] != num_array[start_index] && target_num
        >= num_array[start_index] && target_num <= num_array[end_index]
        invariant
            sorted(s),
            s == num_array@,
            0 < s.len() <= MAX_SEQ_LEN,
            s.len() <= usize::MAX,
            start_index <= end_index < s.len(),
            (exists|i: int| 0 <= i < s.len() && s[i] == target_num) ==> (exists|i: int|
                start_index <= i <= end_index && s[i] == target_num),
            full == hybrid_result(s, target_num, 0, s.len() - 1),
            full.1 <= 4 * s.len() + 2,
            full.0 == hybrid_result(s, target_num, start_index as int, end_index as int).0,
            comparison_count + hybrid_result(
                s,
                target_num,
                start_index as int,
                end_index as int,
            ).1 == 1 + full.1,
            2 <= hybrid_result(s, target_num, start_index as int, end_index as int).1,
        decreases end_index - start_index,
    {
        let ghost old_start = start_index as int;
        let ghost old_end = end_index as int;
        let low_value = num_array[start_index];
        let high_value = num_array[end_index];
        comparison_count += 1;

        proof {
            lemma_mul_upper_bound(
                (target_num - low_value) as int,
                u32::MAX as int,
                (end_index - start_index) as int,
                MAX_SEQ_LEN as int,
            );
        }
        let numerator = ((target_num - low_value) as u128) * ((end_index - start_index) as u128);
        let offset = numerator / ((high_value - low_value) as u128);
        proof {
            lemma_probe_offset_in_range(
                (target_num - low_value) as int,
                (end_index - start_index) as int,
                (high_value - low_value) as int,
            );
        }
        let interp_index = start_index + (offset as usize);
        assert(start_index <= interp_index <= end_index);
        assert(interp_index as int == interp_probe(s, target_num, start_index as int,
            end_index as int));
        let ghost probe = interp_index as int;

        comparison_count += 1;
        if target_num > num_array[interp_index] {
            let mid_index = interp_index + (end_index - interp_index) / 2;
            let ghost mid = mid_index as int;

            comparison_count += 1;
            if target_num <= num_array[mid_index] {
                start_index = interp_index + 1;
                end_index = mid_index;
                proof {
                    if exists|i: int| 0 <= i < s.len() && s[i] == target_num {
                        let w = choose|i: int| old_start <= i <= old_end && s[i] == target_num;
                        if w <= probe {
                            assert(s[w] <= s[probe]);
                            assert(false);
                        } else if w > mid {
                            assert(s[mid] <= s[w]);
                            assert(start_index <= mid <= end_index && s[mid] == target_num);
                        }
                        assert(exists|i: int|
                            start_index <= i <= end_index && s[i] == target_num);
                    }
                }
            } else {
                start_index = mid_index + 1;
                proof {
                    if exists|i: int| 0 <= i < s.len() && s[i] == target_num {
                        let w = choose|i: int| old_start <= i <= old_end && s[i] == target_num;
                        if w <= mid {
                            assert(s[w] <= s[mid]);
                            assert(false);
                        }
                        assert(exists|i: int|
                            start_index <= i <= end_index && s[i] == target_num);
                    }
                }
            }
        } else if target_num < num_array[interp_index] {
            let mid_index = start_index + (interp_index - start_index) / 2;
            let ghost mid = mid_index as int;

            comparison_count += 1;
            if target_num >= num_array[mid_index] {
                start_index = mid_index;
                end_index = interp_index - 1;
                proof {
                    if exists|i: int| 0 <= i < s.len() && s[i] == target_num {
                        let w = choose|i: int| old_start <= i <= old_end && s[i] == target_num;
                        if w >= probe {
                            assert(s[probe] <= s[w]);
                            assert(false);
                        } else if w < mid {
                            assert(s[w] <= s[mid]);
                            assert(start_index <= mid <= end_index && s[mid] == target_num);
                        }
                        assert(exists|i: int|
                            start_index <= i <= end_index && s[i] == target_num);
                    }
                }
            } else {
                end_index = mid_index - 1;
                proof {
                    if exists|i: int| 0 <= i < s.len() && s[i] == target_num {
                        let w = choose|i: int| old_start <= i <= old_end && s[i] == target_num;
                        if w >= mid {
                            assert(s[mid] <= s[w]);
                            assert(false);
                        }
                        assert(exists|i: int|
                            start_index <= i <= end_index && s[i] == target_num);
                    }
                }
            }
        } else {
            return SearchResult {
                target_index: Some(interp_index),
                comparison_count,
                array_length: num_array.len(),
            };
        }
        comparison_count += 1;
        proof {
            lemma_hybrid_count_bound(s, target_num, start_index as int, end_index as int);
        }
    }

    comparison_count += 2;
    if target_num == num_array[start_index] {
        return SearchResult {
            target_index: Some(start_index),
            comparison_count,
            array_length: num_array.len(),
        };
    }

    proof {
        if exists|i: int| 0 <= i < s.len() && s[i] == target_num {
            let w = choose|i: int| start_index <= i <= end_index && s[i] == target_num;
            assert(s[start_index as int] <= s[w] && s[w] <= s[end_index as int]);
            assert(false);
        }
    }
    SearchResult { target_index: None, comparison_count, array_length: num_array.len() }
}

} // verus!
