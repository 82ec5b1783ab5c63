//! Peak index calculation.
//!
//! The positions of the peaks of an MMR are a pure function of its total
//! element count: the count is split greedily into a falling sequence of
//! mountains of `2^k - 1` elements, and each mountain's peak sits at the
//! cumulative offset plus the mountain size. A count that cannot be split
//! this way is not the size of any MMR and yields no peaks.

use vstd::arithmetic::power2::{
    lemma2_to64, lemma2_to64_rest, lemma_pow2_pos, lemma_pow2_strictly_increases, pow2,
};
use vstd::prelude::*;

verus! {

/// Number of binary digits of `n` (0 for `n == 0`).
pub open spec fn spec_bit_length(n: nat) -> nat
    decreases n,
{
    if n == 0 {
        0
    } else {
        1 + spec_bit_length(n / 2)
    }
}

/// Size of the largest mountain that may appear for a count of `n`:
/// the all-ones number `2^bit_length(n) - 1`, the least such number `>= n`.
pub open spec fn spec_mountain_size(n: nat) -> nat {
    (pow2(spec_bit_length(n)) - 1) as nat
}

/// Peak positions gathered by the greedy walk: starting from mountain size
/// `m` and offset `shift`, take every mountain that still fits into
/// `remaining`, halving the mountain size after each attempt.
pub open spec fn peaks_from(m: nat, remaining: nat, shift: int) -> Seq<int>
    decreases m,
{
    if m == 0 {
        Seq::empty()
    } else if m <= remaining {
        seq![shift + m] + peaks_from(m / 2, (remaining - m) as nat, shift + m)
    } else {
        peaks_from(m / 2, remaining, shift)
    }
}

/// What the greedy walk fails to consume of `remaining`.
pub open spec fn peaks_leftover(m: nat, remaining: nat) -> nat
    decreases m,
{
    if m == 0 {
        remaining
    } else if m <= remaining {
        peaks_leftover(m / 2, (remaining - m) as nat)
    } else {
        peaks_leftover(m / 2, remaining)
    }
}

/// The peak positions of an MMR with `n` elements, tallest mountain first.
/// A count that the greedy walk cannot consume completely is not a valid
/// MMR size and yields the empty sequence.
pub open spec fn spec_find_peaks(n: nat) -> Seq<int> {
    if peaks_leftover(spec_mountain_size(n), n) == 0 {
        peaks_from(spec_mountain_size(n), n, 0)
    } else {
        Seq::empty()
    }
}

/// Number of trailing one-bits of `n`: how many merges appending one more
/// leaf to an MMR with `n` leaves triggers.
pub open spec fn no_merges_of(n: nat) -> nat
    decreases n,
{
    if n % 2 == 1 {
        1 + no_merges_of(n / 2)
    } else {
        0
    }
}

/// Number of one-bits of `n`: how many peaks an MMR with `n` leaves has.
pub open spec fn count_ones(n: nat) -> nat
    decreases n,
{
    if n == 0 {
        0
    } else {
        n % 2 + count_ones(n / 2)
    }
}

/// A number has at least as many as its one-bits.
pub proof fn lemma_count_ones_le(n: nat)
    ensures
        count_ones(n) <= n,
    decreases n,
{
    if n > 0 {
        lemma_count_ones_le(n / 2);
    }
}

/// Incrementing a number turns its trailing one-bits into zeros and one
/// zero into a one, so the one-bit count changes by one minus the number
/// of trailing ones.
pub proof fn lemma_count_ones_increment(n: nat)
    ensures
        count_ones(n + 1) + no_merges_of(n) == count_ones(n) + 1,
    decreases n,
{
    if n % 2 == 0 {
        assert((n + 1) / 2 == n / 2);
    } else {
        lemma_count_ones_increment(n / 2);
        assert((n + 1) / 2 == n / 2 + 1);
    }
}

proof fn lemma_bit_length_le_self(n: nat)
    ensures
        spec_bit_length(n) <= n,
    decreases n,
{
    if n > 0 {
        lemma_bit_length_le_self(n / 2);
    }
}

proof fn lemma_bit_length_bound(n: nat, k: nat)
    requires
        n < pow2(k),
    ensures
        spec_bit_length(n) <= k,
    decreases n,
{
    if n > 0 {
        lemma_pow2_pos(k);
        if k == 0 {
            assert(pow2(0) == 1) by {
                lemma2_to64();
            }
        }
        assert(k >= 1);
        assert(pow2(k) == 2 * pow2((k - 1) as nat)) by {
            vstd::arithmetic::power2::lemma_pow2_unfold(k);
        }
        lemma_bit_length_bound(n / 2, (k - 1) as nat);
    }
}

/// The number of merges an append triggers never exceeds the bit length
/// of the leaf count.
proof fn lemma_no_merges_le_bit_length(n: nat)
    ensures
        no_merges_of(n) <= spec_bit_length(n),
    decreases n,
{
    if n > 0 {
        lemma_no_merges_le_bit_length(n / 2);
    }
}

/// For a leaf count that fits in a machine word the merge count is at
/// most 64.
pub proof fn lemma_no_merges_bound(n: nat)
    requires
        n <= u64::MAX,
    ensures
        no_merges_of(n) <= 64,
{
    lemma_no_merges_le_bit_length(n);
    assert(n < pow2(64)) by {
        lemma2_to64_rest();
    }
    lemma_bit_length_bound(n, 64);
}

proof fn lemma_peaks_from_bounds(m: nat, remaining: nat, shift: int)
    ensures
        forall|i: int|
            0 <= i < peaks_from(m, remaining, shift).len() ==> shift < #[trigger] peaks_from(
                m,
                remaining,
                shift,
            )[i] <= shift + remaining,
    decreases m,
{
    if m == 0 {
    } else if m <= remaining {
        lemma_peaks_from_bounds(m / 2, (remaining - m) as nat, shift + m);
        let s = peaks_from(m, remaining, shift);
        let rest = peaks_from(m / 2, (remaining - m) as nat, shift + m);
        assert forall|i: int| 0 <= i < s.len() implies shift < #[trigger] s[i] <= shift + remaining by {
            if i == 0 {
                assert(s[i] == shift + m);
            } else {
                assert(s[i] == rest[i - 1]);
            }
        }
    } else {
        lemma_peaks_from_bounds(m / 2, remaining, shift);
        let s = peaks_from(m, remaining, shift);
        let rest = peaks_from(m / 2, remaining, shift);
        assert forall|i: int| 0 <= i < s.len() implies shift < #[trigger] s[i] <= shift + remaining by {
            assert(s[i] == rest[i]);
        }
    }
}

proof fn lemma_peaks_from_increasing(m: nat, remaining: nat, shift: int)
    ensures
        forall|i: int, j: int|
            0 <= i < j < peaks_from(m, remaining, shift).len() ==> #[trigger] peaks_from(
                m,
                remaining,
                shift,
            )[i] < #[trigger] peaks_from(m, remaining, shift)[j],
    decreases m,
{
    if m == 0 {
    } else if m <= remaining {
        lemma_peaks_from_increasing(m / 2, (remaining - m) as nat, shift + m);
        lemma_peaks_from_bounds(m / 2, (remaining - m) as nat, shift + m);
        let s = peaks_from(m, remaining, shift);
        let rest = peaks_from(m / 2, (remaining - m) as nat, shift + m);
        assert forall|i: int, j: int| 0 <= i < j < s.len() implies #[trigger] s[i] < #[trigger] s[j] by {
            assert(s[j] == rest[j - 1]);
            if i == 0 {
                assert(s[i] == shift + m);
            } else {
                assert(s[i] == rest[i - 1]);
            }
        }
    } else {
        lemma_peaks_from_increasing(m / 2, remaining, shift);
        let s = peaks_from(m, remaining, shift);
        let rest = peaks_from(m / 2, remaining, shift);
        assert forall|i: int, j: int| 0 <= i < j < s.len() implies #[trigger] s[i] < #[trigger] s[j] by {
            assert(s[i] == rest[i]);
            assert(s[j] == rest[j]);
        }
    }
}

proof fn lemma_peaks_from_empty(m: nat, remaining: nat, shift: int)
    requires
        peaks_from(m, remaining, shift).len() == 0,
    ensures
        peaks_leftover(m, remaining) == remaining,
    decreases m,
{
    if m == 0 {
    } else if m <= remaining {
        assert(peaks_from(m, remaining, shift).len() > 0);
    } else {
        lemma_peaks_from_empty(m / 2, remaining, shift);
    }
}

proof fn lemma_peaks_from_last(m: nat, remaining: nat, shift: int)
    requires
        peaks_from(m, remaining, shift).len() > 0,
    ensures
        peaks_leftover(m, remaining) <= remaining,
        peaks_from(m, remaining, shift).last() == shift + remaining - peaks_leftover(m, remaining),
    decreases m,
{
    if m == 0 {
    } else if m <= remaining {
        let rest = peaks_from(m / 2, (remaining - m) as nat, shift + m);
        if rest.len() == 0 {
            lemma_peaks_from_empty(m / 2, (remaining - m) as nat, shift + m);
            assert(peaks_from(m, remaining, shift).last() == shift + m);
        } else {
            lemma_peaks_from_last(m / 2, (remaining - m) as nat, shift + m);
            assert(peaks_from(m, remaining, shift).last() == rest.last());
        }
    } else {
        lemma_peaks_from_last(m / 2, remaining, shift);
    }
}

/// The peak positions of any count `n` are strictly increasing and lie in
/// `(0, n]`; when `n` admits a mountain decomposition the final position
/// is exactly `n`, so the mountain sizes consumed sum to `n`; and the
/// empty MMR has no peaks.
pub proof fn lemma_find_peaks_decomposition(n: nat)
    ensures
        forall|i: int, j: int|
            0 <= i < j < spec_find_peaks(n).len() ==> #[trigger] spec_find_peaks(n)[i]
                < #[trigger] spec_find_peaks(n)[j],
        forall|i: int| 0 <= i < spec_find_peaks(n).len() ==> 0 < #[trigger] spec_find_peaks(n)[i] <= n,
        spec_find_peaks(n).len() > 0 ==> spec_find_peaks(n).last() == n,
        n == 0 ==> spec_find_peaks(n) == Seq::<int>::empty(),
{
    let m = spec_mountain_size(n);
    lemma_peaks_from_bounds(m, n, 0);
    lemma_peaks_from_increasing(m, n, 0);
    if peaks_leftover(m, n) == 0 && peaks_from(m, n, 0).len() > 0 {
        lemma_peaks_from_last(m, n, 0);
    }
}

/// Number of binary digits of `num` (0 for 0).
pub fn bit_length(num: usize) -> (r: usize)
    ensures
        r == spec_bit_length(num as nat),
{
    let mut x = num;
    let mut len: usize = 0;
    proof {
        lemma_bit_length_le_self(num as nat);
    }
    while x > 0
        invariant
            spec_bit_length(num as nat) == len + spec_bit_length(x as nat),
            spec_bit_length(num as nat) <= num,
        decreases x,
    {
        x = x / 2;
        len = len + 1;
    }
    len
}

/// The peak positions of an MMR with `elements_count` elements, tallest
/// mountain first. A count that is not a valid MMR size yields an empty
/// vector, which callers treat as "no peaks" downstream.
pub fn find_peaks(elements_count: usize) -> (r: Vec<usize>)
    ensures
        r@.map_values(|p: usize| p as int) == spec_find_peaks(elements_count as nat),
        forall|i: int| 0 <= i < r@.len() ==> 0 < #[trigger] r@[i] <= elements_count,
{
    let n: u64 = elements_count as u64;
    let ghost n_nat = elements_count as nat;

    // Build the all-ones mountain size 2^bit_length(n) - 1.
    let mut m: u64 = 0;
    let mut x: u64 = n;
    let ghost mut k: nat = 0nat;
    proof {
        lemma2_to64();
        lemma2_to64_rest();
        lemma_bit_length_bound(n_nat, 64);
    }
    while x > 0
        invariant
            m + 1 == pow2(k),
            spec_bit_length(n_nat) == k + spec_bit_length(x as nat),
            spec_bit_length(n_nat) <= 64,
            n == n_nat,
        decreases x,
    {
        proof {
            assert(spec_bit_length(x as nat) >= 1);
            assert(k < 64);
            lemma_pow2_le_64(k + 1);
            vstd::arithmetic::power2::lemma_pow2_unfold(k + 1);
            lemma2_to64_rest();
            assert(2 * m + 1 == pow2(k + 1) - 1);
            assert(pow2(k + 1) - 1 <= pow2(64) - 1);
        }
        m = 2 * m + 1;
        x = x / 2;
        proof {
            k = k + 1;
        }
    }
    proof {
        assert(spec_bit_length(x as nat) == 0);
        assert(m == spec_mountain_size(n_nat));
    }

    // Greedy walk: take every mountain that still fits, halving each time.
    let mut mountain: u64 = m;
    let mut remaining: u64 = n;
    let mut shift: u64 = 0;
    let mut peaks: Vec<usize> = Vec::new();
    while mountain > 0
        invariant
            n == n_nat,
            n <= usize::MAX,
            shift + remaining <= n,
            peaks@.map_values(|p: usize| p as int) + peaks_from(
                mountain as nat,
                remaining as nat,
                shift as int,
            ) == peaks_from(spec_mountain_size(n_nat), n_nat, 0),
            peaks_leftover(mountain as nat, remaining as nat) == peaks_leftover(
                spec_mountain_size(n_nat),
                n_nat,
            ),
            forall|i: int| 0 <= i < peaks@.len() ==> 0 < #[trigger] peaks@[i] <= n,
        decreases mountain,
    {
        let ghost prev_peaks = peaks@;
        let ghost prev_mountain = mountain as nat;
        let ghost prev_remaining = remaining as nat;
        let ghost prev_shift = shift as int;
        if mountain <= remaining {
            shift = shift + mountain;
            peaks.push(shift as usize);
            remaining = remaining - mountain;
            proof {
                assert(peaks_from(prev_mountain, prev_remaining, prev_shift) == seq![
                    prev_shift + prev_mountain,
                ] + peaks_from(
                    prev_mountain / 2,
                    (prev_remaining - prev_mountain) as nat,
                    prev_shift + prev_mountain,
                ));
                assert(peaks@.map_values(|p: usize| p as int) =~= prev_peaks.map_values(
                    |p: usize| p as int,
                ).push(shift as int));
                assert(peaks@.map_values(|p: usize| p as int) + peaks_from(
                    mountain as nat / 2,
                    remaining as nat,
                    shift as int,
                ) =~= prev_peaks.map_values(|p: usize| p as int) + peaks_from(
                    prev_mountain,
                    prev_remaining,
                    prev_shift,
                ));
            }
        }
        mountain = mountain / 2;
    }
    proof {
        assert(peaks_from(0nat, remaining as nat, shift as int) == Seq::<int>::empty());
        assert(peaks@.map_values(|p: usize| p as int) =~= peaks@.map_values(|p: usize| p as int)
            + Seq::<int>::empty());
        assert(peaks_leftover(0nat, remaining as nat) == remaining as nat);
    }
    if remaining > 0 {
        let empty: Vec<usize> = Vec::new();
        proof {
            assert(empty@.map_values(|p: usize| p as int) =~= Seq::<int>::empty());
        }
        return empty;
    }
    peaks
}

proof fn lemma_pow2_le_64(k: nat)
    requires
        k <= 64,
    ensures
        pow2(k) <= pow2(64),
{
    if k < 64 {
        lemma_pow2_strictly_increases(k, 64);
    }
}

proof fn lemma_no_merges_le_self(n: nat)
    ensures
        no_merges_of(n) <= n,
    decreases n,
{
    if n > 0 {
        lemma_no_merges_le_self(n / 2);
    }
}

/// How many merges appending one more leaf to an MMR with `leaf_count`
/// leaves triggers: the number of trailing one-bits of `leaf_count`.
pub fn leaf_count_to_append_no_merges(leaf_count: usize) -> (r: usize)
    ensures
        r == no_merges_of(leaf_count as nat),
{
    let mut x = leaf_count;
    let mut count: usize = 0;
    proof {
        lemma_no_merges_le_self(leaf_count as nat);
    }
    while x % 2 == 1
        invariant
            no_merges_of(leaf_count as nat) == count + no_merges_of(x as nat),
            no_merges_of(leaf_count as nat) <= leaf_count,
        decreases x,
    {
        x = x / 2;
        count = count + 1;
    }
    count
}

} // verus!
