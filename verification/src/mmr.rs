//! The MMR accumulator core.
//!
//! A [`GuestMMR`] owns a sparse position-to-hash store together with the
//! element and leaf counters. Positions are 1-based and sequential; the
//! peaks of the current forest are a pure function of the element count
//! (see [`crate::peaks`]), and appending a leaf merges mountains of equal
//! size, each merge storing a parent hash at the next position.
//!
//! The mathematical model of an accumulator is an [`MmrView`]: a map from
//! positions to digest character sequences plus the two counters. Every
//! operation's contract is stated against this model.

use crate::decimal::dec_str;
use crate::decimal::to_decimal_string;
use crate::errors::FormattingError;
use crate::errors::MMRError;
use crate::hashing::hash;
use crate::hashing::pair_hash;
use crate::peaks::count_ones;
use crate::peaks::find_peaks;
use crate::peaks::leaf_count_to_append_no_merges;
use crate::peaks::lemma_count_ones_increment;
use crate::peaks::lemma_count_ones_le;
use crate::peaks::no_merges_of;
use crate::peaks::spec_find_peaks;
use std::collections::HashMap;
use vstd::prelude::*;

verus! {

broadcast use vstd::std_specs::hash::group_hash_axioms;

/// The mathematical model of an accumulator: the stored digests by
/// position, and the two counters.
pub struct MmrView {
    pub hashes: Map<int, Seq<char>>,
    pub elements_count: nat,
    pub leaves_count: nat,
}

/// The digest store of the model, read off the executable hash map.
pub open spec fn hashes_model(m: Map<usize, String>) -> Map<int, Seq<char>> {
    Map::new(|p: int| 0 <= p <= usize::MAX && m.contains_key(p as usize), |p: int| m[p as usize]@)
}

/// Whether every position in `pos` has a stored digest.
pub open spec fn all_present(h: Map<int, Seq<char>>, pos: Seq<int>) -> bool {
    forall|i: int| 0 <= i < pos.len() ==> h.contains_key(#[trigger] pos[i])
}

/// The first position in `pos` without a stored digest (0 if there is
/// none).
pub open spec fn first_absent(h: Map<int, Seq<char>>, pos: Seq<int>) -> int
    decreases pos.len(),
{
    if pos.len() == 0 {
        0
    } else if !h.contains_key(pos[0]) {
        pos[0]
    } else {
        first_absent(h, pos.drop_first())
    }
}

/// The stored digests at the positions `pos`, in order.
pub open spec fn peak_hashes_at(h: Map<int, Seq<char>>, pos: Seq<int>) -> Seq<Seq<char>> {
    pos.map_values(|p: int| h[p])
}

/// The digest store built by pairing each peak position with the
/// corresponding initial peak, for the first `i` pairs.
pub open spec fn zipped_upto(pos: Seq<int>, peaks: Seq<Seq<char>>, i: int) -> Map<int, Seq<char>>
    decreases i,
{
    if i <= 0 {
        Map::empty()
    } else {
        zipped_upto(pos, peaks, i - 1).insert(pos[i - 1], peaks[i - 1])
    }
}

/// The digest store of a freshly constructed accumulator: the given
/// peaks, placed at the peak positions of the given element count, a
/// surplus of either ignored.
pub open spec fn init_hashes(pos: Seq<int>, peaks: Seq<Seq<char>>) -> Map<int, Seq<char>> {
    zipped_upto(pos, peaks, if pos.len() <= peaks.len() { pos.len() as int } else { peaks.len() as int })
}

/// The canonical digest of a peak list: the zero digest for no peaks, the
/// peak itself for one, and otherwise a right-to-left fold that always
/// keeps the accumulated digest as the second hash operand. (This fold
/// direction is distinct from the merge order of an append and must stay
/// so for cross-implementation root compatibility.)
pub open spec fn bag_peaks(peaks: Seq<Seq<char>>) -> Seq<char>
    decreases peaks.len(),
{
    if peaks.len() == 0 {
        "0x0"@
    } else if peaks.len() == 1 {
        peaks[0]
    } else {
        pair_hash(peaks[0], bag_peaks(peaks.drop_first()))
    }
}

/// Whether every current peak position of the model has a stored digest.
pub open spec fn peaks_present(v: MmrView) -> bool {
    all_present(v.hashes, spec_find_peaks(v.elements_count))
}

/// The current peak digests of the model, tallest mountain first.
pub open spec fn view_peaks(v: MmrView) -> Seq<Seq<char>> {
    peak_hashes_at(v.hashes, spec_find_peaks(v.elements_count))
}

/// The bagged digest of the model's current peaks.
pub open spec fn bag_of(v: MmrView) -> Seq<char> {
    bag_peaks(view_peaks(v))
}

/// The root digest for a bag and an element count: the count, written in
/// decimal, is hashed with the bag, binding the root to the tree's size.
pub open spec fn root_of_count(bag: Seq<char>, elements_count: nat) -> Seq<char> {
    pair_hash(dec_str(elements_count), bag)
}

/// The root digest of the model.
pub open spec fn root_of(v: MmrView) -> Seq<char> {
    root_of_count(bag_of(v), v.elements_count)
}

/// One merge pass over a peak stack and a digest store: as long as merges
/// are owed and two peaks remain, the two most recent peaks are hashed
/// (earlier peak first), the parent digest is stored at the next position,
/// and the parent replaces the two peaks on the stack. Returns the final
/// stack, store and position counter.
pub open spec fn do_merges(stack: Seq<Seq<char>>, h: Map<int, Seq<char>>, idx: int, k: nat) -> (
    Seq<Seq<char>>,
    Map<int, Seq<char>>,
    int,
)
    decreases k,
{
    if k == 0 || stack.len() < 2 {
        (stack, h, idx)
    } else {
        let parent = pair_hash(stack[stack.len() - 2], stack[stack.len() - 1]);
        do_merges(
            stack.drop_last().drop_last().push(parent),
            h.insert(idx + 1, parent),
            idx + 1,
            (k - 1) as nat,
        )
    }
}

/// The merge phase of appending `value` to `v`: the new leaf is stored at
/// the next position and pushed on the peak stack, then the owed merges
/// run.
pub open spec fn append_merged(v: MmrView, value: Seq<char>) -> (
    Seq<Seq<char>>,
    Map<int, Seq<char>>,
    int,
) {
    do_merges(
        view_peaks(v).push(value),
        v.hashes.insert(v.elements_count + 1 as int, value),
        v.elements_count + 1 as int,
        no_merges_of(v.leaves_count),
    )
}

/// Whether the peak stack is deep enough for all owed merges: an append
/// pushes one leaf onto the current peaks, and each merge consumes one
/// stack entry.
pub open spec fn merges_ok(v: MmrView) -> bool {
    spec_find_peaks(v.elements_count).len() >= no_merges_of(v.leaves_count)
}

/// The model after the merge phase of an append: the extended digest
/// store, the position counter as the new element count, and one more
/// leaf.
pub open spec fn append_mid(v: MmrView, value: Seq<char>) -> MmrView {
    MmrView {
        hashes: append_merged(v, value).1,
        elements_count: append_merged(v, value).2 as nat,
        leaves_count: v.leaves_count + 1,
    }
}

/// Whether appending `value` to `v` succeeds: the current peaks must all
/// be stored, the stack must be deep enough for the owed merges, and the
/// peaks of the resulting tree must all be stored for the root
/// computation.
pub open spec fn append_ok(v: MmrView, value: Seq<char>) -> bool {
    peaks_present(v) && merges_ok(v) && peaks_present(append_mid(v, value))
}

/// The error a failing append reports: the first unstored peak position,
/// a too-shallow peak stack, or the first unstored peak position of the
/// merged tree, in that order of checking.
pub open spec fn append_err(v: MmrView, value: Seq<char>) -> MMRError {
    if !peaks_present(v) {
        MMRError::NoHashFoundForIndex(
            first_absent(v.hashes, spec_find_peaks(v.elements_count)) as usize,
        )
    } else if !merges_ok(v) {
        MMRError::InsufficientPeaksForMerge
    } else {
        MMRError::NoHashFoundForIndex(
            first_absent(
                append_mid(v, value).hashes,
                spec_find_peaks(append_mid(v, value).elements_count),
            ) as usize,
        )
    }
}

/// Result of one append: the new leaf's position, the counters after the
/// append, and the root hash over the resulting peaks.
#[derive(Debug, Clone)]
pub struct AppendResult {
    pub leaves_count: usize,
    pub elements_count: usize,
    pub element_index: usize,
    pub root_hash: String,
}

/// Transport shape of a membership proof.
#[derive(Debug, Clone)]
pub struct Proof {
    pub element_index: usize,
    pub element_hash: String,
    pub siblings_hashes: Vec<String>,
    pub peaks_hashes: Vec<String>,
    pub elements_count: usize,
}

/// A batch handed to the accumulator: the prior state and the values to
/// append.
#[derive(Debug, Clone)]
pub struct GuestInput {
    pub initial_peaks: Vec<String>,
    pub elements_count: usize,
    pub leaves_count: usize,
    pub new_elements: Vec<String>,
}

/// The state after a batch: the final peaks, the counters, and one
/// [`AppendResult`] per appended value.
#[derive(Debug, Clone)]
pub struct GuestOutput {
    pub final_peaks: Vec<String>,
    pub elements_count: usize,
    pub leaves_count: usize,
    pub append_results: Vec<AppendResult>,
}

/// Fixed-width peak formatting: right-pad the peak list with `null_value`
/// until it reaches `output_size`.
#[derive(Debug, Clone)]
pub struct FormattingOptions {
    pub output_size: usize,
    pub null_value: String,
}

pub type PeaksFormattingOptions = FormattingOptions;

/// Options of [`GuestMMR::get_peaks`]: an alternate element-count
/// snapshot (default: current) and optional fixed-width padding.
#[derive(Clone, Default)]
pub struct PeaksOptions {
    pub elements_count: Option<usize>,
    pub formatting_opts: Option<PeaksFormattingOptions>,
}

/// The element count a peak query works on: the requested snapshot if one
/// is given, the model's current count otherwise.
pub open spec fn chosen_count(v: MmrView, opt: Option<usize>) -> nat {
    match opt {
        Some(c) => c as nat,
        None => v.elements_count,
    }
}

/// Right-pads a peak list with `null_value` until it reaches
/// `output_size`. Fails with `PeaksOutputSizeError` when the list is
/// already longer than `output_size`; it never truncates.
pub fn format_peaks(peaks: Vec<String>, formatting_opts: &PeaksFormattingOptions) -> (result:
    Result<Vec<String>, FormattingError>)
    ensures
        peaks@.len() > formatting_opts.output_size ==> result == Err::<Vec<String>, FormattingError>(
            FormattingError::PeaksOutputSizeError,
        ),
        peaks@.len() <= formatting_opts.output_size ==> (result matches Ok(v)
            && v@.map_values(|s: String| s@) == peaks@.map_values(|s: String| s@) + Seq::new(
            (formatting_opts.output_size - peaks@.len()) as nat,
            |i: int| formatting_opts.null_value@,
        )),
{
    if peaks.len() > formatting_opts.output_size {
        return Err(FormattingError::PeaksOutputSizeError);
    }
    let ghost orig = peaks@.map_values(|s: String| s@);
    let mut padded = peaks;
    proof {
        assert(padded@.map_values(|s: String| s@) =~= orig + Seq::new(
            0nat,
            |i: int| formatting_opts.null_value@,
        ));
    }
    while padded.len() < formatting_opts.output_size
        invariant
            orig.len() <= padded@.len() <= formatting_opts.output_size,
            padded@.map_values(|s: String| s@) == orig + Seq::new(
                (padded@.len() - orig.len()) as nat,
                |i: int| formatting_opts.null_value@,
            ),
        decreases formatting_opts.output_size - padded@.len(),
    {
        let ghost prev = padded@;
        padded.push(formatting_opts.null_value.clone());
        proof {
            let filler = Seq::new(
                (padded@.len() - orig.len()) as nat,
                |i: int| formatting_opts.null_value@,
            );
            let mapped = padded@.map_values(|s: String| s@);
            assert forall|i: int| 0 <= i < padded@.len() implies #[trigger] mapped[i] == (orig
                + filler)[i] by {
                if i < prev.len() {
                    assert(padded@[i] == prev[i]);
                    assert(prev.map_values(|s: String| s@)[i] == (orig + Seq::new(
                        (prev.len() - orig.len()) as nat,
                        |j: int| formatting_opts.null_value@,
                    ))[i]);
                } else {
                    assert(padded@[i]@ == formatting_opts.null_value@);
                }
            }
            assert(padded@.map_values(|s: String| s@) =~= orig + filler);
        }
    }
    Ok(padded)
}

/// The MMR accumulator core: a sparse position-to-digest store plus the
/// element and leaf counters.
pub struct GuestMMR {
    hashes: HashMap<usize, String>,
    elements_count: usize,
    leaves_count: usize,
}

impl View for GuestMMR {
    type V = MmrView;

    closed spec fn view(&self) -> MmrView {
        MmrView {
            hashes: hashes_model(self.hashes@),
            elements_count: self.elements_count as nat,
            leaves_count: self.leaves_count as nat,
        }
    }
}

/// Hashes a pair of digests with the dedicated two-input primitive.
fn hash_two(left: String, right: String) -> (r: String)
    ensures
        r@ == pair_hash(left@, right@),
{
    let mut data: Vec<String> = Vec::new();
    data.push(left);
    data.push(right);
    hash(data).unwrap()
}

proof fn lemma_hashes_model_insert(m: Map<usize, String>, k: usize, v: String)
    ensures
        hashes_model(m.insert(k, v)) == hashes_model(m).insert(k as int, v@),
{
    assert(hashes_model(m.insert(k, v)) =~= hashes_model(m).insert(k as int, v@));
}

proof fn lemma_first_absent_at(h: Map<int, Seq<char>>, pos: Seq<int>, i: int)
    requires
        0 <= i < pos.len(),
        forall|j: int| 0 <= j < i ==> h.contains_key(#[trigger] pos[j]),
        !h.contains_key(pos[i]),
    ensures
        first_absent(h, pos) == pos[i],
    decreases i,
{
    if i > 0 {
        lemma_first_absent_at(h, pos.drop_first(), i - 1);
        assert(forall|j: int|
            0 <= j < i - 1 ==> #[trigger] pos.drop_first()[j] == pos[j + 1]);
    }
}

impl GuestMMR {
    /// Constructs an accumulator from previously persisted peaks and
    /// counters (all zero / empty for a fresh accumulator). The given
    /// peaks are stored at the peak positions of `elements_count`, in
    /// order; a surplus of peaks or of positions is ignored.
    pub fn new(initial_peaks: Vec<String>, elements_count: usize, leaves_count: usize) -> (r: Self)
        ensures
            r@.elements_count == elements_count as nat,
            r@.leaves_count == leaves_count as nat,
            r@.hashes == init_hashes(
                spec_find_peaks(elements_count as nat),
                initial_peaks@.map_values(|s: String| s@),
            ),
    {
        let mut hashes: HashMap<usize, String> = HashMap::new();
        proof {
            assert(hashes_model(hashes@) =~= Map::<int, Seq<char>>::empty());
        }

        let peak_positions = find_peaks(elements_count);
        let ghost pos = peak_positions@.map_values(|p: usize| p as int);
        let ghost peak_views = initial_peaks@.map_values(|s: String| s@);

        let count = if initial_peaks.len() <= peak_positions.len() {
            initial_peaks.len()
        } else {
            peak_positions.len()
        };
        let mut i: usize = 0;
        while i < count
            invariant
                count <= initial_peaks.len(),
                count <= peak_positions.len(),
                i <= count,
                pos == peak_positions@.map_values(|p: usize| p as int),
                peak_views == initial_peaks@.map_values(|s: String| s@),
                hashes_model(hashes@) == zipped_upto(pos, peak_views, i as int),
            decreases count - i,
        {
            let ghost prev = hashes@;
            hashes.insert(peak_positions[i], initial_peaks[i].clone());
            proof {
                lemma_hashes_model_insert(prev, peak_positions@[i as int], initial_peaks@[i as int]);
                assert(pos[i as int] == peak_positions@[i as int] as int);
                assert(peak_views[i as int] == initial_peaks@[i as int]@);
            }
            i = i + 1;
        }
        proof {
            assert(count as int == if pos.len() <= peak_views.len() {
                pos.len() as int
            } else {
                peak_views.len() as int
            });
        }
        GuestMMR { elements_count, leaves_count, hashes }
    }

    /// The total number of stored nodes (leaves plus merge nodes).
    pub fn get_elements_count(&self) -> (r: usize)
        ensures
            r == self@.elements_count,
    {
        self.elements_count
    }

    /// The total number of appended leaves.
    pub fn get_leaves_count(&self) -> (r: usize)
        ensures
            r == self@.leaves_count,
    {
        self.leaves_count
    }

    /// The digest stored at `index`, if any.
    pub fn get_hash(&self, index: usize) -> (r: Option<String>)
        ensures
            match r {
                Some(s) => self@.hashes.contains_key(index as int) && s@ == self@.hashes.index(
                    index as int,
                ),
                None => !self@.hashes.contains_key(index as int),
            },
    {
        match self.hashes.get(&index) {
            Some(s) => Some(s.clone()),
            None => None,
        }
    }

    /// The stored digests at the given positions, in order. Fails with
    /// `NoHashFoundForIndex` at the first position without a digest —
    /// a structural-corruption signal, never a default.
    pub fn retrieve_peaks_hashes(&self, peak_idxs: Vec<usize>) -> (result: Result<
        Vec<String>,
        MMRError,
    >)
        ensures
            ({
                let pos = peak_idxs@.map_values(|p: usize| p as int);
                &&& (all_present(self@.hashes, pos) <==> result is Ok)
                &&& (result matches Ok(v) ==> v@.map_values(|s: String| s@) == peak_hashes_at(
                    self@.hashes,
                    pos,
                ))
                &&& (result matches Err(e) ==> e == MMRError::NoHashFoundForIndex(
                    first_absent(self@.hashes, pos) as usize,
                ))
            }),
    {
        let ghost pos = peak_idxs@.map_values(|p: usize| p as int);
        let ghost h = self@.hashes;
        let mut peaks: Vec<String> = Vec::new();
        let mut i: usize = 0;
        while i < peak_idxs.len()
            invariant
                i <= peak_idxs.len(),
                pos == peak_idxs@.map_values(|p: usize| p as int),
                h == self@.hashes,
                forall|j: int| 0 <= j < i ==> h.contains_key(#[trigger] pos[j]),
                peaks@.map_values(|s: String| s@) == peak_hashes_at(h, pos.take(i as int)),
            decreases peak_idxs.len() - i,
        {
            let idx = peak_idxs[i];
            proof {
                assert(pos[i as int] == idx as int);
            }
            match self.hashes.get(&idx) {
                Some(hash_value) => {
                    let ghost prev = peaks@;
                    peaks.push(hash_value.clone());
                    proof {
                        assert(peaks@.map_values(|s: String| s@) =~= prev.map_values(
                            |s: String| s@,
                        ).push(h[pos[i as int]]));
                        assert(peak_hashes_at(h, pos.take(i + 1)) =~= peak_hashes_at(
                            h,
                            pos.take(i as int),
                        ).push(h[pos[i as int]]));
                    }
                },
                None => {
                    proof {
                        lemma_first_absent_at(h, pos, i as int);
                    }
                    return Err(MMRError::NoHashFoundForIndex(idx));
                },
            }
            i = i + 1;
        }
        proof {
            assert(pos.take(peak_idxs@.len() as int) =~= pos);
        }
        Ok(peaks)
    }

    /// Appends `value` as a new leaf. The current peaks are fetched, the
    /// leaf is stored at the next position and pushed on the peak stack,
    /// the owed merges run — each hashing the two most recent peaks
    /// (earlier peak first) and storing the parent at the next position —
    /// the counters advance, and the root hash over the resulting peaks
    /// is returned. On failure the counters never advance partially, but
    /// stored digests may remain; the caller discards such a state.
    pub fn append(&mut self, value: String) -> (result: Result<AppendResult, MMRError>)
        requires
            old(self)@.elements_count + 1 + no_merges_of(old(self)@.leaves_count) <= usize::MAX,
            old(self)@.leaves_count + 1 <= usize::MAX,
        ensures
            ({
                let v = old(self)@;
                let mid = append_mid(v, value@);
                &&& (result is Ok <==> append_ok(v, value@))
                &&& (result matches Ok(ar) ==> final(self)@ == mid && ar.element_index as int
                    == v.elements_count + 1 && ar.elements_count as nat == mid.elements_count
                    && ar.leaves_count as nat == mid.leaves_count && ar.root_hash@ == root_of(mid))
                &&& (!peaks_present(v) ==> result == Err::<AppendResult, MMRError>(
                    MMRError::NoHashFoundForIndex(
                        first_absent(v.hashes, spec_find_peaks(v.elements_count)) as usize,
                    ),
                ) && final(self)@ == v)
                &&& (peaks_present(v) && !merges_ok(v) ==> result == Err::<AppendResult, MMRError>(
                    MMRError::InsufficientPeaksForMerge,
                ) && final(self)@ == (MmrView {
                    hashes: append_merged(v, value@).1,
                    elements_count: v.elements_count,
                    leaves_count: v.leaves_count,
                }))
                &&& (peaks_present(v) && merges_ok(v) && !peaks_present(mid) ==> result
                    == Err::<AppendResult, MMRError>(
                    MMRError::NoHashFoundForIndex(
                        first_absent(mid.hashes, spec_find_peaks(mid.elements_count)) as usize,
                    ),
                ) && final(self)@ == mid)
            }),
    {
        let ghost v0 = self@;
        let ghost val = value@;
        let elements_count = self.elements_count;
        let peaks_pos = find_peaks(elements_count);
        let mut peaks = match self.retrieve_peaks_hashes(peaks_pos) {
            Ok(p) => p,
            Err(e) => {
                return Err(e);
            },
        };
        proof {
            assert(peaks@.map_values(|s: String| s@) == view_peaks(v0));
        }

        let mut last_element_idx = elements_count + 1;
        let leaf_element_index = last_element_idx;

        let ghost m_before = self.hashes@;
        self.hashes.insert(last_element_idx, value.clone());
        proof {
            lemma_hashes_model_insert(m_before, last_element_idx, value);
        }
        peaks.push(value);
        let no_merges = leaf_count_to_append_no_merges(self.leaves_count);

        let ghost start_stack = view_peaks(v0).push(val);
        let ghost start_map = v0.hashes.insert(v0.elements_count + 1 as int, val);
        let ghost start_idx = v0.elements_count as int + 1;
        let ghost t = no_merges_of(v0.leaves_count);
        proof {
            assert(peaks@.map_values(|s: String| s@) =~= start_stack);
            assert(hashes_model(self.hashes@) == start_map);
        }

        let mut merges_done: usize = 0;
        while merges_done < no_merges
            invariant
                v0 == old(self)@,
                merges_done <= no_merges,
                no_merges == t,
                val == value@,
                start_stack == view_peaks(v0).push(val),
                start_map == v0.hashes.insert(v0.elements_count + 1 as int, val),
                start_idx == v0.elements_count + 1,
                t == no_merges_of(v0.leaves_count),
                start_idx + t <= usize::MAX,
                last_element_idx == start_idx + merges_done,
                self.elements_count == v0.elements_count,
                self.leaves_count == v0.leaves_count,
                peaks@.len() >= 1,
                peaks@.len() + merges_done == start_stack.len(),
                start_stack.len() == spec_find_peaks(v0.elements_count).len() + 1,
                peaks_present(v0),
                do_merges(
                    peaks@.map_values(|s: String| s@),
                    hashes_model(self.hashes@),
                    last_element_idx as int,
                    (t - merges_done) as nat,
                ) == do_merges(start_stack, start_map, start_idx, t),
            decreases no_merges - merges_done,
        {
            if peaks.len() < 2 {
                proof {
                    assert(do_merges(
                        peaks@.map_values(|s: String| s@),
                        hashes_model(self.hashes@),
                        last_element_idx as int,
                        (t - merges_done) as nat,
                    ) == (
                        peaks@.map_values(|s: String| s@),
                        hashes_model(self.hashes@),
                        last_element_idx as int,
                    ));
                    assert(spec_find_peaks(v0.elements_count).len() < t);
                    assert(!merges_ok(v0));
                }
                return Err(MMRError::InsufficientPeaksForMerge);
            }
            let ghost prev_stack = peaks@.map_values(|s: String| s@);
            let ghost prev_map = hashes_model(self.hashes@);
            let ghost prev_idx = last_element_idx as int;
            let right_hash = peaks.pop().unwrap();
            let left_hash = peaks.pop().unwrap();
            let ghost lh = left_hash@;
            let ghost rh = right_hash@;
            proof {
                assert(rh == prev_stack[prev_stack.len() - 1]);
                assert(lh == prev_stack[prev_stack.len() - 2]);
            }
            let parent_hash = hash_two(left_hash, right_hash);
            last_element_idx = last_element_idx + 1;
            let ghost m_mid = self.hashes@;
            self.hashes.insert(last_element_idx, parent_hash.clone());
            proof {
                lemma_hashes_model_insert(m_mid, last_element_idx, parent_hash);
            }
            peaks.push(parent_hash);
            merges_done = merges_done + 1;
            proof {
                assert(peaks@.map_values(|s: String| s@) =~= prev_stack.drop_last().drop_last()
                    .push(pair_hash(lh, rh)));
                assert(hashes_model(self.hashes@) == prev_map.insert(
                    prev_idx + 1,
                    pair_hash(lh, rh),
                ));
                assert(do_merges(prev_stack, prev_map, prev_idx, (t - (merges_done - 1)) as nat)
                    == do_merges(
                    peaks@.map_values(|s: String| s@),
                    hashes_model(self.hashes@),
                    last_element_idx as int,
                    (t - merges_done) as nat,
                ));
            }
        }
        proof {
            assert(do_merges(
                peaks@.map_values(|s: String| s@),
                hashes_model(self.hashes@),
                last_element_idx as int,
                0nat,
            ) == (
                peaks@.map_values(|s: String| s@),
                hashes_model(self.hashes@),
                last_element_idx as int,
            ));
            assert(hashes_model(self.hashes@) == append_merged(v0, val).1);
            assert(last_element_idx as int == append_merged(v0, val).2);
            assert(merges_ok(v0));
        }
        self.elements_count = last_element_idx;
        self.leaves_count = self.leaves_count + 1;
        let ghost mid = append_mid(v0, val);
        proof {
            assert(self@ == mid);
        }

        let bag = match self.bag_the_peaks() {
            Ok(b) => b,
            Err(e) => {
                return Err(e);
            },
        };
        let root_hash = match self.calculate_root_hash(bag.as_str(), last_element_idx) {
            Ok(r) => r,
            Err(e) => {
                proof {
                    assert(false);
                }
                return Err(e);
            },
        };
        Ok(AppendResult {
            leaves_count: self.leaves_count,
            elements_count: last_element_idx,
            element_index: leaf_element_index,
            root_hash,
        })
    }

    /// Folds the current peaks into one digest: the zero digest for an
    /// empty tree, the peak itself for a single-peak tree, and otherwise
    /// the right-to-left fold of [`bag_peaks`]. Fails only when a peak
    /// position has no stored digest.
    pub fn bag_the_peaks(&self) -> (result: Result<String, MMRError>)
        ensures
            peaks_present(self@) <==> result is Ok,
            (result matches Ok(r) ==> r@ == bag_of(self@)),
            (result matches Err(e) ==> e == MMRError::NoHashFoundForIndex(
                first_absent(self@.hashes, spec_find_peaks(self@.elements_count)) as usize,
            )),
    {
        let peaks_idxs = find_peaks(self.elements_count);
        let peaks_hashes = match self.retrieve_peaks_hashes(peaks_idxs) {
            Ok(p) => p,
            Err(e) => {
                return Err(e);
            },
        };
        let ghost phs = peaks_hashes@.map_values(|s: String| s@);
        proof {
            assert(phs == view_peaks(self@));
        }
        let n = peaks_hashes.len();
        if n == 0 {
            Ok("0x0".to_owned())
        } else if n == 1 {
            Ok(peaks_hashes[0].clone())
        } else {
            let second_last = peaks_hashes[n - 2].clone();
            let last = peaks_hashes[n - 1].clone();
            let mut acc = hash_two(second_last, last);
            proof {
                let sub = phs.subrange(n - 2, n as int);
                assert(sub.drop_first() =~= phs.subrange(n - 1, n as int));
                assert(bag_peaks(phs.subrange(n - 1, n as int)) == phs[n - 1]);
                assert(sub[0] == phs[n - 2]);
                assert(acc@ == bag_peaks(phs.subrange(n - 2, n as int)));
            }
            let mut i: usize = n - 2;
            while i > 0
                invariant
                    2 <= n == phs.len(),
                    i <= n - 2,
                    phs == peaks_hashes@.map_values(|s: String| s@),
                    n == peaks_hashes@.len(),
                    acc@ == bag_peaks(phs.subrange(i as int, n as int)),
                decreases i,
            {
                i = i - 1;
                let cur = peaks_hashes[i].clone();
                acc = hash_two(cur, acc);
                proof {
                    let sub = phs.subrange(i as int, n as int);
                    assert(sub.drop_first() =~= phs.subrange(i + 1, n as int));
                    assert(sub[0] == phs[i as int]);
                    assert(sub.len() >= 2);
                    assert(acc@ == bag_peaks(phs.subrange(i as int, n as int)));
                }
            }
            proof {
                assert(phs.subrange(0, n as int) =~= phs);
            }
            Ok(acc)
        }
    }

    /// The peak digests, for the current element count or for a
    /// requested snapshot, optionally right-padded to a fixed width.
    /// Fails with `NoHashFoundForIndex` when a peak position has no
    /// stored digest, and with a wrapped `PeaksOutputSizeError` when more
    /// peaks are live than the requested width holds.
    pub fn get_peaks(&self, option: PeaksOptions) -> (result: Result<Vec<String>, MMRError>)
        ensures
            ({
                let n = chosen_count(self@, option.elements_count);
                let pos = spec_find_peaks(n);
                &&& (!all_present(self@.hashes, pos) ==> result == Err::<Vec<String>, MMRError>(
                    MMRError::NoHashFoundForIndex(first_absent(self@.hashes, pos) as usize),
                ))
                &&& (all_present(self@.hashes, pos) && option.formatting_opts is None ==> (
                result matches Ok(v) && v@.map_values(|s: String| s@) == peak_hashes_at(
                    self@.hashes,
                    pos,
                )))
                &&& (all_present(self@.hashes, pos) && (option.formatting_opts matches Some(f)
                    && pos.len() > f.output_size) ==> result == Err::<Vec<String>, MMRError>(
                    MMRError::Formatting(FormattingError::PeaksOutputSizeError),
                ))
                &&& (all_present(self@.hashes, pos) && (option.formatting_opts matches Some(f)
                    && pos.len() <= f.output_size) ==> (result matches Ok(v) && v@.map_values(
                    |s: String| s@,
                ) == peak_hashes_at(self@.hashes, pos) + Seq::new(
                    ((option.formatting_opts->0).output_size - pos.len()) as nat,
                    |i: int| (option.formatting_opts->0).null_value@,
                )))
            }),
    {
        let ghost pos_spec = spec_find_peaks(chosen_count(self@, option.elements_count));
        let tree_size = match option.elements_count {
            Some(count) => count,
            None => self.elements_count,
        };
        let peaks_indices = find_peaks(tree_size);
        let peaks = match self.retrieve_peaks_hashes(peaks_indices) {
            Ok(p) => p,
            Err(e) => {
                return Err(e);
            },
        };
        match &option.formatting_opts {
            Some(formatting_opts) => match format_peaks(peaks, formatting_opts) {
                Ok(formatted_peaks) => {
                    proof {
                        assert(formatted_peaks@.map_values(|s: String| s@) =~= peak_hashes_at(
                            self@.hashes,
                            pos_spec,
                        ) + Seq::new(
                            ((option.formatting_opts->0).output_size - pos_spec.len()) as nat,
                            |i: int| (option.formatting_opts->0).null_value@,
                        ));
                    }
                    Ok(formatted_peaks)
                },
                Err(e) => Err(MMRError::Formatting(e)),
            },
            None => Ok(peaks),
        }
    }

    /// The root digest for a bagged peak list and an element count: the
    /// count, written in decimal, is hashed with the bag, so that equal
    /// bags of different-sized trees give different roots.
    pub fn calculate_root_hash(&self, bag: &str, elements_count: usize) -> (result: Result<
        String,
        MMRError,
    >)
        ensures
            result matches Ok(r) && r@ == root_of_count(bag@, elements_count as nat),
    {
        Ok(hash_two(to_decimal_string(elements_count), bag.to_owned()))
    }
}


proof fn lemma_do_merges_counts(stack: Seq<Seq<char>>, h: Map<int, Seq<char>>, idx: int, k: nat)
    requires
        stack.len() >= k + 1,
    ensures
        do_merges(stack, h, idx, k).0.len() == stack.len() - k,
        do_merges(stack, h, idx, k).2 == idx + k,
    decreases k,
{
    if k > 0 {
        let parent = pair_hash(stack[stack.len() - 2], stack[stack.len() - 1]);
        lemma_do_merges_counts(
            stack.drop_last().drop_last().push(parent),
            h.insert(idx + 1, parent),
            idx + 1,
            (k - 1) as nat,
        );
    }
}

/// A successful append adds exactly one leaf, and grows the element
/// count by one plus the number of merges owed by the old leaf count —
/// in particular the element count strictly increases.
pub proof fn lemma_append_counts(v: MmrView, value: Seq<char>)
    requires
        merges_ok(v),
    ensures
        append_mid(v, value).leaves_count == v.leaves_count + 1,
        append_mid(v, value).elements_count == v.elements_count + 1 + no_merges_of(v.leaves_count),
        append_mid(v, value).elements_count > v.elements_count,
{
    lemma_do_merges_counts(
        view_peaks(v).push(value),
        v.hashes.insert(v.elements_count + 1 as int, value),
        v.elements_count + 1 as int,
        no_merges_of(v.leaves_count),
    );
}

/// Invariant of accumulators grown from the empty state: the element
/// count equals twice the leaf count minus the number of one-bits of the
/// leaf count. It holds of the empty state, every successful append
/// preserves it, and under it the element count never falls below the
/// leaf count.
pub proof fn lemma_append_preserves_balance(v: MmrView, value: Seq<char>)
    requires
        merges_ok(v),
        v.elements_count + count_ones(v.leaves_count) == 2 * v.leaves_count,
    ensures
        append_mid(v, value).elements_count + count_ones(append_mid(v, value).leaves_count) == 2
            * append_mid(v, value).leaves_count,
        append_mid(v, value).elements_count >= append_mid(v, value).leaves_count,
{
    lemma_append_counts(v, value);
    lemma_count_ones_increment(v.leaves_count);
    lemma_count_ones_le(v.leaves_count + 1);
}

/// Round trip: the peak list of the model — what `get_peaks` without
/// options returns — is exactly the stored digests at the positions
/// `find_peaks` yields for the current element count, which is what
/// `retrieve_peaks_hashes` returns for those positions.
pub proof fn lemma_get_peaks_round_trip(v: MmrView)
    ensures
        view_peaks(v) == peak_hashes_at(v.hashes, spec_find_peaks(v.elements_count)),
{
}

/// A single-peak tree bags to that peak, unchanged.
pub proof fn lemma_bag_single_peak(peaks: Seq<Seq<char>>)
    requires
        peaks.len() == 1,
    ensures
        bag_peaks(peaks) == peaks[0],
{
}

/// A tree with no peaks bags to the canonical zero digest.
pub proof fn lemma_bag_empty()
    ensures
        bag_peaks(Seq::<Seq<char>>::empty()) == "0x0"@,
{
}

proof fn lemma_zipped_lookup(pos: Seq<int>, peaks: Seq<Seq<char>>, m: int, j: int)
    requires
        0 <= j < m <= pos.len(),
        m <= peaks.len(),
        forall|a: int, b: int| 0 <= a < b < m ==> #[trigger] pos[a] != #[trigger] pos[b],
    ensures
        zipped_upto(pos, peaks, m).contains_key(pos[j]),
        zipped_upto(pos, peaks, m)[pos[j]] == peaks[j],
    decreases m,
{
    if j < m - 1 {
        lemma_zipped_lookup(pos, peaks, m - 1, j);
    }
}

/// Reconstruction: loading a fresh accumulator from a prior session's
/// final peaks and element count and reading the peaks back yields
/// exactly those peaks — every peak position is stored, and the stored
/// digests at the peak positions are the given peaks in order.
pub proof fn lemma_reconstruction_round_trip(n: nat, peaks: Seq<Seq<char>>)
    requires
        peaks.len() == spec_find_peaks(n).len(),
    ensures
        all_present(init_hashes(spec_find_peaks(n), peaks), spec_find_peaks(n)),
        peak_hashes_at(init_hashes(spec_find_peaks(n), peaks), spec_find_peaks(n)) == peaks,
{
    let pos = spec_find_peaks(n);
    let h = init_hashes(pos, peaks);
    crate::peaks::lemma_find_peaks_decomposition(n);
    assert forall|j: int| 0 <= j < pos.len() implies h.contains_key(#[trigger] pos[j]) && h[pos[j]]
        == peaks[j] by {
        lemma_zipped_lookup(pos, peaks, pos.len() as int, j);
    }
    assert(peak_hashes_at(h, pos) =~= peaks);
}

} // verus!
