//! The accumulator build pipeline.
//!
//! A build session processes contiguous ranges of externally sourced
//! items, newest first, appending each item's digest to one accumulator.
//! The outside work — fetching items, generating the attestation for a
//! batch, persisting committed state — lives with the caller; this module
//! holds the decisions and the computation: [`process_batch`] runs a
//! whole batch of appends against the accumulator state, and the
//! [`BuildState`] machine decides which range comes next and how a
//! committed batch advances the cursor. A batch that is not committed
//! never advances the cursor, so batches stay strictly sequential.

use crate::errors::MMRError;
use crate::mmr::AppendResult;
use crate::mmr::GuestInput;
use crate::mmr::GuestMMR;
use crate::mmr::GuestOutput;
use crate::mmr::MmrView;
use crate::mmr::PeaksOptions;
use crate::mmr::append_err;
use crate::mmr::append_mid;
use crate::mmr::append_ok;
use crate::mmr::first_absent;
use crate::mmr::init_hashes;
use crate::mmr::lemma_append_counts;
use crate::mmr::lemma_append_preserves_balance;
use crate::mmr::peaks_present;
use crate::mmr::root_of;
use crate::mmr::view_peaks;
use crate::peaks::count_ones;
use crate::peaks::lemma_count_ones_le;
use crate::peaks::lemma_no_merges_bound;
use crate::peaks::spec_find_peaks;
use vstd::prelude::*;

verus! {

/// A pipeline-level failure.
#[derive(Debug, Clone)]
pub enum PipelineError {
    /// The proof output claims an element count smaller than the
    /// pre-batch count; the batch is rejected and not committed.
    InvalidStateTransition,
}

/// The accumulator model a batch starts from: the persisted peaks placed
/// at the peak positions of the persisted element count, plus the two
/// persisted counters.
pub open spec fn input_view(input: GuestInput) -> MmrView {
    MmrView {
        hashes: init_hashes(
            spec_find_peaks(input.elements_count as nat),
            input.initial_peaks@.map_values(|s: String| s@),
        ),
        elements_count: input.elements_count as nat,
        leaves_count: input.leaves_count as nat,
    }
}

/// Whether appending `values` one at a time to `v` succeeds throughout.
pub open spec fn batch_ok(v: MmrView, values: Seq<Seq<char>>) -> bool
    decreases values.len(),
{
    values.len() == 0 || (append_ok(v, values[0]) && batch_ok(
        append_mid(v, values[0]),
        values.drop_first(),
    ))
}

/// The accumulator model after appending `values` one at a time to `v`.
pub open spec fn batch_final(v: MmrView, values: Seq<Seq<char>>) -> MmrView
    decreases values.len(),
{
    if values.len() == 0 {
        v
    } else {
        batch_final(append_mid(v, values[0]), values.drop_first())
    }
}

/// The error a failing batch reports: the error of the first failing
/// append, or — when every append succeeds but a final peak is unstored —
/// the first unstored peak position of the final state.
pub open spec fn batch_err(v: MmrView, values: Seq<Seq<char>>) -> MMRError
    decreases values.len(),
{
    if values.len() == 0 {
        MMRError::NoHashFoundForIndex(
            first_absent(v.hashes, spec_find_peaks(v.elements_count)) as usize,
        )
    } else if !append_ok(v, values[0]) {
        append_err(v, values[0])
    } else {
        batch_err(append_mid(v, values[0]), values.drop_first())
    }
}

/// What one append's result must report of the state `v` it ran on: the
/// assigned leaf position, both counters after the append, and the root
/// hash of the resulting tree.
pub open spec fn result_matches(ar: AppendResult, v: MmrView, value: Seq<char>) -> bool {
    &&& ar.element_index as int == v.elements_count + 1
    &&& ar.elements_count as nat == append_mid(v, value).elements_count
    &&& ar.leaves_count as nat == v.leaves_count + 1
    &&& ar.root_hash@ == root_of(append_mid(v, value))
}

/// Appending `k` values to a balanced accumulator — one whose element
/// count is twice the leaf count minus the leaf count's one-bits, as any
/// accumulator grown from the empty state is — adds exactly `k` leaves,
/// keeps the balance, and therefore never lets the element count fall
/// below the leaf count.
pub proof fn lemma_batch_counts_balanced(v: MmrView, values: Seq<Seq<char>>)
    requires
        batch_ok(v, values),
        v.elements_count + count_ones(v.leaves_count) == 2 * v.leaves_count,
    ensures
        batch_final(v, values).leaves_count == v.leaves_count + values.len(),
        batch_final(v, values).elements_count + count_ones(batch_final(v, values).leaves_count)
            == 2 * batch_final(v, values).leaves_count,
        batch_final(v, values).elements_count >= batch_final(v, values).leaves_count,
    decreases values.len(),
{
    if values.len() == 0 {
        lemma_count_ones_le(v.leaves_count);
    } else {
        lemma_append_counts(v, values[0]);
        lemma_append_preserves_balance(v, values[0]);
        lemma_batch_counts_balanced(append_mid(v, values[0]), values.drop_first());
    }
}

proof fn lemma_batch_snoc(v: MmrView, s: Seq<Seq<char>>, x: Seq<char>)
    ensures
        batch_final(v, s.push(x)) == append_mid(batch_final(v, s), x),
        batch_ok(v, s.push(x)) <==> (batch_ok(v, s) && append_ok(batch_final(v, s), x)),
    decreases s.len(),
{
    let sp = s.push(x);
    if s.len() == 0 {
        assert(batch_final(v, s) == v);
        assert(batch_ok(v, s));
        assert(sp[0] == x);
        assert(sp.drop_first() =~= Seq::<Seq<char>>::empty());
        assert(batch_final(append_mid(v, x), sp.drop_first()) == append_mid(v, x));
        assert(batch_final(v, sp) == batch_final(append_mid(v, sp[0]), sp.drop_first()));
        assert(batch_ok(append_mid(v, x), sp.drop_first()));
        assert(batch_ok(v, sp) <==> append_ok(v, x));
    } else {
        assert(sp[0] == s[0]);
        assert(sp.drop_first() =~= s.drop_first().push(x));
        lemma_batch_snoc(append_mid(v, s[0]), s.drop_first(), x);
        assert(batch_final(v, sp) == batch_final(append_mid(v, sp[0]), sp.drop_first()));
        assert(batch_final(v, s) == batch_final(append_mid(v, s[0]), s.drop_first()));
        assert(batch_ok(v, sp) <==> (append_ok(v, sp[0]) && batch_ok(
            append_mid(v, sp[0]),
            sp.drop_first(),
        )));
        assert(batch_ok(v, s) <==> (append_ok(v, s[0]) && batch_ok(
            append_mid(v, s[0]),
            s.drop_first(),
        )));
    }
}

proof fn lemma_batch_err_at(v: MmrView, s: Seq<Seq<char>>, i: int)
    requires
        0 <= i < s.len(),
        batch_ok(v, s.take(i)),
        !append_ok(batch_final(v, s.take(i)), s[i]),
    ensures
        !batch_ok(v, s),
        batch_err(v, s) == append_err(batch_final(v, s.take(i)), s[i]),
    decreases i,
{
    if i == 0 {
        assert(s.take(0) =~= Seq::<Seq<char>>::empty());
    } else {
        assert(s.take(i)[0] == s[0]);
        assert(s.take(i).drop_first() =~= s.drop_first().take(i - 1));
        assert(s.drop_first()[i - 1] == s[i]);
        lemma_batch_err_at(append_mid(v, s[0]), s.drop_first(), i - 1);
    }
}

proof fn lemma_batch_err_end(v: MmrView, s: Seq<Seq<char>>)
    requires
        batch_ok(v, s),
    ensures
        batch_err(v, s) == MMRError::NoHashFoundForIndex(
            first_absent(
                batch_final(v, s).hashes,
                spec_find_peaks(batch_final(v, s).elements_count),
            ) as usize,
        ),
    decreases s.len(),
{
    if s.len() > 0 {
        lemma_batch_err_end(append_mid(v, s[0]), s.drop_first());
    }
}

/// Runs one batch: constructs the accumulator from the prior persisted
/// state carried by `input`, appends each new element in order, and
/// returns the final peaks, the final counters, and one result per
/// append. Fails with the first failing append's error; a batch never
/// partially succeeds — on failure the caller discards the state and the
/// persisted state stays untouched.
pub fn process_batch(input: GuestInput) -> (result: Result<GuestOutput, MMRError>)
    requires
        input.elements_count + 65 * input.new_elements@.len() <= usize::MAX,
        input.leaves_count + input.new_elements@.len() <= usize::MAX,
    ensures
        ({
            let v0 = input_view(input);
            let vals = input.new_elements@.map_values(|s: String| s@);
            let vf = batch_final(v0, vals);
            &&& (result is Ok <==> (batch_ok(v0, vals) && peaks_present(vf)))
            &&& (result matches Ok(out) ==> {
                &&& out.elements_count as nat == vf.elements_count
                &&& out.leaves_count as nat == vf.leaves_count
                &&& out.final_peaks@.map_values(|s: String| s@) == view_peaks(vf)
                &&& out.append_results@.len() == vals.len()
                &&& forall|i: int|
                    0 <= i < vals.len() ==> result_matches(
                        #[trigger] out.append_results@[i],
                        batch_final(v0, vals.take(i)),
                        vals[i],
                    )
            })
            &&& (result matches Err(e) ==> e == batch_err(v0, vals))
        }),
{
    let GuestInput { initial_peaks, elements_count, leaves_count, new_elements } = input;
    let ghost v0 = input_view(input);
    let ghost vals = new_elements@.map_values(|s: String| s@);

    let mut mmr = GuestMMR::new(initial_peaks, elements_count, leaves_count);
    proof {
        assert(vals.take(0) =~= Seq::<Seq<char>>::empty());
    }
    let mut append_results: Vec<AppendResult> = Vec::new();
    let mut i: usize = 0;
    while i < new_elements.len()
        invariant
            i <= new_elements@.len(),
            vals == new_elements@.map_values(|s: String| s@),
            vals == input.new_elements@.map_values(|s: String| s@),
            elements_count + 65 * new_elements@.len() <= usize::MAX,
            leaves_count + new_elements@.len() <= usize::MAX,
            v0 == input_view(input),
            v0.elements_count == elements_count,
            v0.leaves_count == leaves_count,
            mmr@ == batch_final(v0, vals.take(i as int)),
            batch_ok(v0, vals.take(i as int)),
            mmr@.elements_count <= elements_count + 65 * i,
            mmr@.leaves_count == leaves_count + i,
            append_results@.len() == i,
            forall|j: int|
                0 <= j < i ==> result_matches(
                    #[trigger] append_results@[j],
                    batch_final(v0, vals.take(j)),
                    vals[j],
                ),
        decreases new_elements@.len() - i,
    {
        let value = new_elements[i].clone();
        let ghost v_i = mmr@;
        proof {
            assert(value@ == vals[i as int]);
            assert(mmr@.leaves_count <= u64::MAX);
            lemma_no_merges_bound(mmr@.leaves_count);
        }
        match mmr.append(value) {
            Ok(r) => {
                proof {
                    crate::mmr::lemma_append_counts(v_i, vals[i as int]);
                    lemma_batch_snoc(v0, vals.take(i as int), vals[i as int]);
                    assert(vals.take(i + 1) =~= vals.take(i as int).push(vals[i as int]));
                }
                append_results.push(r);
            },
            Err(e) => {
                proof {
                    assert(!append_ok(v_i, vals[i as int]));
                    assert(e == append_err(v_i, vals[i as int]));
                    lemma_batch_err_at(v0, vals, i as int);
                }
                return Err(e);
            },
        }
        i = i + 1;
    }
    proof {
        assert(vals.take(new_elements@.len() as int) =~= vals);
    }
    let final_peaks = match mmr.get_peaks(
        PeaksOptions { elements_count: None, formatting_opts: None },
    ) {
        Ok(p) => p,
        Err(e) => {
            proof {
                lemma_batch_err_end(v0, vals);
            }
            return Err(e);
        },
    };
    let out_elements_count = mmr.get_elements_count();
    let out_leaves_count = mmr.get_leaves_count();
    Ok(
        GuestOutput {
            final_peaks,
            elements_count: out_elements_count,
            leaves_count: out_leaves_count,
            append_results,
        },
    )
}

/// A contiguous, inclusive range of item positions forming one batch.
#[derive(Debug, Clone, PartialEq, Eq, Structural)]
pub struct BatchRange {
    pub start: u64,
    pub end: u64,
}

/// The cursor state of a build session. Batches run from `next_end`
/// downward in steps of at most `batch_size`, never below `floor`, and
/// stop early when `batches_remaining` runs out.
#[derive(Debug, Clone)]
pub struct BuildState {
    pub next_end: u64,
    pub floor: u64,
    pub batch_size: u64,
    pub batches_remaining: Option<u64>,
    pub prev_elements_count: usize,
    pub done: bool,
}

/// Well-formedness of a cursor state.
pub open spec fn state_wf(s: BuildState) -> bool {
    &&& s.batch_size >= 1
    &&& (!s.done ==> s.next_end >= s.floor)
}

/// What the planner decides for the next step: process one more range,
/// or stop.
#[derive(Debug, Clone)]
pub enum BuildDecision {
    Process(BatchRange),
    Done,
}

/// Starts a build session at the externally fetched boundary
/// `latest_end` (for example the latest finalized item), driving down to
/// `floor`, in batches of `batch_size`, optionally capped at
/// `num_batches` batches.
pub fn new_build_state(
    latest_end: u64,
    floor: u64,
    batch_size: u64,
    num_batches: Option<u64>,
    elements_count: usize,
) -> (s: BuildState)
    requires
        batch_size >= 1,
        latest_end >= floor,
    ensures
        state_wf(s),
        s.next_end == latest_end,
        s.floor == floor,
        s.batch_size == batch_size,
        s.batches_remaining == num_batches,
        s.prev_elements_count == elements_count,
        !s.done,
{
    BuildState {
        next_end: latest_end,
        floor,
        batch_size,
        batches_remaining: num_batches,
        prev_elements_count: elements_count,
        done: false,
    }
}

/// Decides the next batch: the range of at most `batch_size` items
/// ending at the cursor, cut off at the floor — or `Done` when the floor
/// was passed or the batch allowance is exhausted.
pub fn plan_next_batch(state: &BuildState) -> (d: BuildDecision)
    requires
        state_wf(*state),
    ensures
        (d is Done <==> (state.done || state.batches_remaining == Some(0u64))),
        (d matches BuildDecision::Process(r) ==> r.end == state.next_end && r.start == (
        if state.next_end - state.floor >= state.batch_size {
            state.next_end - state.batch_size + 1
        } else {
            state.floor as int
        }) && state.floor <= r.start <= r.end && r.end - r.start + 1 <= state.batch_size),
{
    if state.done {
        return BuildDecision::Done;
    }
    match state.batches_remaining {
        Some(n) => {
            if n == 0 {
                return BuildDecision::Done;
            }
        },
        None => {},
    }
    let start = if state.next_end - state.floor >= state.batch_size {
        state.next_end - state.batch_size + 1
    } else {
        state.floor
    };
    BuildDecision::Process(BatchRange { start, end: state.next_end })
}

/// Validates a claimed post-batch element count against the pre-batch
/// count: the accumulator only grows, so a smaller count is an invalid
/// state transition and the batch must not be committed.
pub fn validate_state_transition(prev_elements_count: usize, new_elements_count: usize) -> (r:
    Result<(), PipelineError>)
    ensures
        r is Ok <==> new_elements_count >= prev_elements_count,
        r is Err ==> r == Err::<(), PipelineError>(PipelineError::InvalidStateTransition),
{
    if new_elements_count < prev_elements_count {
        Err(PipelineError::InvalidStateTransition)
    } else {
        Ok(())
    }
}

/// Advances the cursor past a committed batch: the claimed element count
/// is validated, the batch allowance is decremented, and the next batch
/// ends just below this one — or the session is done when the batch
/// reached the floor. An uncommitted batch never reaches this function,
/// so the cursor never passes one.
pub fn apply_commit(state: &BuildState, range: &BatchRange, new_elements_count: usize) -> (r:
    Result<BuildState, PipelineError>)
    requires
        state_wf(*state),
        !state.done,
        state.batches_remaining != Some(0u64),
        state.floor <= range.start <= range.end,
        range.end == state.next_end,
    ensures
        (r is Ok <==> new_elements_count >= state.prev_elements_count),
        (r is Err ==> r == Err::<BuildState, PipelineError>(PipelineError::InvalidStateTransition)),
        (r matches Ok(s2) ==> {
            &&& state_wf(s2)
            &&& s2.floor == state.floor
            &&& s2.batch_size == state.batch_size
            &&& s2.prev_elements_count == new_elements_count
            &&& (range.start == state.floor ==> s2.done)
            &&& (range.start > state.floor ==> !s2.done && s2.next_end == range.start - 1)
            &&& s2.batches_remaining == (match state.batches_remaining {
                Some(n) => Some((n - 1) as u64),
                None => None::<u64>,
            })
        }),
{
    match validate_state_transition(state.prev_elements_count, new_elements_count) {
        Ok(_) => {},
        Err(e) => {
            return Err(e);
        },
    }
    let batches_remaining = match state.batches_remaining {
        Some(n) => Some(n - 1),
        None => None,
    };
    if range.start == state.floor {
        Ok(
            BuildState {
                next_end: state.next_end,
                floor: state.floor,
                batch_size: state.batch_size,
                batches_remaining,
                prev_elements_count: new_elements_count,
                done: true,
            },
        )
    } else {
        Ok(
            BuildState {
                next_end: range.start - 1,
                floor: state.floor,
                batch_size: state.batch_size,
                batches_remaining,
                prev_elements_count: new_elements_count,
                done: false,
            },
        )
    }
}

} // verus!
