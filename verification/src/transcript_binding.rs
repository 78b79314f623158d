//! Universal call layout binding Poseidon calls to verifier control steps.
//!
//! One row per Poseidon call of the VM transcript layout (segment lane), then
//! one per call of the recursion layout for each of the two children (binary
//! lanes). Each row carries the control step that owns its call, the call's
//! coordinates, and whether it opens its operation or closes a
//! proof-of-work check, which must end on a draw frame's last call.
use crate::domain::{MAX_LOG_SIZE, PaddedSizeError, domain_size, padded_log_size, spec_padded_log_size};
use crate::kernel::{
    LEFT_RECURSION_VERIFIER_ID, ProofKind, RIGHT_RECURSION_VERIFIER_ID, SEGMENT_VERIFIER_ID,
    VerifierControlPlan, VerifierSchema, VerifierStep, spec_encode,
};
use crate::transcript_layout::{
    CallView, LayoutState, OperationView, TranscriptCallLayout, TranscriptLayout,
    TranscriptLayoutError, TranscriptOperationLayout, frame_wf, frames_tile, layout_wf,
    lemma_layout_wf, operation_wf, operations_tile, spec_call, spec_layout, spec_validate_execution,
};
use crate::transcript_program::{TranscriptEffect, spec_hash_count, spec_transcript_effect};
use crate::m31::{M31Word, word_values};
use crate::transcript_program::TranscriptOperationTrace;
use crate::transcript_trace::{
    HashPurpose, SpongeRow, SpongeRowView, TranscriptError, TranscriptTrace, spec_sponge_rows,
};
use vstd::arithmetic::power2::pow2;
use vstd::prelude::*;

verus! {

/// Which universal lane a schema check is about.
#[derive(Clone, Copy, Debug, PartialEq, Eq, Structural)]
pub enum TranscriptLane {
    Segment,
    Binary,
}

/// Invalid universal preprocessing or transcript witness materialization.
#[derive(Clone, Copy, Debug, PartialEq, Eq, Structural)]
pub enum TranscriptBindingError {
    SchemaMismatch { lane: TranscriptLane, expected: VerifierSchema, actual: VerifierSchema },
    Layout(TranscriptLayoutError),
    Transcript(TranscriptError),
    RowCountOverflow,
    LogSizeOutOfRange { log_size: u32 },
    CallIndexOutOfRange { call_id: u32 },
    UnknownVerifierId { verifier_id: u32 },
    CallMissing { verifier_id: u32, call_id: u32 },
    PowFrameMismatch { sequence: u32 },
}

/// The verifier id and mode masks shared by every row of one lane.
#[derive(Clone, Copy, Debug, PartialEq, Eq, Structural)]
pub struct CallLane {
    pub verifier_id: u32,
    pub segment_mask: u32,
    pub binary_mask: u32,
}

/// One Poseidon call of one lane, with the control step that owns it.
#[derive(Clone, Copy, Debug, PartialEq, Eq)]
pub struct CallRow {
    pub segment_mask: u32,
    pub binary_mask: u32,
    pub verifier_id: u32,
    pub sequence: u32,
    pub tag: u32,
    pub args: [u32; 4],
    pub call_id: u32,
    pub hash_id: u32,
    pub hash_step: u32,
    pub is_first: u32,
    pub is_last: u32,
    pub is_draw: u32,
    pub is_operation_first: u32,
    pub pow_final_mask: u32,
}

/// One when a condition holds, else zero.
pub open spec fn indicator(condition: bool) -> u32 {
    if condition {
        1
    } else {
        0
    }
}

/// Whether a step checks proof of work.
pub open spec fn is_pow_step(step: VerifierStep) -> bool {
    ||| step is VerifyAndAbsorbInteractionPow
    ||| step is VerifyAndAbsorbPcsPow
}

/// The row of the call at offset `offset` of operation `operation`.
pub open spec fn call_row(lane: CallLane, operation: OperationView, call: CallView, offset: nat) -> CallRow {
    let encoded = spec_encode(operation.2);
    CallRow {
        segment_mask: lane.segment_mask,
        binary_mask: lane.binary_mask,
        verifier_id: lane.verifier_id,
        sequence: operation.1,
        tag: encoded.tag,
        args: [encoded.arg_0, encoded.arg_1, encoded.arg_2, encoded.arg_3],
        call_id: call.0,
        hash_id: call.1,
        hash_step: call.2,
        is_first: indicator(call.3),
        is_last: indicator(call.4),
        is_draw: indicator(call.5 == HashPurpose::Draw),
        is_operation_first: indicator(offset == 0),
        pow_final_mask: indicator(is_pow_step(operation.2) && offset + 1 == operation.7),
    }
}

/// The rows of one operation's calls.
pub open spec fn operation_rows(lane: CallLane, operation: OperationView, calls: Seq<CallView>) -> Seq<CallRow> {
    Seq::new(operation.7 as nat, |j: int| call_row(lane, operation, calls[operation.6 + j], j as nat))
}

/// The rows of the first `n` operations of a layout.
pub open spec fn layout_rows(
    lane: CallLane,
    operations: Seq<OperationView>,
    calls: Seq<CallView>,
    n: nat,
) -> Seq<CallRow>
    decreases n,
{
    if n == 0 {
        Seq::empty()
    } else {
        layout_rows(lane, operations, calls, (n - 1) as nat) + operation_rows(lane, operations[n - 1], calls)
    }
}

/// Every proof-of-work operation of a well-formed layout ends on the last
/// call of a draw frame.
proof fn lemma_pow_ends_on_draw(operations: Seq<OperationView>, frames: Seq<crate::transcript_layout::FrameView>, calls: Seq<CallView>, k: int)
    requires
        layout_wf((operations, frames, calls)),
        0 <= k < operations.len(),
        is_pow_step(operations[k].2),
    ensures
        operations[k].7 >= 1,
        operations[k].6 + operations[k].7 <= calls.len(),
        calls[operations[k].6 + operations[k].7 - 1].4,
        calls[operations[k].6 + operations[k].7 - 1].5 == HashPurpose::Draw,
{
    reveal(layout_wf);
    let o = operations[k];
    assert(operation_wf(o, k, frames));
    assert(spec_transcript_effect(o.2) == Some(TranscriptEffect::Pow));
    assert(o.5 == 2);
    let f = o.4 + 1;
    assert(frame_wf(frames[f as int], f as int, calls));
    let frame = frames[f as int];
    let last = (frame.2 - 1) as int;
    assert(calls[frame.1 + last] == spec_call((frame.1 + last) as nat, f as u32, last as nat, frame.2 as nat, frame.3));
    assert(frame_wf(frames[o.4 as int], o.4 as int, calls));
}

/// Every operation of a well-formed layout owns calls that exist.
proof fn lemma_operation_calls_exist(
    operations: Seq<OperationView>,
    frames: Seq<crate::transcript_layout::FrameView>,
    calls: Seq<CallView>,
    k: int,
)
    requires
        layout_wf((operations, frames, calls)),
        0 <= k < operations.len(),
    ensures
        operations[k].6 + operations[k].7 <= calls.len(),
{
    reveal(layout_wf);
    let o = operations[k];
    assert(operation_wf(o, k, frames));
    let f = o.4 + o.5 - 1;
    assert(frame_wf(frames[f as int], f as int, calls));
}

/// The call facts of a well-formed layout that its rows rely on.
pub open spec fn calls_owned(operations: Seq<OperationView>, calls: Seq<CallView>) -> bool {
    forall|k: int|
        0 <= k < operations.len() ==> {
            let o = #[trigger] operations[k];
            &&& o.6 + o.7 <= calls.len()
            &&& is_pow_step(o.2) ==> o.7 >= 1 && calls[o.6 + o.7 - 1].4 && calls[o.6 + o.7 - 1].5
                == HashPurpose::Draw
        }
}

proof fn lemma_calls_owned(operations: Seq<OperationView>, frames: Seq<crate::transcript_layout::FrameView>, calls: Seq<CallView>)
    requires
        layout_wf((operations, frames, calls)),
    ensures
        calls_owned(operations, calls),
{
    assert forall|k: int| 0 <= k < operations.len() implies {
        let o = #[trigger] operations[k];
        &&& o.6 + o.7 <= calls.len()
        &&& is_pow_step(o.2) ==> o.7 >= 1 && calls[o.6 + o.7 - 1].4 && calls[o.6 + o.7 - 1].5 == HashPurpose::Draw
    } by {
        lemma_operation_calls_exist(operations, frames, calls, k);
        if is_pow_step(operations[k].2) {
            lemma_pow_ends_on_draw(operations, frames, calls, k);
        }
    }
}

/// The plain coordinates of a layout's calls.
pub open spec fn call_views(calls: Seq<TranscriptCallLayout>) -> Seq<CallView> {
    calls.map_values(|c: TranscriptCallLayout| c.spec_fields())
}

/// Appends the rows of one operation's calls.
fn push_operation_rows(
    rows: &mut Vec<CallRow>,
    calls: &[TranscriptCallLayout],
    operation: TranscriptOperationLayout,
    lane: CallLane,
)
    requires
        operation@.6 + operation@.7 <= calls@.len(),
        is_pow_step(operation@.2) ==> operation@.7 >= 1 && call_views(calls@)[operation@.6 + operation@.7
            - 1].4 && call_views(calls@)[operation@.6 + operation@.7 - 1].5 == HashPurpose::Draw,
    ensures
        final(rows)@ == old(rows)@ + operation_rows(lane, operation@, call_views(calls@)),
{
    let ghost view = operation@;
    let ghost views = call_views(calls@);
    let step = operation.step();
    let encoded = step.encode();
    let is_pow = matches!(step, VerifierStep::VerifyAndAbsorbInteractionPow { .. })
        || matches!(step, VerifierStep::VerifyAndAbsorbPcsPow { .. });
    let sequence = operation.sequence();
    let first_call = operation.first_call_id() as usize;
    let call_count = operation.call_count() as usize;
    let n_calls = calls.len();
    let ghost added = operation_rows(lane, view, views);
    let ghost before = rows@;
    let mut offset: usize = 0;
    proof {
        assert(rows@ =~= before + added.take(0));
    }
    while offset < call_count
        invariant
            offset <= call_count,
            first_call + call_count <= calls@.len(),
            n_calls == calls@.len(),
            views == call_views(calls@),
            first_call == view.6,
            call_count == view.7,
            sequence == view.1,
            step == view.2,
            encoded == spec_encode(view.2),
            is_pow == is_pow_step(view.2),
            is_pow ==> call_count >= 1 && views[first_call + call_count - 1].4 && views[first_call + call_count
                - 1].5 == HashPurpose::Draw,
            added == operation_rows(lane, view, views),
            rows@ == before + added.take(offset as int),
        decreases call_count - offset,
    {
        let call = calls[first_call + offset];
        assert(call.spec_fields() == views[first_call + offset]);
        let final_call = is_pow && offset + 1 == call_count;
        proof {
            if final_call {
                assert(call.spec_fields().4 && call.spec_fields().5 == HashPurpose::Draw);
            }
        }
        let row = CallRow {
            segment_mask: lane.segment_mask,
            binary_mask: lane.binary_mask,
            verifier_id: lane.verifier_id,
            sequence,
            tag: encoded.tag,
            args: [encoded.arg_0, encoded.arg_1, encoded.arg_2, encoded.arg_3],
            call_id: call.call_id(),
            hash_id: call.hash_id(),
            hash_step: call.step(),
            is_first: if call.is_first() {
                1
            } else {
                0
            },
            is_last: if call.is_last() {
                1
            } else {
                0
            },
            is_draw: if call.purpose() == HashPurpose::Draw {
                1
            } else {
                0
            },
            is_operation_first: if offset == 0 {
                1
            } else {
                0
            },
            pow_final_mask: if final_call {
                1
            } else {
                0
            },
        };
        proof {
            assert(row == added[offset as int]);
        }
        rows.push(row);
        proof {
            assert(added.take(offset as int + 1) =~= added.take(offset as int).push(added[offset as int]));
        }
        offset = offset + 1;
    }
    proof {
        assert(added.take(call_count as int) =~= added);
    }
}

/// Appends one row per call of a layout whose operations own their calls,
/// operation by operation, in call order.
fn append_layout_rows(rows: &mut Vec<CallRow>, layout: &TranscriptLayout, lane: CallLane)
    requires
        calls_owned(layout@.0, layout@.2),
    ensures
        final(rows)@ == old(rows)@ + layout_rows(lane, layout@.0, layout@.2, layout@.0.len()),
{
    let ghost (op_views, frame_views, views) = layout@;
    let operations = layout.operations();
    let calls = layout.calls();
    let ghost start = rows@;
    let mut k: usize = 0;
    proof {
        assert(rows@ =~= start + layout_rows(lane, op_views, views, 0));
    }
    while k < operations.len()
        invariant
            k <= operations@.len(),
            operations@.len() == op_views.len(),
            forall|i: int| 0 <= i < op_views.len() ==> #[trigger] operations@[i]@ == op_views[i],
            call_views(calls@) == views,
            calls_owned(op_views, views),
            rows@ == start + layout_rows(lane, op_views, views, k as nat),
        decreases operations@.len() - k,
    {
        let operation = operations[k];
        proof {
            assert(operations@[k as int]@ == op_views[k as int]);
        }
        push_operation_rows(rows, calls, operation, lane);
        k = k + 1;
    }
}

/// The first call of frame `j`, or the call count past the last frame.
pub open spec fn frame_start(frames: Seq<crate::transcript_layout::FrameView>, calls: Seq<CallView>, j: int) -> nat {
    if 0 <= j < frames.len() {
        frames[j].1 as nat
    } else {
        calls.len()
    }
}

/// The tiling parts of a well-formed layout.
proof fn lemma_wf_tiling(state: LayoutState)
    requires
        layout_wf(state),
    ensures
        frames_tile(state.1, state.2.len()),
        operations_tile(state.0, state.1.len()),
        forall|k: int| 0 <= k < state.0.len() ==> operation_wf(#[trigger] state.0[k], k, state.1),
{
    reveal(layout_wf);
}

proof fn lemma_operation_span(state: LayoutState, k: int)
    requires
        frames_tile(state.1, state.2.len()),
        operation_wf(state.0[k], k, state.1),
        0 <= k < state.0.len(),
    ensures
        state.0[k].6 == frame_start(state.1, state.2, state.0[k].4 as int),
        state.0[k].6 + state.0[k].7 == frame_start(state.1, state.2, state.0[k].4 + state.0[k].5),
{
    let (operations, frames, calls) = state;
    let o = operations[k];
    let last = o.4 + o.5 - 1;
    assert(o.5 >= 1);
    if last + 1 < frames.len() {
        assert(frames[last + 1].1 == frames[last].1 + frames[last].2);
    }
}

proof fn lemma_layout_rows_prefix_len(lane: CallLane, state: LayoutState, n: nat)
    requires
        frames_tile(state.1, state.2.len()),
        operations_tile(state.0, state.1.len()),
        forall|k: int| 0 <= k < state.0.len() ==> operation_wf(#[trigger] state.0[k], k, state.1),
        n <= state.0.len(),
    ensures
        layout_rows(lane, state.0, state.2, n).len() == frame_start(
            state.1,
            state.2,
            if n == 0 {
                0
            } else {
                state.0[n - 1].4 + state.0[n - 1].5
            },
        ),
    decreases n,
{
    
    let (operations, frames, calls) = state;
    if n == 0 {
        if frames.len() > 0 {
            assert(frames[0].1 == 0);
        }
    } else {
        lemma_layout_rows_prefix_len(lane, state, (n - 1) as nat);
        lemma_operation_span(state, n - 1);
        if n >= 2 {
            assert(operations[n - 1].4 == operations[n - 2].4 + operations[n - 2].5);
        } else {
            assert(operations[0].4 == 0);
        }
    }
}

/// A well-formed layout gives exactly one row per call.
pub proof fn lemma_layout_rows_len(lane: CallLane, state: LayoutState)
    requires
        layout_wf(state),
    ensures
        layout_rows(lane, state.0, state.2, state.0.len()).len() == state.2.len(),
{
    
    let (operations, frames, calls) = state;
    lemma_wf_tiling(state);
    lemma_layout_rows_prefix_len(lane, state, operations.len());
    if operations.len() == 0 {
        assert(frames.len() == 0);
    }
}

/// The segment lane.
pub open spec fn segment_lane() -> CallLane {
    CallLane { verifier_id: SEGMENT_VERIFIER_ID, segment_mask: 1, binary_mask: 0 }
}

/// A binary lane of the given child verifier.
pub open spec fn binary_lane(verifier_id: u32) -> CallLane {
    CallLane { verifier_id, segment_mask: 0, binary_mask: 1 }
}

/// The universal call table of two plans, with both layouts and the table's
/// log size; or the first error.
pub open spec fn spec_call_table(vm: VerifierControlPlan, recursion: VerifierControlPlan) -> Result<
    (Seq<CallRow>, LayoutState, LayoutState, u32),
    TranscriptBindingError,
> {
    if vm.schema != VerifierSchema::Vm {
        Err(
            TranscriptBindingError::SchemaMismatch {
                lane: TranscriptLane::Segment,
                expected: VerifierSchema::Vm,
                actual: vm.schema,
            },
        )
    } else if recursion.schema != VerifierSchema::Recursion {
        Err(
            TranscriptBindingError::SchemaMismatch {
                lane: TranscriptLane::Binary,
                expected: VerifierSchema::Recursion,
                actual: recursion.schema,
            },
        )
    } else {
        match spec_layout(vm, vm.steps@.len()) {
            Err(error) => Err(TranscriptBindingError::Layout(error)),
            Ok(vm_layout) => match spec_layout(recursion, recursion.steps@.len()) {
                Err(error) => Err(TranscriptBindingError::Layout(error)),
                Ok(recursion_layout) => {
                    let row_count = vm_layout.2.len() + 2 * recursion_layout.2.len();
                    if row_count > usize::MAX {
                        Err(TranscriptBindingError::RowCountOverflow)
                    } else {
                        match spec_padded_log_size(row_count as nat, MAX_LOG_SIZE) {
                            Err(PaddedSizeError::RowCountOverflow) => Err(TranscriptBindingError::RowCountOverflow),
                            Err(PaddedSizeError::LogSizeOutOfRange { log_size }) => Err(
                                TranscriptBindingError::LogSizeOutOfRange { log_size },
                            ),
                            Ok(log_size) => Ok(
                                (
                                    layout_rows(segment_lane(), vm_layout.0, vm_layout.2, vm_layout.0.len())
                                        + layout_rows(
                                        binary_lane(LEFT_RECURSION_VERIFIER_ID),
                                        recursion_layout.0,
                                        recursion_layout.2,
                                        recursion_layout.0.len(),
                                    ) + layout_rows(
                                        binary_lane(RIGHT_RECURSION_VERIFIER_ID),
                                        recursion_layout.0,
                                        recursion_layout.2,
                                        recursion_layout.0.len(),
                                    ),
                                    vm_layout,
                                    recursion_layout,
                                    log_size,
                                ),
                            ),
                        }
                    }
                },
            },
        }
    }
}

/// Universal call layout derived from one VM plan and one recursion plan.
#[derive(Debug)]
pub struct TranscriptCallPreprocessed {
    log_size: u32,
    rows: Vec<CallRow>,
    vm_layout: TranscriptLayout,
    recursion_layout: TranscriptLayout,
}

impl TranscriptCallPreprocessed {
    /// The rows fit the table's domain, and the active call counts fit `usize`.
    #[verifier::type_invariant]
    closed spec fn sizes_fit(self) -> bool {
        &&& self.log_size <= MAX_LOG_SIZE
        &&& self.rows@.len() <= pow2(self.log_size as nat)
        &&& self.vm_layout@.2.len() + 2 * self.recursion_layout@.2.len() <= usize::MAX
    }

    pub closed spec fn spec_log_size(&self) -> u32 {
        self.log_size
    }

    pub closed spec fn spec_rows(&self) -> Seq<CallRow> {
        self.rows@
    }

    pub closed spec fn spec_vm_layout(&self) -> LayoutState {
        self.vm_layout@
    }

    pub closed spec fn spec_recursion_layout(&self) -> LayoutState {
        self.recursion_layout@
    }

    /// Lays out one row per call: the VM layout's calls in the segment lane,
    /// then the recursion layout's calls once for each child in the binary
    /// lanes, padded to a power-of-two domain.
    pub fn new(vm: &VerifierControlPlan, recursion: &VerifierControlPlan) -> (result: Result<
        Self,
        TranscriptBindingError,
    >)
        ensures
            match spec_call_table(*vm, *recursion) {
                Err(error) => result == Err::<Self, _>(error),
                Ok((rows, vm_layout, recursion_layout, log_size)) => result matches Ok(pre) && pre.spec_rows()
                    == rows && pre.spec_vm_layout() == vm_layout && pre.spec_recursion_layout()
                    == recursion_layout && pre.spec_log_size() == log_size,
            },
    {
        if vm.schema() != VerifierSchema::Vm {
            return Err(
                TranscriptBindingError::SchemaMismatch {
                    lane: TranscriptLane::Segment,
                    expected: VerifierSchema::Vm,
                    actual: vm.schema(),
                },
            );
        }
        if recursion.schema() != VerifierSchema::Recursion {
            return Err(
                TranscriptBindingError::SchemaMismatch {
                    lane: TranscriptLane::Binary,
                    expected: VerifierSchema::Recursion,
                    actual: recursion.schema(),
                },
            );
        }
        let vm_layout = match TranscriptLayout::new(vm) {
            Ok(layout) => layout,
            Err(error) => return Err(TranscriptBindingError::Layout(error)),
        };
        let recursion_layout = match TranscriptLayout::new(recursion) {
            Ok(layout) => layout,
            Err(error) => return Err(TranscriptBindingError::Layout(error)),
        };
        let vm_calls = vm_layout.calls().len();
        let recursion_calls = recursion_layout.calls().len();
        let doubled = match recursion_calls.checked_mul(2) {
            Some(count) => count,
            None => return Err(TranscriptBindingError::RowCountOverflow),
        };
        let row_count = match vm_calls.checked_add(doubled) {
            Some(count) => count,
            None => return Err(TranscriptBindingError::RowCountOverflow),
        };
        let log_size = match padded_log_size(row_count, MAX_LOG_SIZE) {
            Ok(log_size) => log_size,
            Err(PaddedSizeError::RowCountOverflow) => {
                return Err(TranscriptBindingError::RowCountOverflow);
            },
            Err(PaddedSizeError::LogSizeOutOfRange { log_size }) => {
                return Err(TranscriptBindingError::LogSizeOutOfRange { log_size });
            },
        };
        proof {
            lemma_calls_owned(vm_layout@.0, vm_layout@.1, vm_layout@.2);
            lemma_calls_owned(recursion_layout@.0, recursion_layout@.1, recursion_layout@.2);
        }
        let mut rows: Vec<CallRow> = Vec::new();
        append_layout_rows(
            &mut rows,
            &vm_layout,
            CallLane { verifier_id: SEGMENT_VERIFIER_ID, segment_mask: 1, binary_mask: 0 },
        );
        append_layout_rows(
            &mut rows,
            &recursion_layout,
            CallLane { verifier_id: LEFT_RECURSION_VERIFIER_ID, segment_mask: 0, binary_mask: 1 },
        );
        append_layout_rows(
            &mut rows,
            &recursion_layout,
            CallLane { verifier_id: RIGHT_RECURSION_VERIFIER_ID, segment_mask: 0, binary_mask: 1 },
        );
        proof {
            lemma_layout_rows_len(segment_lane(), vm_layout@);
            lemma_layout_rows_len(binary_lane(LEFT_RECURSION_VERIFIER_ID), recursion_layout@);
            lemma_layout_rows_len(binary_lane(RIGHT_RECURSION_VERIFIER_ID), recursion_layout@);
            assert(rows@.len() == row_count);
        }
        Ok(TranscriptCallPreprocessed { log_size, rows, vm_layout, recursion_layout })
    }

    /// The log size of the table's domain, which holds every row.
    pub fn log_size(&self) -> (log_size: u32)
        ensures
            log_size == self.spec_log_size(),
            log_size <= MAX_LOG_SIZE,
            self.spec_rows().len() <= pow2(log_size as nat),
    {
        proof {
            use_type_invariant(self);
        }
        self.log_size
    }

    pub fn vm_layout(&self) -> (layout: &TranscriptLayout)
        ensures
            layout@ == self.spec_vm_layout(),
    {
        &self.vm_layout
    }

    pub fn recursion_layout(&self) -> (layout: &TranscriptLayout)
        ensures
            layout@ == self.spec_recursion_layout(),
    {
        &self.recursion_layout
    }

    /// The table's rows: the segment lane, then the two binary lanes.
    pub fn rows(&self) -> (rows: &[CallRow])
        ensures
            rows@ == self.spec_rows(),
    {
        self.rows.as_slice()
    }

    /// The calls a proof of each kind makes: the VM layout's calls for a
    /// segment leaf, the recursion layout's calls for each of a binary
    /// node's two children, none for an empty leaf.
    pub fn active_call_count(&self, kind: ProofKind) -> (count: usize)
        ensures
            count == match kind {
                ProofKind::SegmentLeaf => self.spec_vm_layout().2.len(),
                ProofKind::BinaryNode => 2 * self.spec_recursion_layout().2.len(),
                ProofKind::EmptyLeaf => 0,
            },
    {
        proof {
            use_type_invariant(self);
        }
        match kind {
            ProofKind::SegmentLeaf => self.vm_layout.calls().len(),
            ProofKind::BinaryNode => 2 * self.recursion_layout.calls().len(),
            ProofKind::EmptyLeaf => 0,
        }
    }
}

/// Preprocessed columns of the transcript call table.
pub const CALL_COLUMN_COUNT: usize = 18;

/// The value of one row in preprocessed column `column`, in the table's
/// column order: row mask; segment and binary masks; verifier id; control
/// sequence, tag and four arguments; call id; hash id; hash step; first,
/// last, draw, operation-first and proof-of-work-final masks.
pub open spec fn call_column_value(row: CallRow, column: nat) -> u32 {
    if column == 0 {
        1
    } else if column == 1 {
        row.segment_mask
    } else if column == 2 {
        row.binary_mask
    } else if column == 3 {
        row.verifier_id
    } else if column == 4 {
        row.sequence
    } else if column == 5 {
        row.tag
    } else if column < 10 {
        row.args@[column - 6]
    } else if column == 10 {
        row.call_id
    } else if column == 11 {
        row.hash_id
    } else if column == 12 {
        row.hash_step
    } else if column == 13 {
        row.is_first
    } else if column == 14 {
        row.is_last
    } else if column == 15 {
        row.is_draw
    } else if column == 16 {
        row.is_operation_first
    } else if column == 17 {
        row.pow_final_mask
    } else {
        0
    }
}

fn call_row_value(row: &CallRow, column: usize) -> (value: u32)
    requires
        column < CALL_COLUMN_COUNT,
    ensures
        value == call_column_value(*row, column as nat),
{
    match column {
        0 => 1,
        1 => row.segment_mask,
        2 => row.binary_mask,
        3 => row.verifier_id,
        4 => row.sequence,
        5 => row.tag,
        6 => row.args[0],
        7 => row.args[1],
        8 => row.args[2],
        9 => row.args[3],
        10 => row.call_id,
        11 => row.hash_id,
        12 => row.hash_step,
        13 => row.is_first,
        14 => row.is_last,
        15 => row.is_draw,
        16 => row.is_operation_first,
        _ => row.pow_final_mask,
    }
}

impl TranscriptCallPreprocessed {
    /// The values of every preprocessed column over the padded domain: row
    /// `i` of column `c` is the value of table row `i` in column `c`, and
    /// zero past the table's end.
    pub fn column_values(&self) -> (columns: Vec<Vec<u32>>)
        ensures
            columns@.len() == CALL_COLUMN_COUNT,
            forall|c: int|
                0 <= c < CALL_COLUMN_COUNT ==> {
                    let column = #[trigger] columns@[c]@;
                    &&& column.len() == pow2(self.spec_log_size() as nat)
                    &&& forall|i: int|
                        0 <= i < column.len() ==> #[trigger] column[i] == if i < self.spec_rows().len() {
                            call_column_value(self.spec_rows()[i], c as nat)
                        } else {
                            0
                        }
                },
    {
        let size = domain_size(self.log_size());
        let rows = self.rows();
        let mut columns: Vec<Vec<u32>> = Vec::new();
        let mut c: usize = 0;
        while c < CALL_COLUMN_COUNT
            invariant
                c <= CALL_COLUMN_COUNT,
                columns@.len() == c,
                rows@ == self.spec_rows(),
                size == pow2(self.spec_log_size() as nat),
                rows@.len() <= size,
                forall|d: int|
                    0 <= d < c ==> {
                        let column = #[trigger] columns@[d]@;
                        &&& column.len() == size
                        &&& forall|i: int|
                            0 <= i < column.len() ==> #[trigger] column[i] == if i < rows@.len() {
                                call_column_value(rows@[i], d as nat)
                            } else {
                                0
                            }
                    },
            decreases CALL_COLUMN_COUNT - c,
        {
            let mut column: Vec<u32> = Vec::new();
            let mut i: usize = 0;
            while i < size
                invariant
                    i <= size,
                    column@.len() == i,
                    c < CALL_COLUMN_COUNT,
                    forall|j: int|
                        0 <= j < i ==> #[trigger] column@[j] == if j < rows@.len() {
                            call_column_value(rows@[j], c as nat)
                        } else {
                            0
                        },
                decreases size - i,
            {
                if i < rows.len() {
                    column.push(call_row_value(&rows[i], c));
                } else {
                    column.push(0);
                }
                i = i + 1;
            }
            columns.push(column);
            c = c + 1;
        }
        columns
    }
}

/// One executed transcript: its operations and the recorded calls.
#[derive(Clone, Debug)]
pub struct RecordedTranscript {
    pub operations: Vec<TranscriptOperationTrace>,
    pub trace: TranscriptTrace,
}

/// The transcripts a universal proof carries: one VM transcript for a
/// segment leaf, one recursion transcript per child of a binary node, none
/// for an empty leaf.
#[derive(Clone, Copy, Debug)]
pub enum UniversalTranscriptWitness<'a> {
    Segment(&'a RecordedTranscript),
    Binary { left: &'a RecordedTranscript, right: &'a RecordedTranscript },
    Empty,
}

impl UniversalTranscriptWitness<'_> {
    /// The kind of proof the witness belongs to.
    pub fn proof_kind(&self) -> (kind: ProofKind)
        ensures
            kind == match *self {
                UniversalTranscriptWitness::Segment(_) => ProofKind::SegmentLeaf,
                UniversalTranscriptWitness::Binary { .. } => ProofKind::BinaryNode,
                UniversalTranscriptWitness::Empty => ProofKind::EmptyLeaf,
            },
    {
        match self {
            UniversalTranscriptWitness::Segment(_) => ProofKind::SegmentLeaf,
            UniversalTranscriptWitness::Binary { .. } => ProofKind::BinaryNode,
            UniversalTranscriptWitness::Empty => ProofKind::EmptyLeaf,
        }
    }
}

/// The chunk and rate output a table row binds for one call.
#[derive(Clone, Copy, Debug, PartialEq, Eq)]
pub struct CallBinding {
    pub chunk: [u32; 8],
    pub output: [u32; 8],
}

impl View for CallBinding {
    type V = (Seq<u32>, Seq<u32>);

    open spec fn view(&self) -> (Seq<u32>, Seq<u32>) {
        (self.chunk@, self.output@)
    }
}

/// Eight zero words.
pub open spec fn zero_words() -> Seq<u32> {
    seq![0u32, 0u32, 0u32, 0u32, 0u32, 0u32, 0u32, 0u32]
}

/// The sponge rows of a recorded transcript that matches its layout, or why
/// it does not.
pub open spec fn spec_validated_rows(layout: LayoutState, recorded: RecordedTranscript) -> Result<
    Seq<SpongeRowView>,
    TranscriptBindingError,
> {
    match spec_validate_execution(layout, recorded.operations@, recorded.trace) {
        Err(error) => Err(TranscriptBindingError::Layout(error)),
        Ok(_) => match spec_sponge_rows(recorded.trace) {
            Err(error) => Err(TranscriptBindingError::Transcript(error)),
            Ok(rows) => Ok(rows),
        },
    }
}

/// The sponge rows of the segment, left and right lanes, each present only
/// when the witness carries that lane; or the first error.
pub open spec fn spec_lanes(
    pre: TranscriptCallPreprocessed,
    witness: UniversalTranscriptWitness,
) -> Result<(Option<Seq<SpongeRowView>>, Option<Seq<SpongeRowView>>, Option<Seq<SpongeRowView>>), TranscriptBindingError> {
    match witness {
        UniversalTranscriptWitness::Segment(recorded) => match spec_validated_rows(pre.spec_vm_layout(), *recorded) {
            Err(error) => Err(error),
            Ok(rows) => Ok((Some(rows), None, None)),
        },
        UniversalTranscriptWitness::Binary { left, right } => match spec_validated_rows(
            pre.spec_recursion_layout(),
            *left,
        ) {
            Err(error) => Err(error),
            Ok(left_rows) => match spec_validated_rows(pre.spec_recursion_layout(), *right) {
                Err(error) => Err(error),
                Ok(right_rows) => Ok((None, Some(left_rows), Some(right_rows))),
            },
        },
        UniversalTranscriptWitness::Empty => Ok((None, None, None)),
    }
}

/// What one table row binds: the call's chunk, and its rate output when the
/// call ends its frame; zeros for an inactive lane; or why it cannot.
pub open spec fn spec_binding(row: CallRow, lane: Option<Seq<SpongeRowView>>) -> Result<
    (Seq<u32>, Seq<u32>),
    TranscriptBindingError,
> {
    match lane {
        None => Ok((zero_words(), zero_words())),
        Some(rows) => if row.call_id >= rows.len() {
            Err(TranscriptBindingError::CallMissing { verifier_id: row.verifier_id, call_id: row.call_id })
        } else {
            let call = rows[row.call_id as int];
            Ok((call.2, if row.is_last == 1 {
                call.3.take(8)
            } else {
                zero_words()
            }))
        },
    }
}

/// The lane of a row's verifier, or why it has none.
pub open spec fn spec_row_lane(
    row: CallRow,
    lanes: (Option<Seq<SpongeRowView>>, Option<Seq<SpongeRowView>>, Option<Seq<SpongeRowView>>),
) -> Result<Option<Seq<SpongeRowView>>, TranscriptBindingError> {
    if row.verifier_id == SEGMENT_VERIFIER_ID {
        Ok(lanes.0)
    } else if row.verifier_id == LEFT_RECURSION_VERIFIER_ID {
        Ok(lanes.1)
    } else if row.verifier_id == RIGHT_RECURSION_VERIFIER_ID {
        Ok(lanes.2)
    } else {
        Err(TranscriptBindingError::UnknownVerifierId { verifier_id: row.verifier_id })
    }
}

/// The bindings of the first `n` rows, and the error that stopped them.
pub open spec fn spec_bindings(
    rows: Seq<CallRow>,
    lanes: (Option<Seq<SpongeRowView>>, Option<Seq<SpongeRowView>>, Option<Seq<SpongeRowView>>),
    n: nat,
) -> (Seq<(Seq<u32>, Seq<u32>)>, Option<TranscriptBindingError>)
    decreases n,
{
    if n == 0 {
        (Seq::empty(), None)
    } else {
        let (bound, error) = spec_bindings(rows, lanes, (n - 1) as nat);
        if error is Some {
            (bound, error)
        } else {
            match spec_row_lane(rows[n - 1], lanes) {
                Err(error) => (bound, Some(error)),
                Ok(lane) => match spec_binding(rows[n - 1], lane) {
                    Err(error) => (bound, Some(error)),
                    Ok(binding) => (bound.push(binding), None),
                },
            }
        }
    }
}

/// What binding a witness pushes, and the error it stops at.
pub open spec fn spec_push_bindings(pre: TranscriptCallPreprocessed, witness: UniversalTranscriptWitness) -> (
    Seq<(Seq<u32>, Seq<u32>)>,
    Option<TranscriptBindingError>,
) {
    match spec_lanes(pre, witness) {
        Err(error) => (Seq::empty(), Some(error)),
        Ok(lanes) => spec_bindings(pre.spec_rows(), lanes, pre.spec_rows().len()),
    }
}

fn validated_rows(layout: &TranscriptLayout, recorded: &RecordedTranscript) -> (result: Result<
    Vec<SpongeRow>,
    TranscriptBindingError,
>)
    ensures
        match spec_validated_rows(layout@, *recorded) {
            Ok(rows) => result matches Ok(v) && v@.map_values(|r: SpongeRow| r@) == rows,
            Err(error) => result == Err::<Vec<SpongeRow>, _>(error),
        },
{
    if let Err(error) = layout.validate_execution(recorded.operations.as_slice(), &recorded.trace) {
        return Err(TranscriptBindingError::Layout(error));
    }
    match recorded.trace.sponge_rows() {
        Ok(rows) => Ok(rows),
        Err(error) => Err(TranscriptBindingError::Transcript(error)),
    }
}

/// The first eight words of a word sequence, as plain values.
fn first_eight(words: &[M31Word]) -> (values: [u32; 8])
    requires
        words@.len() >= 8,
    ensures
        values@ == word_values(words@).take(8),
{
    let values = [
        words[0].as_u32(),
        words[1].as_u32(),
        words[2].as_u32(),
        words[3].as_u32(),
        words[4].as_u32(),
        words[5].as_u32(),
        words[6].as_u32(),
        words[7].as_u32(),
    ];
    proof {
        assert(values@ =~= word_values(words@).take(8));
    }
    values
}

/// The plain sponge rows of a lane, if it is active.
pub open spec fn lane_view(lane: Option<&Vec<SpongeRow>>) -> Option<Seq<SpongeRowView>> {
    match lane {
        Some(rows) => Some(rows@.map_values(|r: SpongeRow| r@)),
        None => None,
    }
}

/// The plain sponge rows of an owned lane, if it is active.
pub open spec fn owned_lane_view(lane: Option<Vec<SpongeRow>>) -> Option<Seq<SpongeRowView>> {
    match lane {
        Some(rows) => Some(rows@.map_values(|r: SpongeRow| r@)),
        None => None,
    }
}

fn binding_of(row: &CallRow, lane: Option<&Vec<SpongeRow>>) -> (result: Result<CallBinding, TranscriptBindingError>)
    ensures
        match spec_binding(*row, lane_view(lane)) {
            Ok(binding) => result matches Ok(b) && b@ == binding,
            Err(error) => result == Err::<CallBinding, _>(error),
        },
{
    match lane {
        None => {
            let binding = CallBinding { chunk: [0u32; 8], output: [0u32; 8] };
            proof {
                assert(binding.chunk@ =~= zero_words());
                assert(binding.output@ =~= zero_words());
            }
            Ok(binding)
        },
        Some(rows) => {
            let index = row.call_id as usize;
            if index >= rows.len() {
                return Err(TranscriptBindingError::CallMissing { verifier_id: row.verifier_id, call_id: row.call_id });
            }
            let call = &rows[index];
            let chunk = first_eight(call.chunk.as_slice());
            let output = if row.is_last == 1 {
                first_eight(call.output.as_slice())
            } else {
                [0u32; 8]
            };
            let binding = CallBinding { chunk, output };
            proof {
                assert(word_values(call.chunk@).take(8) =~= word_values(call.chunk@));
                if row.is_last != 1 {
                    assert(binding.output@ =~= zero_words());
                }
            }
            Ok(binding)
        },
    }
}

proof fn lemma_bindings_error_sticks(
    rows: Seq<CallRow>,
    lanes: (Option<Seq<SpongeRowView>>, Option<Seq<SpongeRowView>>, Option<Seq<SpongeRowView>>),
    n: nat,
    m: nat,
)
    requires
        n <= m,
        spec_bindings(rows, lanes, n).1 is Some,
    ensures
        spec_bindings(rows, lanes, m) == spec_bindings(rows, lanes, n),
    decreases m - n,
{
    if m > n {
        lemma_bindings_error_sticks(rows, lanes, n, (m - 1) as nat);
    }
}

/// The views of a list of bindings.
pub open spec fn binding_views(table: Seq<CallBinding>) -> Seq<(Seq<u32>, Seq<u32>)> {
    table.map_values(|b: CallBinding| b@)
}

/// Materializes each call row's chunk and rate output: from the recorded
/// transcript of an active lane, after checking it against that lane's
/// layout, and zeros for inactive lanes. Bindings are pushed in row order
/// until the first row that fails.
#[verifier::loop_isolation(false)]
pub fn push_call_bindings(
    table: &mut Vec<CallBinding>,
    preprocessed: &TranscriptCallPreprocessed,
    witness: UniversalTranscriptWitness,
) -> (result: Result<(), TranscriptBindingError>)
    ensures
        ({
            let (bound, error) = spec_push_bindings(*preprocessed, witness);
            &&& binding_views(final(table)@) == binding_views(old(table)@) + bound
            &&& match error {
                Some(error) => result == Err::<(), _>(error),
                None => result is Ok,
            }
        }),
{
    let ghost start = table@;
    let (segment, left, right) = match witness {
        UniversalTranscriptWitness::Segment(recorded) => {
            match validated_rows(preprocessed.vm_layout(), recorded) {
                Ok(rows) => (Some(rows), None, None),
                Err(error) => {
                    proof {
                        assert(binding_views(table@) =~= binding_views(start) + Seq::empty());
                    }
                    return Err(error);
                },
            }
        },
        UniversalTranscriptWitness::Binary { left, right } => {
            let left_rows = match validated_rows(preprocessed.recursion_layout(), left) {
                Ok(rows) => rows,
                Err(error) => {
                    proof {
                        assert(binding_views(table@) =~= binding_views(start) + Seq::empty());
                    }
                    return Err(error);
                },
            };
            let right_rows = match validated_rows(preprocessed.recursion_layout(), right) {
                Ok(rows) => rows,
                Err(error) => {
                    proof {
                        assert(binding_views(table@) =~= binding_views(start) + Seq::empty());
                    }
                    return Err(error);
                },
            };
            (None, Some(left_rows), Some(right_rows))
        },
        UniversalTranscriptWitness::Empty => (None, None, None),
    };
    let ghost lanes = spec_lanes(*preprocessed, witness)->Ok_0;
    assert(owned_lane_view(segment) == lanes.0);
    assert(owned_lane_view(left) == lanes.1);
    assert(owned_lane_view(right) == lanes.2);
    let rows = preprocessed.rows();
    let n = rows.len();
    let mut k: usize = 0;
    proof {
        assert(binding_views(table@) =~= binding_views(start) + spec_bindings(rows@, lanes, 0).0);
    }
    while k < n
        invariant
            k <= n,
            n == rows@.len(),
            rows@ == preprocessed.spec_rows(),
            spec_bindings(rows@, lanes, k as nat).1 is None,
            binding_views(table@) == binding_views(start) + spec_bindings(rows@, lanes, k as nat).0,
        decreases n - k,
    {
        let row = &rows[k];
        let lane = if row.verifier_id == SEGMENT_VERIFIER_ID {
            segment.as_ref()
        } else if row.verifier_id == LEFT_RECURSION_VERIFIER_ID {
            left.as_ref()
        } else if row.verifier_id == RIGHT_RECURSION_VERIFIER_ID {
            right.as_ref()
        } else {
            proof {
                lemma_bindings_error_sticks(rows@, lanes, (k + 1) as nat, n as nat);
            }
            return Err(TranscriptBindingError::UnknownVerifierId { verifier_id: row.verifier_id });
        };
        assert(lane_view(lane) == spec_row_lane(rows@[k as int], lanes)->Ok_0);
        let binding = match binding_of(row, lane) {
            Ok(binding) => binding,
            Err(error) => {
                proof {
                    lemma_bindings_error_sticks(rows@, lanes, (k + 1) as nat, n as nat);
                }
                return Err(error);
            },
        };
        let ghost before = table@;
        table.push(binding);
        proof {
            assert(binding_views(table@) =~= binding_views(before).push(binding@));
        }
        k = k + 1;
    }
    Ok(())
}

} // verus!
