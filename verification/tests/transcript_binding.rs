use recursion::kernel::{ProofKind, VerifierControlPlan, VerifierSchema, VerifierStep};
use recursion::m31::M31Word;
use recursion::transcript_binding::{
    push_call_bindings, CallBinding, RecordedTranscript, TranscriptBindingError,
    TranscriptCallPreprocessed, TranscriptLane, UniversalTranscriptWitness,
};
use recursion::transcript_layout::{TranscriptLayout, TranscriptLayoutError, TranscriptWordSource};
use recursion::transcript_program::TranscriptOperationTrace;
use recursion::transcript_trace::{HashFrame, PermutationId, PoseidonCall, TranscriptTrace};

fn plan(schema: VerifierSchema, steps: Vec<VerifierStep>) -> VerifierControlPlan {
    VerifierControlPlan { schema, steps, pcs_parameter_word_count: 6, statement_word_count: 10 }
}

fn vm_plan() -> VerifierControlPlan {
    plan(
        VerifierSchema::Vm,
        vec![
            VerifierStep::BindProtocol,
            VerifierStep::DrawCompositionRandomness,
            VerifierStep::VerifyAndAbsorbPcsPow { bits: 3 },
            VerifierStep::EvaluateAirInstruction { instruction: 0 },
            VerifierStep::AbsorbSampledValues { count: 2 },
        ],
    )
}

fn recursion_plan() -> VerifierControlPlan {
    plan(VerifierSchema::Recursion, vec![VerifierStep::BindProtocol, VerifierStep::DrawOodsPoint])
}

#[test]
fn one_row_per_call_of_each_lane() {
    let table = TranscriptCallPreprocessed::new(&vm_plan(), &recursion_plan()).unwrap();
    let vm_calls = TranscriptLayout::new(&vm_plan()).unwrap().calls().len();
    let recursion_calls = TranscriptLayout::new(&recursion_plan()).unwrap().calls().len();
    assert_eq!(vm_calls, 18);
    assert_eq!(table.rows().len(), vm_calls + 2 * recursion_calls);
    assert_eq!(table.active_call_count(ProofKind::SegmentLeaf), vm_calls);
    assert_eq!(table.active_call_count(ProofKind::BinaryNode), 2 * recursion_calls);
    assert_eq!(table.active_call_count(ProofKind::EmptyLeaf), 0);
    assert_eq!(table.vm_layout().calls().len(), vm_calls);
    assert_eq!(table.recursion_layout().calls().len(), recursion_calls);
    let rows = table.rows();
    assert!(rows[..vm_calls].iter().all(|row| (row.verifier_id, row.segment_mask, row.binary_mask) == (0, 1, 0)));
    assert!(rows[vm_calls..vm_calls + recursion_calls].iter().all(|row| (row.verifier_id, row.binary_mask) == (1, 1)));
    assert!(rows[vm_calls + recursion_calls..].iter().all(|row| (row.verifier_id, row.binary_mask) == (2, 1)));
    for (index, row) in rows[..vm_calls].iter().enumerate() {
        assert_eq!(row.call_id, index as u32);
    }
}

#[test]
fn proof_of_work_rows_end_on_the_draw_frame() {
    let table = TranscriptCallPreprocessed::new(&vm_plan(), &recursion_plan()).unwrap();
    let rows = table.rows();
    // The proof-of-work operation owns calls 9 to 13.
    assert_eq!((rows[9].sequence, rows[9].tag, rows[9].args), (2, 20, [3, 0, 0, 0]));
    assert_eq!(rows[9].is_operation_first, 1);
    assert_eq!(rows[10].is_operation_first, 0);
    assert_eq!((rows[13].pow_final_mask, rows[13].is_last, rows[13].is_draw), (1, 1, 1));
    assert!(rows.iter().enumerate().all(|(index, row)| (row.pow_final_mask == 1) == (index == 13)));
    assert_eq!((rows[14].sequence, rows[14].tag), (4, 15));
}

#[test]
fn lanes_need_their_schemas() {
    assert_eq!(
        TranscriptCallPreprocessed::new(&recursion_plan(), &recursion_plan()).err(),
        Some(TranscriptBindingError::SchemaMismatch {
            lane: TranscriptLane::Segment,
            expected: VerifierSchema::Vm,
            actual: VerifierSchema::Recursion,
        })
    );
    assert_eq!(
        TranscriptCallPreprocessed::new(&vm_plan(), &vm_plan()).err(),
        Some(TranscriptBindingError::SchemaMismatch {
            lane: TranscriptLane::Binary,
            expected: VerifierSchema::Recursion,
            actual: VerifierSchema::Vm,
        })
    );
}

#[test]
fn call_columns_lay_out_each_row() {
    let table = TranscriptCallPreprocessed::new(&vm_plan(), &recursion_plan()).unwrap();
    let columns = table.column_values();
    assert_eq!(columns.len(), 18);
    let size = 1usize << table.log_size();
    assert!(size >= table.rows().len());
    assert!(columns.iter().all(|column| column.len() == size));
    let row = |i: usize| columns.iter().map(|column| column[i]).collect::<Vec<u32>>();
    assert_eq!(row(13), vec![1, 1, 0, 0, 2, 20, 3, 0, 0, 0, 13, 4, 1, 0, 1, 1, 0, 1]);
    assert!(row(table.rows().len()).iter().all(|value| *value == 0));
}

fn recording(layout: &TranscriptLayout, mark: u32) -> RecordedTranscript {
    let operations = layout
        .operations()
        .iter()
        .map(|op| TranscriptOperationTrace {
            sequence: op.sequence(),
            step: op.step(),
            first_hash_id: op.first_hash_id(),
            hash_count: op.hash_count(),
            first_call_id: op.first_call_id(),
            call_count: op.call_count(),
            draw: None,
        })
        .collect();
    let hash_frames = layout
        .frames()
        .iter()
        .map(|frame| HashFrame {
            hash_id: frame.hash_id(),
            first_call_id: frame.first_call_id(),
            call_count: frame.call_count(),
            purpose: frame.purpose(),
            words: frame.words()[..frame.stream_word_count() as usize]
                .iter()
                .map(|source| match source {
                    TranscriptWordSource::Constant(word) => *word,
                    _ => M31Word::zero(),
                })
                .collect(),
        })
        .collect();
    let poseidon_calls = layout
        .calls()
        .iter()
        .map(|call| {
            let mut output = [M31Word::zero(); 16];
            if call.is_last() {
                output[0] = M31Word::try_from_u32(mark + call.call_id()).unwrap();
                output[7] = M31Word::from_u16(9);
                output[8] = M31Word::from_u16(11);
            }
            PoseidonCall {
                id: PermutationId { call_id: call.call_id(), hash_id: call.hash_id(), step: call.step() },
                input: [M31Word::zero(); 16],
                output,
            }
        })
        .collect();
    RecordedTranscript {
        operations,
        trace: TranscriptTrace { hash_frames, poseidon_calls, pow_checks: Vec::new() },
    }
}

#[test]
fn segment_witness_binds_frame_outputs_and_zeroes_binary_lanes() {
    let table = TranscriptCallPreprocessed::new(&vm_plan(), &recursion_plan()).unwrap();
    let recorded = recording(table.vm_layout(), 100);
    let mut bindings: Vec<CallBinding> = Vec::new();
    let witness = UniversalTranscriptWitness::Segment(&recorded);
    assert_eq!(witness.proof_kind(), ProofKind::SegmentLeaf);
    assert_eq!(push_call_bindings(&mut bindings, &table, witness), Ok(()));
    assert_eq!(bindings.len(), table.rows().len());
    for (row, binding) in table.rows().iter().zip(&bindings) {
        assert_eq!(binding.chunk, [0; 8]);
        if row.verifier_id == 0 && row.is_last == 1 {
            assert_eq!(binding.output, [100 + row.call_id, 0, 0, 0, 0, 0, 0, 9]);
        } else {
            assert_eq!(binding.output, [0; 8]);
        }
    }
}

#[test]
fn binary_witness_binds_both_children() {
    let table = TranscriptCallPreprocessed::new(&vm_plan(), &recursion_plan()).unwrap();
    let left = recording(table.recursion_layout(), 200);
    let right = recording(table.recursion_layout(), 300);
    let mut bindings = Vec::new();
    let witness = UniversalTranscriptWitness::Binary { left: &left, right: &right };
    assert_eq!(push_call_bindings(&mut bindings, &table, witness), Ok(()));
    let vm_calls = table.vm_layout().calls().len();
    assert!(bindings[..vm_calls].iter().all(|binding| binding.output == [0; 8]));
    for (row, binding) in table.rows().iter().zip(&bindings).skip(vm_calls) {
        let mark = if row.verifier_id == 1 { 200 } else { 300 };
        if row.is_last == 1 {
            assert_eq!(binding.output[0], mark + row.call_id);
        } else {
            assert_eq!(binding.output, [0; 8]);
        }
    }
}

#[test]
fn empty_witness_binds_only_zeros() {
    let table = TranscriptCallPreprocessed::new(&vm_plan(), &recursion_plan()).unwrap();
    let mut bindings = Vec::new();
    assert_eq!(push_call_bindings(&mut bindings, &table, UniversalTranscriptWitness::Empty), Ok(()));
    assert_eq!(bindings.len(), table.rows().len());
    assert!(bindings.iter().all(|binding| binding.chunk == [0; 8] && binding.output == [0; 8]));
}

#[test]
fn witness_of_another_layout_is_rejected_before_binding() {
    let table = TranscriptCallPreprocessed::new(&vm_plan(), &recursion_plan()).unwrap();
    let wrong = recording(table.recursion_layout(), 0);
    let mut bindings = Vec::new();
    let result = push_call_bindings(&mut bindings, &table, UniversalTranscriptWitness::Segment(&wrong));
    assert!(matches!(result, Err(TranscriptBindingError::Layout(TranscriptLayoutError::LengthMismatch { .. }))));
    assert!(bindings.is_empty());
}
