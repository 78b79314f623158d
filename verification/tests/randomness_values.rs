use recursion::kernel::{VerifierControlPlan, VerifierSchema, VerifierStep};
use recursion::m31::M31Word;
use recursion::randomness_values::{push_verifier_randomness, RandomnessValues};
use recursion::transcript_binding::{RecordedTranscript, UniversalTranscriptWitness};
use recursion::transcript_program::TranscriptOperationTrace;
use recursion::transcript_trace::TranscriptTrace;
use recursion::verifier_randomness::{VerifierRandomnessError, VerifierRandomnessPreprocessed};

fn plan(schema: VerifierSchema, steps: Vec<VerifierStep>) -> VerifierControlPlan {
    VerifierControlPlan { schema, steps, pcs_parameter_word_count: 6, statement_word_count: 10 }
}

fn table() -> VerifierRandomnessPreprocessed {
    VerifierRandomnessPreprocessed::new(
        &plan(
            VerifierSchema::Vm,
            vec![VerifierStep::BindProtocol, VerifierStep::DrawCompositionRandomness, VerifierStep::DrawOodsPoint],
        ),
        &plan(VerifierSchema::Recursion, vec![VerifierStep::DrawDeepRandomness]),
    )
    .unwrap()
}

fn operation(sequence: u32, step: VerifierStep, draw: Option<u32>) -> TranscriptOperationTrace {
    TranscriptOperationTrace {
        sequence,
        step,
        first_hash_id: sequence,
        hash_count: 1,
        first_call_id: sequence,
        call_count: 1,
        draw: draw.map(|base| core::array::from_fn(|w| M31Word::try_from_u32(base + w as u32).unwrap())),
    }
}

fn recorded(operations: Vec<TranscriptOperationTrace>) -> RecordedTranscript {
    RecordedTranscript {
        operations,
        trace: TranscriptTrace { hash_frames: Vec::new(), poseidon_calls: Vec::new(), pow_checks: Vec::new() },
    }
}

fn vm_transcript() -> RecordedTranscript {
    recorded(vec![
        operation(0, VerifierStep::BindProtocol, None),
        operation(1, VerifierStep::DrawCompositionRandomness, Some(10)),
        operation(2, VerifierStep::DrawOodsPoint, Some(20)),
    ])
}

fn words(values: &[RandomnessValues]) -> Vec<(bool, [u32; 8])> {
    values.iter().map(|row| (row.active, row.words)).collect()
}

#[test]
fn segment_mode_reads_the_vm_draws_and_zeroes_the_children() {
    let vm = vm_transcript();
    let mut table_values = Vec::new();
    assert_eq!(
        push_verifier_randomness(&mut table_values, &table(), UniversalTranscriptWitness::Segment(&vm)),
        Ok(())
    );
    assert_eq!(
        words(&table_values),
        vec![
            (true, [10, 11, 12, 13, 14, 15, 16, 17]),
            (true, [20, 21, 22, 23, 24, 25, 26, 27]),
            (false, [0; 8]),
            (false, [0; 8]),
        ]
    );
}

#[test]
fn binary_mode_reads_each_child_draw() {
    let left = recorded(vec![operation(0, VerifierStep::DrawDeepRandomness, Some(100))]);
    let right = recorded(vec![operation(0, VerifierStep::DrawDeepRandomness, Some(200))]);
    let mut table_values = Vec::new();
    push_verifier_randomness(
        &mut table_values,
        &table(),
        UniversalTranscriptWitness::Binary { left: &left, right: &right },
    )
    .unwrap();
    let rows = words(&table_values);
    assert_eq!(rows[0], (false, [0; 8]));
    assert_eq!(rows[2].1[0], 100);
    assert_eq!(rows[3].1[7], 207);
    let mut empty = Vec::new();
    push_verifier_randomness(&mut empty, &table(), UniversalTranscriptWitness::Empty).unwrap();
    assert!(words(&empty).iter().all(|row| *row == (false, [0; 8])));
}

#[test]
fn missing_or_mismatched_operations_stop_the_table() {
    let short = recorded(vec![operation(1, VerifierStep::DrawCompositionRandomness, Some(10))]);
    let mut table_values = Vec::new();
    assert_eq!(
        push_verifier_randomness(&mut table_values, &table(), UniversalTranscriptWitness::Segment(&short)),
        Err(VerifierRandomnessError::OperationMissing { verifier_id: 0, sequence: 2 })
    );
    assert_eq!(table_values.len(), 1);
    let swapped = recorded(vec![
        operation(1, VerifierStep::DrawOodsPoint, Some(10)),
        operation(2, VerifierStep::DrawOodsPoint, Some(20)),
    ]);
    assert_eq!(
        push_verifier_randomness(&mut Vec::new(), &table(), UniversalTranscriptWitness::Segment(&swapped)),
        Err(VerifierRandomnessError::OperationMismatch {
            verifier_id: 0,
            sequence: 1,
            expected: VerifierStep::DrawCompositionRandomness,
            actual: VerifierStep::DrawOodsPoint,
        })
    );
    let silent = recorded(vec![
        operation(1, VerifierStep::DrawCompositionRandomness, None),
        operation(2, VerifierStep::DrawOodsPoint, Some(20)),
    ]);
    assert_eq!(
        push_verifier_randomness(&mut Vec::new(), &table(), UniversalTranscriptWitness::Segment(&silent)),
        Err(VerifierRandomnessError::DrawMissing { verifier_id: 0, sequence: 1 })
    );
}
