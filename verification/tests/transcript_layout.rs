use recursion::kernel::{VerifierControlPlan, VerifierSchema, VerifierStep};
use recursion::m31::M31Word;
use recursion::transcript_layout::{
    LayoutPart, TranscriptLayout, TranscriptLayoutError, TranscriptWordSource,
    DRAW_TAG,
};
use recursion::transcript_program::{
    HeaderField, TranscriptEffect, TranscriptOperationTrace, TranscriptProgramError,
};
use recursion::transcript_trace::{
    HashFrame, HashPurpose, PermutationId, PoseidonCall, TranscriptError, TranscriptTrace,
};

fn plan(steps: Vec<VerifierStep>) -> VerifierControlPlan {
    VerifierControlPlan {
        schema: VerifierSchema::Vm,
        steps,
        pcs_parameter_word_count: 6,
        statement_word_count: 10,
    }
}

fn fixture_plan() -> VerifierControlPlan {
    plan(vec![
        VerifierStep::BindProtocol,
        VerifierStep::DrawCompositionRandomness,
        VerifierStep::VerifyAndAbsorbPcsPow { bits: 3 },
        VerifierStep::EvaluateAirInstruction { instruction: 0 },
        VerifierStep::AbsorbSampledValues { count: 2 },
    ])
}

fn value(word: M31Word) -> u32 {
    word.as_u32()
}

#[test]
fn operations_own_consecutive_frames_and_calls() {
    let layout = TranscriptLayout::new(&fixture_plan()).unwrap();
    let ops = layout.operations();
    assert_eq!(ops.len(), 4);
    let summary: Vec<(u32, u32, u32, u32, u32, u32, u32)> = ops
        .iter()
        .map(|op| {
            (
                op.ordinal(),
                op.sequence(),
                op.first_hash_id(),
                op.hash_count(),
                op.first_call_id(),
                op.call_count(),
                op.payload_word_count(),
            )
        })
        .collect();
    assert_eq!(
        summary,
        vec![
            (0, 0, 0, 1, 0, 4, 8),
            (1, 1, 1, 2, 4, 5, 0),
            (2, 2, 3, 2, 9, 5, 4),
            (3, 4, 5, 1, 14, 4, 8),
        ]
    );
    assert_eq!(ops[1].effect(), TranscriptEffect::Draw);
    assert_eq!(ops[2].effect(), TranscriptEffect::Pow);
    assert_eq!(ops[3].step(), VerifierStep::AbsorbSampledValues { count: 2 });
    assert_eq!(layout.frames().len(), 6);
    assert_eq!(layout.calls().len(), 18);
}

#[test]
fn frames_are_padded_to_whole_calls() {
    let layout = TranscriptLayout::new(&fixture_plan()).unwrap();
    let frames = layout.frames();
    let shape: Vec<(u32, u32, u32, u32, usize)> = frames
        .iter()
        .map(|frame| {
            (
                frame.hash_id(),
                frame.first_call_id(),
                frame.call_count(),
                frame.stream_word_count(),
                frame.words().len(),
            )
        })
        .collect();
    assert_eq!(
        shape,
        vec![
            (0, 0, 4, 24, 32),
            (1, 4, 3, 16, 24),
            (2, 7, 2, 10, 16),
            (3, 9, 3, 20, 24),
            (4, 12, 2, 10, 16),
            (5, 14, 4, 24, 32),
        ]
    );
    let draw = &frames[2];
    assert_eq!(draw.purpose(), HashPurpose::Draw);
    let words = draw.words();
    for limb in 0..8 {
        assert_eq!(words[limb as usize], TranscriptWordSource::Digest { limb });
    }
    assert_eq!(words[8], TranscriptWordSource::Constant(M31Word::zero()));
    assert_eq!(
        words[9],
        TranscriptWordSource::Constant(M31Word::try_from_u32(DRAW_TAG).unwrap())
    );
    assert_eq!(words[10], TranscriptWordSource::Constant(M31Word::from_u16(1)));
    for index in 11..16 {
        assert_eq!(words[index], TranscriptWordSource::Constant(M31Word::zero()));
    }
}

#[test]
fn mix_frame_holds_header_and_payload_slots() {
    let layout = TranscriptLayout::new(&fixture_plan()).unwrap();
    let frame = &layout.frames()[5];
    assert_eq!(frame.purpose(), HashPurpose::Mix);
    let words = frame.words();
    match words[8] {
        TranscriptWordSource::Constant(word) => assert_eq!(value(word), 0x5452),
        other => panic!("unexpected header source {other:?}"),
    }
    match words[9] {
        TranscriptWordSource::Constant(word) => assert_eq!(value(word), 4),
        other => panic!("unexpected sequence source {other:?}"),
    }
    for index in 0..8 {
        assert_eq!(words[16 + index as usize], TranscriptWordSource::Payload { index });
    }
    assert_eq!(words[24], TranscriptWordSource::Constant(M31Word::from_u16(1)));
}

#[test]
fn call_ids_are_positions_and_steps_restart_per_frame() {
    let layout = TranscriptLayout::new(&fixture_plan()).unwrap();
    for (index, call) in layout.calls().iter().enumerate() {
        assert_eq!(call.call_id() as usize, index);
    }
    let call = &layout.calls()[7];
    assert_eq!(
        (call.hash_id(), call.step(), call.is_first(), call.is_last(), call.purpose()),
        (2, 0, true, false, HashPurpose::Draw)
    );
    let last = &layout.calls()[8];
    assert_eq!((last.hash_id(), last.step(), last.is_first(), last.is_last()), (2, 1, false, true));
}

#[test]
fn payload_overflow_is_rejected() {
    let result = TranscriptLayout::new(&plan(vec![VerifierStep::AbsorbClaimedSums {
        count: u32::MAX,
    }]));
    assert!(matches!(
        result,
        Err(TranscriptLayoutError::PayloadWordCountOverflow { count: u32::MAX })
    ));
}

#[test]
fn non_canonical_header_argument_is_rejected() {
    let result = TranscriptLayout::new(&plan(vec![VerifierStep::AbsorbTraceCommitment {
        tree: 0x8000_0000,
    }]));
    assert!(matches!(
        result,
        Err(TranscriptLayoutError::Program(TranscriptProgramError::ControlWordOutOfRange {
            field: HeaderField::Argument,
            value: 0x8000_0000,
        }))
    ));
}

#[test]
fn empty_plan_has_an_empty_layout() {
    let layout = TranscriptLayout::new(&plan(vec![VerifierStep::Complete])).unwrap();
    assert!(layout.operations().is_empty());
    assert!(layout.frames().is_empty());
    assert!(layout.calls().is_empty());
}

fn recording(layout: &TranscriptLayout) -> (Vec<TranscriptOperationTrace>, TranscriptTrace) {
    let operations = layout
        .operations()
        .iter()
        .map(|op| TranscriptOperationTrace {
            sequence: op.sequence(),
            step: op.step(),
            first_hash_id: op.first_hash_id(),
            hash_count: op.hash_count(),
            first_call_id: op.first_call_id(),
            call_count: op.call_count(),
            draw: None,
        })
        .collect();
    let hash_frames = layout
        .frames()
        .iter()
        .map(|frame| HashFrame {
            hash_id: frame.hash_id(),
            first_call_id: frame.first_call_id(),
            call_count: frame.call_count(),
            purpose: frame.purpose(),
            words: frame.words()[..frame.stream_word_count() as usize]
                .iter()
                .map(|source| match source {
                    TranscriptWordSource::Constant(word) => *word,
                    _ => M31Word::zero(),
                })
                .collect(),
        })
        .collect();
    let poseidon_calls = layout
        .calls()
        .iter()
        .map(|call| PoseidonCall {
            id: PermutationId {
                call_id: call.call_id(),
                hash_id: call.hash_id(),
                step: call.step(),
            },
            input: [M31Word::zero(); 16],
            output: [M31Word::zero(); 16],
        })
        .collect();
    (
        operations,
        TranscriptTrace {
            hash_frames,
            poseidon_calls,
            pow_checks: Vec::new(),
        },
    )
}

#[test]
fn matching_recording_is_accepted() {
    let layout = TranscriptLayout::new(&fixture_plan()).unwrap();
    let (operations, trace) = recording(&layout);
    assert_eq!(layout.validate_execution(&operations, &trace), Ok(()));
}

#[test]
fn changed_constant_word_is_rejected() {
    let layout = TranscriptLayout::new(&fixture_plan()).unwrap();
    let (operations, mut trace) = recording(&layout);
    trace.hash_frames[2].words[9] = M31Word::zero();
    assert_eq!(
        layout.validate_execution(&operations, &trace),
        Err(TranscriptLayoutError::ConstantWordMismatch { hash_id: 2 })
    );
}

#[test]
fn missing_operation_is_rejected() {
    let layout = TranscriptLayout::new(&fixture_plan()).unwrap();
    let (mut operations, trace) = recording(&layout);
    operations.pop();
    assert_eq!(
        layout.validate_execution(&operations, &trace),
        Err(TranscriptLayoutError::LengthMismatch {
            field: LayoutPart::Operations,
            expected: 4,
            actual: 3,
        })
    );
}

#[test]
fn moved_operation_is_rejected() {
    let layout = TranscriptLayout::new(&fixture_plan()).unwrap();
    let (mut operations, trace) = recording(&layout);
    operations[1].first_call_id += 1;
    assert_eq!(
        layout.validate_execution(&operations, &trace),
        Err(TranscriptLayoutError::OperationMismatch { ordinal: 1 })
    );
}

#[test]
fn relabelled_frame_is_rejected() {
    let layout = TranscriptLayout::new(&fixture_plan()).unwrap();
    let (operations, mut trace) = recording(&layout);
    trace.hash_frames[3].purpose = HashPurpose::Draw;
    assert_eq!(
        layout.validate_execution(&operations, &trace),
        Err(TranscriptLayoutError::FrameMismatch { hash_id: 3 })
    );
}

#[test]
fn broken_session_steps_are_rejected_before_layout_checks() {
    let layout = TranscriptLayout::new(&fixture_plan()).unwrap();
    let (operations, mut trace) = recording(&layout);
    trace.poseidon_calls[1].id.step = 2;
    assert_eq!(
        layout.validate_execution(&operations, &trace),
        Err(TranscriptLayoutError::Transcript(TranscriptError::TraceStepMismatch {
            call_id: 1,
            expected: 1,
            actual: 2,
        }))
    );
}

#[test]
fn operations_are_the_plans_transcript_steps_in_order() {
    let layout = TranscriptLayout::new(&fixture_plan()).unwrap();
    let coordinates: Vec<(u32, TranscriptEffect, u32, u32)> = layout
        .operations()
        .iter()
        .map(|op| (op.sequence(), op.effect(), op.hash_count(), op.payload_word_count()))
        .collect();
    // Step 3 evaluates an AIR instruction and takes no transcript operation.
    assert_eq!(
        coordinates,
        vec![
            (0, TranscriptEffect::Mix, 1, 8),
            (1, TranscriptEffect::Draw, 2, 0),
            (2, TranscriptEffect::Pow, 2, 4),
            (4, TranscriptEffect::Mix, 1, 8),
        ]
    );
    for op in layout.operations() {
        let mix = &layout.frames()[op.first_hash_id() as usize];
        assert_eq!(mix.stream_word_count(), 16 + op.payload_word_count());
        if op.hash_count() == 2 {
            assert_eq!(layout.frames()[op.first_hash_id() as usize + 1].stream_word_count(), 10);
        }
    }
}
