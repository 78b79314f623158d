use recursion::kernel::{VerifierControlPlan, VerifierSchema, VerifierStep};
use recursion::m31::{M31Word, M31_MODULUS};
use recursion::transcript_kernel::{TranscriptBackend, TranscriptKernel};
use recursion::transcript_program::{
    execute_fixed_transcript, execute_step, operation_header, ProofWireWords, TranscriptProgramError, WireField,
};
use recursion::transcript_trace::{PermutationId, PowCheck, TranscriptError};

fn word(value: u32) -> M31Word {
    M31Word::try_from_u32(value).unwrap()
}

/// A stand-in permutation: each output word mixes two input words and its
/// position. Proof of work passes when the drawn word has enough trailing
/// zeros.
#[derive(Default)]
struct MixBackend {
    permutations: u32,
}

impl TranscriptBackend for MixBackend {
    fn permute(&mut self, _id: PermutationId, input: [M31Word; 16]) -> Result<[M31Word; 16], TranscriptError> {
        self.permutations += 1;
        Ok(core::array::from_fn(|w| {
            let mixed = (input[w].as_u32() as u64 * 3 + input[(w + 5) % 16].as_u32() as u64 + w as u64 + 1)
                % M31_MODULUS as u64;
            word(mixed as u32)
        }))
    }

    fn verify_pow(&mut self, check: PowCheck) -> Result<(), TranscriptError> {
        if check.word.as_u32().trailing_zeros() >= check.bits {
            Ok(())
        } else {
            Err(TranscriptError::InvalidProofOfWork { nonce: check.nonce, bits: check.bits, word: check.word })
        }
    }
}

fn plan(steps: Vec<VerifierStep>) -> VerifierControlPlan {
    VerifierControlPlan { schema: VerifierSchema::Vm, steps, pcs_parameter_word_count: 2, statement_word_count: 3 }
}

fn steps() -> Vec<VerifierStep> {
    vec![
        VerifierStep::BindProtocol,
        VerifierStep::BindStatement,
        VerifierStep::BindPcsParameters,
        VerifierStep::AbsorbTraceCommitment { tree: 0 },
        VerifierStep::VerifyAndAbsorbInteractionPow { bits: 0 },
        VerifierStep::DrawRelationChallenge { challenge: 0 },
        VerifierStep::AccumulatePublicLogupTerm { term: 0 },
        VerifierStep::AbsorbClaimedSums { count: 1 },
        VerifierStep::DrawQueryBlock { block: 0, first_query: 0, query_count: 2 },
        VerifierStep::Complete,
    ]
}

fn wire_words() -> ProofWireWords {
    ProofWireWords {
        commitments: vec![[1, 2, 3, 4, 5, 6, 7, 8].map(word)],
        fri_commitments: Vec::new(),
        claimed_sums: vec![[9, 10, 11, 12].map(word)],
        sampled_values: Vec::new(),
        last_layer_coefficients: Vec::new(),
        interaction_pow: 0x0001_0002_0003_0004,
        pcs_pow: 0,
        queries: 2,
    }
}

fn protocol() -> [M31Word; 8] {
    [21, 22, 23, 24, 25, 26, 27, 28].map(word)
}

fn statement() -> Vec<M31Word> {
    [31, 32, 33].map(word).to_vec()
}

fn pcs() -> Vec<M31Word> {
    [41, 42].map(word).to_vec()
}

fn absorb_with_header(kernel: &mut TranscriptKernel<MixBackend>, sequence: u32, step: VerifierStep, payload: &[M31Word]) {
    let mut words = operation_header(sequence, step).unwrap();
    words.extend_from_slice(payload);
    kernel.absorb_m31_words(&words).unwrap();
}

#[test]
fn the_driver_records_each_transcript_operation_in_plan_order() {
    let (kernel, operations) =
        execute_fixed_transcript(MixBackend::default(), &plan(steps()), protocol(), &statement(), &pcs(), &wire_words())
            .unwrap();
    let sequences: Vec<u32> = operations.iter().map(|op| op.sequence).collect();
    assert_eq!(sequences, vec![0, 1, 2, 3, 4, 5, 7, 8]);
    let hash_counts: Vec<u32> = operations.iter().map(|op| op.hash_count).collect();
    assert_eq!(hash_counts, vec![1, 1, 1, 1, 2, 2, 1, 2]);
    let first_hashes: Vec<u32> = operations.iter().map(|op| op.first_hash_id).collect();
    assert_eq!(first_hashes, vec![0, 1, 2, 3, 4, 6, 8, 9]);
    assert_eq!(kernel.next_hash_id(), 11);
    let drawn: Vec<bool> = operations.iter().map(|op| op.draw.is_some()).collect();
    assert_eq!(drawn, vec![false, false, false, false, false, true, false, true]);
    for pair in operations.windows(2) {
        assert_eq!(pair[0].first_call_id + pair[0].call_count, pair[1].first_call_id);
    }
    let last = operations.last().unwrap();
    assert_eq!(last.first_call_id + last.call_count, kernel.next_call_id());
    assert_eq!(kernel.backend().permutations, kernel.next_call_id());
    assert_eq!(operations[6].step, VerifierStep::AbsorbClaimedSums { count: 1 });
}

#[test]
fn the_driver_follows_the_one_header_then_payload_schedule() {
    let (kernel, operations) =
        execute_fixed_transcript(MixBackend::default(), &plan(steps()), protocol(), &statement(), &pcs(), &wire_words())
            .unwrap();
    let all = steps();
    let wire = wire_words();
    let mut replay = TranscriptKernel::new(MixBackend::default());
    absorb_with_header(&mut replay, 0, all[0], &protocol());
    absorb_with_header(&mut replay, 1, all[1], &statement());
    absorb_with_header(&mut replay, 2, all[2], &pcs());
    absorb_with_header(&mut replay, 3, all[3], &wire.commitments[0]);
    let nonce_words = [0x0004, 0x0003, 0x0002, 0x0001].map(word);
    absorb_with_header(&mut replay, 4, all[4], &nonce_words);
    replay.verify_pow_from_current_digest(wire.interaction_pow, 0).unwrap();
    absorb_with_header(&mut replay, 5, all[5], &[]);
    let challenge = replay.draw_block().unwrap();
    absorb_with_header(&mut replay, 7, all[7], &wire.claimed_sums[0]);
    absorb_with_header(&mut replay, 8, all[8], &[]);
    let queries = replay.draw_block().unwrap();
    assert_eq!(operations[5].draw, Some(challenge));
    assert_eq!(operations[7].draw, Some(queries));
    assert_eq!(kernel.digest(), replay.digest());
    assert_eq!(kernel.next_call_id(), replay.next_call_id());
}

#[test]
fn one_step_at_a_time_matches_the_driver() {
    let wire = wire_words();
    let mut kernel = TranscriptKernel::new(MixBackend::default());
    let mut draws = Vec::new();
    for (sequence, step) in steps().into_iter().enumerate() {
        let draw = execute_step(&mut kernel, sequence as u32, step, &protocol(), &statement(), &pcs(), &wire).unwrap();
        draws.push(draw);
    }
    let (driven, operations) =
        execute_fixed_transcript(MixBackend::default(), &plan(steps()), protocol(), &statement(), &pcs(), &wire)
            .unwrap();
    assert_eq!(kernel.digest(), driven.digest());
    assert_eq!(draws[5], operations[5].draw);
    assert_eq!(draws[6], None);
}

#[test]
fn wire_dimensions_are_checked_before_the_transcript_runs() {
    let mut wire = wire_words();
    wire.queries = 3;
    assert_eq!(
        execute_fixed_transcript(MixBackend::default(), &plan(steps()), protocol(), &statement(), &pcs(), &wire).err(),
        Some(TranscriptProgramError::InputCountMismatch { field: WireField::RawQueries, expected: 2, actual: 3 })
    );
}

#[test]
fn a_commitment_index_past_the_wire_is_refused() {
    let mut all = steps();
    all[3] = VerifierStep::AbsorbTraceCommitment { tree: 5 };
    assert_eq!(
        execute_fixed_transcript(MixBackend::default(), &plan(all), protocol(), &statement(), &pcs(), &wire_words()).err(),
        Some(TranscriptProgramError::IndexOutOfRange { field: WireField::Commitments, index: 5, len: 1 })
    );
}

#[test]
fn a_refused_proof_of_work_stops_the_driver() {
    let mut all = steps();
    all[4] = VerifierStep::VerifyAndAbsorbInteractionPow { bits: 31 };
    let error =
        execute_fixed_transcript(MixBackend::default(), &plan(all), protocol(), &statement(), &pcs(), &wire_words()).err();
    assert!(matches!(
        error,
        Some(TranscriptProgramError::Transcript(TranscriptError::InvalidProofOfWork { bits: 31, .. }))
    ));
}
