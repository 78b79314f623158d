//! The Fiat-Shamir program of the recursive verifier.
//!
//! The trusted plan owns transcript order. Each transcript-affecting step
//! absorbs one fixed-width header holding its sequence, tag, arity and
//! zero-filled arguments before any private payload; draw operations then
//! derive one full rate block. One driver runs the whole plan over the
//! proof's wire words for any backend, native or recording, so witness
//! generation cannot follow a second transcript schedule.
use crate::kernel::{VerifierControlPlan, VerifierStep, spec_encode};
use crate::m31::{M31Word, M31_MODULUS, lemma_word_values_push, word_values};
use crate::transcript_kernel::{
    TranscriptBackend, TranscriptKernel, limb_words, secure_field_words, secure_words, u32_limbs, u64_limb_words,
    u64_words,
};
use crate::transcript_trace::TranscriptError;
use vstd::prelude::*;

verus! {

/// Tag word that opens every operation header.
pub const TRANSCRIPT_OPERATION_TAG: u16 = 0x5452;

/// Words of one operation header.
pub const TRANSCRIPT_HEADER_WORDS: usize = 8;

/// How one trusted verifier step changes the Fiat-Shamir transcript.
#[derive(Clone, Copy, Debug, PartialEq, Eq, Structural)]
pub enum TranscriptEffect {
    Mix,
    Draw,
    Pow,
}

/// Hash frames produced by an effect: one mix frame, plus a draw frame for
/// draws and proof-of-work checks.
pub open spec fn spec_hash_count(effect: TranscriptEffect) -> u32 {
    match effect {
        TranscriptEffect::Mix => 1,
        TranscriptEffect::Draw | TranscriptEffect::Pow => 2,
    }
}

impl TranscriptEffect {
    pub fn hash_count(self) -> (count: u32)
        ensures
            count == spec_hash_count(self),
    {
        match self {
            TranscriptEffect::Mix => 1,
            TranscriptEffect::Draw | TranscriptEffect::Pow => 2,
        }
    }
}

/// The transcript work owned by each verifier step.
pub open spec fn spec_transcript_effect(step: VerifierStep) -> Option<TranscriptEffect> {
    match step {
        VerifierStep::BindProtocol
        | VerifierStep::BindStatement
        | VerifierStep::BindPcsParameters
        | VerifierStep::AbsorbTraceCommitment { .. }
        | VerifierStep::AbsorbPublicClaim
        | VerifierStep::AbsorbClaimedSums { .. }
        | VerifierStep::AbsorbSampledValues { .. }
        | VerifierStep::AbsorbFriCommitment { .. }
        | VerifierStep::AbsorbLastLayerCoefficients { .. } => Some(TranscriptEffect::Mix),
        VerifierStep::DrawRelationChallenge { .. }
        | VerifierStep::DrawCompositionRandomness
        | VerifierStep::DrawOodsPoint
        | VerifierStep::DrawDeepRandomness
        | VerifierStep::DrawFriAlpha { .. }
        | VerifierStep::DrawQueryBlock { .. } => Some(TranscriptEffect::Draw),
        VerifierStep::VerifyAndAbsorbInteractionPow { .. }
        | VerifierStep::VerifyAndAbsorbPcsPow { .. } => Some(TranscriptEffect::Pow),
        VerifierStep::AccumulatePublicLogupTerm { .. }
        | VerifierStep::AssertGlobalLogupZero
        | VerifierStep::EvaluateAirInstruction { .. }
        | VerifierStep::AssertComposition { .. }
        | VerifierStep::VerifyTraceMerklePath { .. }
        | VerifierStep::EvaluateDeepQuotient { .. }
        | VerifierStep::VerifyFriMerklePath { .. }
        | VerifierStep::FoldFri { .. }
        | VerifierStep::VerifyLastLayer { .. }
        | VerifierStep::CloseRelation { .. }
        | VerifierStep::Complete => None,
    }
}

impl VerifierStep {
    /// Classifies the transcript work owned by this verifier operation.
    pub fn transcript_effect(self) -> (effect: Option<TranscriptEffect>)
        ensures
            effect == spec_transcript_effect(self),
    {
        match self {
            VerifierStep::BindProtocol
            | VerifierStep::BindStatement
            | VerifierStep::BindPcsParameters
            | VerifierStep::AbsorbTraceCommitment { .. }
            | VerifierStep::AbsorbPublicClaim
            | VerifierStep::AbsorbClaimedSums { .. }
            | VerifierStep::AbsorbSampledValues { .. }
            | VerifierStep::AbsorbFriCommitment { .. }
            | VerifierStep::AbsorbLastLayerCoefficients { .. } => Some(TranscriptEffect::Mix),
            VerifierStep::DrawRelationChallenge { .. }
            | VerifierStep::DrawCompositionRandomness
            | VerifierStep::DrawOodsPoint
            | VerifierStep::DrawDeepRandomness
            | VerifierStep::DrawFriAlpha { .. }
            | VerifierStep::DrawQueryBlock { .. } => Some(TranscriptEffect::Draw),
            VerifierStep::VerifyAndAbsorbInteractionPow { .. }
            | VerifierStep::VerifyAndAbsorbPcsPow { .. } => Some(TranscriptEffect::Pow),
            VerifierStep::AccumulatePublicLogupTerm { .. }
            | VerifierStep::AssertGlobalLogupZero
            | VerifierStep::EvaluateAirInstruction { .. }
            | VerifierStep::AssertComposition { .. }
            | VerifierStep::VerifyTraceMerklePath { .. }
            | VerifierStep::EvaluateDeepQuotient { .. }
            | VerifierStep::VerifyFriMerklePath { .. }
            | VerifierStep::FoldFri { .. }
            | VerifierStep::VerifyLastLayer { .. }
            | VerifierStep::CloseRelation { .. }
            | VerifierStep::Complete => None,
        }
    }
}

/// Which header word failed the canonical check.
#[derive(Clone, Copy, Debug, PartialEq, Eq, Structural)]
pub enum HeaderField {
    Sequence,
    Tag,
    Argument,
}

/// Which fixed wire input a count check is about.
#[derive(Clone, Copy, Debug, PartialEq, Eq, Structural)]
pub enum WireField {
    Commitments,
    FriLayers,
    ClaimedSums,
    SampledValues,
    LastLayerCoefficients,
    RawQueries,
}

/// Invalid fixed input or impossible value in the transcript program.
#[derive(Clone, Copy, Debug, PartialEq, Eq, Structural)]
pub enum TranscriptProgramError {
    Transcript(TranscriptError),
    SequenceOutOfRange { sequence: usize },
    ControlWordOutOfRange { field: HeaderField, value: u32 },
    InputCountMismatch { field: WireField, expected: usize, actual: usize },
    IndexOutOfRange { field: WireField, index: u32, len: usize },
    QueryCountOverflow,
    UnexpectedTranscriptTransition { sequence: u32 },
    DrawOutputMismatch { sequence: u32, expected: bool, actual: bool },
    HashCountMismatch { sequence: u32, expected: u32, actual: u32 },
}

/// A header word, or the error when the value is not canonical.
pub open spec fn spec_header_word(field: HeaderField, value: u32) -> Result<
    u32,
    TranscriptProgramError,
> {
    if value < M31_MODULUS {
        Ok(value)
    } else {
        Err(TranscriptProgramError::ControlWordOutOfRange { field, value })
    }
}

/// The eight header words of one operation: the operation tag, the sequence,
/// the step tag, the arity and the four arguments; the first non-canonical
/// word, in that order, is the error.
pub open spec fn spec_operation_header(sequence: u32, step: VerifierStep) -> Result<
    Seq<u32>,
    TranscriptProgramError,
> {
    let e = spec_encode(step);
    if sequence >= M31_MODULUS {
        Err(TranscriptProgramError::ControlWordOutOfRange { field: HeaderField::Sequence, value: sequence })
    } else if e.tag >= M31_MODULUS {
        Err(TranscriptProgramError::ControlWordOutOfRange { field: HeaderField::Tag, value: e.tag })
    } else if e.arg_0 >= M31_MODULUS {
        Err(TranscriptProgramError::ControlWordOutOfRange { field: HeaderField::Argument, value: e.arg_0 })
    } else if e.arg_1 >= M31_MODULUS {
        Err(TranscriptProgramError::ControlWordOutOfRange { field: HeaderField::Argument, value: e.arg_1 })
    } else if e.arg_2 >= M31_MODULUS {
        Err(TranscriptProgramError::ControlWordOutOfRange { field: HeaderField::Argument, value: e.arg_2 })
    } else if e.arg_3 >= M31_MODULUS {
        Err(TranscriptProgramError::ControlWordOutOfRange { field: HeaderField::Argument, value: e.arg_3 })
    } else {
        Ok(
            seq![
                TRANSCRIPT_OPERATION_TAG as u32,
                sequence,
                e.tag,
                e.arity as u32,
                e.arg_0,
                e.arg_1,
                e.arg_2,
                e.arg_3,
            ],
        )
    }
}

/// Converts one header value to a word.
pub fn header_word(field: HeaderField, value: u32) -> (result: Result<M31Word, TranscriptProgramError>)
    ensures
        match spec_header_word(field, value) {
            Ok(v) => result matches Ok(w) && w@ == v,
            Err(error) => result == Err::<M31Word, _>(error),
        },
{
    match M31Word::try_from_u32(value) {
        Some(word) => Ok(word),
        None => Err(TranscriptProgramError::ControlWordOutOfRange { field, value }),
    }
}

/// The fixed-width header absorbed before the payload of every transcript operation.
pub fn operation_header(sequence: u32, step: VerifierStep) -> (result: Result<
    Vec<M31Word>,
    TranscriptProgramError,
>)
    ensures
        match spec_operation_header(sequence, step) {
            Ok(values) => result matches Ok(words) && word_values(words@) == values,
            Err(error) => result == Err::<Vec<M31Word>, _>(error),
        },
{
    let encoded = step.encode();
    let sequence_word = header_word(HeaderField::Sequence, sequence)?;
    let tag = header_word(HeaderField::Tag, encoded.tag)?;
    let arg_0 = header_word(HeaderField::Argument, encoded.arg_0)?;
    let arg_1 = header_word(HeaderField::Argument, encoded.arg_1)?;
    let arg_2 = header_word(HeaderField::Argument, encoded.arg_2)?;
    let arg_3 = header_word(HeaderField::Argument, encoded.arg_3)?;
    let mut words = Vec::new();
    words.push(M31Word::from_u16(TRANSCRIPT_OPERATION_TAG));
    words.push(sequence_word);
    words.push(tag);
    words.push(M31Word::from_u16(encoded.arity as u16));
    words.push(arg_0);
    words.push(arg_1);
    words.push(arg_2);
    words.push(arg_3);
    proof {
        assert(word_values(words@) =~= seq![
            TRANSCRIPT_OPERATION_TAG as u32,
            sequence,
            encoded.tag,
            encoded.arity as u32,
            encoded.arg_0,
            encoded.arg_1,
            encoded.arg_2,
            encoded.arg_3,
        ]);
    }
    Ok(words)
}

/// The change of a transcript identifier across one operation.
pub fn monotonic_delta(before: u32, after: u32) -> (delta: u32)
    requires
        before <= after,
    ensures
        delta == after - before,
{
    after - before
}

/// Fixed dimensions of one proof wire.
#[derive(Clone, Copy, Debug, PartialEq, Eq, Structural)]
pub struct WireCounts {
    pub commitments: usize,
    pub claimed_sums: usize,
    pub sampled_values: usize,
    pub fri_layers: usize,
    pub queries: usize,
    pub last_layer_coefficients: usize,
}

/// Checks that a count the plan expects equals the wire's fixed dimension.
pub fn require_count(field: WireField, expected: usize, actual: usize) -> (result: Result<
    (),
    TranscriptProgramError,
>)
    ensures
        result == if expected == actual {
            Ok::<(), TranscriptProgramError>(())
        } else {
            Err(TranscriptProgramError::InputCountMismatch { field, expected, actual })
        },
{
    if expected != actual {
        return Err(TranscriptProgramError::InputCountMismatch { field, expected, actual });
    }
    Ok(())
}

/// Number of trace-commitment steps of a plan.
pub open spec fn count_trace_commitments(steps: Seq<VerifierStep>) -> nat
    decreases steps.len(),
{
    if steps.len() == 0 {
        0
    } else {
        count_trace_commitments(steps.drop_last()) + if steps.last() is AbsorbTraceCommitment {
            1nat
        } else {
            0nat
        }
    }
}

/// Number of FRI-commitment steps of a plan.
pub open spec fn count_fri_commitments(steps: Seq<VerifierStep>) -> nat
    decreases steps.len(),
{
    if steps.len() == 0 {
        0
    } else {
        count_fri_commitments(steps.drop_last()) + if steps.last() is AbsorbFriCommitment {
            1nat
        } else {
            0nat
        }
    }
}

/// Sum of the query counts of a plan's query-block draws.
pub open spec fn total_query_count(steps: Seq<VerifierStep>) -> nat
    decreases steps.len(),
{
    if steps.len() == 0 {
        0
    } else {
        total_query_count(steps.drop_last()) + match steps.last() {
            VerifierStep::DrawQueryBlock { query_count, .. } => query_count as nat,
            _ => 0nat,
        }
    }
}

/// The first step of a plan whose count disagrees with the wire, as an error.
pub open spec fn first_count_mismatch(steps: Seq<VerifierStep>, counts: WireCounts, n: nat) -> Option<
    TranscriptProgramError,
>
    decreases steps.len() - n,
{
    if n >= steps.len() {
        None
    } else {
        let mismatch = match steps[n as int] {
            VerifierStep::AbsorbClaimedSums { count } => if count != counts.claimed_sums {
                Some(
                    TranscriptProgramError::InputCountMismatch {
                        field: WireField::ClaimedSums,
                        expected: count as usize,
                        actual: counts.claimed_sums,
                    },
                )
            } else {
                None
            },
            VerifierStep::AbsorbSampledValues { count } => if count != counts.sampled_values {
                Some(
                    TranscriptProgramError::InputCountMismatch {
                        field: WireField::SampledValues,
                        expected: count as usize,
                        actual: counts.sampled_values,
                    },
                )
            } else {
                None
            },
            VerifierStep::AbsorbLastLayerCoefficients { count } => if count
                != counts.last_layer_coefficients {
                Some(
                    TranscriptProgramError::InputCountMismatch {
                        field: WireField::LastLayerCoefficients,
                        expected: count as usize,
                        actual: counts.last_layer_coefficients,
                    },
                )
            } else {
                None
            },
            _ => None,
        };
        if mismatch is Some {
            mismatch
        } else {
            first_count_mismatch(steps, counts, n + 1)
        }
    }
}

/// The outcome of checking a plan against the wire dimensions.
pub open spec fn spec_validate_input_counts(steps: Seq<VerifierStep>, counts: WireCounts) -> Result<
    (),
    TranscriptProgramError,
> {
    let commitments = count_trace_commitments(steps);
    let fri_layers = count_fri_commitments(steps);
    if commitments != counts.commitments {
        Err(
            TranscriptProgramError::InputCountMismatch {
                field: WireField::Commitments,
                expected: commitments as usize,
                actual: counts.commitments,
            },
        )
    } else if fri_layers != counts.fri_layers {
        Err(
            TranscriptProgramError::InputCountMismatch {
                field: WireField::FriLayers,
                expected: fri_layers as usize,
                actual: counts.fri_layers,
            },
        )
    } else if first_count_mismatch(steps, counts, 0) is Some {
        Err(first_count_mismatch(steps, counts, 0)->0)
    } else if total_query_count(steps) > u32::MAX {
        Err(TranscriptProgramError::QueryCountOverflow)
    } else if total_query_count(steps) != counts.queries {
        Err(
            TranscriptProgramError::InputCountMismatch {
                field: WireField::RawQueries,
                expected: total_query_count(steps) as usize,
                actual: counts.queries,
            },
        )
    } else {
        Ok(())
    }
}

proof fn lemma_commitment_counts_bound(steps: Seq<VerifierStep>)
    ensures
        count_trace_commitments(steps) <= steps.len(),
        count_fri_commitments(steps) <= steps.len(),
    decreases steps.len(),
{
    if steps.len() > 0 {
        lemma_commitment_counts_bound(steps.drop_last());
    }
}

/// Checks every fixed wire dimension against the counts the plan expects:
/// trace and FRI commitments, then each claimed-sum, sampled-value and
/// last-layer count in plan order, then the total of the raw queries.
pub fn validate_input_counts(plan: &VerifierControlPlan, counts: WireCounts) -> (result: Result<
    (),
    TranscriptProgramError,
>)
    ensures
        result == spec_validate_input_counts(plan.steps@, counts),
{
    let steps = plan.steps();
    let mut commitment_count: usize = 0;
    let mut fri_layer_count: usize = 0;
    let mut query_total: u32 = 0;
    let mut query_overflow = false;
    let mut i: usize = 0;
    while i < steps.len()
        invariant
            i <= steps@.len(),
            steps@ == plan.steps@,
            commitment_count == count_trace_commitments(steps@.subrange(0, i as int)),
            fri_layer_count == count_fri_commitments(steps@.subrange(0, i as int)),
            !query_overflow ==> query_total == total_query_count(steps@.subrange(0, i as int)),
            query_overflow ==> total_query_count(steps@.subrange(0, i as int)) > u32::MAX,
        decreases steps@.len() - i,
    {
        proof {
            let prefix = steps@.subrange(0, i as int + 1);
            assert(prefix.drop_last() =~= steps@.subrange(0, i as int));
            lemma_commitment_counts_bound(steps@.subrange(0, i as int));
        }
        match steps[i] {
            VerifierStep::AbsorbTraceCommitment { .. } => {
                commitment_count = commitment_count + 1;
            },
            VerifierStep::AbsorbFriCommitment { .. } => {
                fri_layer_count = fri_layer_count + 1;
            },
            VerifierStep::DrawQueryBlock { query_count, .. } => {
                if !query_overflow {
                    if query_total > u32::MAX - query_count {
                        query_overflow = true;
                    } else {
                        query_total = query_total + query_count;
                    }
                }
            },
            _ => {},
        }
        i = i + 1;
    }
    proof {
        assert(steps@.subrange(0, steps@.len() as int) =~= steps@);
    }
    require_count(WireField::Commitments, commitment_count, counts.commitments)?;
    require_count(WireField::FriLayers, fri_layer_count, counts.fri_layers)?;
    let mut j: usize = 0;
    while j < steps.len()
        invariant
            j <= steps@.len(),
            steps@ == plan.steps@,
            first_count_mismatch(steps@, counts, 0) == first_count_mismatch(
                steps@,
                counts,
                j as nat,
            ),
            count_trace_commitments(steps@) == counts.commitments,
            count_fri_commitments(steps@) == counts.fri_layers,
            !query_overflow ==> query_total == total_query_count(steps@),
            query_overflow ==> total_query_count(steps@) > u32::MAX,
        decreases steps@.len() - j,
    {
        match steps[j] {
            VerifierStep::AbsorbClaimedSums { count } => {
                require_count(WireField::ClaimedSums, count as usize, counts.claimed_sums)?;
            },
            VerifierStep::AbsorbSampledValues { count } => {
                require_count(WireField::SampledValues, count as usize, counts.sampled_values)?;
            },
            VerifierStep::AbsorbLastLayerCoefficients { count } => {
                require_count(
                    WireField::LastLayerCoefficients,
                    count as usize,
                    counts.last_layer_coefficients,
                )?;
            },
            _ => {},
        }
        j = j + 1;
    }
    proof {
        assert(first_count_mismatch(steps@, counts, steps@.len()) is None);
    }
    if query_overflow {
        return Err(TranscriptProgramError::QueryCountOverflow);
    }
    require_count(WireField::RawQueries, query_total as usize, counts.queries)
}

/// Exact frame and call range produced by one executed transcript operation.
#[derive(Clone, Copy, Debug)]
pub struct TranscriptOperationTrace {
    pub sequence: u32,
    pub step: VerifierStep,
    pub first_hash_id: u32,
    pub hash_count: u32,
    pub first_call_id: u32,
    pub call_count: u32,
    pub draw: Option<[M31Word; 8]>,
}

/// The proof's wire inputs the transcript reads, as plain words: the trace
/// and FRI commitments, the claimed sums, sampled values and last-layer
/// coefficients as secure-field words, both proof-of-work nonces and the
/// number of raw queries.
#[derive(Clone, Debug)]
pub struct ProofWireWords {
    pub commitments: Vec<[M31Word; 8]>,
    pub fri_commitments: Vec<[M31Word; 8]>,
    pub claimed_sums: Vec<[M31Word; 4]>,
    pub sampled_values: Vec<[M31Word; 4]>,
    pub last_layer_coefficients: Vec<[M31Word; 4]>,
    pub interaction_pow: u64,
    pub pcs_pow: u64,
    pub queries: usize,
}

/// The wire's fixed dimensions.
pub open spec fn wire_counts(proof: ProofWireWords) -> WireCounts {
    WireCounts {
        commitments: proof.commitments@.len() as usize,
        claimed_sums: proof.claimed_sums@.len() as usize,
        sampled_values: proof.sampled_values@.len() as usize,
        fri_layers: proof.fri_commitments@.len() as usize,
        queries: proof.queries,
        last_layer_coefficients: proof.last_layer_coefficients@.len() as usize,
    }
}

/// The payload a transcript step absorbs after its header, or the error of
/// a commitment index past the wire.
pub open spec fn step_payload(
    step: VerifierStep,
    protocol: Seq<u32>,
    statement: Seq<u32>,
    pcs_parameters: Seq<u32>,
    proof: ProofWireWords,
) -> Result<Seq<u32>, TranscriptProgramError> {
    match step {
        VerifierStep::BindProtocol => Ok(protocol),
        VerifierStep::BindStatement => Ok(statement),
        VerifierStep::BindPcsParameters => Ok(pcs_parameters),
        VerifierStep::AbsorbTraceCommitment { tree } => if tree < proof.commitments@.len() {
            Ok(word_values(proof.commitments@[tree as int]@))
        } else {
            Err(
                TranscriptProgramError::IndexOutOfRange {
                    field: WireField::Commitments,
                    index: tree,
                    len: proof.commitments@.len() as usize,
                },
            )
        },
        VerifierStep::VerifyAndAbsorbInteractionPow { .. } => Ok(u32_limbs(u64_words(proof.interaction_pow))),
        VerifierStep::AbsorbClaimedSums { .. } => Ok(secure_words(proof.claimed_sums@)),
        VerifierStep::AbsorbSampledValues { .. } => Ok(secure_words(proof.sampled_values@)),
        VerifierStep::AbsorbFriCommitment { layer } => if layer < proof.fri_commitments@.len() {
            Ok(word_values(proof.fri_commitments@[layer as int]@))
        } else {
            Err(
                TranscriptProgramError::IndexOutOfRange {
                    field: WireField::FriLayers,
                    index: layer,
                    len: proof.fri_commitments@.len() as usize,
                },
            )
        },
        VerifierStep::AbsorbLastLayerCoefficients { .. } => Ok(secure_words(proof.last_layer_coefficients@)),
        VerifierStep::VerifyAndAbsorbPcsPow { .. } => Ok(u32_limbs(u64_words(proof.pcs_pow))),
        _ => Ok(Seq::empty()),
    }
}

/// The nonce a proof-of-work step checks.
pub open spec fn pow_nonce(step: VerifierStep, proof: ProofWireWords) -> u64 {
    match step {
        VerifierStep::VerifyAndAbsorbInteractionPow { .. } => proof.interaction_pow,
        _ => proof.pcs_pow,
    }
}

/// The difficulty a proof-of-work step checks.
pub open spec fn pow_bits(step: VerifierStep) -> u32 {
    match step {
        VerifierStep::VerifyAndAbsorbInteractionPow { bits } => bits,
        VerifierStep::VerifyAndAbsorbPcsPow { bits } => bits,
        _ => 0,
    }
}

/// Whether a failure, if any, is the transcript kernel's.
pub open spec fn kernel_failure<T>(result: Result<T, TranscriptProgramError>) -> bool {
    result is Ok || result->Err_0 is Transcript
}

/// The kernel's view of an outcome: success, or the kernel's error.
pub open spec fn kernel_outcome<T>(result: Result<T, TranscriptProgramError>) -> Result<(), TranscriptError> {
    match result {
        Ok(_) => Ok(()),
        Err(TranscriptProgramError::Transcript(error)) => Err(error),
        Err(_) => Err(TranscriptError::HashIdOverflow),
    }
}

/// What a draw or proof-of-work step does once its header and payload are
/// absorbed: a draw hashes one block from the new digest and returns it; a
/// proof-of-work step checks its nonce against a block drawn from it.
pub open spec fn after_absorb<B: TranscriptBackend>(
    absorbed: TranscriptKernel<B>,
    after: TranscriptKernel<B>,
    step: VerifierStep,
    effect: TranscriptEffect,
    proof: ProofWireWords,
    result: Result<Option<[M31Word; 8]>, TranscriptProgramError>,
) -> bool {
    &&& kernel_failure(result)
    &&& match effect {
        TranscriptEffect::Draw => {
            &&& TranscriptKernel::drew(absorbed, after, kernel_outcome(result))
            &&& result is Ok ==> (result matches Ok(Some(block)) && word_values(block@) == after.session_block(
                absorbed.spec_sessions().len() as int,
            ))
        },
        _ => {
            &&& result is Ok ==> result == Ok::<_, TranscriptProgramError>(None::<[M31Word; 8]>)
            &&& pow_bits(step) > 31 ==> result == Err::<Option<[M31Word; 8]>, _>(
                TranscriptProgramError::Transcript(TranscriptError::PowBitsOutOfRange { bits: pow_bits(step) }),
            ) && TranscriptKernel::same_state(absorbed, after)
            &&& pow_bits(step) <= 31 ==> TranscriptKernel::checked_drawn_pow(
                absorbed,
                after,
                pow_nonce(step, proof),
                pow_bits(step),
                kernel_outcome(result),
            )
        },
    }
}

/// One plan step run on the transcript: a step outside the transcript
/// leaves it untouched; any other absorbs the digest, its header and its
/// payload in one session, then draws its block or checks its nonce. A
/// success takes exactly the effect's sessions and returns a block exactly
/// for a draw.
pub open spec fn step_ran<B: TranscriptBackend>(
    before: TranscriptKernel<B>,
    after: TranscriptKernel<B>,
    sequence: u32,
    step: VerifierStep,
    protocol: Seq<u32>,
    statement: Seq<u32>,
    pcs_parameters: Seq<u32>,
    proof: ProofWireWords,
    result: Result<Option<[M31Word; 8]>, TranscriptProgramError>,
) -> bool {
    match spec_transcript_effect(step) {
        None => result == Ok::<_, TranscriptProgramError>(None::<[M31Word; 8]>) && after == before,
        Some(effect) => match step_payload(step, protocol, statement, pcs_parameters, proof) {
            Err(error) => result == Err::<Option<[M31Word; 8]>, _>(error) && after == before,
            Ok(payload) => match spec_operation_header(sequence, step) {
                Err(error) => result == Err::<Option<[M31Word; 8]>, _>(error) && after == before,
                Ok(header) => {
                    let stream = before.spec_digest() + header + payload;
                    &&& result is Ok ==> {
                        &&& after.spec_next_hash_id() == before.spec_next_hash_id() + spec_hash_count(effect)
                        &&& before.spec_next_call_id() <= after.spec_next_call_id()
                        &&& (result->Ok_0 is Some <==> effect == TranscriptEffect::Draw)
                    }
                    &&& if effect == TranscriptEffect::Mix {
                        &&& kernel_failure(result)
                        &&& result is Ok ==> result == Ok::<_, TranscriptProgramError>(None::<[M31Word; 8]>)
                        &&& TranscriptKernel::absorbed(before, after, stream, kernel_outcome(result))
                    } else {
                        ||| (result matches Err(TranscriptProgramError::Transcript(error))
                            && TranscriptKernel::absorbed(before, after, stream, Err(error)))
                        ||| exists|absorbed: TranscriptKernel<B>|
                            #[trigger] TranscriptKernel::absorbed(before, absorbed, stream, Ok(())) && after_absorb(
                                absorbed,
                                after,
                                step,
                                effect,
                                proof,
                                result,
                            )
                    }
                },
            },
        },
    }
}

/// The first `n` plan steps ran in turn from `trail[0]`, step `i` taking the
/// transcript from `trail[i]` to `trail[i + 1]` and returning `draws[i]`.
pub open spec fn ran_steps<B: TranscriptBackend>(
    trail: Seq<TranscriptKernel<B>>,
    draws: Seq<Option<[M31Word; 8]>>,
    steps: Seq<VerifierStep>,
    protocol: Seq<u32>,
    statement: Seq<u32>,
    pcs_parameters: Seq<u32>,
    proof: ProofWireWords,
    n: nat,
) -> bool {
    &&& trail.len() == n + 1
    &&& draws.len() == n
    &&& n <= steps.len()
    &&& forall|i: int|
        #![trigger draws[i]]
        0 <= i < n ==> step_ran(
            trail[i],
            trail[i + 1],
            i as u32,
            steps[i],
            protocol,
            statement,
            pcs_parameters,
            proof,
            Ok(draws[i]),
        )
}

/// The record of the transcript operations among the first `n` steps: for
/// each, its sequence and step, the hash and call ids it took, and its draw.
pub open spec fn operations_of<B: TranscriptBackend>(
    steps: Seq<VerifierStep>,
    trail: Seq<TranscriptKernel<B>>,
    draws: Seq<Option<[M31Word; 8]>>,
    n: nat,
) -> Seq<TranscriptOperationTrace>
    decreases n,
{
    if n == 0 {
        Seq::empty()
    } else {
        let i = n - 1;
        let earlier = operations_of(steps, trail, draws, (n - 1) as nat);
        match spec_transcript_effect(steps[i]) {
            None => earlier,
            Some(effect) => earlier.push(
                TranscriptOperationTrace {
                    sequence: i as u32,
                    step: steps[i],
                    first_hash_id: trail[i].spec_next_hash_id(),
                    hash_count: spec_hash_count(effect),
                    first_call_id: trail[i].spec_next_call_id(),
                    call_count: (trail[i + 1].spec_next_call_id() - trail[i].spec_next_call_id()) as u32,
                    draw: draws[i],
                },
            ),
        }
    }
}

/// The wire's fixed dimensions.
fn wire_counts_of(proof: &ProofWireWords) -> (counts: WireCounts)
    ensures
        counts == wire_counts(*proof),
{
    WireCounts {
        commitments: proof.commitments.len(),
        claimed_sums: proof.claimed_sums.len(),
        sampled_values: proof.sampled_values.len(),
        fri_layers: proof.fri_commitments.len(),
        queries: proof.queries,
        last_layer_coefficients: proof.last_layer_coefficients.len(),
    }
}

/// Absorbs one operation: the digest, the operation's header, then its
/// payload, in one session.
fn absorb_operation<B: TranscriptBackend>(
    kernel: &mut TranscriptKernel<B>,
    sequence: u32,
    step: VerifierStep,
    payload: &[M31Word],
) -> (result: Result<(), TranscriptProgramError>)
    ensures
        match spec_operation_header(sequence, step) {
            Err(error) => result == Err::<(), _>(error) && *final(kernel) == *old(kernel),
            Ok(header) => {
                &&& kernel_failure(result)
                &&& TranscriptKernel::absorbed(
                    *old(kernel),
                    *final(kernel),
                    old(kernel).spec_digest() + header + word_values(payload@),
                    kernel_outcome(result),
                )
            },
        },
{
    let mut words = operation_header(sequence, step)?;
    let ghost header = words@;
    let mut i: usize = 0;
    while i < payload.len()
        invariant
            i <= payload@.len(),
            words@ == header + payload@.subrange(0, i as int),
        decreases payload@.len() - i,
    {
        words.push(payload[i]);
        proof {
            assert(payload@.subrange(0, i + 1) =~= payload@.subrange(0, i as int).push(payload@[i as int]));
        }
        i = i + 1;
    }
    proof {
        assert(payload@.subrange(0, payload@.len() as int) =~= payload@);
        assert(word_values(words@) =~= word_values(header) + word_values(payload@));
        let digest = old(kernel).spec_digest();
        assert(digest + word_values(words@) =~= digest + word_values(header) + word_values(payload@));
    }
    match kernel.absorb_m31_words(words.as_slice()) {
        Ok(()) => Ok(()),
        Err(error) => Err(TranscriptProgramError::Transcript(error)),
    }
}

/// Runs one plan step on the transcript: absorbs the step's header and
/// payload when it touches the transcript, then draws its block or checks
/// its proof-of-work nonce; steps outside the transcript do nothing.
pub fn execute_step<B: TranscriptBackend>(
    kernel: &mut TranscriptKernel<B>,
    sequence: u32,
    step: VerifierStep,
    protocol_digest: &[M31Word; 8],
    statement_words: &[M31Word],
    pcs_parameter_words: &[M31Word],
    proof: &ProofWireWords,
) -> (result: Result<Option<[M31Word; 8]>, TranscriptProgramError>)
    ensures
        step_ran(
            *old(kernel),
            *final(kernel),
            sequence,
            step,
            word_values(protocol_digest@),
            word_values(statement_words@),
            word_values(pcs_parameter_words@),
            *proof,
            result,
        ),
{
    let ghost before = *kernel;
    let empty: Vec<M31Word> = Vec::new();
    match step {
        VerifierStep::BindProtocol => {
            absorb_operation(kernel, sequence, step, protocol_digest)?;
        },
        VerifierStep::BindStatement => {
            absorb_operation(kernel, sequence, step, statement_words)?;
        },
        VerifierStep::BindPcsParameters => {
            absorb_operation(kernel, sequence, step, pcs_parameter_words)?;
        },
        VerifierStep::AbsorbTraceCommitment { tree } => {
            let index = tree as usize;
            if index >= proof.commitments.len() {
                return Err(
                    TranscriptProgramError::IndexOutOfRange {
                        field: WireField::Commitments,
                        index: tree,
                        len: proof.commitments.len(),
                    },
                );
            }
            absorb_operation(kernel, sequence, step, &proof.commitments[index])?;
        },
        VerifierStep::AbsorbPublicClaim => {
            // BindStatement owns the complete common public input; this
            // header marks the claim phase without a second encoding.
            absorb_operation(kernel, sequence, step, empty.as_slice())?;
        },
        VerifierStep::VerifyAndAbsorbInteractionPow { bits } => {
            let payload = u64_limb_words(proof.interaction_pow);
            absorb_operation(kernel, sequence, step, payload.as_slice())?;
            let ghost absorbed = *kernel;
            match kernel.verify_pow_from_current_digest(proof.interaction_pow, bits) {
                Ok(()) => {},
                Err(error) => {
                    proof {
                        assert(TranscriptKernel::absorbed(before, absorbed, before.spec_digest()
                            + spec_operation_header(sequence, step)->Ok_0 + word_values(payload@), Ok(())));
                    }
                    return Err(TranscriptProgramError::Transcript(error));
                },
            }
            proof {
                let stream = before.spec_digest() + spec_operation_header(sequence, step)->Ok_0 + step_payload(
                    step,
                    word_values(protocol_digest@),
                    word_values(statement_words@),
                    word_values(pcs_parameter_words@),
                    *proof,
                )->Ok_0;
                assert(TranscriptKernel::absorbed(before, absorbed, stream, Ok(())));
                assert(after_absorb(absorbed, *kernel, step, TranscriptEffect::Pow, *proof, Ok(None)));
            }
        },
        VerifierStep::DrawRelationChallenge { .. }
        | VerifierStep::DrawCompositionRandomness
        | VerifierStep::DrawOodsPoint
        | VerifierStep::DrawDeepRandomness
        | VerifierStep::DrawFriAlpha { .. }
        | VerifierStep::DrawQueryBlock { .. } => {
            absorb_operation(kernel, sequence, step, empty.as_slice())?;
            let ghost absorbed = *kernel;
            proof {
                assert(word_values(empty@) =~= Seq::<u32>::empty());
                assert(TranscriptKernel::absorbed(before, absorbed, before.spec_digest()
                    + spec_operation_header(sequence, step)->Ok_0 + Seq::<u32>::empty(), Ok(())));
            }
            match kernel.draw_block() {
                Ok(block) => {
                    proof {
                        let stream = before.spec_digest() + spec_operation_header(sequence, step)->Ok_0
                            + step_payload(
                            step,
                            word_values(protocol_digest@),
                            word_values(statement_words@),
                            word_values(pcs_parameter_words@),
                            *proof,
                        )->Ok_0;
                        assert(TranscriptKernel::absorbed(before, absorbed, stream, Ok(())));
                        assert(after_absorb(absorbed, *kernel, step, TranscriptEffect::Draw, *proof, Ok(Some(block))));
                    }
                    return Ok(Some(block));
                },
                Err(error) => {
                    return Err(TranscriptProgramError::Transcript(error));
                },
            }
        },
        VerifierStep::AbsorbClaimedSums { .. } => {
            let payload = secure_field_words(proof.claimed_sums.as_slice());
            absorb_operation(kernel, sequence, step, payload.as_slice())?;
        },
        VerifierStep::AbsorbSampledValues { .. } => {
            let payload = secure_field_words(proof.sampled_values.as_slice());
            absorb_operation(kernel, sequence, step, payload.as_slice())?;
        },
        VerifierStep::AbsorbFriCommitment { layer } => {
            let index = layer as usize;
            if index >= proof.fri_commitments.len() {
                return Err(
                    TranscriptProgramError::IndexOutOfRange {
                        field: WireField::FriLayers,
                        index: layer,
                        len: proof.fri_commitments.len(),
                    },
                );
            }
            absorb_operation(kernel, sequence, step, &proof.fri_commitments[index])?;
        },
        VerifierStep::AbsorbLastLayerCoefficients { .. } => {
            let payload = secure_field_words(proof.last_layer_coefficients.as_slice());
            absorb_operation(kernel, sequence, step, payload.as_slice())?;
        },
        VerifierStep::VerifyAndAbsorbPcsPow { bits } => {
            let payload = u64_limb_words(proof.pcs_pow);
            absorb_operation(kernel, sequence, step, payload.as_slice())?;
            let ghost absorbed = *kernel;
            match kernel.verify_pow_from_current_digest(proof.pcs_pow, bits) {
                Ok(()) => {},
                Err(error) => {
                    proof {
                        assert(TranscriptKernel::absorbed(before, absorbed, before.spec_digest()
                            + spec_operation_header(sequence, step)->Ok_0 + word_values(payload@), Ok(())));
                    }
                    return Err(TranscriptProgramError::Transcript(error));
                },
            }
            proof {
                let stream = before.spec_digest() + spec_operation_header(sequence, step)->Ok_0 + step_payload(
                    step,
                    word_values(protocol_digest@),
                    word_values(statement_words@),
                    word_values(pcs_parameter_words@),
                    *proof,
                )->Ok_0;
                assert(TranscriptKernel::absorbed(before, absorbed, stream, Ok(())));
                assert(after_absorb(absorbed, *kernel, step, TranscriptEffect::Pow, *proof, Ok(None)));
            }
        },
        _ => {},
    }
    proof {
        assert(word_values(empty@) =~= Seq::<u32>::empty());
    }
    Ok(None)
}

/// Runs every plan step over one proof's wire words, in plan order, on a
/// fresh transcript over `backend`, after checking the wire's dimensions
/// against the plan. Each transcript operation is recorded with its
/// sequence, step, hash and call ranges and its draw; after each step the
/// draw's presence and the hash count are checked against the step's
/// effect, and a step outside the transcript must leave it in place.
pub fn execute_fixed_transcript<B: TranscriptBackend>(
    backend: B,
    plan: &VerifierControlPlan,
    protocol_digest: [M31Word; 8],
    statement_words: &[M31Word],
    pcs_parameter_words: &[M31Word],
    proof: &ProofWireWords,
) -> (result: Result<(TranscriptKernel<B>, Vec<TranscriptOperationTrace>), TranscriptProgramError>)
    ensures
        ({
            let steps = plan.steps@;
            let protocol = word_values(protocol_digest@);
            let statement = word_values(statement_words@);
            let pcs = word_values(pcs_parameter_words@);
            match spec_validate_input_counts(steps, wire_counts(*proof)) {
                Err(error) => result == Err::<(TranscriptKernel<B>, Vec<TranscriptOperationTrace>), _>(error),
                Ok(()) => match result {
                    Ok((kernel, operations)) => exists|
                        trail: Seq<TranscriptKernel<B>>,
                        draws: Seq<Option<[M31Word; 8]>>,
                    |
                        #![trigger ran_steps(trail, draws, steps, protocol, statement, pcs, *proof, steps.len())]
                        {
                            &&& ran_steps(trail, draws, steps, protocol, statement, pcs, *proof, steps.len())
                            &&& TranscriptKernel::fresh(trail[0], backend)
                            &&& trail.last() == kernel
                            &&& operations@ == operations_of(steps, trail, draws, steps.len())
                        },
                    Err(error) => exists|
                        trail: Seq<TranscriptKernel<B>>,
                        draws: Seq<Option<[M31Word; 8]>>,
                        j: nat,
                    |
                        #![trigger ran_steps(trail, draws, steps, protocol, statement, pcs, *proof, j)]
                        {
                            &&& j < steps.len()
                            &&& ran_steps(trail, draws, steps, protocol, statement, pcs, *proof, j)
                            &&& TranscriptKernel::fresh(trail[0], backend)
                            &&& {
                                ||| j > u32::MAX && error == TranscriptProgramError::SequenceOutOfRange {
                                    sequence: j as usize,
                                }
                                ||| j <= u32::MAX && exists|after: TranscriptKernel<B>|
                                    #[trigger] step_ran(
                                        trail[j as int],
                                        after,
                                        j as u32,
                                        steps[j as int],
                                        protocol,
                                        statement,
                                        pcs,
                                        *proof,
                                        Err(error),
                                    )
                            }
                        },
                },
            }
        }),
{
    let counts = wire_counts_of(proof);
    validate_input_counts(plan, counts)?;
    let ghost protocol = word_values(protocol_digest@);
    let ghost statement = word_values(statement_words@);
    let ghost pcs = word_values(pcs_parameter_words@);
    let ghost start_backend = backend;
    let mut kernel = TranscriptKernel::new(backend);
    let mut operations: Vec<TranscriptOperationTrace> = Vec::new();
    let steps = plan.steps();
    let ghost mut trail: Seq<TranscriptKernel<B>> = seq![kernel];
    let ghost mut draws: Seq<Option<[M31Word; 8]>> = Seq::empty();
    let mut i: usize = 0;
    while i < steps.len()
        invariant
            i <= steps@.len(),
            steps@ == plan.steps@,
            protocol == word_values(protocol_digest@),
            statement == word_values(statement_words@),
            pcs == word_values(pcs_parameter_words@),
            spec_validate_input_counts(steps@, wire_counts(*proof)) is Ok,
            ran_steps(trail, draws, steps@, protocol, statement, pcs, *proof, i as nat),
            TranscriptKernel::fresh(trail[0], start_backend),
            start_backend == backend,
            trail.last() == kernel,
            operations@ == operations_of(steps@, trail, draws, i as nat),
        decreases steps@.len() - i,
    {
        if i > 0xffff_ffff {
            proof {
                assert(ran_steps(trail, draws, steps@, protocol, statement, pcs, *proof, i as nat));
            }
            return Err(TranscriptProgramError::SequenceOutOfRange { sequence: i });
        }
        let sequence = i as u32;
        let step = steps[i];
        let hash_before = kernel.next_hash_id();
        let call_before = kernel.next_call_id();
        let ghost before = kernel;
        let draw = match execute_step(
            &mut kernel,
            sequence,
            step,
            &protocol_digest,
            statement_words,
            pcs_parameter_words,
            proof,
        ) {
            Ok(draw) => draw,
            Err(error) => {
                proof {
                    assert(step_ran(
                        trail[i as int],
                        kernel,
                        i as u32,
                        steps@[i as int],
                        protocol,
                        statement,
                        pcs,
                        *proof,
                        Err(error),
                    ));
                    assert(ran_steps(trail, draws, steps@, protocol, statement, pcs, *proof, i as nat));
                }
                return Err(error);
            },
        };
        let hash_after = kernel.next_hash_id();
        let call_after = kernel.next_call_id();
        let ghost next_trail = trail.push(kernel);
        let ghost next_draws = draws.push(draw);
        proof {
            assert(next_trail[i as int] == before);
            assert(next_draws[i as int] == draw);
            assert(ran_steps(next_trail, next_draws, steps@, protocol, statement, pcs, *proof, (i + 1) as nat)) by {
                assert forall|k: int| #![trigger next_draws[k]] 0 <= k < i + 1 implies step_ran(
                    next_trail[k],
                    next_trail[k + 1],
                    k as u32,
                    steps@[k],
                    protocol,
                    statement,
                    pcs,
                    *proof,
                    Ok(next_draws[k]),
                ) by {
                    if k < i {
                        assert(draws[k] == next_draws[k]);
                        assert(next_trail[k] == trail[k]);
                        assert(next_trail[k + 1] == trail[k + 1]);
                    }
                }
            }
            assert(operations_of(steps@, next_trail, next_draws, i as nat) == operations_of(steps@, trail, draws, i as nat)) by {
                assert(next_trail.subrange(0, trail.len() as int) =~= trail);
                assert(next_draws.subrange(0, draws.len() as int) =~= draws);
                lemma_operations_prefix(steps@, trail, draws, next_trail, next_draws, i as nat);
            }
        }
        match step.transcript_effect() {
            None => {
                if hash_before != hash_after || call_before != call_after {
                    return Err(TranscriptProgramError::UnexpectedTranscriptTransition { sequence });
                }
            },
            Some(effect) => {
                let expected_draw = effect == TranscriptEffect::Draw;
                if draw.is_some() != expected_draw {
                    return Err(
                        TranscriptProgramError::DrawOutputMismatch {
                            sequence,
                            expected: expected_draw,
                            actual: draw.is_some(),
                        },
                    );
                }
                let hash_count = monotonic_delta(hash_before, hash_after);
                if hash_count != effect.hash_count() {
                    return Err(
                        TranscriptProgramError::HashCountMismatch {
                            sequence,
                            expected: effect.hash_count(),
                            actual: hash_count,
                        },
                    );
                }
                operations.push(
                    TranscriptOperationTrace {
                        sequence,
                        step,
                        first_hash_id: hash_before,
                        hash_count,
                        first_call_id: call_before,
                        call_count: monotonic_delta(call_before, call_after),
                        draw,
                    },
                );
            },
        }
        proof {
            trail = next_trail;
            draws = next_draws;
        }
        i = i + 1;
    }
    Ok((kernel, operations))
}

/// Extending the trail past `n` leaves the record of the first `n` steps.
proof fn lemma_operations_prefix<B: TranscriptBackend>(
    steps: Seq<VerifierStep>,
    trail: Seq<TranscriptKernel<B>>,
    draws: Seq<Option<[M31Word; 8]>>,
    longer_trail: Seq<TranscriptKernel<B>>,
    longer_draws: Seq<Option<[M31Word; 8]>>,
    n: nat,
)
    requires
        trail.len() == n + 1,
        draws.len() == n,
        longer_trail.len() >= trail.len(),
        longer_draws.len() >= draws.len(),
        longer_trail.subrange(0, trail.len() as int) == trail,
        longer_draws.subrange(0, draws.len() as int) == draws,
    ensures
        operations_of(steps, longer_trail, longer_draws, n) == operations_of(steps, trail, draws, n),
    decreases n,
{
    if n > 0 {
        assert(longer_trail.subrange(0, n as int) =~= trail.subrange(0, n as int));
        assert(longer_draws.subrange(0, n - 1) =~= draws.subrange(0, n - 1));
        lemma_operations_prefix(
            steps,
            trail.subrange(0, n as int),
            draws.subrange(0, n - 1),
            longer_trail,
            longer_draws,
            (n - 1) as nat,
        );
        assert(trail[n - 1] == longer_trail[n - 1]);
        assert(trail[n as int] == longer_trail[n as int]);
        assert(draws[n - 1] == longer_draws[n - 1]);
        assert(operations_of(steps, trail.subrange(0, n as int), draws.subrange(0, n - 1), (n - 1) as nat)
            == operations_of(steps, trail, draws, (n - 1) as nat)) by {
            lemma_operations_sub(steps, trail, draws, (n - 1) as nat);
        }
    }
}

/// The record of the first `n` steps reads only the first `n + 1` states and
/// `n` draws.
proof fn lemma_operations_sub<B: TranscriptBackend>(
    steps: Seq<VerifierStep>,
    trail: Seq<TranscriptKernel<B>>,
    draws: Seq<Option<[M31Word; 8]>>,
    n: nat,
)
    requires
        trail.len() >= n + 1,
        draws.len() >= n,
    ensures
        operations_of(steps, trail.subrange(0, n + 1 as int), draws.subrange(0, n as int), n) == operations_of(
            steps,
            trail,
            draws,
            n,
        ),
    decreases n,
{
    if n > 0 {
        lemma_operations_sub(steps, trail, draws, (n - 1) as nat);
        lemma_operations_sub(steps, trail.subrange(0, n + 1 as int), draws.subrange(0, n as int), (n - 1) as nat);
        assert(trail.subrange(0, n + 1 as int).subrange(0, n as int) =~= trail.subrange(0, n as int));
        assert(draws.subrange(0, n as int).subrange(0, n - 1) =~= draws.subrange(0, n - 1));
    }
}

} // verus!
