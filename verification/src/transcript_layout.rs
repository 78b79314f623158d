//! Trusted frame, call and word layout of the recursive verifier's transcript.
//!
//! A verifier plan fixes every transcript operation and its payload width.
//! This module expands that into deterministic hash ids, Poseidon call ids,
//! frame boundaries, header constants, payload slots and sponge padding.
//! Preprocessing reads this layout, so proof columns supply values but never
//! choose transcript structure.
use crate::kernel::{VerifierControlPlan, VerifierStep};
use crate::m31::{M31Word, word_values};
use crate::transcript_trace::{
    HashFrame, TranscriptError, TranscriptTrace, HashPurpose, spec_sponge_rows,
};
use crate::transcript_program::{
    TranscriptOperationTrace, TranscriptEffect, TranscriptProgramError, operation_header, spec_hash_count,
    spec_operation_header, spec_transcript_effect,
};
use vstd::prelude::*;

verus! {

/// Words absorbed per Poseidon call.
pub const RATE: usize = 8;

/// Words of a transcript digest.
pub const DIGEST_WORDS: usize = 8;

/// Counter word of a draw frame.
pub const DRAW_COUNTER: u16 = 0;

/// Tag word of a draw frame.
pub const DRAW_TAG: u32 = 0x4452_4157;

/// Words of a proof-of-work nonce payload.
pub const POW_NONCE_WORDS: u32 = 4;

/// Origin of one padded sponge input word.
#[derive(Clone, Copy, Debug, PartialEq, Eq, Structural)]
pub enum TranscriptWordSource {
    Digest { limb: u32 },
    Payload { index: u32 },
    Constant(M31Word),
}

/// A word source with its constant taken by value.
#[derive(Clone, Copy, Debug, PartialEq, Eq, Structural)]
pub enum WordSourceView {
    Digest { limb: u32 },
    Payload { index: u32 },
    Constant(u32),
}

impl View for TranscriptWordSource {
    type V = WordSourceView;

    open spec fn view(&self) -> WordSourceView {
        match *self {
            TranscriptWordSource::Digest { limb } => WordSourceView::Digest { limb },
            TranscriptWordSource::Payload { index } => WordSourceView::Payload { index },
            TranscriptWordSource::Constant(word) => WordSourceView::Constant(word@),
        }
    }
}

/// The views of a sequence of word sources.
pub open spec fn source_views(words: Seq<TranscriptWordSource>) -> Seq<WordSourceView> {
    words.map_values(|w: TranscriptWordSource| w@)
}

proof fn lemma_source_views_push(words: Seq<TranscriptWordSource>, word: TranscriptWordSource)
    ensures
        source_views(words.push(word)) == source_views(words).push(word@),
{
    assert(source_views(words.push(word)) =~= source_views(words).push(word@));
}

/// Which transcript index failed to fit `u32`.
#[derive(Clone, Copy, Debug, PartialEq, Eq, Structural)]
pub enum IndexField {
    Hash,
    Call,
}

/// Which recorded collection a length check is about.
#[derive(Clone, Copy, Debug, PartialEq, Eq, Structural)]
pub enum LayoutPart {
    Operations,
    Frames,
    Calls,
}

/// Invalid trusted layout, or a recording that disagrees with it.
#[derive(Clone, Copy, Debug, PartialEq, Eq, Structural)]
pub enum TranscriptLayoutError {
    Program(TranscriptProgramError),
    Transcript(TranscriptError),
    IndexRegression { field: IndexField },
    LengthMismatch { field: LayoutPart, expected: usize, actual: usize },
    OperationMismatch { ordinal: u32 },
    FrameMismatch { hash_id: u32 },
    ConstantWordMismatch { hash_id: u32 },
    CallMismatch { call_id: u32 },
    SequenceOutOfRange { sequence: usize },
    OperationCountOutOfRange { count: usize },
    WordCountOutOfRange { count: usize },
    CallCountOutOfRange { count: usize },
    PayloadWordCountOverflow { count: u32 },
    IndexOutOfRange { field: IndexField, value: usize },
    NonTranscriptStep { step: VerifierStep },
}

/// One trusted Poseidon call coordinate within a transcript frame.
#[derive(Clone, Copy, Debug, PartialEq, Eq, Structural)]
pub struct TranscriptCallLayout {
    call_id: u32,
    hash_id: u32,
    step: u32,
    is_first: bool,
    is_last: bool,
    purpose: HashPurpose,
}

impl TranscriptCallLayout {
    pub closed spec fn spec_fields(&self) -> (u32, u32, u32, bool, bool, HashPurpose) {
        (self.call_id, self.hash_id, self.step, self.is_first, self.is_last, self.purpose)
    }

    pub fn call_id(&self) -> (r: u32)
        ensures
            r == self.spec_fields().0,
    {
        self.call_id
    }

    pub fn hash_id(&self) -> (r: u32)
        ensures
            r == self.spec_fields().1,
    {
        self.hash_id
    }

    pub fn step(&self) -> (r: u32)
        ensures
            r == self.spec_fields().2,
    {
        self.step
    }

    pub fn is_first(&self) -> (r: bool)
        ensures
            r == self.spec_fields().3,
    {
        self.is_first
    }

    pub fn is_last(&self) -> (r: bool)
        ensures
            r == self.spec_fields().4,
    {
        self.is_last
    }

    pub fn purpose(&self) -> (r: HashPurpose)
        ensures
            r == self.spec_fields().5,
    {
        self.purpose
    }
}

/// The call at position `k` of a frame of `call_count` calls.
pub open spec fn spec_call(
    call_id: nat,
    hash_id: u32,
    k: nat,
    call_count: nat,
    purpose: HashPurpose,
) -> (u32, u32, u32, bool, bool, HashPurpose) {
    ((call_id) as u32, hash_id, k as u32, k == 0, k + 1 == call_count, purpose)
}

/// Frame fields: hash id, first call id, call count, purpose, stream word
/// count, and the padded word sources.
pub type FrameView = (u32, u32, u32, HashPurpose, u32, Seq<WordSourceView>);

/// One independent sponge session and its complete padded word ownership.
#[derive(Clone, Debug)]
pub struct TranscriptFrameLayout {
    hash_id: u32,
    first_call_id: u32,
    call_count: u32,
    purpose: HashPurpose,
    stream_word_count: u32,
    words: Vec<TranscriptWordSource>,
}

impl View for TranscriptFrameLayout {
    type V = FrameView;

    closed spec fn view(&self) -> FrameView {
        (
            self.hash_id,
            self.first_call_id,
            self.call_count,
            self.purpose,
            self.stream_word_count,
            source_views(self.words@),
        )
    }
}

impl TranscriptFrameLayout {
    pub fn hash_id(&self) -> (r: u32)
        ensures
            r == self@.0,
    {
        self.hash_id
    }

    pub fn first_call_id(&self) -> (r: u32)
        ensures
            r == self@.1,
    {
        self.first_call_id
    }

    pub fn call_count(&self) -> (r: u32)
        ensures
            r == self@.2,
    {
        self.call_count
    }

    pub fn purpose(&self) -> (r: HashPurpose)
        ensures
            r == self@.3,
    {
        self.purpose
    }

    pub fn stream_word_count(&self) -> (r: u32)
        ensures
            r == self@.4,
    {
        self.stream_word_count
    }

    pub fn words(&self) -> (r: &[TranscriptWordSource])
        ensures
            source_views(r@) == self@.5,
    {
        self.words.as_slice()
    }
}

/// Frame range and payload width for one transcript-affecting control step.
#[derive(Clone, Copy, Debug, PartialEq, Eq, Structural)]
pub struct TranscriptOperationLayout {
    ordinal: u32,
    sequence: u32,
    step: VerifierStep,
    effect: TranscriptEffect,
    first_hash_id: u32,
    hash_count: u32,
    first_call_id: u32,
    call_count: u32,
    payload_word_count: u32,
}

/// Operation fields in declaration order.
pub type OperationView = (u32, u32, VerifierStep, TranscriptEffect, u32, u32, u32, u32, u32);

impl View for TranscriptOperationLayout {
    type V = OperationView;

    closed spec fn view(&self) -> OperationView {
        (
            self.ordinal,
            self.sequence,
            self.step,
            self.effect,
            self.first_hash_id,
            self.hash_count,
            self.first_call_id,
            self.call_count,
            self.payload_word_count,
        )
    }
}

impl TranscriptOperationLayout {
    pub fn ordinal(&self) -> (r: u32)
        ensures
            r == self@.0,
    {
        self.ordinal
    }

    pub fn sequence(&self) -> (r: u32)
        ensures
            r == self@.1,
    {
        self.sequence
    }

    pub fn step(&self) -> (r: VerifierStep)
        ensures
            r == self@.2,
    {
        self.step
    }

    pub fn effect(&self) -> (r: TranscriptEffect)
        ensures
            r == self@.3,
    {
        self.effect
    }

    pub fn first_hash_id(&self) -> (r: u32)
        ensures
            r == self@.4,
    {
        self.first_hash_id
    }

    pub fn hash_count(&self) -> (r: u32)
        ensures
            r == self@.5,
    {
        self.hash_count
    }

    pub fn first_call_id(&self) -> (r: u32)
        ensures
            r == self@.6,
    {
        self.first_call_id
    }

    pub fn call_count(&self) -> (r: u32)
        ensures
            r == self@.7,
    {
        self.call_count
    }

    pub fn payload_word_count(&self) -> (r: u32)
        ensures
            r == self@.8,
    {
        self.payload_word_count
    }
}

/// Layout under construction: operations, frames and calls.
pub type LayoutState = (Seq<OperationView>, Seq<FrameView>, Seq<(u32, u32, u32, bool, bool, HashPurpose)>);

/// Zero words appended after the terminating one so a stream fills whole calls.
pub open spec fn spec_padding(stream_len: nat) -> nat {
    ((8 - (stream_len + 1) % 8) % 8) as nat
}

/// A stream followed by the one-word terminator and zero padding.
pub open spec fn spec_frame_words(stream: Seq<WordSourceView>) -> Seq<WordSourceView> {
    stream.push(WordSourceView::Constant(1)) + Seq::new(
        spec_padding(stream.len()),
        |i: int| WordSourceView::Constant(0),
    )
}

/// The calls of one frame.
pub open spec fn spec_frame_calls(
    first_call_id: nat,
    hash_id: u32,
    call_count: nat,
    purpose: HashPurpose,
) -> Seq<(u32, u32, u32, bool, bool, HashPurpose)> {
    Seq::new(
        call_count,
        |k: int| spec_call(first_call_id + k as nat, hash_id, k as nat, call_count, purpose),
    )
}

/// Appends one frame and its calls.
pub open spec fn spec_push_frame(
    state: LayoutState,
    purpose: HashPurpose,
    stream: Seq<WordSourceView>,
) -> Result<LayoutState, TranscriptLayoutError> {
    let (operations, frames, calls) = state;
    if frames.len() > u32::MAX {
        Err(TranscriptLayoutError::IndexOutOfRange { field: IndexField::Hash, value: frames.len() as usize })
    } else if calls.len() > u32::MAX {
        Err(TranscriptLayoutError::IndexOutOfRange { field: IndexField::Call, value: calls.len() as usize })
    } else if stream.len() > u32::MAX {
        Err(TranscriptLayoutError::WordCountOutOfRange { count: stream.len() as usize })
    } else {
        let words = spec_frame_words(stream);
        let call_count = words.len() / (RATE as nat);
        if calls.len() + call_count > u32::MAX + 1 {
            Err(
                TranscriptLayoutError::IndexOutOfRange {
                    field: IndexField::Call,
                    value: (u32::MAX + 1) as usize,
                },
            )
        } else {
            Ok(
                (
                    operations,
                    frames.push(
                        (
                            frames.len() as u32,
                            calls.len() as u32,
                            call_count as u32,
                            purpose,
                            stream.len() as u32,
                            words,
                        ),
                    ),
                    calls + spec_frame_calls(calls.len(), frames.len() as u32, call_count, purpose),
                ),
            )
        }
    }
}

/// The digest limbs that open every frame.
pub open spec fn spec_digest_sources() -> Seq<WordSourceView> {
    Seq::new(DIGEST_WORDS as nat, |i: int| WordSourceView::Digest { limb: i as u32 })
}

/// Stream of a mix frame: digest, operation header constants, payload slots.
pub open spec fn spec_mix_stream(header: Seq<u32>, payload_word_count: u32) -> Seq<WordSourceView> {
    spec_digest_sources() + header.map_values(|v: u32| WordSourceView::Constant(v)) + Seq::new(
        payload_word_count as nat,
        |i: int| WordSourceView::Payload { index: i as u32 },
    )
}

/// Stream of a draw frame: digest, draw counter and draw tag.
pub open spec fn spec_draw_stream() -> Seq<WordSourceView> {
    spec_digest_sources() + seq![
        WordSourceView::Constant(DRAW_COUNTER as u32),
        WordSourceView::Constant(DRAW_TAG),
    ]
}

/// Payload words absorbed by each transcript step.
pub open spec fn spec_payload_word_count(plan: VerifierControlPlan, step: VerifierStep) -> Result<
    u32,
    TranscriptLayoutError,
> {
    match step {
        VerifierStep::BindProtocol => Ok(DIGEST_WORDS as u32),
        VerifierStep::BindStatement => Ok(plan.statement_word_count),
        VerifierStep::BindPcsParameters => Ok(plan.pcs_parameter_word_count),
        VerifierStep::AbsorbTraceCommitment { .. } | VerifierStep::AbsorbFriCommitment { .. } => Ok(
            DIGEST_WORDS as u32,
        ),
        VerifierStep::AbsorbPublicClaim
        | VerifierStep::DrawRelationChallenge { .. }
        | VerifierStep::DrawCompositionRandomness
        | VerifierStep::DrawOodsPoint
        | VerifierStep::DrawDeepRandomness
        | VerifierStep::DrawFriAlpha { .. }
        | VerifierStep::DrawQueryBlock { .. } => Ok(0),
        VerifierStep::VerifyAndAbsorbInteractionPow { .. }
        | VerifierStep::VerifyAndAbsorbPcsPow { .. } => Ok(POW_NONCE_WORDS),
        VerifierStep::AbsorbClaimedSums { count }
        | VerifierStep::AbsorbSampledValues { count }
        | VerifierStep::AbsorbLastLayerCoefficients { count } => if count * 4 > u32::MAX {
            Err(TranscriptLayoutError::PayloadWordCountOverflow { count })
        } else {
            Ok((count * 4) as u32)
        },
        _ => Err(TranscriptLayoutError::NonTranscriptStep { step }),
    }
}

/// The layout after one plan step.
pub open spec fn spec_layout_step(
    state: LayoutState,
    plan: VerifierControlPlan,
    sequence: nat,
    step: VerifierStep,
) -> Result<LayoutState, TranscriptLayoutError> {
    let (operations, frames, calls) = state;
    match spec_transcript_effect(step) {
        None => Ok(state),
        Some(effect) => if sequence > u32::MAX {
            Err(TranscriptLayoutError::SequenceOutOfRange { sequence: sequence as usize })
        } else if operations.len() > u32::MAX {
            Err(TranscriptLayoutError::OperationCountOutOfRange { count: operations.len() as usize })
        } else if frames.len() > u32::MAX {
            Err(TranscriptLayoutError::IndexOutOfRange { field: IndexField::Hash, value: frames.len() as usize })
        } else if calls.len() > u32::MAX {
            Err(TranscriptLayoutError::IndexOutOfRange { field: IndexField::Call, value: calls.len() as usize })
        } else {
            match spec_payload_word_count(plan, step) {
                Err(error) => Err(error),
                Ok(payload) => match spec_operation_header(sequence as u32, step) {
                    Err(error) => Err(TranscriptLayoutError::Program(error)),
                    Ok(header) => match spec_push_frame(
                        state,
                        HashPurpose::Mix,
                        spec_mix_stream(header, payload),
                    ) {
                        Err(error) => Err(error),
                        Ok(mixed) => match (if effect is Mix {
                            Ok(mixed)
                        } else {
                            spec_push_frame(mixed, HashPurpose::Draw, spec_draw_stream())
                        }) {
                            Err(error) => Err(error),
                            Ok((operations2, frames2, calls2)) => if frames2.len() > u32::MAX {
                                Err(
                                    TranscriptLayoutError::IndexOutOfRange {
                                        field: IndexField::Hash,
                                        value: frames2.len() as usize,
                                    },
                                )
                            } else if calls2.len() > u32::MAX {
                                Err(
                                    TranscriptLayoutError::IndexOutOfRange {
                                        field: IndexField::Call,
                                        value: calls2.len() as usize,
                                    },
                                )
                            } else {
                                Ok(
                                    (
                                        operations2.push(
                                            (
                                                operations.len() as u32,
                                                sequence as u32,
                                                step,
                                                effect,
                                                frames.len() as u32,
                                                (frames2.len() - frames.len()) as u32,
                                                calls.len() as u32,
                                                (calls2.len() - calls.len()) as u32,
                                                payload,
                                            ),
                                        ),
                                        frames2,
                                        calls2,
                                    ),
                                )
                            },
                        },
                    },
                },
            }
        },
    }
}

/// The layout of the first `n` plan steps.
pub open spec fn spec_layout(plan: VerifierControlPlan, n: nat) -> Result<
    LayoutState,
    TranscriptLayoutError,
>
    decreases n,
{
    if n == 0 {
        Ok((Seq::empty(), Seq::empty(), Seq::empty()))
    } else {
        match spec_layout(plan, (n - 1) as nat) {
            Err(error) => Err(error),
            Ok(state) => spec_layout_step(state, plan, (n - 1) as nat, plan.steps@[n - 1]),
        }
    }
}

/// A layout that fails on a plan prefix fails, with the same error, on the
/// whole plan.
pub proof fn lemma_layout_error_sticks(plan: VerifierControlPlan, n: nat, m: nat)
    requires
        n <= m,
        spec_layout(plan, n) is Err,
    ensures
        spec_layout(plan, m) == spec_layout(plan, n),
    decreases m - n,
{
    if m > n {
        lemma_layout_error_sticks(plan, n, (m - 1) as nat);
    }
}

/// Complete trusted transcript preprocessing for one verifier schema.
#[derive(Clone, Debug)]
pub struct TranscriptLayout {
    operations: Vec<TranscriptOperationLayout>,
    frames: Vec<TranscriptFrameLayout>,
    calls: Vec<TranscriptCallLayout>,
}

impl View for TranscriptLayout {
    type V = LayoutState;

    closed spec fn view(&self) -> LayoutState {
        (
            self.operations@.map_values(|o: TranscriptOperationLayout| o@),
            self.frames@.map_values(|f: TranscriptFrameLayout| f@),
            self.calls@.map_values(|c: TranscriptCallLayout| c.spec_fields()),
        )
    }
}

/// The eight digest-limb sources.
pub fn digest_sources() -> (words: Vec<TranscriptWordSource>)
    ensures
        source_views(words@) == spec_digest_sources(),
{
    let mut words: Vec<TranscriptWordSource> = Vec::new();
    let mut limb: u32 = 0;
    while limb < DIGEST_WORDS as u32
        invariant
            limb <= DIGEST_WORDS,
            source_views(words@) == Seq::new(
                limb as nat,
                |i: int| WordSourceView::Digest { limb: i as u32 },
            ),
        decreases DIGEST_WORDS - limb,
    {
        let ghost before = words@;
        words.push(TranscriptWordSource::Digest { limb });
        proof {
            lemma_source_views_push(before, TranscriptWordSource::Digest { limb });
            assert(source_views(words@) =~= Seq::new(
                (limb + 1) as nat,
                |i: int| WordSourceView::Digest { limb: i as u32 },
            ));
        }
        limb = limb + 1;
    }
    words
}

/// The payload width of one transcript step.
pub fn payload_word_count(plan: &VerifierControlPlan, step: VerifierStep) -> (result: Result<
    u32,
    TranscriptLayoutError,
>)
    ensures
        result == spec_payload_word_count(*plan, step),
{
    match step {
        VerifierStep::BindProtocol => Ok(DIGEST_WORDS as u32),
        VerifierStep::BindStatement => Ok(plan.statement_word_count),
        VerifierStep::BindPcsParameters => Ok(plan.pcs_parameter_word_count),
        VerifierStep::AbsorbTraceCommitment { .. } | VerifierStep::AbsorbFriCommitment { .. } => Ok(
            DIGEST_WORDS as u32,
        ),
        VerifierStep::AbsorbPublicClaim
        | VerifierStep::DrawRelationChallenge { .. }
        | VerifierStep::DrawCompositionRandomness
        | VerifierStep::DrawOodsPoint
        | VerifierStep::DrawDeepRandomness
        | VerifierStep::DrawFriAlpha { .. }
        | VerifierStep::DrawQueryBlock { .. } => Ok(0),
        VerifierStep::VerifyAndAbsorbInteractionPow { .. }
        | VerifierStep::VerifyAndAbsorbPcsPow { .. } => Ok(POW_NONCE_WORDS),
        VerifierStep::AbsorbClaimedSums { count }
        | VerifierStep::AbsorbSampledValues { count }
        | VerifierStep::AbsorbLastLayerCoefficients { count } => {
            if count > u32::MAX / 4 {
                Err(TranscriptLayoutError::PayloadWordCountOverflow { count })
            } else {
                Ok(count * 4)
            }
        },
        _ => Err(TranscriptLayoutError::NonTranscriptStep { step }),
    }
}

/// Converts a transcript index to `u32`.
pub fn next_index(field: IndexField, value: usize) -> (result: Result<u32, TranscriptLayoutError>)
    ensures
        result == if value > u32::MAX {
            Err(TranscriptLayoutError::IndexOutOfRange { field, value })
        } else {
            Ok::<u32, TranscriptLayoutError>(value as u32)
        },
{
    if value > u32::MAX as usize {
        Err(TranscriptLayoutError::IndexOutOfRange { field, value })
    } else {
        Ok(value as u32)
    }
}

/// Items added since `first`, once the current count is a `u32` index.
pub fn monotonic_count(first: u32, current: usize, field: IndexField) -> (result: Result<
    u32,
    TranscriptLayoutError,
>)
    requires
        first <= current,
    ensures
        result == if current > u32::MAX {
            Err(TranscriptLayoutError::IndexOutOfRange { field, value: current })
        } else {
            Ok::<u32, TranscriptLayoutError>((current - first) as u32)
        },
{
    let current = next_index(field, current)?;
    Ok(current - first)
}

impl TranscriptLayout {
    #[verifier::loop_isolation(false)]
    fn push_frame(&mut self, purpose: HashPurpose, words: Vec<TranscriptWordSource>) -> (result:
        Result<(), TranscriptLayoutError>)
        ensures
            match spec_push_frame(old(self)@, purpose, source_views(words@)) {
                Ok(state) => result is Ok && final(self)@ == state,
                Err(error) => result == Err::<(), _>(error),
            },
    {
        let ghost stream = source_views(words@);
        let ghost old_view = self@;
        let mut words = words;
        let hash_id = next_index(IndexField::Hash, self.frames.len())?;
        let first_call_id = next_index(IndexField::Call, self.calls.len())?;
        if words.len() > u32::MAX as usize {
            return Err(TranscriptLayoutError::WordCountOutOfRange { count: words.len() });
        }
        let stream_word_count = words.len() as u32;
        let one = M31Word::from_u16(1);
        proof {
            lemma_source_views_push(words@, TranscriptWordSource::Constant(one));
        }
        words.push(TranscriptWordSource::Constant(one));
        proof {
            assert(source_views(words@) =~= stream.push(WordSourceView::Constant(1)) + Seq::new(
                0,
                |i: int| WordSourceView::Constant(0),
            ));
        }
        let ghost mut added: nat = 0;
        while words.len() % RATE != 0
            invariant
                stream.len() == stream_word_count,
                source_views(words@) == stream.push(WordSourceView::Constant(1)) + Seq::new(
                    added,
                    |i: int| WordSourceView::Constant(0),
                ),
                words@.len() == stream.len() + 1 + added,
                added <= spec_padding(stream.len()),
            decreases spec_padding(stream.len()) - added,
        {
            let ghost before = words@;
            let zero = M31Word::zero();
            words.push(TranscriptWordSource::Constant(zero));
            proof {
                lemma_source_views_push(before, TranscriptWordSource::Constant(zero));
                added = added + 1;
                assert(source_views(words@) =~= stream.push(WordSourceView::Constant(1)) + Seq::new(
                    added,
                    |i: int| WordSourceView::Constant(0),
                ));
            }
        }
        proof {
            assert(added == spec_padding(stream.len()));
            assert(source_views(words@) =~= spec_frame_words(stream));
        }
        let call_count = words.len() / RATE;
        let ghost frame_calls = spec_frame_calls(
            first_call_id as nat,
            hash_id,
            call_count as nat,
            purpose,
        );
        let mut step: usize = 0;
        while step < call_count
            invariant
                step <= call_count,
                call_count == words@.len() / (RATE as nat),
                first_call_id == old_view.2.len(),
                hash_id == old_view.1.len(),
                self.frames@ == old(self).frames@,
                self.operations@ == old(self).operations@,
                self@.2 == old_view.2 + frame_calls.take(step as int),
                frame_calls == spec_frame_calls(
                    first_call_id as nat,
                    hash_id,
                    call_count as nat,
                    purpose,
                ),
                old_view == old(self)@,
                stream == source_views(words@).take(stream.len() as int),
                source_views(words@) == spec_frame_words(stream),
                stream.len() <= u32::MAX,
                self.calls@.len() == old_view.2.len() + step,
                old_view.2.len() + step <= u32::MAX + 1,
            decreases call_count - step,
        {
            let call_id = match next_index(IndexField::Call, self.calls.len()) {
                Ok(call_id) => call_id,
                Err(error) => {
                    proof {
                        assert(self.calls@.len() == u32::MAX + 1);
                        assert(spec_frame_words(stream).len() == words@.len());
                        assert(old_view.2.len() + call_count > u32::MAX + 1);
                        assert(!(old_view.1.len() > u32::MAX));
                        assert(!(old_view.2.len() > u32::MAX));
                        assert(!(stream.len() > u32::MAX));
                        assert(spec_push_frame(old_view, purpose, stream) == Err::<LayoutState, TranscriptLayoutError>(
                            TranscriptLayoutError::IndexOutOfRange {
                                field: IndexField::Call,
                                value: (u32::MAX + 1) as usize,
                            },
                        ));
                        assert(error == TranscriptLayoutError::IndexOutOfRange {
                                field: IndexField::Call,
                                value: (u32::MAX + 1) as usize,
                            });
                    }
                    return Err(error);
                },
            };
            let ghost before = self.calls@;
            self.calls.push(
                TranscriptCallLayout {
                    call_id,
                    hash_id,
                    step: step as u32,
                    is_first: step == 0,
                    is_last: step + 1 == call_count,
                    purpose,
                },
            );
            proof {
                assert(self.calls@ == before.push(self.calls@.last()));
                assert(self.calls@.map_values(|c: TranscriptCallLayout| c.spec_fields())
                    =~= before.map_values(|c: TranscriptCallLayout| c.spec_fields()).push(
                    self.calls@.last().spec_fields(),
                ));
                assert(self@.2 =~= old_view.2 + frame_calls.take(step as int + 1));
            }
            step = step + 1;
        }
        proof {
            assert(frame_calls.take(call_count as int) =~= frame_calls);
            assert(old_view.2.len() + call_count <= u32::MAX + 1);
        }
        let ghost frames_before = self.frames@;
        self.frames.push(
            TranscriptFrameLayout {
                hash_id,
                first_call_id,
                call_count: call_count as u32,
                purpose,
                stream_word_count,
                words,
            },
        );
        proof {
            assert(self.frames@ == frames_before.push(self.frames@.last()));
            assert(self.frames@.map_values(|f: TranscriptFrameLayout| f@) =~= frames_before.map_values(
                |f: TranscriptFrameLayout| f@,
            ).push(self.frames@.last()@));
            assert(self@.1 =~= old_view.1.push(self.frames@.last()@));
        }
        Ok(())
    }
}


impl TranscriptLayout {
    fn push_mix_frame(&mut self, sequence: u32, step: VerifierStep, payload_word_count: u32) -> (result:
        Result<(), TranscriptLayoutError>)
        ensures
            match spec_operation_header(sequence, step) {
                Err(error) => result == Err::<(), _>(TranscriptLayoutError::Program(error)),
                Ok(header) => match spec_push_frame(
                    old(self)@,
                    HashPurpose::Mix,
                    spec_mix_stream(header, payload_word_count),
                ) {
                    Ok(state) => result is Ok && final(self)@ == state,
                    Err(error) => result == Err::<(), _>(error),
                },
            },
    {
        let mut words = digest_sources();
        let header = match operation_header(sequence, step) {
            Ok(header) => header,
            Err(error) => return Err(TranscriptLayoutError::Program(error)),
        };
        let ghost header_values = word_values(header@);
        let ghost prefix = spec_digest_sources() + header_values.map_values(
            |v: u32| WordSourceView::Constant(v),
        );
        let mut i: usize = 0;
        while i < header.len()
            invariant
                i <= header@.len(),
                header_values == word_values(header@),
                source_views(words@) == spec_digest_sources() + header_values.take(i as int).map_values(
                    |v: u32| WordSourceView::Constant(v),
                ),
            decreases header@.len() - i,
        {
            let ghost before = words@;
            words.push(TranscriptWordSource::Constant(header[i]));
            proof {
                lemma_source_views_push(before, TranscriptWordSource::Constant(header@[i as int]));
                assert(header_values.take(i as int + 1) =~= header_values.take(i as int).push(
                    header_values[i as int],
                ));
                assert(source_views(words@) =~= spec_digest_sources() + header_values.take(
                    i as int + 1,
                ).map_values(|v: u32| WordSourceView::Constant(v)));
            }
            i = i + 1;
        }
        proof {
            assert(header_values.take(header@.len() as int) =~= header_values);
        }
        let mut index: u32 = 0;
        while index < payload_word_count
            invariant
                index <= payload_word_count,
                source_views(words@) == prefix + Seq::new(
                    index as nat,
                    |j: int| WordSourceView::Payload { index: j as u32 },
                ),
            decreases payload_word_count - index,
        {
            let ghost before = words@;
            words.push(TranscriptWordSource::Payload { index });
            proof {
                lemma_source_views_push(before, TranscriptWordSource::Payload { index });
                assert(source_views(words@) =~= prefix + Seq::new(
                    (index + 1) as nat,
                    |j: int| WordSourceView::Payload { index: j as u32 },
                ));
            }
            index = index + 1;
        }
        proof {
            assert(source_views(words@) =~= spec_mix_stream(header_values, payload_word_count));
        }
        self.push_frame(HashPurpose::Mix, words)
    }

    fn push_draw_frame(&mut self) -> (result: Result<(), TranscriptLayoutError>)
        ensures
            match spec_push_frame(old(self)@, HashPurpose::Draw, spec_draw_stream()) {
                Ok(state) => result is Ok && final(self)@ == state,
                Err(error) => result == Err::<(), _>(error),
            },
    {
        let mut words = digest_sources();
        let counter = M31Word::from_u16(DRAW_COUNTER);
        let tag = match M31Word::try_from_u32(DRAW_TAG) {
            Some(tag) => tag,
            None => {
                proof {
                    assert(DRAW_TAG < crate::m31::M31_MODULUS);
                }
                return Err(TranscriptLayoutError::WordCountOutOfRange { count: 0 });
            },
        };
        let ghost before = words@;
        words.push(TranscriptWordSource::Constant(counter));
        proof {
            lemma_source_views_push(before, TranscriptWordSource::Constant(counter));
        }
        let ghost before = words@;
        words.push(TranscriptWordSource::Constant(tag));
        proof {
            lemma_source_views_push(before, TranscriptWordSource::Constant(tag));
            assert(source_views(words@) =~= spec_draw_stream());
        }
        self.push_frame(HashPurpose::Draw, words)
    }

    /// Expands every transcript-affecting step of a plan into operations,
    /// hash frames and Poseidon calls, in plan order.
    pub fn new(plan: &VerifierControlPlan) -> (result: Result<Self, TranscriptLayoutError>)
        ensures
            match spec_layout(*plan, plan.steps@.len()) {
                Ok(state) => result matches Ok(layout) && layout@ == state,
                Err(error) => result matches Err(e) && e == error,
            },
            result matches Ok(layout) ==> layout_wf(layout@),
    {
        let mut layout = TranscriptLayout {
            operations: Vec::new(),
            frames: Vec::new(),
            calls: Vec::new(),
        };
        proof {
            assert(layout@.0 =~= Seq::<OperationView>::empty());
            assert(layout@.1 =~= Seq::<FrameView>::empty());
            assert(layout@.2 =~= Seq::<(u32, u32, u32, bool, bool, HashPurpose)>::empty());
        }
        let n = plan.steps.len();
        let mut i: usize = 0;
        while i < n
            invariant
                i <= n,
                n == plan.steps@.len(),
                spec_layout(*plan, i as nat) == Ok::<LayoutState, TranscriptLayoutError>(layout@),
            decreases n - i,
        {
            let step = plan.steps[i];
            let ghost state = layout@;
            let outcome = layout.apply_step(plan, i, step);
            proof {
                assert(spec_layout(*plan, (i + 1) as nat) == spec_layout_step(state, *plan, i as nat, step));
            }
            match outcome {
                Ok(()) => {},
                Err(error) => {
                    proof {
                        lemma_layout_error_sticks(*plan, (i + 1) as nat, n as nat);
                    }
                    return Err(error);
                },
            }
            i = i + 1;
        }
        proof {
            lemma_layout_wf(*plan, n as nat);
        }
        Ok(layout)
    }

    fn apply_step(&mut self, plan: &VerifierControlPlan, sequence: usize, step: VerifierStep) -> (result:
        Result<(), TranscriptLayoutError>)
        ensures
            match spec_layout_step(old(self)@, *plan, sequence as nat, step) {
                Ok(state) => result is Ok && final(self)@ == state,
                Err(error) => result == Err::<(), _>(error),
            },
    {
        let effect = match step.transcript_effect() {
            Some(effect) => effect,
            None => return Ok(()),
        };
        if sequence > u32::MAX as usize {
            return Err(TranscriptLayoutError::SequenceOutOfRange { sequence });
        }
        let sequence = sequence as u32;
        if self.operations.len() > u32::MAX as usize {
            return Err(TranscriptLayoutError::OperationCountOutOfRange { count: self.operations.len() });
        }
        let ordinal = self.operations.len() as u32;
        let first_hash_id = next_index(IndexField::Hash, self.frames.len())?;
        let first_call_id = next_index(IndexField::Call, self.calls.len())?;
        let payload_word_count = payload_word_count(plan, step)?;
        self.push_mix_frame(sequence, step, payload_word_count)?;
        match effect {
            TranscriptEffect::Draw | TranscriptEffect::Pow => {
                self.push_draw_frame()?;
            },
            TranscriptEffect::Mix => {},
        }
        let hash_count = monotonic_count(first_hash_id, self.frames.len(), IndexField::Hash)?;
        let call_count = monotonic_count(first_call_id, self.calls.len(), IndexField::Call)?;
        let ghost before = self.operations@;
        self.operations.push(
            TranscriptOperationLayout {
                ordinal,
                sequence,
                step,
                effect,
                first_hash_id,
                hash_count,
                first_call_id,
                call_count,
                payload_word_count,
            },
        );
        proof {
            assert(self.operations@.map_values(|o: TranscriptOperationLayout| o@) =~= before.map_values(
                |o: TranscriptOperationLayout| o@,
            ).push(self.operations@.last()@));
        }
        Ok(())
    }

    pub fn operations(&self) -> (operations: &[TranscriptOperationLayout])
        ensures
            operations@.map_values(|o: TranscriptOperationLayout| o@) == self@.0,
    {
        self.operations.as_slice()
    }

    pub fn frames(&self) -> (frames: &[TranscriptFrameLayout])
        ensures
            frames@.map_values(|f: TranscriptFrameLayout| f@) == self@.1,
    {
        self.frames.as_slice()
    }

    pub fn calls(&self) -> (calls: &[TranscriptCallLayout])
        ensures
            calls@.map_values(|c: TranscriptCallLayout| c.spec_fields()) == self@.2,
    {
        self.calls.as_slice()
    }
}


/// Coordinates of one call: call id, hash id, step within the frame, first
/// and last flags, purpose.
pub type CallView = (u32, u32, u32, bool, bool, HashPurpose);

/// Every call carries its own position as its id.
pub open spec fn calls_dense(calls: Seq<CallView>) -> bool {
    forall|i: int| 0 <= i < calls.len() ==> (#[trigger] calls[i]).0 == i
}

/// Frame `j` has hash id `j`, owns its calls, and holds its stream, the
/// one-word terminator and fewer than eight zeros, filling whole calls.
pub open spec fn frame_wf(f: FrameView, j: int, calls: Seq<CallView>) -> bool {
    &&& f.0 == j
    &&& 1 <= f.2
    &&& f.5.len() == 8 * f.2
    &&& f.4 < f.5.len() <= f.4 + 8
    &&& f.5[f.4 as int] == WordSourceView::Constant(1)
    &&& forall|i: int| f.4 < i < f.5.len() ==> #[trigger] f.5[i] == WordSourceView::Constant(0)
    &&& f.1 + f.2 <= calls.len()
    &&& forall|k: int|
        0 <= k < f.2 ==> #[trigger] calls[f.1 + k] == spec_call(
            (f.1 + k) as nat,
            j as u32,
            k as nat,
            f.2 as nat,
            f.3,
        )
}

/// Frames own consecutive, disjoint call ranges that cover every call.
pub open spec fn frames_tile(frames: Seq<FrameView>, call_count: nat) -> bool {
    &&& frames.len() == 0 ==> call_count == 0
    &&& frames.len() > 0 ==> frames[0].1 == 0 && frames.last().1 + frames.last().2 == call_count
    &&& forall|j: int| 0 < j < frames.len() ==> (#[trigger] frames[j]).1 == frames[j - 1].1 + frames[j - 1].2
}

/// Operation `k` owns a mix frame, followed by a draw frame when its effect
/// draws, and exactly the calls of those frames.
pub open spec fn operation_wf(o: OperationView, k: int, frames: Seq<FrameView>) -> bool {
    &&& o.0 == k
    &&& spec_transcript_effect(o.2) == Some(o.3)
    &&& o.5 == spec_hash_count(o.3)
    &&& o.4 + o.5 <= frames.len()
    &&& frames[o.4 as int].3 == HashPurpose::Mix
    &&& o.5 == 2 ==> frames[o.4 + 1].3 == HashPurpose::Draw
    &&& o.6 == frames[o.4 as int].1
    &&& o.6 + o.7 == frames[o.4 + o.5 - 1].1 + frames[o.4 + o.5 - 1].2
}

/// Operations own consecutive, disjoint frame ranges that cover every frame.
pub open spec fn operations_tile(operations: Seq<OperationView>, frame_count: nat) -> bool {
    &&& operations.len() == 0 ==> frame_count == 0
    &&& operations.len() > 0 ==> operations[0].4 == 0 && operations.last().4
        + operations.last().5 == frame_count
    &&& forall|k: int|
        0 < k < operations.len() ==> (#[trigger] operations[k]).4 == operations[k - 1].4
            + operations[k - 1].5
}

/// Frames and calls of a layout are well formed.
pub open spec fn frames_wf(frames: Seq<FrameView>, calls: Seq<CallView>) -> bool {
    &&& calls_dense(calls)
    &&& forall|j: int| 0 <= j < frames.len() ==> frame_wf(#[trigger] frames[j], j, calls)
    &&& frames_tile(frames, calls.len())
}

/// The structural invariant of a transcript layout.
#[verifier::opaque]
pub open spec fn layout_wf(state: LayoutState) -> bool {
    let (operations, frames, calls) = state;
    &&& frames_wf(frames, calls)
    &&& forall|k: int| 0 <= k < operations.len() ==> operation_wf(#[trigger] operations[k], k, frames)
    &&& operations_tile(operations, frames.len())
}

proof fn lemma_padding(len: nat)
    ensures
        spec_padding(len) < 8,
        (len + 1 + spec_padding(len)) % 8 == 0,
        (len + 1 + spec_padding(len)) / 8 >= 1,
        ((len + 1 + spec_padding(len)) / 8) * 8 == len + 1 + spec_padding(len),
{
    let t = len + 1 + spec_padding(len);
    assert(t % 8 == 0);
    assert(t >= 1);
    assert((t / 8) * 8 == t) by (nonlinear_arith)
        requires
            t % 8 == 0,
    ;
}

proof fn lemma_push_frame_wf(state: LayoutState, purpose: HashPurpose, stream: Seq<WordSourceView>)
    requires
        frames_wf(state.1, state.2),
        spec_push_frame(state, purpose, stream) is Ok,
    ensures
        ({
            let (operations, frames, calls) = state;
            let (operations2, frames2, calls2) = spec_push_frame(state, purpose, stream)->Ok_0;
            &&& operations2 == operations
            &&& frames2.len() == frames.len() + 1
            &&& forall|j: int| 0 <= j < frames.len() ==> frames2[j] == frames[j]
            &&& frames2.last().3 == purpose
            &&& frames2.last().1 == calls.len()
            &&& calls2.len() == frames2.last().1 + frames2.last().2
            &&& frames_wf(frames2, calls2)
        }),
{
    let (operations, frames, calls) = state;
    let words = spec_frame_words(stream);
    lemma_padding(stream.len());
    let call_count = words.len() / (RATE as nat);
    let new_calls = spec_frame_calls(calls.len(), frames.len() as u32, call_count, purpose);
    let (operations2, frames2, calls2) = spec_push_frame(state, purpose, stream)->Ok_0;
    assert(calls2 == calls + new_calls);
    assert(words.len() == stream.len() + 1 + spec_padding(stream.len()));
    assert forall|i: int| 0 <= i < calls2.len() implies (#[trigger] calls2[i]).0 == i by {
        if i >= calls.len() {
            assert(calls2[i] == new_calls[i - calls.len()]);
        }
    }
    let f = frames2.last();
    assert(f.5 == words);
    assert forall|i: int| f.4 < i < f.5.len() implies #[trigger] f.5[i] == WordSourceView::Constant(0) by {
        assert(words[i] == Seq::new(spec_padding(stream.len()), |t: int| WordSourceView::Constant(0))[i
            - stream.len() - 1]);
    }
    assert forall|j: int| 0 <= j < frames2.len() implies frame_wf(#[trigger] frames2[j], j, calls2) by {
        if j < frames.len() {
            assert(frames2[j] == frames[j]);
            assert(frame_wf(frames[j], j, calls));
            assert forall|k: int| 0 <= k < frames[j].2 implies #[trigger] calls2[frames[j].1 + k]
                == spec_call((frames[j].1 + k) as nat, j as u32, k as nat, frames[j].2 as nat, frames[j].3) by {
                assert(calls2[frames[j].1 + k] == calls[frames[j].1 + k]);
            }
        } else {
            assert forall|k: int| 0 <= k < f.2 implies #[trigger] calls2[f.1 + k] == spec_call(
                (f.1 + k) as nat,
                j as u32,
                k as nat,
                f.2 as nat,
                f.3,
            ) by {
                assert(calls2[f.1 + k] == new_calls[k]);
            }
        }
    }
    assert forall|j: int| 0 < j < frames2.len() implies (#[trigger] frames2[j]).1 == frames2[j - 1].1
        + frames2[j - 1].2 by {
        if j < frames.len() {
            assert(frames2[j] == frames[j]);
            assert(frames2[j - 1] == frames[j - 1]);
        } else {
            assert(frames2[j - 1] == frames.last());
        }
    }
}

proof fn lemma_layout_step_wf(
    state: LayoutState,
    plan: VerifierControlPlan,
    sequence: nat,
    step: VerifierStep,
)
    requires
        layout_wf(state),
        spec_layout_step(state, plan, sequence, step) is Ok,
    ensures
        layout_wf(spec_layout_step(state, plan, sequence, step)->Ok_0),
{
    reveal(layout_wf);
    let (operations, frames, calls) = state;
    match spec_transcript_effect(step) {
        None => {},
        Some(effect) => {
            let payload = spec_payload_word_count(plan, step)->Ok_0;
            let header = spec_operation_header(sequence as u32, step)->Ok_0;
            let mixed = spec_push_frame(state, HashPurpose::Mix, spec_mix_stream(header, payload))->Ok_0;
            lemma_push_frame_wf(state, HashPurpose::Mix, spec_mix_stream(header, payload));
            let after = if effect is Mix {
                mixed
            } else {
                lemma_push_frame_wf(mixed, HashPurpose::Draw, spec_draw_stream());
                spec_push_frame(mixed, HashPurpose::Draw, spec_draw_stream())->Ok_0
            };
            let (operations2, frames2, calls2) = after;
            let (o1, f1, c1) = mixed;
            assert(frames2.len() - frames.len() == spec_hash_count(effect));
            assert(frames2[frames.len() as int] == f1.last());
            assert forall|j: int| 0 <= j < frames.len() implies frames2[j] == frames[j] by {
                assert(f1[j] == frames[j]);
            }
            let result = spec_layout_step(state, plan, sequence, step)->Ok_0;
            let (operations3, frames3, calls3) = result;
            assert(frames3 == frames2);
            assert(calls3 == calls2);
            let o = operations3.last();
            assert(operations3 == operations.push(o));
            assert(operation_wf(o, operations.len() as int, frames2));
            assert forall|k: int| 0 <= k < operations3.len() implies operation_wf(
                #[trigger] operations3[k],
                k,
                frames3,
            ) by {
                if k < operations.len() {
                    assert(operations3[k] == operations[k]);
                    assert(operation_wf(operations[k], k, frames));
                    assert(frames2[operations[k].4 as int] == frames[operations[k].4 as int]);
                    assert(frames2[operations[k].4 + operations[k].5 - 1] == frames[operations[k].4
                        + operations[k].5 - 1]);
                    if operations[k].5 == 2 {
                        assert(frames2[operations[k].4 + 1] == frames[operations[k].4 + 1]);
                    }
                }
            }
            assert forall|k: int| 0 < k < operations3.len() implies (#[trigger] operations3[k]).4
                == operations3[k - 1].4 + operations3[k - 1].5 by {
                if k < operations.len() {
                    assert(operations3[k] == operations[k]);
                }
                assert(operations3[k - 1] == operations[k - 1]);
            }
        },
    }
}

/// The transcript layout's structure, for every plan it accepts: call ids and
/// hash ids are dense positions; every frame holds its stream, the one-word
/// terminator and fewer than eight zeros, filling exactly `8 * call_count`
/// words, and owns the next `call_count` calls with consecutive steps; every
/// operation owns a mix frame, then a draw frame when its effect draws or
/// checks work, so `hash_count` matches its effect; operations tile the
/// frames and frames tile the calls.
pub proof fn lemma_layout_wf(plan: VerifierControlPlan, n: nat)
    requires
        spec_layout(plan, n) is Ok,
    ensures
        layout_wf(spec_layout(plan, n)->Ok_0),
    decreases n,
{
    reveal(layout_wf);
    if n == 0 {
        let state = spec_layout(plan, 0)->Ok_0;
        assert(state.0.len() == 0 && state.1.len() == 0 && state.2.len() == 0);
    } else {
        lemma_layout_wf(plan, (n - 1) as nat);
        lemma_layout_step_wf(
            spec_layout(plan, (n - 1) as nat)->Ok_0,
            plan,
            (n - 1) as nat,
            plan.steps@[n - 1],
        );
    }
}

/// How many of the first `n` steps touch the transcript.
pub open spec fn transcript_step_count(steps: Seq<VerifierStep>, n: nat) -> nat
    decreases n,
{
    if n == 0 {
        0
    } else {
        transcript_step_count(steps, (n - 1) as nat) + if spec_transcript_effect(steps[n - 1]) is Some {
            1nat
        } else {
            0nat
        }
    }
}

/// The operations of a layout of the first `n` steps follow the plan: one
/// per transcript step, in plan order, each with that step, its effect, its
/// hash count and payload width; its mix frame absorbs the digest, the
/// header and the payload, and its draw frame the digest, the draw counter
/// and the draw tag.
pub open spec fn operations_follow_plan(state: LayoutState, plan: VerifierControlPlan, n: nat) -> bool {
    let (operations, frames, calls) = state;
    let steps = plan.steps@;
    &&& operations.len() == transcript_step_count(steps, n)
    &&& forall|k: int|
        0 <= k < operations.len() ==> {
            let o = #[trigger] operations[k];
            &&& o.1 < n
            &&& o.2 == steps[o.1 as int]
            &&& spec_transcript_effect(o.2) == Some(o.3)
            &&& transcript_step_count(steps, o.1 as nat) == k
            &&& o.5 == spec_hash_count(o.3)
            &&& spec_payload_word_count(plan, o.2) == Ok::<u32, TranscriptLayoutError>(o.8)
            &&& o.4 < frames.len()
            &&& frames[o.4 as int].4 == 2 * DIGEST_WORDS + o.8
            &&& o.5 == 2 ==> o.4 + 1 < frames.len() && frames[o.4 + 1].4 == DIGEST_WORDS + 2
        }
    &&& forall|k1: int, k2: int|
        0 <= k1 < k2 < operations.len() ==> (#[trigger] operations[k1]).1 < (#[trigger] operations[k2]).1
    &&& forall|s: int|
        0 <= s < n && (#[trigger] spec_transcript_effect(steps[s])) is Some ==> {
            &&& transcript_step_count(steps, s as nat) < operations.len()
            &&& operations[transcript_step_count(steps, s as nat) as int].1 == s
        }
}

proof fn lemma_step_count_monotonic(steps: Seq<VerifierStep>, a: nat, b: nat)
    requires
        a <= b,
    ensures
        transcript_step_count(steps, a) <= transcript_step_count(steps, b),
    decreases b - a,
{
    if a < b {
        lemma_step_count_monotonic(steps, a, (b - 1) as nat);
    }
}

/// The operations of every layout the plan admits are exactly the plan's
/// transcript steps, in plan order, each with its own step and effect; an
/// operation's hash count is one for a mix and two for a draw or a
/// proof-of-work check; its mix frame absorbs sixteen words (the digest and
/// the header) plus its payload width, and its draw frame ten words (the
/// digest, the draw counter and the draw tag).
pub proof fn lemma_layout_operations_follow_plan(plan: VerifierControlPlan, n: nat)
    requires
        n <= plan.steps@.len(),
        spec_layout(plan, n) is Ok,
    ensures
        operations_follow_plan(spec_layout(plan, n)->Ok_0, plan, n),
    decreases n,
{
    let steps = plan.steps@;
    if n == 0 {
        return;
    }
    let m = (n - 1) as nat;
    assert(spec_layout(plan, m) is Ok) by {
        if spec_layout(plan, m) is Err {
            lemma_layout_error_sticks(plan, m, n);
        }
    }
    lemma_layout_operations_follow_plan(plan, m);
    let state = spec_layout(plan, m)->Ok_0;
    let (operations, frames, calls) = state;
    let step = steps[m as int];
    let after = spec_layout(plan, n)->Ok_0;
    assert(after == spec_layout_step(state, plan, m, step)->Ok_0);
    let (operations3, frames3, calls3) = after;
    match spec_transcript_effect(step) {
        None => {
            assert forall|s: int| 0 <= s < n && (#[trigger] spec_transcript_effect(steps[s])) is Some implies {
                &&& transcript_step_count(steps, s as nat) < operations3.len()
                &&& operations3[transcript_step_count(steps, s as nat) as int].1 == s
            } by {
                assert(s < m);
            }
        },
        Some(effect) => {
            let payload = spec_payload_word_count(plan, step)->Ok_0;
            let header = spec_operation_header(m as u32, step)->Ok_0;
            let stream = spec_mix_stream(header, payload);
            assert(header.len() == 8);
            assert(stream.len() == 16 + payload);
            let mixed = spec_push_frame(state, HashPurpose::Mix, stream)->Ok_0;
            let (o1, f1, c1) = mixed;
            assert(f1 == frames.push(f1.last()));
            assert(f1.last().4 == 16 + payload);
            let pushed = if effect is Mix {
                mixed
            } else {
                spec_push_frame(mixed, HashPurpose::Draw, spec_draw_stream())->Ok_0
            };
            let (o2, f2, c2) = pushed;
            if !(effect is Mix) {
                assert(spec_draw_stream().len() == 10);
                assert(f2 == f1.push(f2.last()));
                assert(f2.last().4 == 10);
            }
            assert(operations3 == operations.push(operations3.last()));
            assert(frames3 == f2);
            let o = operations3.last();
            assert(o.1 == m && o.2 == step && o.3 == effect && o.4 == frames.len() && o.8 == payload);
            assert(o.5 == spec_hash_count(effect));
            assert forall|j: int| 0 <= j < frames.len() implies frames3[j] == frames[j] by {
                assert(f1[j] == frames[j]);
                if !(effect is Mix) {
                    assert(f2[j] == f1[j]);
                }
            }
            assert(frames3[frames.len() as int] == f1.last()) by {
                if !(effect is Mix) {
                    assert(f2[frames.len() as int] == f1[frames.len() as int]);
                }
            }
            assert forall|k: int| 0 <= k < operations3.len() implies {
                let o = #[trigger] operations3[k];
                &&& o.1 < n
                &&& o.2 == steps[o.1 as int]
                &&& spec_transcript_effect(o.2) == Some(o.3)
                &&& transcript_step_count(steps, o.1 as nat) == k
                &&& o.5 == spec_hash_count(o.3)
                &&& spec_payload_word_count(plan, o.2) == Ok::<u32, TranscriptLayoutError>(o.8)
                &&& o.4 < frames3.len()
                &&& frames3[o.4 as int].4 == 2 * DIGEST_WORDS + o.8
                &&& o.5 == 2 ==> o.4 + 1 < frames3.len() && frames3[o.4 + 1].4 == DIGEST_WORDS + 2
            } by {
                if k < operations.len() {
                    assert(operations3[k] == operations[k]);
                    let ok = operations[k];
                    assert(frames3[ok.4 as int] == frames[ok.4 as int]);
                    if ok.5 == 2 {
                        assert(frames3[ok.4 + 1] == frames[ok.4 + 1]);
                    }
                }
            }
            assert forall|k1: int, k2: int| 0 <= k1 < k2 < operations3.len() implies (#[trigger] operations3[k1]).1
                < (#[trigger] operations3[k2]).1 by {
                assert(operations3[k1] == operations[k1]);
                if k2 < operations.len() {
                    assert(operations3[k2] == operations[k2]);
                }
            }
            assert forall|s: int| 0 <= s < n && (#[trigger] spec_transcript_effect(steps[s])) is Some implies {
                &&& transcript_step_count(steps, s as nat) < operations3.len()
                &&& operations3[transcript_step_count(steps, s as nat) as int].1 == s
            } by {
                if s < m {
                    lemma_step_count_monotonic(steps, s as nat, m);
                    assert(operations3[transcript_step_count(steps, s as nat) as int] == operations[transcript_step_count(
                        steps,
                        s as nat,
                    ) as int]);
                }
            }
        },
    }
}

/// The coordinates of a recorded operation that the layout fixes.
pub open spec fn operation_coordinates(o: TranscriptOperationTrace) -> (u32, VerifierStep, u32, u32, u32, u32) {
    (o.sequence, o.step, o.first_hash_id, o.hash_count, o.first_call_id, o.call_count)
}

/// The coordinates of a layout operation that a recording must match.
pub open spec fn expected_coordinates(o: OperationView) -> (u32, VerifierStep, u32, u32, u32, u32) {
    (o.1, o.2, o.4, o.5, o.6, o.7)
}

/// The first of the first `n` operations whose recorded coordinates differ
/// from the layout's.
pub open spec fn first_operation_mismatch(
    expected: Seq<OperationView>,
    actual: Seq<TranscriptOperationTrace>,
    n: nat,
) -> Option<nat>
    decreases n,
{
    if n == 0 {
        None
    } else {
        match first_operation_mismatch(expected, actual, (n - 1) as nat) {
            Some(k) => Some(k),
            None => if operation_coordinates(actual[n - 1]) != expected_coordinates(expected[n - 1]) {
                Some((n - 1) as nat)
            } else {
                None
            },
        }
    }
}

/// Whether every recorded word at a trusted constant position holds that
/// constant.
pub open spec fn constant_words_agree(words: Seq<u32>, sources: Seq<WordSourceView>) -> bool {
    forall|i: int|
        0 <= i < words.len() && 0 <= i < sources.len() ==> (#[trigger] sources[i] matches WordSourceView::Constant(
            c,
        ) ==> words[i] == c)
}

/// What is wrong with one recorded frame, if anything.
pub open spec fn frame_error(expected: FrameView, actual: HashFrame) -> Option<TranscriptLayoutError> {
    let count = actual.words@.len();
    if count > u32::MAX {
        Some(TranscriptLayoutError::WordCountOutOfRange { count: count as usize })
    } else if (actual.hash_id, actual.first_call_id, actual.call_count, actual.purpose, count as u32)
        != (expected.0, expected.1, expected.2, expected.3, expected.4) {
        Some(TranscriptLayoutError::FrameMismatch { hash_id: expected.0 })
    } else if !constant_words_agree(word_values(actual.words@), expected.5) {
        Some(TranscriptLayoutError::ConstantWordMismatch { hash_id: expected.0 })
    } else {
        None
    }
}

/// The error of the first of the first `n` frames that has one.
pub open spec fn first_frame_error(expected: Seq<FrameView>, actual: Seq<HashFrame>, n: nat) -> Option<
    TranscriptLayoutError,
>
    decreases n,
{
    if n == 0 {
        None
    } else {
        match first_frame_error(expected, actual, (n - 1) as nat) {
            Some(error) => Some(error),
            None => frame_error(expected[n - 1], actual[n - 1]),
        }
    }
}

/// The first of the first `n` calls whose recorded coordinates differ from
/// the layout's.
pub open spec fn first_call_mismatch(
    expected: Seq<CallView>,
    actual: Seq<crate::transcript_trace::PoseidonCall>,
    n: nat,
) -> Option<nat>
    decreases n,
{
    if n == 0 {
        None
    } else {
        match first_call_mismatch(expected, actual, (n - 1) as nat) {
            Some(k) => Some(k),
            None => if (actual[n - 1].id.call_id, actual[n - 1].id.hash_id, actual[n - 1].id.step) != (
                expected[n - 1].0,
                expected[n - 1].1,
                expected[n - 1].2,
            ) {
                Some((n - 1) as nat)
            } else {
                None
            },
        }
    }
}

/// Why a recording disagrees with a layout, checked in order: the trace's
/// own sessions, the three lengths, then operations, frames and calls.
pub open spec fn spec_validate_execution(
    layout: LayoutState,
    operations: Seq<TranscriptOperationTrace>,
    trace: TranscriptTrace,
) -> Result<(), TranscriptLayoutError> {
    let (expected_operations, expected_frames, expected_calls) = layout;
    let frames = trace.hash_frames@;
    let calls = trace.poseidon_calls@;
    if spec_sponge_rows(trace) is Err {
        Err(TranscriptLayoutError::Transcript(spec_sponge_rows(trace)->Err_0))
    } else if expected_operations.len() != operations.len() {
        Err(
            TranscriptLayoutError::LengthMismatch {
                field: LayoutPart::Operations,
                expected: expected_operations.len() as usize,
                actual: operations.len() as usize,
            },
        )
    } else if expected_frames.len() != frames.len() {
        Err(
            TranscriptLayoutError::LengthMismatch {
                field: LayoutPart::Frames,
                expected: expected_frames.len() as usize,
                actual: frames.len() as usize,
            },
        )
    } else if expected_calls.len() != calls.len() {
        Err(
            TranscriptLayoutError::LengthMismatch {
                field: LayoutPart::Calls,
                expected: expected_calls.len() as usize,
                actual: calls.len() as usize,
            },
        )
    } else if first_operation_mismatch(expected_operations, operations, operations.len()) is Some {
        let k = first_operation_mismatch(expected_operations, operations, operations.len())->Some_0;
        Err(TranscriptLayoutError::OperationMismatch { ordinal: expected_operations[k as int].0 })
    } else if first_frame_error(expected_frames, frames, frames.len()) is Some {
        Err(first_frame_error(expected_frames, frames, frames.len())->Some_0)
    } else if first_call_mismatch(expected_calls, calls, calls.len()) is Some {
        let k = first_call_mismatch(expected_calls, calls, calls.len())->Some_0;
        Err(TranscriptLayoutError::CallMismatch { call_id: expected_calls[k as int].0 })
    } else {
        Ok(())
    }
}

proof fn lemma_first_operation_mismatch_sticks(
    expected: Seq<OperationView>,
    actual: Seq<TranscriptOperationTrace>,
    n: nat,
    m: nat,
)
    requires
        n <= m,
        first_operation_mismatch(expected, actual, n) is Some,
    ensures
        first_operation_mismatch(expected, actual, m) == first_operation_mismatch(expected, actual, n),
    decreases m - n,
{
    if m > n {
        lemma_first_operation_mismatch_sticks(expected, actual, n, (m - 1) as nat);
    }
}

proof fn lemma_first_frame_error_sticks(expected: Seq<FrameView>, actual: Seq<HashFrame>, n: nat, m: nat)
    requires
        n <= m,
        first_frame_error(expected, actual, n) is Some,
    ensures
        first_frame_error(expected, actual, m) == first_frame_error(expected, actual, n),
    decreases m - n,
{
    if m > n {
        lemma_first_frame_error_sticks(expected, actual, n, (m - 1) as nat);
    }
}

proof fn lemma_first_call_mismatch_sticks(
    expected: Seq<CallView>,
    actual: Seq<crate::transcript_trace::PoseidonCall>,
    n: nat,
    m: nat,
)
    requires
        n <= m,
        first_call_mismatch(expected, actual, n) is Some,
    ensures
        first_call_mismatch(expected, actual, m) == first_call_mismatch(expected, actual, n),
    decreases m - n,
{
    if m > n {
        lemma_first_call_mismatch_sticks(expected, actual, n, (m - 1) as nat);
    }
}

/// Checks that a recording has as many items as the layout.
pub fn require_len(field: LayoutPart, expected: usize, actual: usize) -> (result: Result<
    (),
    TranscriptLayoutError,
>)
    ensures
        result == if expected == actual {
            Ok::<(), TranscriptLayoutError>(())
        } else {
            Err(TranscriptLayoutError::LengthMismatch { field, expected, actual })
        },
{
    if expected != actual {
        return Err(TranscriptLayoutError::LengthMismatch { field, expected, actual });
    }
    Ok(())
}

/// Checks one recorded frame against its trusted layout.
#[verifier::loop_isolation(false)]
fn check_frame(expected: &TranscriptFrameLayout, actual: &HashFrame) -> (result: Result<
    (),
    TranscriptLayoutError,
>)
    ensures
        match frame_error(expected@, *actual) {
            Some(error) => result == Err::<(), _>(error),
            None => result is Ok,
        },
{
    if actual.words.len() > u32::MAX as usize {
        return Err(TranscriptLayoutError::WordCountOutOfRange { count: actual.words.len() });
    }
    let word_count = actual.words.len() as u32;
    if actual.hash_id != expected.hash_id || actual.first_call_id != expected.first_call_id
        || actual.call_count != expected.call_count || actual.purpose != expected.purpose
        || word_count != expected.stream_word_count {
        return Err(TranscriptLayoutError::FrameMismatch { hash_id: expected.hash_id });
    }
    let ghost words = word_values(actual.words@);
    let ghost sources = source_views(expected.words@);
    let mut i: usize = 0;
    while i < actual.words.len() && i < expected.words.len()
        invariant
            i <= actual.words@.len(),
            words == word_values(actual.words@),
            sources == source_views(expected.words@),
            forall|j: int|
                0 <= j < i ==> (#[trigger] sources[j] matches WordSourceView::Constant(c) ==> words[j]
                    == c),
        decreases actual.words@.len() - i,
    {
        match expected.words[i] {
            TranscriptWordSource::Constant(constant) => {
                if actual.words[i] != constant {
                    proof {
                        M31Word::lemma_view_injective(actual.words@[i as int], constant);
                        assert(sources[i as int] == WordSourceView::Constant(constant@));
                        assert(words[i as int] == actual.words@[i as int]@);
                        assert(!(sources[i as int] matches WordSourceView::Constant(c) ==> words[i as int] == c));
                        assert(!constant_words_agree(words, sources));
                    }
                    return Err(TranscriptLayoutError::ConstantWordMismatch { hash_id: expected.hash_id });
                }
                proof {
                    M31Word::lemma_view_injective(actual.words@[i as int], constant);
                    assert(words[i as int] == actual.words@[i as int]@);
                }
            },
            _ => {},
        }
        i = i + 1;
    }
    proof {
        assert forall|j: int|
            0 <= j < words.len() && 0 <= j < sources.len() implies (#[trigger] sources[j] matches WordSourceView::Constant(
            c,
        ) ==> words[j] == c) by {
            assert(j < i);
        }
    }
    Ok(())
}

impl TranscriptLayout {
    /// Checks a recording backend against every trusted structural
    /// coordinate: operations, frames, constant words and calls.
    #[verifier::loop_isolation(false)]
    pub fn validate_execution(
        &self,
        operations: &[TranscriptOperationTrace],
        trace: &TranscriptTrace,
    ) -> (result: Result<(), TranscriptLayoutError>)
        ensures
            result == spec_validate_execution(self@, operations@, *trace),
    {
        if let Err(error) = trace.sponge_rows() {
            return Err(TranscriptLayoutError::Transcript(error));
        }
        require_len(LayoutPart::Operations, self.operations.len(), operations.len())?;
        require_len(LayoutPart::Frames, self.frames.len(), trace.hash_frames.len())?;
        require_len(LayoutPart::Calls, self.calls.len(), trace.poseidon_calls.len())?;
        let ghost layout = self@;
        let n = operations.len();
        let mut k: usize = 0;
        while k < n
            invariant
                k <= n,
                n == operations@.len(),
                layout == self@,
                self.operations@.len() == n,
                first_operation_mismatch(layout.0, operations@, k as nat) is None,
            decreases n - k,
        {
            let expected = &self.operations[k];
            let actual = &operations[k];
            assert(layout.0[k as int] == self.operations@[k as int]@);
            if actual.sequence != expected.sequence || actual.step != expected.step
                || actual.first_hash_id != expected.first_hash_id || actual.hash_count
                != expected.hash_count || actual.first_call_id != expected.first_call_id
                || actual.call_count != expected.call_count {
                proof {
                    lemma_first_operation_mismatch_sticks(layout.0, operations@, (k + 1) as nat, n as nat);
                }
                return Err(TranscriptLayoutError::OperationMismatch { ordinal: expected.ordinal });
            }
            k = k + 1;
        }
        let frame_count = trace.hash_frames.len();
        let mut j: usize = 0;
        while j < frame_count
            invariant
                j <= frame_count,
                frame_count == trace.hash_frames@.len(),
                layout == self@,
                self.frames@.len() == frame_count,
                first_frame_error(layout.1, trace.hash_frames@, j as nat) is None,
            decreases frame_count - j,
        {
            assert(layout.1[j as int] == self.frames@[j as int]@);
            match check_frame(&self.frames[j], &trace.hash_frames[j]) {
                Ok(()) => {},
                Err(error) => {
                    proof {
                        lemma_first_frame_error_sticks(layout.1, trace.hash_frames@, (j + 1) as nat, frame_count as nat);
                    }
                    return Err(error);
                },
            }
            j = j + 1;
        }
        let call_count = trace.poseidon_calls.len();
        let mut c: usize = 0;
        while c < call_count
            invariant
                c <= call_count,
                call_count == trace.poseidon_calls@.len(),
                layout == self@,
                self.calls@.len() == call_count,
                first_call_mismatch(layout.2, trace.poseidon_calls@, c as nat) is None,
            decreases call_count - c,
        {
            let expected = &self.calls[c];
            let actual = &trace.poseidon_calls[c];
            assert(layout.2[c as int] == self.calls@[c as int].spec_fields());
            if actual.id.call_id != expected.call_id || actual.id.hash_id != expected.hash_id
                || actual.id.step != expected.step {
                proof {
                    lemma_first_call_mismatch_sticks(layout.2, trace.poseidon_calls@, (c + 1) as nat, call_count as nat);
                }
                return Err(TranscriptLayoutError::CallMismatch { call_id: expected.call_id });
            }
            c = c + 1;
        }
        Ok(())
    }
}

} // verus!
