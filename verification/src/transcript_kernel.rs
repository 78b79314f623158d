//! The transcript's sponge state machine, over a pluggable permutation.
//!
//! Every transcript operation hashes one stream of canonical words in a
//! fresh sponge session: the words, then a terminating one, absorbed eight
//! at a time, each chunk added into the rate words of the previous
//! permutation output (or of the zero state) and permuted again. Absorbing
//! replaces the digest with the rate words of the session's last output and
//! resets the draw counter; drawing hashes the digest with the draw counter
//! and a draw tag and leaves the digest in place. The backend performs each
//! permutation and proof-of-work check; the kernel numbers them and keeps a
//! record of every permutation it requested and what came back.
use crate::m31::{M31_MODULUS, M31Word, lemma_word_values_push, word_values};
use crate::transcript_trace::{
    PermutationId, PoseidonCall, PowCheck, RATE, TranscriptError, spec_add_m31, zero_state,
    add_m31_words,
};
use vstd::prelude::*;

verus! {

/// The permutation and proof-of-work operations a transcript runs on. A
/// native backend computes them; a recording backend also logs them as
/// witness data.
pub trait TranscriptBackend {
    fn permute(&mut self, id: PermutationId, input: [M31Word; 16]) -> Result<[M31Word; 16], TranscriptError>;

    fn verify_pow(&mut self, check: PowCheck) -> Result<(), TranscriptError>;
}

/// The domain tag hashed into every draw.
pub const DRAW_TAG: u32 = 0x4452_4157;

/// A request the backend refused: the permutation handed to it and its error.
pub type Refusal = (PermutationId, Seq<M31Word>, TranscriptError);

/// One transcript state, parameterized only by how permutations and
/// proof-of-work checks are performed.
pub struct TranscriptKernel<B> {
    digest: [M31Word; 8],
    n_draws: u32,
    next_call_id: u32,
    next_hash_id: u32,
    backend: B,
    calls: Ghost<Seq<PoseidonCall>>,
    sessions: Ghost<Seq<(Seq<u32>, nat)>>,
    checks: Ghost<Seq<PowCheck>>,
    refused: Ghost<Option<Refusal>>,
    pow_refused: Ghost<Option<(PowCheck, TranscriptError)>>,
}

/// The hashed stream: the words, then a terminating one.
pub open spec fn padded_stream(stream: Seq<u32>) -> Seq<u32> {
    stream.push(1)
}

/// How many permutations a session over `stream` runs.
pub open spec fn chunk_count(stream: Seq<u32>) -> nat {
    ((padded_stream(stream).len() + 7) / 8) as nat
}

/// Chunk `k` of a session: eight words of the padded stream, zero past its end.
pub open spec fn stream_chunk(stream: Seq<u32>, k: int) -> Seq<u32> {
    let padded = padded_stream(stream);
    Seq::new(8, |w: int| if 8 * k + w < padded.len() { padded[8 * k + w] } else { 0 })
}

/// A permutation input that absorbs chunk `k` of a session into `previous`:
/// each stream word of the chunk added into its rate word, both canonical;
/// the rate words past the stream's end and the capacity words carried over.
#[verifier::opaque]
pub open spec fn chained_input(input: Seq<M31Word>, previous: Seq<M31Word>, stream: Seq<u32>, k: int) -> bool {
    let padded = padded_stream(stream);
    &&& input.len() == 16
    &&& forall|w: int|
        0 <= w < 8 && 8 * k + w < padded.len() ==> {
            &&& (#[trigger] input[w])@ == spec_add_m31(previous[w]@, padded[8 * k + w])
            &&& previous[w]@ < M31_MODULUS
            &&& padded[8 * k + w] < M31_MODULUS
        }
    &&& forall|w: int| 0 <= w < 16 && !(w < 8 && 8 * k + w < padded.len()) ==> #[trigger] input[w] == previous[w]
}

/// The state a session's permutation `k` starts from: zero for the first,
/// else the previous output.
pub open spec fn session_previous(calls: Seq<PoseidonCall>, k: int) -> Seq<M31Word> {
    if k == 0 {
        zero_state()
    } else {
        calls[k - 1].output@
    }
}

/// The first permutations of one session over `stream`, numbered from
/// `first_call` under `hash_id`: each absorbs its chunk into the state before it.
#[verifier::opaque]
pub open spec fn session_prefix(calls: Seq<PoseidonCall>, stream: Seq<u32>, first_call: nat, hash_id: u32) -> bool {
    &&& calls.len() <= chunk_count(stream)
    &&& forall|k: int|
        0 <= k < calls.len() ==> (#[trigger] calls[k]).id == (PermutationId {
            call_id: (first_call + k) as u32,
            hash_id,
            step: k as u32,
        })
    &&& forall|k: int|
        0 <= k < calls.len() ==> chained_input((#[trigger] calls[k]).input@, session_previous(calls, k), stream, k)
}

/// The request the backend refused, when it was the next permutation of a
/// session whose first permutations are `calls`.
pub open spec fn session_refused(
    calls: Seq<PoseidonCall>,
    refused: Option<Refusal>,
    stream: Seq<u32>,
    first_call: nat,
    hash_id: u32,
    error: TranscriptError,
) -> bool {
    &&& refused matches Some((id, input, refusal)) && {
        &&& refusal == error
        &&& id == (PermutationId {
            call_id: (first_call + calls.len()) as u32,
            hash_id,
            step: calls.len() as u32,
        })
        &&& chained_input(input, session_previous(calls, calls.len() as int), stream, calls.len() as int)
    }
}

/// The sponge after absorbing the first `i` words of the padded stream:
/// the session's completed permutations follow its chunks, and the state
/// holds the partial chunk added into the state before it.
#[verifier::opaque]
pub open spec fn sponge_at(
    calls: Seq<PoseidonCall>,
    state: Seq<M31Word>,
    filled: nat,
    step: nat,
    stream: Seq<u32>,
    first_call: nat,
    hash_id: u32,
    i: nat,
) -> bool {
    let previous = session_previous(calls, step as int);
    &&& i == 8 * step + filled
    &&& filled < 8
    &&& i <= padded_stream(stream).len()
    &&& calls.len() == step
    &&& session_prefix(calls, stream, first_call, hash_id)
    &&& state.len() == 16
    &&& forall|w: int|
        0 <= w < filled ==> {
            &&& (#[trigger] state[w])@ == spec_add_m31(previous[w]@, padded_stream(stream)[8 * step + w])
            &&& previous[w]@ < M31_MODULUS
            &&& padded_stream(stream)[8 * step + w] < M31_MODULUS
        }
    &&& forall|w: int| filled <= w < 16 ==> #[trigger] state[w] == previous[w]
}

/// A completed sponge session: the permutations it added to the record
/// follow every chunk of the stream, numbered from `first_call` under
/// `hash_id`.
pub open spec fn session_done(
    before: Seq<PoseidonCall>,
    after: Seq<PoseidonCall>,
    first_call: u32,
    next_call: u32,
    hash_id: u32,
    stream: Seq<u32>,
) -> bool {
    let calls = after.skip(before.len() as int);
    &&& after.len() >= before.len()
    &&& after.subrange(0, before.len() as int) == before
    &&& session_prefix(calls, stream, first_call as nat, hash_id)
    &&& calls.len() == chunk_count(stream)
    &&& next_call == first_call + calls.len()
}

/// A failed sponge session: the permutations it added follow the stream's
/// first chunks; then the next call id overflowed, or the backend refused
/// the next chained permutation with `error`.
pub open spec fn session_failed(
    before: Seq<PoseidonCall>,
    after: Seq<PoseidonCall>,
    first_call: u32,
    next_call: u32,
    hash_id: u32,
    refused_before: Option<Refusal>,
    refused_after: Option<Refusal>,
    stream: Seq<u32>,
    error: TranscriptError,
) -> bool {
    let calls = after.skip(before.len() as int);
    &&& after.len() >= before.len()
    &&& after.subrange(0, before.len() as int) == before
    &&& session_prefix(calls, stream, first_call as nat, hash_id)
    &&& calls.len() < chunk_count(stream)
    &&& {
        ||| {
            &&& error == TranscriptError::CallIdOverflow
            &&& first_call + calls.len() == u32::MAX
            &&& next_call == u32::MAX
            &&& refused_after == refused_before
        }
        ||| {
            &&& session_refused(calls, refused_after, stream, first_call as nat, hash_id, error)
            &&& next_call == first_call + calls.len() + 1
        }
    }
}

/// What one sponge session leaves behind: on success every chunk was
/// permuted and the result is the last output.
pub open spec fn session_outcome(
    before: Seq<PoseidonCall>,
    after: Seq<PoseidonCall>,
    first_call: u32,
    next_call: u32,
    hash_id: u32,
    refused_before: Option<Refusal>,
    refused_after: Option<Refusal>,
    stream: Seq<u32>,
    result: Result<[M31Word; 16], TranscriptError>,
) -> bool {
    match result {
        Ok(output) => {
            &&& session_done(before, after, first_call, next_call, hash_id, stream)
            &&& output@ == after.last().output@
            &&& refused_after == refused_before
        },
        Err(error) => session_failed(
            before,
            after,
            first_call,
            next_call,
            hash_id,
            refused_before,
            refused_after,
            stream,
            error,
        ),
    }
}

/// Whether an operation succeeded, forgetting its value.
pub open spec fn unit_result<T>(result: Result<T, TranscriptError>) -> Result<(), TranscriptError> {
    match result {
        Ok(_) => Ok(()),
        Err(error) => Err(error),
    }
}

/// The mask of a query domain of `2^log_domain_size` points.
pub open spec fn query_mask(log_domain_size: u32) -> u32 {
    ((1u32 << log_domain_size) - 1) as u32
}

/// The rate words of a permutation output.
pub open spec fn rate_words(output: Seq<M31Word>) -> Seq<u32> {
    word_values(output.subrange(0, 8))
}

/// The injective encoding of machine words: each word as its low and then
/// its high 16-bit half.
pub open spec fn u32_limbs(words: Seq<u32>) -> Seq<u32> {
    Seq::new(2 * words.len(), |i: int| if i % 2 == 0 { words[i / 2] % 0x10000 } else { words[i / 2] / 0x10000 })
}

/// A 64-bit value as its low and high machine words.
pub open spec fn u64_words(value: u64) -> Seq<u32> {
    seq![(value % 0x1_0000_0000) as u32, (value / 0x1_0000_0000) as u32]
}

/// The words of a sequence of four-word field values, in order.
pub open spec fn secure_words(values: Seq<[M31Word; 4]>) -> Seq<u32> {
    Seq::new(4 * values.len(), |i: int| values[i / 4]@[i % 4]@)
}

/// The stream a draw hashes: the digest, the draw counter and the draw tag.
pub open spec fn draw_stream(digest: Seq<u32>, draw_count: u32) -> Seq<u32> {
    digest + seq![draw_count, DRAW_TAG]
}

/// The 16-bit split of machine words is injective and yields canonical
/// words: two word sequences with the same limbs are equal, and every limb
/// is below `2^16`.
pub proof fn lemma_u32_limbs_injective(a: Seq<u32>, b: Seq<u32>)
    ensures
        u32_limbs(a) == u32_limbs(b) ==> a == b,
        forall|i: int| 0 <= i < u32_limbs(a).len() ==> #[trigger] u32_limbs(a)[i] < 0x10000,
{
    if u32_limbs(a) == u32_limbs(b) {
        assert(u32_limbs(a).len() == 2 * a.len());
        assert(u32_limbs(b).len() == 2 * b.len());
        assert(a.len() == b.len());
        assert forall|k: int| 0 <= k < a.len() implies a[k] == b[k] by {
            assert((2 * k) / 2 == k && (2 * k) % 2 == 0) by (nonlinear_arith);
            assert((2 * k + 1) / 2 == k && (2 * k + 1) % 2 == 1) by (nonlinear_arith);
            assert(u32_limbs(a)[2 * k] == u32_limbs(b)[2 * k]);
            assert(u32_limbs(a)[2 * k + 1] == u32_limbs(b)[2 * k + 1]);
            assert(a[k] == (a[k] / 0x10000) * 0x10000 + a[k] % 0x10000) by (nonlinear_arith);
            assert(b[k] == (b[k] / 0x10000) * 0x10000 + b[k] % 0x10000) by (nonlinear_arith);
        }
        assert(a =~= b);
    }
    assert forall|i: int| 0 <= i < u32_limbs(a).len() implies #[trigger] u32_limbs(a)[i] < 0x10000 by {
        assert(0 <= i / 2 < a.len()) by (nonlinear_arith)
            requires
                0 <= i < 2 * a.len(),
        ;
        let w = a[i / 2];
        assert(w % 0x10000 < 0x10000 && w / 0x10000 < 0x10000) by (nonlinear_arith)
            requires
                w <= u32::MAX,
        ;
    }
}

proof fn lemma_u32_limbs_push(words: Seq<u32>, word: u32)
    ensures
        u32_limbs(words.push(word)) == u32_limbs(words).push(word % 0x10000).push(word / 0x10000),
{
    let after = words.push(word);
    let n = words.len() as int;
    assert forall|i: int| 0 <= i < 2 * n + 2 implies #[trigger] u32_limbs(after)[i] == u32_limbs(words).push(
        word % 0x10000,
    ).push(word / 0x10000)[i] by {
        if i < 2 * n {
            assert(i / 2 < n) by (nonlinear_arith)
                requires
                    0 <= i < 2 * n,
            ;
            assert(after[i / 2] == words[i / 2]);
        } else if i == 2 * n {
            assert(i / 2 == n && i % 2 == 0) by (nonlinear_arith)
                requires
                    i == 2 * n,
            ;
        } else {
            assert(i / 2 == n && i % 2 == 1) by (nonlinear_arith)
                requires
                    i == 2 * n + 1,
            ;
        }
    }
    assert(u32_limbs(after) =~= u32_limbs(words).push(word % 0x10000).push(word / 0x10000));
}

proof fn lemma_secure_words_push(values: Seq<[M31Word; 4]>, value: [M31Word; 4])
    ensures
        secure_words(values.push(value)) == secure_words(values) + seq![value@[0]@, value@[1]@, value@[2]@, value@[3]@],
{
    let after = values.push(value);
    let n = values.len() as int;
    let tail = seq![value@[0]@, value@[1]@, value@[2]@, value@[3]@];
    assert forall|i: int| 0 <= i < 4 * n + 4 implies #[trigger] secure_words(after)[i] == (secure_words(values)
        + tail)[i] by {
        if i < 4 * n {
            assert(i / 4 < n) by (nonlinear_arith)
                requires
                    0 <= i < 4 * n,
            ;
            assert(after[i / 4] == values[i / 4]);
        } else {
            assert(i / 4 == n && i % 4 == i - 4 * n) by (nonlinear_arith)
                requires
                    4 * n <= i < 4 * n + 4,
            ;
        }
    }
    assert(secure_words(after) =~= secure_words(values) + tail);
}

proof fn lemma_sponge_bounds(
    calls: Seq<PoseidonCall>,
    state: Seq<M31Word>,
    filled: nat,
    step: nat,
    stream: Seq<u32>,
    first_call: nat,
    hash_id: u32,
    i: nat,
)
    requires
        sponge_at(calls, state, filled, step, stream, first_call, hash_id, i),
    ensures
        filled < 8,
        state.len() == 16,
        calls.len() == step,
        i == 8 * step + filled,
        session_prefix(calls, stream, first_call, hash_id),
{
    reveal(sponge_at);
}

proof fn lemma_absorb_partial(
    calls: Seq<PoseidonCall>,
    state: Seq<M31Word>,
    filled: nat,
    step: nat,
    stream: Seq<u32>,
    first_call: nat,
    hash_id: u32,
    sum: M31Word,
    word: M31Word,
)
    requires
        sponge_at(calls, state, filled, step, stream, first_call, hash_id, 8 * step + filled),
        8 * step + filled < padded_stream(stream).len(),
        padded_stream(stream)[(8 * step + filled) as int] == word@,
        sum@ == spec_add_m31(state[filled as int]@, word@),
        state[filled as int]@ < M31_MODULUS,
        word@ < M31_MODULUS,
        filled + 1 < 8,
    ensures
        sponge_at(calls, state.update(filled as int, sum), filled + 1, step, stream, first_call, hash_id, 8 * step + filled + 1),
{
    reveal(sponge_at);
    reveal(session_prefix);
    reveal(chained_input);
    let next = state.update(filled as int, sum);
    let previous = session_previous(calls, step as int);
    assert forall|w: int| 0 <= w < filled + 1 implies {
        &&& (#[trigger] next[w])@ == spec_add_m31(previous[w]@, padded_stream(stream)[8 * step + w])
        &&& previous[w]@ < M31_MODULUS
        &&& padded_stream(stream)[8 * step + w] < M31_MODULUS
    } by {
        if w < filled {
            assert(next[w] == state[w]);
        }
    }
}

proof fn lemma_absorb_full(
    calls: Seq<PoseidonCall>,
    state: Seq<M31Word>,
    step: nat,
    stream: Seq<u32>,
    first_call: nat,
    hash_id: u32,
    sum: M31Word,
    word: M31Word,
)
    requires
        sponge_at(calls, state, 7, step, stream, first_call, hash_id, 8 * step + 7),
        8 * step + 7 < padded_stream(stream).len(),
        padded_stream(stream)[(8 * step + 7) as int] == word@,
        sum@ == spec_add_m31(state[7]@, word@),
        state[7]@ < M31_MODULUS,
        word@ < M31_MODULUS,
    ensures
        chained_input(state.update(7, sum), session_previous(calls, step as int), stream, step as int),
        calls.len() + 1 <= chunk_count(stream),
{
    reveal(sponge_at);
    reveal(session_prefix);
    reveal(chained_input);
    let next = state.update(7, sum);
    let previous = session_previous(calls, step as int);
    let padded = padded_stream(stream);
    assert forall|w: int| 0 <= w < 8 && 8 * step + w < padded.len() implies {
        &&& (#[trigger] next[w])@ == spec_add_m31(previous[w]@, padded[8 * step + w])
        &&& previous[w]@ < M31_MODULUS
        &&& padded[8 * step + w] < M31_MODULUS
    } by {
        if w < 7 {
            assert(next[w] == state[w]);
        }
    }
    assert forall|w: int| 0 <= w < 16 && !(w < 8 && 8 * step + w < padded.len()) implies #[trigger] next[w]
        == previous[w] by {
        assert(next[w] == state[w]);
    }
}

proof fn lemma_session_push(
    calls: Seq<PoseidonCall>,
    call: PoseidonCall,
    stream: Seq<u32>,
    first_call: nat,
    hash_id: u32,
)
    requires
        session_prefix(calls, stream, first_call, hash_id),
        calls.len() + 1 <= chunk_count(stream),
        call.id == (PermutationId {
            call_id: (first_call + calls.len()) as u32,
            hash_id,
            step: calls.len() as u32,
        }),
        chained_input(call.input@, session_previous(calls, calls.len() as int), stream, calls.len() as int),
    ensures
        session_prefix(calls.push(call), stream, first_call, hash_id),
{
    reveal(sponge_at);
    reveal(session_prefix);
    reveal(chained_input);
    let after = calls.push(call);
    assert forall|k: int| 0 <= k < after.len() implies chained_input(
        (#[trigger] after[k]).input@,
        session_previous(after, k),
        stream,
        k,
    ) by {
        if k < calls.len() {
            assert(after[k] == calls[k]);
            if k > 0 {
                assert(after[k - 1] == calls[k - 1]);
            }
        } else if k > 0 {
            assert(after[k - 1] == calls[k - 1]);
        }
    }
    assert forall|k: int| 0 <= k < after.len() implies (#[trigger] after[k]).id == (PermutationId {
        call_id: (first_call + k) as u32,
        hash_id,
        step: k as u32,
    }) by {
        if k < calls.len() {
            assert(after[k] == calls[k]);
        }
    }
}

proof fn lemma_after_permute(
    calls: Seq<PoseidonCall>,
    call: PoseidonCall,
    step: nat,
    stream: Seq<u32>,
    first_call: nat,
    hash_id: u32,
)
    requires
        calls.len() == step,
        session_prefix(calls.push(call), stream, first_call, hash_id),
        8 * step + 8 <= padded_stream(stream).len(),
    ensures
        sponge_at(calls.push(call), call.output@, 0, step + 1, stream, first_call, hash_id, 8 * (step + 1)),
{
    reveal(sponge_at);
    reveal(session_prefix);
    reveal(chained_input);
    let after = calls.push(call);
    assert(session_previous(after, (step + 1) as int) == call.output@);
}

proof fn lemma_sponge_start(state: Seq<M31Word>, stream: Seq<u32>, first_call: nat, hash_id: u32)
    requires
        state.len() == 16,
        forall|w: int| 0 <= w < 16 ==> #[trigger] state[w] == M31Word::spec_zero(),
    ensures
        sponge_at(Seq::empty(), state, 0, 0, stream, first_call, hash_id, 0),
{
    reveal(sponge_at);
    reveal(session_prefix);
}

proof fn lemma_sponge_finish(
    calls: Seq<PoseidonCall>,
    state: Seq<M31Word>,
    filled: nat,
    step: nat,
    stream: Seq<u32>,
    first_call: nat,
    hash_id: u32,
)
    requires
        sponge_at(calls, state, filled, step, stream, first_call, hash_id, padded_stream(stream).len()),
    ensures
        filled == 0 ==> calls.len() == chunk_count(stream) && step >= 1 && state == calls.last().output@,
        filled > 0 ==> calls.len() + 1 == chunk_count(stream) && chained_input(
            state,
            session_previous(calls, step as int),
            stream,
            step as int,
        ),
{
    reveal(sponge_at);
    reveal(chained_input);
    let padded = padded_stream(stream);
    let previous = session_previous(calls, step as int);
    if filled > 0 {
        assert((8 * step + filled + 7) / 8 == step + 1) by (nonlinear_arith)
            requires
                0 < filled < 8,
        ;
        assert forall|w: int| 0 <= w < 16 && !(w < 8 && 8 * step + w < padded.len()) implies #[trigger] state[w]
            == previous[w] by {}
        assert forall|w: int| 0 <= w < 8 && 8 * step + w < padded.len() implies {
            &&& (#[trigger] state[w])@ == spec_add_m31(previous[w]@, padded[8 * step + w])
            &&& previous[w]@ < M31_MODULUS
            &&& padded[8 * step + w] < M31_MODULUS
        } by {}
    } else {
        assert((8 * step + 7) / 8 == step) by (nonlinear_arith);
        assert(state =~= previous);
    }
}

proof fn lemma_zero_state_len()
    ensures
        zero_state().len() == 16,
        forall|w: int| 0 <= w < 16 ==> (#[trigger] zero_state()[w])@ == 0,
{
    M31Word::lemma_spec_zero();
}

/// One more successful draw extends a run of successive draws, and keeps
/// the blocks of the sessions drawn before.
proof fn lemma_draw_extends<B: TranscriptBackend>(
    before: TranscriptKernel<B>,
    mid: TranscriptKernel<B>,
    after: TranscriptKernel<B>,
    b: nat,
)
    requires
        before.spec_sessions().len() == before.spec_starts().len(),
        TranscriptKernel::successive_draws(before, mid, b),
        TranscriptKernel::drew(mid, after, Ok(())),
    ensures
        TranscriptKernel::successive_draws(before, after, b + 1),
        forall|h: int|
            0 <= h < mid.spec_sessions().len() && mid.spec_starts()[h] + chunk_count(mid.spec_sessions()[h])
                <= mid.spec_calls().len() && chunk_count(mid.spec_sessions()[h]) >= 1 ==> #[trigger] after.session_block(h)
                == mid.session_block(h),
{
    let base = before.spec_sessions().len();
    let stream = draw_stream(mid.spec_digest(), mid.spec_draw_count());
    if before.clean_record() {
        lemma_session_keeps_record(mid, after, stream);
    }
    assert(after.spec_sessions() == mid.spec_sessions().push(stream));
    assert(after.spec_starts() == mid.spec_starts().push(mid.spec_calls().len()));
    assert(after.spec_calls().skip(mid.spec_calls().len() as int).len() == chunk_count(stream));
    assert(after.spec_calls().subrange(0, mid.spec_calls().len() as int) == mid.spec_calls());
    assert(after.spec_calls().subrange(0, before.spec_calls().len() as int) =~= before.spec_calls()) by {
        assert(mid.spec_calls().subrange(0, before.spec_calls().len() as int) == before.spec_calls());
        assert forall|i: int| 0 <= i < before.spec_calls().len() implies after.spec_calls()[i] == before.spec_calls()[i] by {
            assert(after.spec_calls().subrange(0, mid.spec_calls().len() as int)[i] == mid.spec_calls()[i]);
            assert(mid.spec_calls().subrange(0, before.spec_calls().len() as int)[i] == before.spec_calls()[i]);
        }
    }
    assert(after.spec_sessions().subrange(0, base as int) =~= before.spec_sessions()) by {
        assert forall|i: int| 0 <= i < base implies after.spec_sessions()[i] == before.spec_sessions()[i] by {
            assert(mid.spec_sessions().subrange(0, base as int)[i] == before.spec_sessions()[i]);
        }
    }
    assert(after.spec_starts().subrange(0, base as int) =~= before.spec_starts()) by {
        assert forall|i: int| 0 <= i < base implies after.spec_starts()[i] == before.spec_starts()[i] by {
            assert(mid.spec_starts().subrange(0, base as int)[i] == before.spec_starts()[i]);
        }
    }
    assert forall|k: int| 0 <= k < b + 1 implies {
        &&& #[trigger] after.spec_sessions()[base + k] == draw_stream(
            before.spec_digest(),
            (before.spec_draw_count() + k) as u32,
        )
        &&& after.spec_starts()[base + k] + chunk_count(after.spec_sessions()[base + k]) <= after.spec_calls().len()
        &&& after.spec_starts()[base + k] >= before.spec_calls().len()
    } by {
        if k < b {
            assert(after.spec_sessions()[base + k] == mid.spec_sessions()[base + k]);
            assert(after.spec_starts()[base + k] == mid.spec_starts()[base + k]);
        }
    }
    assert forall|h: int|
        0 <= h < mid.spec_sessions().len() && mid.spec_starts()[h] + chunk_count(mid.spec_sessions()[h])
            <= mid.spec_calls().len() && chunk_count(mid.spec_sessions()[h]) >= 1 implies #[trigger] after.session_block(h)
        == mid.session_block(h) by {
        let i = mid.spec_starts()[h] + chunk_count(mid.spec_sessions()[h]) - 1;
        assert(after.spec_calls().subrange(0, mid.spec_calls().len() as int)[i] == mid.spec_calls()[i]);
    }
}

/// Permutation `i` of a clean record: call `i`, at its step of its session,
/// following that session's stream from the state before it, and either
/// continuing the session of the call before it or opening the next one.
pub open spec fn clean_call(
    call: PoseidonCall,
    calls: Seq<PoseidonCall>,
    sessions: Seq<Seq<u32>>,
    starts: Seq<nat>,
    i: int,
) -> bool {
    let id = call.id;
    &&& id.call_id == i
    &&& id.hash_id < sessions.len()
    &&& starts[id.hash_id as int] + id.step == i
    &&& chained_input(
        call.input@,
        if id.step == 0 {
            zero_state()
        } else {
            calls[i - 1].output@
        },
        sessions[id.hash_id as int],
        id.step as int,
    )
    &&& i == 0 ==> id.hash_id == 0 && id.step == 0
    &&& i > 0 ==> {
        ||| id.step > 0 && calls[i - 1].id.hash_id == id.hash_id && calls[i - 1].id.step + 1 == id.step
        ||| id.step == 0 && id.hash_id == calls[i - 1].id.hash_id + 1
    }
}

proof fn lemma_old_call_clean(
    old_calls: Seq<PoseidonCall>,
    calls: Seq<PoseidonCall>,
    old_sessions: Seq<Seq<u32>>,
    sessions: Seq<Seq<u32>>,
    old_starts: Seq<nat>,
    starts: Seq<nat>,
    i: int,
)
    requires
        0 <= i < old_calls.len() <= calls.len(),
        calls.subrange(0, old_calls.len() as int) == old_calls,
        sessions.subrange(0, old_sessions.len() as int) == old_sessions,
        starts.subrange(0, old_starts.len() as int) == old_starts,
        old_sessions.len() == old_starts.len(),
        sessions.len() >= old_sessions.len(),
        starts.len() >= old_starts.len(),
        clean_call(old_calls[i], old_calls, old_sessions, old_starts, i),
    ensures
        clean_call(calls[i], calls, sessions, starts, i),
{
    let n = old_calls.len() as int;
    assert(calls[i] == old_calls[i]) by {
        assert(calls.subrange(0, n)[i] == old_calls[i]);
    }
    if i > 0 {
        assert(calls[i - 1] == old_calls[i - 1]) by {
            assert(calls.subrange(0, n)[i - 1] == old_calls[i - 1]);
        }
    }
    let h = old_calls[i].id.hash_id as int;
    assert(sessions[h] == old_sessions[h]) by {
        assert(sessions.subrange(0, old_sessions.len() as int)[h] == old_sessions[h]);
    }
    assert(starts[h] == old_starts[h]) by {
        assert(starts.subrange(0, old_starts.len() as int)[h] == old_starts[h]);
    }
}

proof fn lemma_new_call_clean(
    old_calls: Seq<PoseidonCall>,
    calls: Seq<PoseidonCall>,
    sessions: Seq<Seq<u32>>,
    starts: Seq<nat>,
    stream: Seq<u32>,
    i: int,
)
    requires
        old_calls.len() <= i < calls.len(),
        calls.len() <= u32::MAX,
        calls.subrange(0, old_calls.len() as int) == old_calls,
        session_prefix(calls.skip(old_calls.len() as int), stream, old_calls.len(), (sessions.len() - 1) as u32),
        sessions.len() >= 1,
        sessions.last() == stream,
        starts.len() == sessions.len(),
        starts.last() == old_calls.len(),
        sessions.len() - 1 < u32::MAX,
        old_calls.len() == 0 ==> sessions.len() == 1,
        old_calls.len() > 0 ==> old_calls.last().id.hash_id == sessions.len() - 2,
    ensures
        clean_call(calls[i], calls, sessions, starts, i),
        calls[i].id.hash_id == sessions.len() - 1,
{
    reveal(session_prefix);
    let n = old_calls.len() as int;
    let added = calls.skip(n);
    let k = i - n;
    let h = sessions.len() - 1;
    assert(calls[i] == added[k]);
    assert(added[k].id == (PermutationId { call_id: (n + k) as u32, hash_id: h as u32, step: k as u32 }));
    assert(chained_input(added[k].input@, session_previous(added, k), stream, k));
    if k > 0 {
        assert(calls[i - 1] == added[k - 1]);
    } else if n > 0 {
        assert(calls[i - 1] == old_calls[n - 1]) by {
            assert(calls.subrange(0, n)[n - 1] == old_calls[n - 1]);
        }
    }
}

/// A completed session keeps the record clean.
#[verifier::spinoff_prover]
#[verifier::rlimit(40)]
pub proof fn lemma_session_keeps_record<B: TranscriptBackend>(
    before: TranscriptKernel<B>,
    after: TranscriptKernel<B>,
    stream: Seq<u32>,
)
    requires
        before.clean_record(),
        TranscriptKernel::ran_session(before, after, stream, Ok(())),
    ensures
        after.clean_record(),
{
    let old_calls = before.spec_calls();
    let calls = after.spec_calls();
    let n = old_calls.len();
    let h = before.spec_sessions().len();
    assert(before.spec_next_hash_id() < u32::MAX);
    assert(after.spec_sessions() == before.spec_sessions().push(stream));
    assert(after.spec_starts() == before.spec_starts().push(n));
    assert(session_done(old_calls, calls, before.spec_next_call_id(), after.spec_next_call_id(), h as u32, stream));
    let added = calls.skip(n as int);
    assert(added.len() == chunk_count(stream));
    assert(after.spec_sessions().subrange(0, h as int) =~= before.spec_sessions());
    assert(after.spec_starts().subrange(0, h as int) =~= before.spec_starts());
    assert forall|i: int| 0 <= i < calls.len() implies clean_call(
        #[trigger] calls[i],
        calls,
        after.spec_sessions(),
        after.spec_starts(),
        i,
    ) by {
        if i < n {
            assert(clean_call(old_calls[i], old_calls, before.spec_sessions(), before.spec_starts(), i));
            lemma_old_call_clean(
                old_calls,
                calls,
                before.spec_sessions(),
                after.spec_sessions(),
                before.spec_starts(),
                after.spec_starts(),
                i,
            );
        } else {
            lemma_new_call_clean(old_calls, calls, after.spec_sessions(), after.spec_starts(), stream, i);
        }
    }
    assert forall|c: int| 0 <= c < after.spec_checks().len() implies {
        &&& (#[trigger] after.spec_checks()[c]).call_id < calls.len()
        &&& calls[after.spec_checks()[c].call_id as int].output@[0] == after.spec_checks()[c].word
    } by {
        let id = before.spec_checks()[c].call_id as int;
        assert(calls.subrange(0, n as int)[id] == old_calls[id]);
    }
    assert(calls.last() == added[added.len() - 1]);
    lemma_new_call_clean(old_calls, calls, after.spec_sessions(), after.spec_starts(), stream, calls.len() - 1);
}

/// An accepted proof-of-work check keeps the record clean.
pub proof fn lemma_pow_keeps_record<B: TranscriptBackend>(
    before: TranscriptKernel<B>,
    after: TranscriptKernel<B>,
    nonce: u64,
    bits: u32,
)
    requires
        before.clean_record(),
        TranscriptKernel::checked_pow(before, after, nonce, bits, Ok(())),
    ensures
        after.clean_record(),
{
    let stream = before.spec_digest() + u32_limbs(u64_words(nonce));
    let (absorbed, drawn) = choose|absorbed: TranscriptKernel<B>, drawn: TranscriptKernel<B>|
        {
            &&& #[trigger] TranscriptKernel::absorbed(before, absorbed, stream, Ok(()))
            &&& #[trigger] TranscriptKernel::drew(absorbed, drawn, Ok(()))
            &&& after.spec_checks() == before.spec_checks().push(TranscriptKernel::pow_check(drawn, nonce, bits))
            &&& after.spec_digest() == absorbed.spec_digest()
            &&& after.spec_draw_count() == 0
            &&& after.spec_calls() == drawn.spec_calls()
            &&& after.spec_next_call_id() == drawn.spec_next_call_id()
            &&& after.spec_next_hash_id() == drawn.spec_next_hash_id()
            &&& after.spec_sessions() == drawn.spec_sessions()
            &&& after.spec_starts() == drawn.spec_starts()
            &&& after.spec_refused() == drawn.spec_refused()
            &&& after.spec_pow_refused() == before.spec_pow_refused()
        };
    lemma_session_keeps_record(before, absorbed, stream);
    let draws = draw_stream(absorbed.spec_digest(), absorbed.spec_draw_count());
    lemma_session_keeps_record(absorbed, drawn, draws);
    assert(drawn.spec_calls().len() > 0) by {
        assert(drawn.spec_calls().skip(absorbed.spec_calls().len() as int).len() == chunk_count(draws));
    }
    let checks = after.spec_checks();
    assert forall|c: int| 0 <= c < checks.len() implies {
        &&& (#[trigger] checks[c]).call_id < after.spec_calls().len()
        &&& after.spec_calls()[checks[c].call_id as int].output@[0] == checks[c].word
    } by {
        if c < before.spec_checks().len() {
            assert(checks[c] == drawn.spec_checks()[c]);
        }
    }
}

proof fn lemma_sub_add(a: u32, c: u32)
    requires
        a < M31_MODULUS,
        c < M31_MODULUS,
    ensures
        crate::transcript_trace::spec_sub_m31(spec_add_m31(a, c), a) == c,
{
    let p = M31_MODULUS as int;
    let x = spec_add_m31(a, c);
    if a + c < p {
        assert(x == a + c);
        assert((a + c + p - a) % p == c) by (nonlinear_arith)
            requires
                0 <= c < p,
                p > 0,
        ;
    } else {
        assert(x == a + c - p);
        assert((a + c - p + p - a) % p == c) by (nonlinear_arith)
            requires
                0 <= c < p,
                p > 0,
        ;
    }
}

proof fn lemma_chunk_recovered(input: Seq<M31Word>, previous: Seq<M31Word>, stream: Seq<u32>, k: int)
    requires
        chained_input(input, previous, stream, k),
        previous.len() == 16,
    ensures
        crate::transcript_trace::spec_chunk(input, previous) == stream_chunk(stream, k),
        crate::transcript_trace::capacity_mismatch(input, previous, 8) is None,
{
    reveal(chained_input);
    let padded = padded_stream(stream);
    assert forall|w: int| 0 <= w < 8 implies #[trigger] crate::transcript_trace::spec_chunk(input, previous)[w]
        == stream_chunk(stream, k)[w] by {
        if 8 * k + w < padded.len() {
            assert(input[w]@ == spec_add_m31(previous[w]@, padded[8 * k + w]));
            lemma_sub_add(previous[w]@, padded[8 * k + w]);
        } else {
            assert(input[w] == previous[w]);
        }
    }
    assert(crate::transcript_trace::spec_chunk(input, previous) =~= stream_chunk(stream, k));
    crate::transcript_trace::lemma_capacity_mismatch_skip(input, previous, 8, 16);
}

/// The cursor sponge-row reconstruction holds after the first `n` calls of a clean
/// record.
pub open spec fn clean_cursor(calls: Seq<PoseidonCall>, n: nat) -> (Option<u32>, u32, u32, Seq<M31Word>) {
    if n == 0 {
        (None, 0u32, 0u32, zero_state())
    } else {
        let id = calls[n - 1].id;
        (Some(id.hash_id), (id.hash_id + 1) as u32, (id.step + 1) as u32, calls[n - 1].output@)
    }
}

/// Row `i` of the checked trace recovers permutation `i` of a clean record.
pub open spec fn clean_row(row: crate::transcript_trace::SpongeRowView, calls: Seq<PoseidonCall>, sessions: Seq<Seq<u32>>, i: int) -> bool {
    let id = calls[i].id;
    &&& row.0 == id
    &&& row.2 == stream_chunk(sessions[id.hash_id as int], id.step as int)
    &&& row.3 == word_values(calls[i].output@)
}

proof fn lemma_clean_scan<B: TranscriptBackend>(kernel: TranscriptKernel<B>, n: nat)
    requires
        kernel.clean_record(),
        n <= kernel.spec_calls().len(),
    ensures
        ({
            let calls = kernel.spec_calls();
            crate::transcript_trace::spec_sponge_scan(calls, n) matches Ok((rows, cursor)) && {
                &&& rows.len() == n
                &&& cursor == clean_cursor(calls, n)
                &&& forall|i: int| 0 <= i < n ==> clean_row(#[trigger] rows[i], calls, kernel.spec_sessions(), i)
            }
        }),
    decreases n,
{
    let calls = kernel.spec_calls();
    if n > 0 {
        let m = (n - 1) as nat;
        lemma_clean_scan(kernel, m);
        let (rows, cursor) = crate::transcript_trace::spec_sponge_scan(calls, m)->Ok_0;
        let call = calls[m as int];
        let id = call.id;
        let previous = if id.step == 0 {
            zero_state()
        } else {
            calls[m - 1].output@
        };
        assert(id.call_id == m);
        lemma_zero_state_len();
        lemma_chunk_recovered(call.input@, previous, kernel.spec_sessions()[id.hash_id as int], id.step as int);
        assert(m < u32::MAX);
        assert(id.hash_id < kernel.spec_next_hash_id());
        let step = crate::transcript_trace::spec_sponge_step(cursor, call, m);
        assert(step matches Ok((row, next)) && row.0 == id && row.2 == stream_chunk(
            kernel.spec_sessions()[id.hash_id as int],
            id.step as int,
        ) && row.3 == word_values(call.output@) && next == clean_cursor(calls, n));
        let (rows2, cursor2) = crate::transcript_trace::spec_sponge_scan(calls, n)->Ok_0;
        assert forall|i: int| 0 <= i < n implies clean_row(#[trigger] rows2[i], calls, kernel.spec_sessions(), i) by {
            if i < m {
                assert(rows2[i] == rows[i]);
            }
        }
    }
}

proof fn lemma_clean_checks<B: TranscriptBackend>(kernel: TranscriptKernel<B>, n: nat)
    requires
        kernel.clean_record(),
        n <= kernel.spec_checks().len(),
    ensures
        crate::transcript_trace::pow_check_error(kernel.spec_calls(), kernel.spec_checks(), n) is None,
    decreases n,
{
    if n > 0 {
        lemma_clean_checks(kernel, (n - 1) as nat);
        let check = kernel.spec_checks()[n - 1];
        assert(check.call_id < kernel.spec_calls().len());
    }
}

/// Sponge-row reconstruction accepts the record of a transcript whose operations
/// all succeeded: every permutation becomes one sponge row that names it,
/// recovers exactly the chunk of its session's stream that it absorbed, and
/// carries its output; and every accepted proof-of-work check is anchored to
/// the first output word of the draw it was made against.
pub proof fn lemma_clean_record_passes_sponge_check<B: TranscriptBackend>(
    kernel: TranscriptKernel<B>,
    trace: crate::transcript_trace::TranscriptTrace,
)
    requires
        kernel.clean_record(),
        trace.poseidon_calls@ == kernel.spec_calls(),
        trace.pow_checks@ == kernel.spec_checks(),
    ensures
        crate::transcript_trace::spec_sponge_rows(trace) matches Ok(rows) && {
            &&& rows.len() == kernel.spec_calls().len()
            &&& forall|i: int|
                0 <= i < rows.len() ==> clean_row(#[trigger] rows[i], kernel.spec_calls(), kernel.spec_sessions(), i)
        },
{
    lemma_clean_scan(kernel, kernel.spec_calls().len());
    lemma_clean_checks(kernel, kernel.spec_checks().len());
}


/// Machine words as canonical words through the injective 16-bit split.
pub(crate) fn limb_words(words: &[u32]) -> (encoded: Vec<M31Word>)
    ensures
        word_values(encoded@) == u32_limbs(words@),
{
    let mut encoded: Vec<M31Word> = Vec::new();
    let mut i: usize = 0;
    while i < words.len()
        invariant
            i <= words@.len(),
            word_values(encoded@) == u32_limbs(words@.subrange(0, i as int)),
        decreases words@.len() - i,
    {
        let word = words[i];
        let low = word & 0xffff;
        let high = word >> 16;
        assert(low == word % 0x10000 && low < 0x10000) by (bit_vector)
            requires
                low == word & 0xffff,
        ;
        assert(high == word / 0x10000 && high < 0x10000) by (bit_vector)
            requires
                high == word >> 16,
        ;
        let ghost before = encoded@;
        let low_word = M31Word::from_u16(low as u16);
        let high_word = M31Word::from_u16(high as u16);
        encoded.push(low_word);
        encoded.push(high_word);
        proof {
            lemma_word_values_push(before, low_word);
            lemma_word_values_push(before.push(low_word), high_word);
            assert(words@.subrange(0, i + 1) =~= words@.subrange(0, i as int).push(word));
            lemma_u32_limbs_push(words@.subrange(0, i as int), word);
        }
        i = i + 1;
    }
    proof {
        assert(words@.subrange(0, words@.len() as int) =~= words@);
    }
    encoded
}

/// A 64-bit value as the canonical words of its low and high machine words.
pub(crate) fn u64_limb_words(value: u64) -> (encoded: Vec<M31Word>)
    ensures
        word_values(encoded@) == u32_limbs(u64_words(value)),
{
    let low = value as u32;
    let high = (value >> 32) as u32;
    assert(low == value % 0x1_0000_0000 && high == value / 0x1_0000_0000) by (bit_vector)
        requires
            low == value as u32,
            high == (value >> 32) as u32,
    ;
    let words = [low, high];
    proof {
        assert(words@ =~= u64_words(value));
    }
    limb_words(&words)
}

/// Secure-field values as their base-field words, four each.
pub(crate) fn secure_field_words(values: &[[M31Word; 4]]) -> (words: Vec<M31Word>)
    ensures
        word_values(words@) == secure_words(values@),
{
    let mut words: Vec<M31Word> = Vec::new();
    let mut i: usize = 0;
    while i < values.len()
        invariant
            i <= values@.len(),
            word_values(words@) == secure_words(values@.subrange(0, i as int)),
        decreases values@.len() - i,
    {
        let value = values[i];
        let ghost before = words@;
        words.push(value[0]);
        words.push(value[1]);
        words.push(value[2]);
        words.push(value[3]);
        proof {
            assert(word_values(words@) =~= word_values(before) + seq![value@[0]@, value@[1]@, value@[2]@, value@[3]@]);
            assert(values@.subrange(0, i + 1) =~= values@.subrange(0, i as int).push(value));
            lemma_secure_words_push(values@.subrange(0, i as int), value);
        }
        i = i + 1;
    }
    proof {
        assert(values@.subrange(0, values@.len() as int) =~= values@);
    }
    words
}

impl<B: TranscriptBackend> TranscriptKernel<B> {
    pub closed spec fn spec_digest(&self) -> Seq<u32> {
        word_values(self.digest@)
    }

    pub closed spec fn spec_draw_count(&self) -> u32 {
        self.n_draws
    }

    pub closed spec fn spec_next_call_id(&self) -> u32 {
        self.next_call_id
    }

    pub closed spec fn spec_next_hash_id(&self) -> u32 {
        self.next_hash_id
    }

    /// Every permutation the backend performed, in order, with its output.
    pub closed spec fn spec_calls(&self) -> Seq<PoseidonCall> {
        self.calls@
    }

    /// The stream of each completed session, by hash id.
    pub closed spec fn spec_sessions(&self) -> Seq<Seq<u32>> {
        self.sessions@.map_values(|session: (Seq<u32>, nat)| session.0)
    }

    /// The first permutation of each completed session.
    pub closed spec fn spec_starts(&self) -> Seq<nat> {
        self.sessions@.map_values(|session: (Seq<u32>, nat)| session.1)
    }

    /// Every proof-of-work check the backend accepted.
    pub closed spec fn spec_checks(&self) -> Seq<PowCheck> {
        self.checks@
    }

    /// The last request the backend refused, if any.
    pub closed spec fn spec_refused(&self) -> Option<Refusal> {
        self.refused@
    }

    /// The last proof-of-work check the backend refused, if any.
    pub closed spec fn spec_pow_refused(&self) -> Option<(PowCheck, TranscriptError)> {
        self.pow_refused@
    }

    pub closed spec fn spec_backend(&self) -> B {
        self.backend
    }

    /// Whether two kernels agree on everything but the backend.
    pub open spec fn same_state(before: Self, after: Self) -> bool {
        &&& after.spec_digest() == before.spec_digest()
        &&& after.spec_draw_count() == before.spec_draw_count()
        &&& after.spec_next_call_id() == before.spec_next_call_id()
        &&& after.spec_next_hash_id() == before.spec_next_hash_id()
        &&& after.spec_calls() == before.spec_calls()
        &&& after.spec_sessions() == before.spec_sessions()
        &&& after.spec_starts() == before.spec_starts()
        &&& after.spec_checks() == before.spec_checks()
        &&& after.spec_refused() == before.spec_refused()
        &&& after.spec_pow_refused() == before.spec_pow_refused()
    }

    /// One sponge session over `stream` run from `before`: on success the
    /// session's permutations are recorded and `done` holds of the new state;
    /// on failure the digest, the draw counter and the completed sessions are
    /// kept.
    pub open spec fn ran_session(
        before: Self,
        after: Self,
        stream: Seq<u32>,
        result: Result<(), TranscriptError>,
    ) -> bool {
        &&& after.spec_checks() == before.spec_checks()
        &&& after.spec_pow_refused() == before.spec_pow_refused()
        &&& before.spec_next_hash_id() == u32::MAX ==> {
            &&& result == Err::<(), _>(TranscriptError::HashIdOverflow)
            &&& Self::same_state(before, after)
        }
        &&& before.spec_next_hash_id() < u32::MAX ==> {
            &&& after.spec_next_hash_id() == before.spec_next_hash_id() + 1
            &&& match result {
                Ok(()) => {
                    &&& session_done(
                        before.spec_calls(),
                        after.spec_calls(),
                        before.spec_next_call_id(),
                        after.spec_next_call_id(),
                        before.spec_next_hash_id(),
                        stream,
                    )
                    &&& after.spec_refused() == before.spec_refused()
                    &&& after.spec_sessions() == before.spec_sessions().push(stream)
                    &&& after.spec_starts() == before.spec_starts().push(before.spec_calls().len())
                },
                Err(error) => {
                    &&& session_failed(
                        before.spec_calls(),
                        after.spec_calls(),
                        before.spec_next_call_id(),
                        after.spec_next_call_id(),
                        before.spec_next_hash_id(),
                        before.spec_refused(),
                        after.spec_refused(),
                        stream,
                        error,
                    )
                    &&& after.spec_digest() == before.spec_digest()
                    &&& after.spec_draw_count() == before.spec_draw_count()
                    &&& after.spec_sessions() == before.spec_sessions()
                    &&& after.spec_starts() == before.spec_starts()
                },
            }
        }
    }

    /// Absorbing `stream`: one session over it; on success the digest is the
    /// rate words of its last output and the draw counter is reset.
    pub open spec fn absorbed(before: Self, after: Self, stream: Seq<u32>, result: Result<(), TranscriptError>) -> bool {
        &&& Self::ran_session(before, after, stream, result)
        &&& result is Ok ==> {
            &&& after.spec_digest() == rate_words(after.spec_calls().last().output@)
            &&& after.spec_draw_count() == 0
        }
    }

    /// Drawing one block: refused when the draw counter is not canonical;
    /// else one session over the draw stream, which on success counts the
    /// draw and keeps the digest.
    pub open spec fn drew(before: Self, after: Self, result: Result<(), TranscriptError>) -> bool {
        let stream = draw_stream(before.spec_digest(), before.spec_draw_count());
        &&& before.spec_draw_count() >= M31_MODULUS ==> {
            &&& result == Err::<(), _>(TranscriptError::DrawCountOutOfRange { draw_count: before.spec_draw_count() })
            &&& Self::same_state(before, after)
        }
        &&& before.spec_draw_count() < M31_MODULUS ==> {
            &&& Self::ran_session(before, after, stream, result)
            &&& result is Ok ==> {
                &&& after.spec_digest() == before.spec_digest()
                &&& after.spec_draw_count() == before.spec_draw_count() + 1
            }
        }
    }

    /// The rate words of the last output of completed session `h`.
    pub open spec fn session_block(self, h: int) -> Seq<u32> {
        rate_words(
            self.spec_calls()[self.spec_starts()[h] + chunk_count(self.spec_sessions()[h]) - 1].output@,
        )
    }

    /// The check of a proof-of-work nonce against the first word of the last
    /// draw of `drawn`.
    pub open spec fn pow_check(drawn: Self, nonce: u64, bits: u32) -> PowCheck {
        PowCheck {
            call_id: (drawn.spec_next_call_id() - 1) as u32,
            nonce,
            bits,
            word: drawn.spec_calls().last().output@[0],
        }
    }

    /// Checking a proof-of-work nonce: absorb the nonce, draw a block from the
    /// new digest and hand the backend the check against its first word; on
    /// acceptance the check is recorded and the transcript keeps the nonce's
    /// digest with a reset draw counter.
    pub open spec fn checked_pow(before: Self, after: Self, nonce: u64, bits: u32, result: Result<(), TranscriptError>) -> bool {
        let stream = before.spec_digest() + u32_limbs(u64_words(nonce));
        match result {
            Ok(()) => exists|absorbed: Self, drawn: Self|
                {
                    &&& #[trigger] Self::absorbed(before, absorbed, stream, Ok(()))
                    &&& #[trigger] Self::drew(absorbed, drawn, Ok(()))
                    &&& after.spec_checks() == before.spec_checks().push(Self::pow_check(drawn, nonce, bits))
                    &&& after.spec_digest() == absorbed.spec_digest()
                    &&& after.spec_draw_count() == 0
                    &&& after.spec_calls() == drawn.spec_calls()
                    &&& after.spec_next_call_id() == drawn.spec_next_call_id()
                    &&& after.spec_next_hash_id() == drawn.spec_next_hash_id()
                    &&& after.spec_sessions() == drawn.spec_sessions()
                    &&& after.spec_starts() == drawn.spec_starts()
                    &&& after.spec_refused() == drawn.spec_refused()
                    &&& after.spec_pow_refused() == before.spec_pow_refused()
                },
            Err(error) => {
                ||| Self::absorbed(before, after, stream, Err(error))
                ||| exists|absorbed: Self|
                    #[trigger] Self::absorbed(before, absorbed, stream, Ok(())) && Self::drew(absorbed, after, Err(error))
                ||| exists|absorbed: Self, drawn: Self|
                    {
                        &&& #[trigger] Self::absorbed(before, absorbed, stream, Ok(()))
                        &&& #[trigger] Self::drew(absorbed, drawn, Ok(()))
                        &&& after.spec_pow_refused() == Some((Self::pow_check(drawn, nonce, bits), error))
                        &&& after.spec_checks() == before.spec_checks()
                        &&& after.spec_digest() == drawn.spec_digest()
                        &&& after.spec_draw_count() == drawn.spec_draw_count()
                        &&& after.spec_calls() == drawn.spec_calls()
                        &&& after.spec_next_call_id() == drawn.spec_next_call_id()
                        &&& after.spec_next_hash_id() == drawn.spec_next_hash_id()
                        &&& after.spec_sessions() == drawn.spec_sessions()
                        &&& after.spec_starts() == drawn.spec_starts()
                        &&& after.spec_refused() == drawn.spec_refused()
                    }
            },
        }
    }

    /// `after` is `before` after `b` successful draws: the digest is kept,
    /// each draw counted, and each draw's session recorded over its stream.
    pub open spec fn successive_draws(before: Self, after: Self, b: nat) -> bool {
        let base = before.spec_sessions().len();
        &&& after.spec_digest() == before.spec_digest()
        &&& after.spec_draw_count() == before.spec_draw_count() + b
        &&& after.spec_next_hash_id() == before.spec_next_hash_id() + b
        &&& after.spec_checks() == before.spec_checks()
        &&& after.spec_refused() == before.spec_refused()
        &&& after.spec_pow_refused() == before.spec_pow_refused()
        &&& after.spec_calls().len() >= before.spec_calls().len()
        &&& after.spec_calls().subrange(0, before.spec_calls().len() as int) == before.spec_calls()
        &&& after.spec_sessions().len() == base + b
        &&& after.spec_sessions().subrange(0, base as int) == before.spec_sessions()
        &&& after.spec_starts().len() == base + b
        &&& after.spec_starts().subrange(0, base as int) == before.spec_starts()
        &&& before.clean_record() ==> after.clean_record()
        &&& forall|k: int|
            0 <= k < b ==> {
                &&& #[trigger] after.spec_sessions()[base + k] == draw_stream(
                    before.spec_digest(),
                    (before.spec_draw_count() + k) as u32,
                )
                &&& after.spec_starts()[base + k] + chunk_count(after.spec_sessions()[base + k])
                    <= after.spec_calls().len()
                &&& after.spec_starts()[base + k] >= before.spec_calls().len()
            }
    }

    /// Drawing `count` raw queries below `2^log_domain_size`: as many blocks
    /// as the queries need, eight queries per block, each a block word
    /// masked to the domain.
    pub open spec fn drew_queries(
        before: Self,
        after: Self,
        count: usize,
        log_domain_size: u32,
        result: Result<Vec<u32>, TranscriptError>,
    ) -> bool {
        let draws = ((count + 7) / 8) as nat;
        let base = before.spec_sessions().len();
        match result {
            Ok(queries) => {
                &&& queries@.len() == count
                &&& Self::successive_draws(before, after, draws)
                &&& forall|j: int|
                    0 <= j < count ==> #[trigger] queries@[j] == after.session_block(base + j / 8)[j % 8]
                        & query_mask(log_domain_size)
            },
            Err(error) => exists|mid: Self, b: nat|
                b < draws && #[trigger] Self::successive_draws(before, mid, b) && Self::drew(
                    mid,
                    after,
                    Err(error),
                ),
        }
    }

    /// The record a run of successful operations leaves: permutation `i` is
    /// call `i`, at its step of its session, following that session's stream
    /// from the state before it; consecutive calls continue a session or open
    /// the next one; and each accepted proof-of-work check names a recorded
    /// permutation whose first output word it was checked against.
    pub open spec fn clean_record(self) -> bool {
        let calls = self.spec_calls();
        let sessions = self.spec_sessions();
        let starts = self.spec_starts();
        let checks = self.spec_checks();
        &&& calls.len() == self.spec_next_call_id()
        &&& sessions.len() == self.spec_next_hash_id()
        &&& calls.len() == 0 ==> sessions.len() == 0
        &&& calls.len() > 0 ==> calls.last().id.hash_id == sessions.len() - 1
        &&& forall|i: int| 0 <= i < calls.len() ==> clean_call(#[trigger] calls[i], calls, sessions, starts, i)
        &&& forall|c: int|
            0 <= c < checks.len() ==> {
                &&& (#[trigger] checks[c]).call_id < calls.len()
                &&& calls[checks[c].call_id as int].output@[0] == checks[c].word
            }
    }

    /// Drawing from the current digest to check a proof-of-work nonce: a
    /// block is drawn and the backend checks the nonce against its first
    /// word; on acceptance the check is recorded and the draw counter reset,
    /// the digest kept.
    pub open spec fn checked_drawn_pow(
        before: Self,
        after: Self,
        nonce: u64,
        bits: u32,
        result: Result<(), TranscriptError>,
    ) -> bool {
        match result {
            Ok(()) => exists|drawn: Self|
                {
                    &&& #[trigger] Self::drew(before, drawn, Ok(()))
                    &&& after.spec_checks() == before.spec_checks().push(Self::pow_check(drawn, nonce, bits))
                    &&& after.spec_digest() == before.spec_digest()
                    &&& after.spec_draw_count() == 0
                    &&& after.spec_calls() == drawn.spec_calls()
                    &&& after.spec_next_call_id() == drawn.spec_next_call_id()
                    &&& after.spec_next_hash_id() == drawn.spec_next_hash_id()
                    &&& after.spec_sessions() == drawn.spec_sessions()
                    &&& after.spec_starts() == drawn.spec_starts()
                    &&& after.spec_refused() == drawn.spec_refused()
                    &&& after.spec_pow_refused() == before.spec_pow_refused()
                },
            Err(error) => {
                ||| Self::drew(before, after, Err(error))
                ||| exists|drawn: Self|
                    {
                        &&& #[trigger] Self::drew(before, drawn, Ok(()))
                        &&& after.spec_pow_refused() == Some((Self::pow_check(drawn, nonce, bits), error))
                        &&& after.spec_checks() == before.spec_checks()
                        &&& after.spec_digest() == drawn.spec_digest()
                        &&& after.spec_draw_count() == drawn.spec_draw_count()
                        &&& after.spec_calls() == drawn.spec_calls()
                        &&& after.spec_next_call_id() == drawn.spec_next_call_id()
                        &&& after.spec_next_hash_id() == drawn.spec_next_hash_id()
                        &&& after.spec_sessions() == drawn.spec_sessions()
                        &&& after.spec_starts() == drawn.spec_starts()
                        &&& after.spec_refused() == drawn.spec_refused()
                    }
            },
        }
    }

    /// The state `new` gives a transcript over `backend`.
    pub open spec fn fresh(kernel: Self, backend: B) -> bool {
        &&& kernel.spec_digest() == Seq::new(8, |i: int| 0u32)
        &&& kernel.spec_draw_count() == 0
        &&& kernel.spec_next_call_id() == 0
        &&& kernel.spec_next_hash_id() == 0
        &&& kernel.spec_calls() == Seq::<PoseidonCall>::empty()
        &&& kernel.spec_sessions() == Seq::<Seq<u32>>::empty()
        &&& kernel.spec_starts() == Seq::<nat>::empty()
        &&& kernel.spec_checks() == Seq::<PowCheck>::empty()
        &&& kernel.spec_refused() is None
        &&& kernel.spec_pow_refused() is None
        &&& kernel.spec_backend() == backend
    }

    /// A fresh transcript: zero digest, no draws, no permutations.
    pub fn new(backend: B) -> (kernel: Self)
        ensures
            kernel.spec_digest() == Seq::new(8, |i: int| 0u32),
            kernel.spec_draw_count() == 0,
            kernel.spec_next_call_id() == 0,
            kernel.spec_next_hash_id() == 0,
            kernel.spec_calls() == Seq::<PoseidonCall>::empty(),
            kernel.spec_sessions() == Seq::<Seq<u32>>::empty(),
            kernel.spec_starts() == Seq::<nat>::empty(),
            kernel.spec_checks() == Seq::<PowCheck>::empty(),
            kernel.spec_refused() is None,
            kernel.spec_pow_refused() is None,
            kernel.spec_backend() == backend,
            kernel.clean_record(),
    {
        let kernel = TranscriptKernel {
            digest: [M31Word::zero(); 8],
            n_draws: 0,
            next_call_id: 0,
            next_hash_id: 0,
            backend,
            calls: Ghost(Seq::empty()),
            sessions: Ghost(Seq::empty()),
            checks: Ghost(Seq::empty()),
            refused: Ghost(None),
            pow_refused: Ghost(None),
        };
        proof {
            assert(kernel.spec_digest() =~= Seq::new(8, |i: int| 0u32));
        }
        kernel
    }

    pub fn digest(&self) -> (digest: [M31Word; 8])
        ensures
            word_values(digest@) == self.spec_digest(),
    {
        self.digest
    }

    pub fn draw_count(&self) -> (count: u32)
        ensures
            count == self.spec_draw_count(),
    {
        self.n_draws
    }

    /// The id the next sponge session gets.
    pub fn next_hash_id(&self) -> (id: u32)
        ensures
            id == self.spec_next_hash_id(),
    {
        self.next_hash_id
    }

    /// The id the next permutation gets.
    pub fn next_call_id(&self) -> (id: u32)
        ensures
            id == self.spec_next_call_id(),
    {
        self.next_call_id
    }

    pub fn backend(&self) -> (backend: &B)
        ensures
            *backend == self.spec_backend(),
    {
        &self.backend
    }

    pub fn into_backend(self) -> (backend: B)
        ensures
            backend == self.spec_backend(),
    {
        self.backend
    }

    /// Adds the next stream word into the sponge and permutes once the rate
    /// is full.
    fn absorb_word(
        &mut self,
        state: &mut [M31Word; 16],
        filled: &mut usize,
        step: &mut u32,
        hash_id: u32,
        word: M31Word,
        Ghost(stream): Ghost<Seq<u32>>,
        Ghost(start): Ghost<nat>,
        Ghost(first_call): Ghost<u32>,
    ) -> (result: Result<(), TranscriptError>)
        requires
            start <= old(self).calls@.len(),
            sponge_at(
                old(self).calls@.skip(start as int),
                old(state)@,
                *old(filled) as nat,
                *old(step) as nat,
                stream,
                first_call as nat,
                hash_id,
                (8 * *old(step) + *old(filled)) as nat,
            ),
            8 * *old(step) + *old(filled) < padded_stream(stream).len(),
            padded_stream(stream)[8 * *old(step) + *old(filled)] == word@,
            old(self).next_call_id == first_call + *old(step),
        ensures
            final(self).digest == old(self).digest,
            final(self).n_draws == old(self).n_draws,
            final(self).next_hash_id == old(self).next_hash_id,
            final(self).sessions == old(self).sessions,
            final(self).checks == old(self).checks,
            final(self).pow_refused == old(self).pow_refused,
            final(self).calls@.len() >= old(self).calls@.len(),
            final(self).calls@.subrange(0, old(self).calls@.len() as int) == old(self).calls@,
            match result {
                Ok(()) => {
                    &&& sponge_at(
                        final(self).calls@.skip(start as int),
                        final(state)@,
                        *final(filled) as nat,
                        *final(step) as nat,
                        stream,
                        first_call as nat,
                        hash_id,
                        (8 * *old(step) + *old(filled) + 1) as nat,
                    )
                    &&& final(self).next_call_id == first_call + *final(step)
                    &&& final(self).refused == old(self).refused
                },
                Err(error) => {
                    let calls = old(self).calls@.skip(start as int);
                    &&& final(self).calls == old(self).calls
                    &&& calls.len() < chunk_count(stream)
                    &&& {
                        ||| {
                            &&& error == TranscriptError::CallIdOverflow
                            &&& first_call + calls.len() == u32::MAX
                            &&& final(self).next_call_id == u32::MAX
                            &&& final(self).refused == old(self).refused
                        }
                        ||| {
                            &&& session_refused(calls, final(self).refused@, stream, first_call as nat, hash_id, error)
                            &&& final(self).next_call_id == first_call + calls.len() + 1
                        }
                    }
                },
            },
    {
        let ghost calls = self.calls@.skip(start as int);
        let ghost before = state@;
        proof {
            lemma_sponge_bounds(
                calls,
                before,
                *filled as nat,
                *step as nat,
                stream,
                first_call as nat,
                hash_id,
                (8 * *step + *filled) as nat,
            );
            assert(self.calls@.subrange(0, self.calls@.len() as int) =~= self.calls@);
        }
        let f = *filled;
        let sum = add_m31_words(state[f], word);
        state[f] = sum;
        *filled = f + 1;
        if *filled < RATE {
            proof {
                lemma_absorb_partial(calls, before, f as nat, *step as nat, stream, first_call as nat, hash_id, sum, word);
                assert(state@ == before.update(f as int, sum));
            }
            return Ok(());
        }
        proof {
            lemma_absorb_full(calls, before, *step as nat, stream, first_call as nat, hash_id, sum, word);
            assert(state@ == before.update(7, sum));
        }
        let input_words = *state;
        let ghost old_calls = self.calls@;
        match self.permute(hash_id, *step, input_words) {
            Ok(output) => {
                let ghost call = PoseidonCall {
                    id: PermutationId { call_id: (first_call + *step) as u32, hash_id, step: *step },
                    input: input_words,
                    output,
                };
                proof {
                    assert(self.calls@ == old_calls.push(call));
                    assert(self.calls@.skip(start as int) =~= calls.push(call));
                    assert(self.calls@.subrange(0, old_calls.len() as int) =~= old_calls);
                    lemma_session_push(calls, call, stream, first_call as nat, hash_id);
                    lemma_after_permute(calls, call, *step as nat, stream, first_call as nat, hash_id);
                }
                *state = output;
                *filled = 0;
                *step = *step + 1;
                Ok(())
            },
            Err(error) => {
                proof {
                    assert(self.calls@.subrange(0, old_calls.len() as int) =~= old_calls);
                }
                Err(error)
            },
        }
    }

    /// Absorbs canonical field words: hashes the digest followed by the
    /// words, takes the rate words of the last output as the new digest and
    /// resets the draw counter.
    pub fn absorb_m31_words(&mut self, words: &[M31Word]) -> (result: Result<(), TranscriptError>)
        ensures
            Self::absorbed(*old(self), *final(self), old(self).spec_digest() + word_values(words@), result),
    {
        let mut stream: Vec<M31Word> = Vec::new();
        let mut d: usize = 0;
        while d < 8
            invariant
                d <= 8,
                stream@ == self.digest@.subrange(0, d as int),
            decreases 8 - d,
        {
            stream.push(self.digest[d]);
            d = d + 1;
        }
        let mut w: usize = 0;
        while w < words.len()
            invariant
                w <= words@.len(),
                stream@ == self.digest@ + words@.subrange(0, w as int),
            decreases words@.len() - w,
        {
            stream.push(words[w]);
            w = w + 1;
        }
        proof {
            assert(words@.subrange(0, words@.len() as int) =~= words@);
            assert(word_values(stream@) =~= word_values(self.digest@) + word_values(words@));
        }
        let output = self.hash_stream(stream.as_slice())?;
        let mut digest = [M31Word::zero(); 8];
        let mut r: usize = 0;
        while r < 8
            invariant
                r <= 8,
                forall|j: int| 0 <= j < r ==> digest@[j] == output@[j],
            decreases 8 - r,
        {
            digest[r] = output[r];
            r = r + 1;
        }
        proof {
            assert(word_values(digest@) =~= rate_words(output@));
        }
        self.digest = digest;
        self.n_draws = 0;
        Ok(())
    }

    /// Absorbs machine words through the injective 16-bit split.
    pub fn absorb_u32s(&mut self, words: &[u32]) -> (result: Result<(), TranscriptError>)
        ensures
            Self::absorbed(*old(self), *final(self), old(self).spec_digest() + u32_limbs(words@), result),
    {
        let encoded = limb_words(words);
        self.absorb_m31_words(encoded.as_slice())
    }

    /// Absorbs a 64-bit value as its low and high machine words.
    pub fn absorb_u64(&mut self, value: u64) -> (result: Result<(), TranscriptError>)
        ensures
            Self::absorbed(*old(self), *final(self), old(self).spec_digest() + u32_limbs(u64_words(value)), result),
    {
        let encoded = u64_limb_words(value);
        self.absorb_m31_words(encoded.as_slice())
    }

    /// Absorbs a digest's eight words.
    pub fn absorb_digest(&mut self, digest: [M31Word; 8]) -> (result: Result<(), TranscriptError>)
        ensures
            Self::absorbed(*old(self), *final(self), old(self).spec_digest() + word_values(digest@), result),
    {
        self.absorb_m31_words(&digest)
    }

    /// Absorbs secure-field values, each as its four base-field words.
    pub fn absorb_secure_fields(&mut self, values: &[[M31Word; 4]]) -> (result: Result<(), TranscriptError>)
        ensures
            Self::absorbed(*old(self), *final(self), old(self).spec_digest() + secure_words(values@), result),
    {
        let words = secure_field_words(values);
        self.absorb_m31_words(words.as_slice())
    }

    /// Draws one rate block without feeding it back into the digest.
    pub fn draw_block(&mut self) -> (result: Result<[M31Word; 8], TranscriptError>)
        ensures
            Self::drew(*old(self), *final(self), unit_result(result)),
            result matches Ok(block) ==> word_values(block@) == rate_words(final(self).spec_calls().last().output@)
                && word_values(block@) == final(self).session_block(old(self).spec_sessions().len() as int),
    {
        let draw_count = match M31Word::try_from_u32(self.n_draws) {
            Some(word) => word,
            None => {
                return Err(TranscriptError::DrawCountOutOfRange { draw_count: self.n_draws });
            },
        };
        let draw_tag = M31Word::try_from_u32(DRAW_TAG).unwrap();
        let mut stream: Vec<M31Word> = Vec::new();
        let mut d: usize = 0;
        while d < 8
            invariant
                d <= 8,
                stream@ == self.digest@.subrange(0, d as int),
                *self == *old(self),
            decreases 8 - d,
        {
            stream.push(self.digest[d]);
            d = d + 1;
        }
        stream.push(draw_count);
        stream.push(draw_tag);
        proof {
            assert(word_values(stream@) =~= draw_stream(word_values(self.digest@), self.n_draws));
        }
        let output = match self.hash_stream(stream.as_slice()) {
            Ok(output) => output,
            Err(error) => {
                return Err(error);
            },
        };
        self.n_draws = self.n_draws + 1;
        let mut block = [M31Word::zero(); 8];
        let mut r: usize = 0;
        while r < 8
            invariant
                r <= 8,
                forall|j: int| 0 <= j < r ==> block@[j] == output@[j],
            decreases 8 - r,
        {
            block[r] = output[r];
            r = r + 1;
        }
        proof {
            assert(word_values(block@) =~= rate_words(output@));
            let h = old(self).sessions@.len() as int;
            let stream_values = word_values(stream@);
            assert(self.spec_starts()[h] == old(self).calls@.len());
            assert(self.spec_sessions()[h] == stream_values);
            assert(self.calls@.skip(old(self).calls@.len() as int).len() == chunk_count(stream_values));
            assert(self.calls@.len() == old(self).calls@.len() + chunk_count(stream_values));
        }
        Ok(block)
    }

    /// Draws one secure-field value: the first four words of a block.
    pub fn draw_secure_field(&mut self) -> (result: Result<[M31Word; 4], TranscriptError>)
        ensures
            Self::drew(*old(self), *final(self), unit_result(result)),
            result matches Ok(value) ==> word_values(value@) == final(self).session_block(
                old(self).spec_sessions().len() as int,
            ).subrange(0, 4),
    {
        let block = self.draw_block()?;
        let value = [block[0], block[1], block[2], block[3]];
        proof {
            assert(word_values(value@) =~= word_values(block@).subrange(0, 4));
        }
        Ok(value)
    }

    /// Verifies a proof-of-work nonce and performs its absorption once: the
    /// nonce is absorbed, a block is drawn from the new digest, and the
    /// backend checks the nonce against its first word. Acceptance keeps the
    /// nonce's digest with a reset draw counter.
    pub fn verify_and_absorb_pow(&mut self, nonce: u64, bits: u32) -> (result: Result<(), TranscriptError>)
        ensures
            bits > 31 ==> result == Err::<(), _>(TranscriptError::PowBitsOutOfRange { bits }) && Self::same_state(
                *old(self),
                *final(self),
            ),
            bits <= 31 ==> Self::checked_pow(*old(self), *final(self), nonce, bits, result),
    {
        if bits > 31 {
            return Err(TranscriptError::PowBitsOutOfRange { bits });
        }
        let ghost before = *self;
        let ghost stream = self.spec_digest() + u32_limbs(u64_words(nonce));
        match self.absorb_u64(nonce) {
            Ok(()) => {},
            Err(error) => {
                return Err(error);
            },
        }
        let ghost absorbed = *self;
        let nonce_digest = self.digest;
        let block = match self.draw_block() {
            Ok(block) => block,
            Err(error) => {
                proof {
                    assert(Self::absorbed(before, absorbed, stream, Ok(())));
                }
                return Err(error);
            },
        };
        let ghost drawn = *self;
        let word = block[0];
        proof {
            assert(Self::absorbed(before, absorbed, stream, Ok(())));
            assert(Self::drew(absorbed, drawn, Ok(())));
            let s = draw_stream(absorbed.spec_digest(), absorbed.spec_draw_count());
            assert(drawn.spec_calls().skip(absorbed.spec_calls().len() as int).len() == chunk_count(s));
            assert(word_values(block@)[0] == block@[0]@);
            assert(word@ == drawn.spec_calls().last().output@[0]@);
            M31Word::lemma_view_injective(word, drawn.spec_calls().last().output@[0]);
        }
        let call_id = self.next_call_id - 1;
        let check = PowCheck { call_id, nonce, bits, word };
        match self.backend.verify_pow(check) {
            Ok(()) => {},
            Err(error) => {
                proof {
                    self.pow_refused@ = Some((check, error));
                }
                return Err(error);
            },
        }
        proof {
            self.checks@ = self.checks@.push(check);
        }
        self.digest = nonce_digest;
        self.n_draws = 0;
        Ok(())
    }

    /// Checks a proof-of-work nonce against the current digest, which the
    /// caller has already bound the nonce into: a block is drawn and the
    /// backend checks the nonce against its first word. Acceptance keeps the
    /// digest and resets the draw counter.
    pub fn verify_pow_from_current_digest(&mut self, nonce: u64, bits: u32) -> (result: Result<(), TranscriptError>)
        ensures
            bits > 31 ==> result == Err::<(), _>(TranscriptError::PowBitsOutOfRange { bits }) && Self::same_state(
                *old(self),
                *final(self),
            ),
            bits <= 31 ==> Self::checked_drawn_pow(*old(self), *final(self), nonce, bits, result),
    {
        if bits > 31 {
            return Err(TranscriptError::PowBitsOutOfRange { bits });
        }
        let ghost before = *self;
        let digest = self.digest;
        let block = match self.draw_block() {
            Ok(block) => block,
            Err(error) => {
                return Err(error);
            },
        };
        let ghost drawn = *self;
        let word = block[0];
        proof {
            assert(Self::drew(before, drawn, Ok(())));
            let s = draw_stream(before.spec_digest(), before.spec_draw_count());
            assert(drawn.spec_calls().skip(before.spec_calls().len() as int).len() == chunk_count(s));
            assert(word_values(block@)[0] == block@[0]@);
            assert(word@ == drawn.spec_calls().last().output@[0]@);
            M31Word::lemma_view_injective(word, drawn.spec_calls().last().output@[0]);
        }
        let call_id = self.next_call_id - 1;
        let check = PowCheck { call_id, nonce, bits, word };
        match self.backend.verify_pow(check) {
            Ok(()) => {},
            Err(error) => {
                proof {
                    self.pow_refused@ = Some((check, error));
                }
                return Err(error);
            },
        }
        proof {
            self.checks@ = self.checks@.push(check);
        }
        self.digest = digest;
        self.n_draws = 0;
        Ok(())
    }

    /// Derives `count` raw query slots directly from drawn words, each masked
    /// to a domain of `2^log_domain_size` points, drawing as many blocks as
    /// needed.
    pub fn draw_queries(&mut self, count: usize, log_domain_size: u32) -> (result: Result<Vec<u32>, TranscriptError>)
        ensures
            !(1 <= log_domain_size <= 30) ==> result == Err::<Vec<u32>, _>(
                TranscriptError::QueryLogSizeOutOfRange { log_domain_size },
            ) && Self::same_state(*old(self), *final(self)),
            1 <= log_domain_size <= 30 ==> Self::drew_queries(*old(self), *final(self), count, log_domain_size, result),
    {
        if log_domain_size < 1 || log_domain_size > 30 {
            return Err(TranscriptError::QueryLogSizeOutOfRange { log_domain_size });
        }
        assert((1u32 << log_domain_size) >= 1) by (bit_vector)
            requires
                log_domain_size <= 30,
        ;
        let mask = (1u32 << log_domain_size) - 1;
        let ghost before = *self;
        let ghost base = self.spec_sessions().len();
        let mut queries: Vec<u32> = Vec::new();
        proof {
            assert(self.spec_calls().subrange(0, self.spec_calls().len() as int) =~= self.spec_calls());
            assert(self.spec_sessions().subrange(0, base as int) =~= self.spec_sessions());
            assert(self.spec_starts().subrange(0, base as int) =~= self.spec_starts());
        }
        let mut b: usize = 0;
        while queries.len() < count
            invariant
                mask == query_mask(log_domain_size),
                1 <= log_domain_size <= 30,
                *old(self) == before,
                base == before.spec_sessions().len(),
                before.spec_sessions().len() == before.spec_starts().len(),
                Self::successive_draws(before, *self, b as nat),
                queries@.len() <= count,
                queries@.len() < count ==> queries@.len() == 8 * b,
                queries@.len() == count ==> b == (count + 7) / 8,
                b <= (count + 7) / 8,
                forall|j: int|
                    0 <= j < queries@.len() ==> #[trigger] queries@[j] == self.session_block(base + j / 8)[j % 8]
                        & mask,
            decreases count - queries@.len(),
        {
            let ghost mid = *self;
            let block = match self.draw_block() {
                Ok(block) => block,
                Err(error) => {
                    proof {
                        assert(b < (count + 7) / 8) by (nonlinear_arith)
                            requires
                                queries@.len() < count,
                                queries@.len() == 8 * b,
                        ;
                        assert(Self::successive_draws(before, mid, b as nat));
                    }
                    return Err(error);
                },
            };
            proof {
                lemma_draw_extends(before, mid, *self, b as nat);
            }
            let ghost start_len = queries@.len();
            let mut w: usize = 0;
            while w < 8 && queries.len() < count
                invariant
                    w <= 8,
                    start_len == 8 * b,
                    queries@.len() == start_len + w,
                    queries@.len() <= count,
                    mask == query_mask(log_domain_size),
                    word_values(block@) == self.session_block(base + b),
                    forall|j: int|
                        0 <= j < queries@.len() ==> #[trigger] queries@[j] == self.session_block(base + j / 8)[j % 8]
                            & mask,
                decreases 8 - w,
            {
                let value = block[w].as_u32();
                proof {
                    let j = queries@.len() as int;
                    assert(j / 8 == b && j % 8 == w) by (nonlinear_arith)
                        requires
                            j == 8 * b + w,
                            w < 8,
                    ;
                    assert(word_values(block@)[w as int] == value);
                }
                queries.push(value & mask);
                w = w + 1;
            }
            b = b + 1;
            proof {
                if queries@.len() == count {
                    assert(b == (count + 7) / 8) by (nonlinear_arith)
                        requires
                            start_len == 8 * (b - 1),
                            start_len < count,
                            count <= start_len + 8,
                    ;
                }
            }
        }
        Ok(queries)
    }

    /// Hashes one stream in a fresh sponge session and returns the last
    /// permutation output.
    fn hash_stream(&mut self, words: &[M31Word]) -> (result: Result<[M31Word; 16], TranscriptError>)
        ensures
            final(self).digest == old(self).digest,
            final(self).n_draws == old(self).n_draws,
            final(self).checks == old(self).checks,
            final(self).pow_refused == old(self).pow_refused,
            old(self).next_hash_id == u32::MAX ==> {
                &&& result == Err::<[M31Word; 16], _>(TranscriptError::HashIdOverflow)
                &&& final(self).next_hash_id == old(self).next_hash_id
                &&& final(self).next_call_id == old(self).next_call_id
                &&& final(self).calls == old(self).calls
                &&& final(self).sessions == old(self).sessions
                &&& final(self).refused == old(self).refused
            },
            old(self).next_hash_id < u32::MAX ==> {
                &&& final(self).next_hash_id == old(self).next_hash_id + 1
                &&& session_outcome(
                    old(self).calls@,
                    final(self).calls@,
                    old(self).next_call_id,
                    final(self).next_call_id,
                    old(self).next_hash_id,
                    old(self).refused@,
                    final(self).refused@,
                    word_values(words@),
                    result,
                )
                &&& result is Ok ==> final(self).sessions@ == old(self).sessions@.push(
                    (word_values(words@), old(self).calls@.len()),
                ) && final(self).spec_sessions() == old(self).spec_sessions().push(word_values(words@))
                    && final(self).spec_starts() == old(self).spec_starts().push(old(self).calls@.len())
                &&& result is Err ==> final(self).sessions == old(self).sessions
            },
    {
        let hash_id = self.next_hash_id;
        if hash_id == u32::MAX {
            return Err(TranscriptError::HashIdOverflow);
        }
        self.next_hash_id = hash_id + 1;
        let ghost stream = word_values(words@);
        let ghost start = self.calls@.len();
        let ghost before = self.calls@;
        let ghost first_call = self.next_call_id;
        let ghost refused = self.refused@;
        let mut state = [M31Word::zero(); 16];
        let mut filled: usize = 0;
        let mut step: u32 = 0;
        proof {
            lemma_sponge_start(state@, stream, first_call as nat, hash_id);
            assert(self.calls@.skip(start as int) =~= Seq::<PoseidonCall>::empty());
            assert(self.calls@.subrange(0, start as int) =~= before);
        }
        let n = words.len();
        let mut i: usize = 0;
        while i < n
            invariant
                i <= n,
                n == words@.len(),
                stream == word_values(words@),
                self.calls@.len() >= start,
                start == before.len(),
                self.calls@.subrange(0, start as int) == before,
                sponge_at(
                    self.calls@.skip(start as int),
                    state@,
                    filled as nat,
                    step as nat,
                    stream,
                    first_call as nat,
                    hash_id,
                    i as nat,
                ),
                self.next_call_id == first_call + step,
                self.next_hash_id == hash_id + 1,
                hash_id < u32::MAX,
                old(self).next_hash_id == hash_id,
                old(self).next_call_id == first_call,
                old(self).calls@ == before,
                old(self).refused@ == refused,
                self.digest == old(self).digest,
                self.n_draws == old(self).n_draws,
                self.checks == old(self).checks,
                self.pow_refused == old(self).pow_refused,
                self.sessions == old(self).sessions,
                self.refused@ == refused,
            decreases n - i,
        {
            proof {
                lemma_sponge_bounds(
                    self.calls@.skip(start as int),
                    state@,
                    filled as nat,
                    step as nat,
                    stream,
                    first_call as nat,
                    hash_id,
                    i as nat,
                );
            }
            let ghost calls_before = self.calls@;
            match self.absorb_word(
                &mut state,
                &mut filled,
                &mut step,
                hash_id,
                words[i],
                Ghost(stream),
                Ghost(start),
                Ghost(first_call),
            ) {
                Ok(()) => {
                    proof {
                        assert(self.calls@.subrange(0, start as int) =~= calls_before.subrange(0, start as int));
                    }
                },
                Err(error) => {
                    proof {
                        assert(self.calls@.skip(start as int) == calls_before.skip(start as int));
                    }
                    return Err(error);
                },
            }
            i = i + 1;
        }
        proof {
            lemma_sponge_bounds(
                self.calls@.skip(start as int),
                state@,
                filled as nat,
                step as nat,
                stream,
                first_call as nat,
                hash_id,
                i as nat,
            );
        }
        let ghost calls_before = self.calls@;
        match self.absorb_word(
            &mut state,
            &mut filled,
            &mut step,
            hash_id,
            M31Word::from_u16(1),
            Ghost(stream),
            Ghost(start),
            Ghost(first_call),
        ) {
            Ok(()) => {
                proof {
                    assert(self.calls@.subrange(0, start as int) =~= calls_before.subrange(0, start as int));
                }
            },
            Err(error) => {
                return Err(error);
            },
        }
        let ghost calls = self.calls@.skip(start as int);
        proof {
            lemma_sponge_bounds(calls, state@, filled as nat, step as nat, stream, first_call as nat, hash_id, (n + 1) as nat);
            lemma_sponge_finish(calls, state@, filled as nat, step as nat, stream, first_call as nat, hash_id);
        }
        if filled != 0 {
            let input_words = state;
            let ghost calls_before = self.calls@;
            match self.permute(hash_id, step, input_words) {
                Ok(output) => {
                    let ghost call = PoseidonCall {
                        id: PermutationId { call_id: (first_call + step) as u32, hash_id, step },
                        input: input_words,
                        output,
                    };
                    proof {
                        assert(self.calls@ == calls_before.push(call));
                        assert(self.calls@.skip(start as int) =~= calls.push(call));
                        assert(self.calls@.subrange(0, start as int) =~= calls_before.subrange(0, start as int));
                        lemma_session_push(calls, call, stream, first_call as nat, hash_id);
                    }
                    state = output;
                },
                Err(error) => {
                    return Err(error);
                },
            }
        }
        proof {
            let sessions_before = self.sessions@;
            self.sessions@ = self.sessions@.push((stream, start));
            assert(self.spec_sessions() =~= sessions_before.map_values(|session: (Seq<u32>, nat)| session.0).push(stream));
            assert(self.spec_starts() =~= sessions_before.map_values(|session: (Seq<u32>, nat)| session.1).push(start));
        }
        Ok(state)
    }

    /// Hands one permutation to the backend under the next call id.
    fn permute(&mut self, hash_id: u32, step: u32, input: [M31Word; 16]) -> (result: Result<
        [M31Word; 16],
        TranscriptError,
    >)
        ensures
            final(self).digest == old(self).digest,
            final(self).n_draws == old(self).n_draws,
            final(self).next_hash_id == old(self).next_hash_id,
            final(self).sessions == old(self).sessions,
            final(self).checks == old(self).checks,
            final(self).pow_refused == old(self).pow_refused,
            old(self).next_call_id == u32::MAX ==> result == Err::<[M31Word; 16], _>(TranscriptError::CallIdOverflow)
                && final(self).calls == old(self).calls && final(self).next_call_id == old(self).next_call_id
                && final(self).refused == old(self).refused,
            old(self).next_call_id < u32::MAX ==> {
                let id = PermutationId { call_id: old(self).next_call_id, hash_id, step };
                &&& final(self).next_call_id == old(self).next_call_id + 1
                &&& match result {
                    Ok(output) => final(self).calls@ == old(self).calls@.push((PoseidonCall { id, input, output }))
                        && final(self).refused == old(self).refused,
                    Err(error) => final(self).calls == old(self).calls && final(self).refused@ == Some(
                        (id, input@, error),
                    ),
                }
            },
    {
        let call_id = self.next_call_id;
        if call_id == u32::MAX {
            return Err(TranscriptError::CallIdOverflow);
        }
        self.next_call_id = call_id + 1;
        let id = PermutationId { call_id, hash_id, step };
        match self.backend.permute(id, input) {
            Ok(output) => {
                proof {
                    self.calls@ = self.calls@.push(PoseidonCall { id, input, output });
                }
                Ok(output)
            },
            Err(error) => {
                proof {
                    self.refused@ = Some((id, input@, error));
                }
                Err(error)
            },
        }
    }
}

} // verus!
