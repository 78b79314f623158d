//! Recorded transcript permutations and the sponge rows they imply.
//!
//! A recording backend logs every Poseidon2 permutation of the transcript with
//! its global call id, its hash session and its step within that session, and
//! every proof-of-work check with the draw it was made against. Before the
//! records become AIR witness data, the session coordinates are checked and
//! each permutation input is split back into the previous state and the
//! absorbed rate chunk.
use crate::m31::{M31_MODULUS, M31Word, word_values};
use vstd::std_specs::bits::u32_trailing_zeros;
use vstd::prelude::*;

verus! {

/// Words of the Poseidon2 state.
pub const STATE_WIDTH: usize = 16;

/// Words absorbed per permutation.
pub const RATE: usize = 8;

/// Coordinates of one permutation within both the global and the per-hash
/// schedule.
#[derive(Clone, Copy, Debug, PartialEq, Eq, Structural)]
pub struct PermutationId {
    pub call_id: u32,
    pub hash_id: u32,
    pub step: u32,
}

/// One permutation call shared with the Poseidon2 AIR relation.
#[derive(Clone, Copy, Debug)]
pub struct PoseidonCall {
    pub id: PermutationId,
    pub input: [M31Word; 16],
    pub output: [M31Word; 16],
}

/// One nonce check against a transcript-derived word.
#[derive(Clone, Copy, Debug, PartialEq, Eq, Structural)]
pub struct PowCheck {
    pub call_id: u32,
    pub nonce: u64,
    pub bits: u32,
    pub word: M31Word,
}

/// Why a transcript frame hashes.
#[derive(Clone, Copy, Debug, PartialEq, Eq, Structural)]
pub enum HashPurpose {
    Mix,
    Draw,
}

/// One recorded sponge session: its coordinates and the stream it hashed.
#[derive(Clone, Debug)]
pub struct HashFrame {
    pub hash_id: u32,
    pub first_call_id: u32,
    pub call_count: u32,
    pub purpose: HashPurpose,
    pub words: Vec<M31Word>,
}

/// Witness events produced by the recording transcript backend.
#[derive(Clone, Debug)]
pub struct TranscriptTrace {
    pub hash_frames: Vec<HashFrame>,
    pub poseidon_calls: Vec<PoseidonCall>,
    pub pow_checks: Vec<PowCheck>,
}

/// One sponge row with its reset and chaining data made explicit.
#[derive(Clone, Copy, Debug)]
pub struct SpongeRow {
    pub id: PermutationId,
    pub previous: [M31Word; 16],
    pub chunk: [M31Word; 8],
    pub output: [M31Word; 16],
}

/// Failure at a checked transcript boundary.
#[derive(Clone, Copy, Debug, PartialEq, Eq, Structural)]
pub enum TranscriptError {
    DrawCountOutOfRange { draw_count: u32 },
    DrawCountOverflow,
    CallIdOverflow,
    HashIdOverflow,
    HashStepOverflow,
    PowBitsOutOfRange { bits: u32 },
    QueryLogSizeOutOfRange { log_domain_size: u32 },
    TraceIndexOutOfRange { index: usize },
    TraceCallIdMismatch { index: usize, expected: u32, actual: u32 },
    TraceHashIdMismatch { call_id: u32, expected: u32, actual: u32 },
    TraceStepMismatch { call_id: u32, expected: u32, actual: u32 },
    TraceCapacityMismatch { call_id: u32, word: usize, expected: M31Word, actual: M31Word },
    PowDrawCallMissing { call_id: u32 },
    PowDrawWordMismatch { call_id: u32, expected: M31Word, actual: M31Word },
    RecordedPoseidonOutputMismatch { call_id: u32 },
    MissingPowDraw,
    InvalidProofOfWork { nonce: u64, bits: u32, word: M31Word },
}

/// Field addition.
pub open spec fn spec_add_m31(left: u32, right: u32) -> u32 {
    ((left + right) % (M31_MODULUS as int)) as u32
}

/// Field subtraction.
pub open spec fn spec_sub_m31(left: u32, right: u32) -> u32 {
    ((left + M31_MODULUS - right) % (M31_MODULUS as int)) as u32
}

/// Adds two canonical words modulo the field prime.
pub fn add_m31_words(left: M31Word, right: M31Word) -> (sum: M31Word)
    ensures
        sum@ == spec_add_m31(left@, right@),
        left@ < M31_MODULUS,
        right@ < M31_MODULUS,
{
    let value = (left.as_u32() as u64 + right.as_u32() as u64) % (M31_MODULUS as u64);
    M31Word::try_from_u32(value as u32).unwrap()
}

/// Subtracts two canonical words modulo the field prime.
pub fn subtract_m31_words(left: M31Word, right: M31Word) -> (difference: M31Word)
    ensures
        difference@ == spec_sub_m31(left@, right@),
{
    let r = right.as_u32();
    let value = (left.as_u32() as u64 + M31_MODULUS as u64 - r as u64) % (M31_MODULUS as u64);
    M31Word::try_from_u32(value as u32).unwrap()
}

/// The zero state.
pub open spec fn zero_state() -> Seq<M31Word> {
    Seq::new(16, |i: int| M31Word::spec_zero())
}

/// Sponge rows as plain values: id, previous state, chunk and output.
pub type SpongeRowView = (PermutationId, Seq<u32>, Seq<u32>, Seq<u32>);

impl View for SpongeRow {
    type V = SpongeRowView;

    open spec fn view(&self) -> SpongeRowView {
        (self.id, word_values(self.previous@), word_values(self.chunk@), word_values(self.output@))
    }
}

/// Scan position: the open hash session, the next fresh hash id, the next
/// expected step and the chained state.
pub type SpongeCursor = (Option<u32>, u32, u32, Seq<M31Word>);

/// The first capacity word, from `word` on, that the input does not carry
/// over from the previous state.
pub open spec fn capacity_mismatch(input: Seq<M31Word>, previous: Seq<M31Word>, word: nat) -> Option<
    nat,
>
    decreases 16 - word,
{
    if word >= 16 {
        None
    } else if input[word as int] != previous[word as int] {
        Some(word)
    } else {
        capacity_mismatch(input, previous, word + 1)
    }
}

/// The absorbed chunk: input minus previous state over the rate words.
pub open spec fn spec_chunk(input: Seq<M31Word>, previous: Seq<M31Word>) -> Seq<u32> {
    Seq::new(8, |w: int| spec_sub_m31(input[w]@, previous[w]@))
}

/// One call of the scan: its row and the next cursor, or the error.
pub open spec fn spec_sponge_step(cursor: SpongeCursor, call: PoseidonCall, index: nat) -> Result<
    (SpongeRowView, SpongeCursor),
    TranscriptError,
> {
    let (current, next_hash_id, expected_step, previous) = cursor;
    if index > u32::MAX {
        Err(TranscriptError::TraceIndexOutOfRange { index: index as usize })
    } else if call.id.call_id != index {
        Err(
            TranscriptError::TraceCallIdMismatch {
                index: index as usize,
                expected: index as u32,
                actual: call.id.call_id,
            },
        )
    } else {
        let opens = current != Some(call.id.hash_id);
        if opens && call.id.hash_id != next_hash_id {
            Err(
                TranscriptError::TraceHashIdMismatch {
                    call_id: call.id.call_id,
                    expected: next_hash_id,
                    actual: call.id.hash_id,
                },
            )
        } else if opens && next_hash_id == u32::MAX {
            Err(TranscriptError::HashIdOverflow)
        } else {
            let (next2, step2, previous2) = if opens {
                ((next_hash_id + 1) as u32, 0u32, zero_state())
            } else {
                (next_hash_id, expected_step, previous)
            };
            if call.id.step != step2 {
                Err(
                    TranscriptError::TraceStepMismatch {
                        call_id: call.id.call_id,
                        expected: step2,
                        actual: call.id.step,
                    },
                )
            } else {
                match capacity_mismatch(call.input@, previous2, 8) {
                    Some(word) => Err(
                        TranscriptError::TraceCapacityMismatch {
                            call_id: call.id.call_id,
                            word: word as usize,
                            expected: previous2[word as int],
                            actual: call.input@[word as int],
                        },
                    ),
                    None => if step2 == u32::MAX {
                        Err(TranscriptError::HashStepOverflow)
                    } else {
                        Ok(
                            (
                                (
                                    call.id,
                                    word_values(previous2),
                                    spec_chunk(call.input@, previous2),
                                    word_values(call.output@),
                                ),
                                (
                                    Some(call.id.hash_id),
                                    next2,
                                    (step2 + 1) as u32,
                                    call.output@,
                                ),
                            ),
                        )
                    },
                }
            }
        }
    }
}

/// The rows of the first `n` calls and the cursor after them.
pub open spec fn spec_sponge_scan(calls: Seq<PoseidonCall>, n: nat) -> Result<
    (Seq<SpongeRowView>, SpongeCursor),
    TranscriptError,
>
    decreases n,
{
    if n == 0 {
        Ok((Seq::empty(), (None, 0u32, 0u32, zero_state())))
    } else {
        match spec_sponge_scan(calls, (n - 1) as nat) {
            Err(error) => Err(error),
            Ok((rows, cursor)) => match spec_sponge_step(cursor, calls[n - 1], (n - 1) as nat) {
                Err(error) => Err(error),
                Ok((row, next)) => Ok((rows.push(row), next)),
            },
        }
    }
}

/// The first of the first `n` proof-of-work checks that is not anchored to
/// the first output word of its draw permutation.
pub open spec fn pow_check_error(calls: Seq<PoseidonCall>, checks: Seq<PowCheck>, n: nat) -> Option<
    TranscriptError,
>
    decreases n,
{
    if n == 0 {
        None
    } else {
        match pow_check_error(calls, checks, (n - 1) as nat) {
            Some(error) => Some(error),
            None => {
                let check = checks[n - 1];
                if check.call_id >= calls.len() {
                    Some(TranscriptError::PowDrawCallMissing { call_id: check.call_id })
                } else if calls[check.call_id as int].output@[0] != check.word {
                    Some(
                        TranscriptError::PowDrawWordMismatch {
                            call_id: check.call_id,
                            expected: calls[check.call_id as int].output@[0],
                            actual: check.word,
                        },
                    )
                } else {
                    None
                }
            },
        }
    }
}

/// The sponge rows of a trace, or the first malformed coordinate.
pub open spec fn spec_sponge_rows(trace: TranscriptTrace) -> Result<Seq<SpongeRowView>, TranscriptError> {
    let calls = trace.poseidon_calls@;
    match spec_sponge_scan(calls, calls.len()) {
        Err(error) => Err(error),
        Ok((rows, _)) => match pow_check_error(calls, trace.pow_checks@, trace.pow_checks@.len()) {
            Some(error) => Err(error),
            None => Ok(rows),
        },
    }
}

pub proof fn lemma_capacity_mismatch_skip(input: Seq<M31Word>, previous: Seq<M31Word>, start: nat, word: nat)
    requires
        start <= word <= 16,
        forall|j: int| start <= j < word ==> input[j] == previous[j],
    ensures
        capacity_mismatch(input, previous, start) == capacity_mismatch(input, previous, word),
    decreases word - start,
{
    if start < word {
        lemma_capacity_mismatch_skip(input, previous, start + 1, word);
    }
}

proof fn lemma_sponge_scan_error_sticks(calls: Seq<PoseidonCall>, n: nat, m: nat)
    requires
        n <= m,
        spec_sponge_scan(calls, n) is Err,
    ensures
        spec_sponge_scan(calls, m) == spec_sponge_scan(calls, n),
    decreases m - n,
{
    if m > n {
        lemma_sponge_scan_error_sticks(calls, n, (m - 1) as nat);
    }
}

proof fn lemma_pow_check_error_sticks(calls: Seq<PoseidonCall>, checks: Seq<PowCheck>, n: nat, m: nat)
    requires
        n <= m,
        pow_check_error(calls, checks, n) is Some,
    ensures
        pow_check_error(calls, checks, m) == pow_check_error(calls, checks, n),
    decreases m - n,
{
    if m > n {
        lemma_pow_check_error_sticks(calls, checks, n, (m - 1) as nat);
    }
}

/// The scan step of one call, as executable code.
#[verifier::loop_isolation(false)]
fn sponge_step(
    cursor: (Option<u32>, u32, u32, [M31Word; 16]),
    call: PoseidonCall,
    index: usize,
) -> (result: Result<(SpongeRow, (Option<u32>, u32, u32, [M31Word; 16])), TranscriptError>)
    ensures
        match spec_sponge_step((cursor.0, cursor.1, cursor.2, cursor.3@), call, index as nat) {
            Err(error) => result == Err::<(SpongeRow, (Option<u32>, u32, u32, [M31Word; 16])), _>(error),
            Ok((row, next)) => result matches Ok((r, n)) && r@ == row && (n.0, n.1, n.2, n.3@) == next,
        },
{
    let (current, next_hash_id, expected_step, previous) = cursor;
    if index > u32::MAX as usize {
        return Err(TranscriptError::TraceIndexOutOfRange { index });
    }
    let expected_call_id = index as u32;
    if call.id.call_id != expected_call_id {
        return Err(
            TranscriptError::TraceCallIdMismatch {
                index,
                expected: expected_call_id,
                actual: call.id.call_id,
            },
        );
    }
    let opens = match current {
        Some(hash_id) => hash_id != call.id.hash_id,
        None => true,
    };
    let mut next_hash_id = next_hash_id;
    let mut expected_step = expected_step;
    let mut previous = previous;
    if opens {
        if call.id.hash_id != next_hash_id {
            return Err(
                TranscriptError::TraceHashIdMismatch {
                    call_id: call.id.call_id,
                    expected: next_hash_id,
                    actual: call.id.hash_id,
                },
            );
        }
        if next_hash_id == u32::MAX {
            return Err(TranscriptError::HashIdOverflow);
        }
        next_hash_id = next_hash_id + 1;
        expected_step = 0;
        previous = [M31Word::zero(); 16];
        proof {
            assert(previous@ =~= zero_state());
        }
    }
    if call.id.step != expected_step {
        return Err(
            TranscriptError::TraceStepMismatch {
                call_id: call.id.call_id,
                expected: expected_step,
                actual: call.id.step,
            },
        );
    }
    let mut word: usize = RATE;
    while word < STATE_WIDTH
        invariant
            RATE <= word <= STATE_WIDTH,
            forall|j: int| RATE <= j < word ==> call.input@[j] == previous@[j],
        decreases STATE_WIDTH - word,
    {
        if call.input[word] != previous[word] {
            proof {
                lemma_capacity_mismatch_skip(call.input@, previous@, 8, word as nat);
                assert(capacity_mismatch(call.input@, previous@, 8) == Some(word as nat));
            }
            return Err(
                TranscriptError::TraceCapacityMismatch {
                    call_id: call.id.call_id,
                    word,
                    expected: previous[word],
                    actual: call.input[word],
                },
            );
        }
        word = word + 1;
    }
    proof {
        lemma_capacity_mismatch_skip(call.input@, previous@, 8, 16);
    }
    if expected_step == u32::MAX {
        return Err(TranscriptError::HashStepOverflow);
    }
    let mut chunk = [M31Word::zero(); 8];
    let mut w: usize = 0;
    while w < RATE
        invariant
            w <= RATE,
            chunk@.len() == 8,
            forall|j: int| 0 <= j < w ==> #[trigger] chunk@[j]@ == spec_sub_m31(
                call.input@[j]@,
                previous@[j]@,
            ),
        decreases RATE - w,
    {
        chunk[w] = subtract_m31_words(call.input[w], previous[w]);
        w = w + 1;
    }
    proof {
        assert(word_values(chunk@) =~= spec_chunk(call.input@, previous@));
    }
    let row = SpongeRow { id: call.id, previous, chunk, output: call.output };
    Ok((row, (Some(call.id.hash_id), next_hash_id, expected_step + 1, call.output)))
}

impl TranscriptTrace {
    /// Reconstructs the absorbed rate chunks and rejects malformed session
    /// coordinates and unanchored proof-of-work checks.
    pub fn sponge_rows(&self) -> (result: Result<Vec<SpongeRow>, TranscriptError>)
        ensures
            match spec_sponge_rows(*self) {
                Ok(rows) => result matches Ok(v) && v@.map_values(|r: SpongeRow| r@) == rows,
                Err(error) => result == Err::<Vec<SpongeRow>, _>(error),
            },
    {
        let ghost calls = self.poseidon_calls@;
        let mut rows: Vec<SpongeRow> = Vec::new();
        let mut cursor: (Option<u32>, u32, u32, [M31Word; 16]) = (
            None,
            0,
            0,
            [M31Word::zero(); 16],
        );
        proof {
            assert(cursor.3@ =~= zero_state());
            assert(rows@.map_values(|r: SpongeRow| r@) =~= Seq::<SpongeRowView>::empty());
        }
        let n = self.poseidon_calls.len();
        let mut i: usize = 0;
        while i < n
            invariant
                i <= n,
                n == calls.len(),
                calls == self.poseidon_calls@,
                spec_sponge_scan(calls, i as nat) == Ok::<_, TranscriptError>(
                    (
                        rows@.map_values(|r: SpongeRow| r@),
                        (cursor.0, cursor.1, cursor.2, cursor.3@),
                    ),
                ),
            decreases n - i,
        {
            match sponge_step(cursor, self.poseidon_calls[i], i) {
                Ok((row, next)) => {
                    let ghost before = rows@;
                    rows.push(row);
                    proof {
                        assert(rows@.map_values(|r: SpongeRow| r@) =~= before.map_values(
                            |r: SpongeRow| r@,
                        ).push(row@));
                    }
                    cursor = next;
                },
                Err(error) => {
                    proof {
                        lemma_sponge_scan_error_sticks(calls, (i + 1) as nat, n as nat);
                    }
                    return Err(error);
                },
            }
            i = i + 1;
        }
        let ghost checks = self.pow_checks@;
        let m = self.pow_checks.len();
        let mut k: usize = 0;
        while k < m
            invariant
                k <= m,
                m == checks.len(),
                checks == self.pow_checks@,
                calls == self.poseidon_calls@,
                pow_check_error(calls, checks, k as nat) is None,
                spec_sponge_scan(calls, calls.len()) matches Ok((r, _)) && r == rows@.map_values(
                    |r: SpongeRow| r@,
                ),
            decreases m - k,
        {
            let check = self.pow_checks[k];
            let index = check.call_id as usize;
            if index >= self.poseidon_calls.len() {
                proof {
                    lemma_pow_check_error_sticks(calls, checks, (k + 1) as nat, m as nat);
                }
                return Err(TranscriptError::PowDrawCallMissing { call_id: check.call_id });
            }
            let word = self.poseidon_calls[index].output[0];
            if word != check.word {
                proof {
                    lemma_pow_check_error_sticks(calls, checks, (k + 1) as nat, m as nat);
                }
                return Err(
                    TranscriptError::PowDrawWordMismatch {
                        call_id: check.call_id,
                        expected: word,
                        actual: check.word,
                    },
                );
            }
            k = k + 1;
        }
        Ok(rows)
    }
}

/// Every word a call carries is a canonical field element.
pub open spec fn call_canonical(call: PoseidonCall) -> bool {
    &&& forall|w: int| 0 <= w < 16 ==> (#[trigger] call.input@[w])@ < M31_MODULUS
    &&& forall|w: int| 0 <= w < 16 ==> (#[trigger] call.output@[w])@ < M31_MODULUS
}

/// Row `i` is call `i` split into its chained state and absorbed chunk.
pub open spec fn row_matches_call(rows: Seq<SpongeRowView>, calls: Seq<PoseidonCall>, i: int) -> bool {
    let (id, previous, chunk, output) = rows[i];
    let call = calls[i];
    &&& id == call.id
    &&& call.id.call_id == i
    &&& output == word_values(call.output@)
    &&& previous.len() == 16
    &&& chunk.len() == 8
    &&& forall|w: int| 0 <= w < 8 ==> spec_add_m31(#[trigger] previous[w], chunk[w]) == call.input@[w]@
    &&& forall|w: int| 8 <= w < 16 ==> (#[trigger] call.input@[w])@ == previous[w]
    &&& call.id.step == 0 ==> previous == word_values(zero_state())
    &&& call.id.step != 0 ==> i > 0 && calls[i - 1].id.hash_id == call.id.hash_id && calls[i
        - 1].id.step + 1 == call.id.step && previous == word_values(calls[i - 1].output@)
}

proof fn lemma_add_sub_m31(input: u32, previous: u32)
    requires
        input < M31_MODULUS,
        previous < M31_MODULUS,
    ensures
        spec_add_m31(previous, spec_sub_m31(input, previous)) == input,
{
    let p = M31_MODULUS as int;
    if input >= previous {
        assert((input + p - previous) % p == input - previous) by {
            vstd::arithmetic::div_mod::lemma_mod_sub_multiples_vanish((input - previous) as int, p);
        }
    } else {
        assert((input + p - previous) % p == input + p - previous);
    }
}

proof fn lemma_sponge_scan_rows(calls: Seq<PoseidonCall>, n: nat)
    requires
        n <= calls.len(),
        spec_sponge_scan(calls, n) is Ok,
        forall|i: int| 0 <= i < calls.len() ==> call_canonical(#[trigger] calls[i]),
    ensures
        ({
            let (rows, cursor) = spec_sponge_scan(calls, n)->Ok_0;
            &&& rows.len() == n
            &&& forall|i: int| 0 <= i < n ==> row_matches_call(rows, calls, i)
            &&& n == 0 ==> cursor.0 is None && cursor.1 == 0
            &&& n > 0 ==> cursor.0 == Some(calls[n - 1].id.hash_id) && cursor.2 == calls[n
                - 1].id.step + 1 && cursor.3 == calls[n - 1].output@ && cursor.1 > calls[n
                - 1].id.hash_id
        }),
    decreases n,
{
    if n > 0 {
        let m = (n - 1) as nat;
        lemma_sponge_scan_rows(calls, m);
        let (rows0, cursor) = spec_sponge_scan(calls, m)->Ok_0;
        let (rows, next) = spec_sponge_scan(calls, n)->Ok_0;
        let call = calls[m as int];
        let (row, _) = spec_sponge_step(cursor, call, m)->Ok_0;
        assert(rows == rows0.push(row));
        let opens = cursor.0 != Some(call.id.hash_id);
        let previous2 = if opens { zero_state() } else { cursor.3 };
        assert(call_canonical(call));
        if !opens {
            assert(m > 0);
            assert(call_canonical(calls[m - 1]));
        }
        M31Word::lemma_spec_zero();
        assert forall|w: int| 0 <= w < 16 implies (#[trigger] previous2[w])@ < M31_MODULUS by {
            if !opens {
                assert(previous2[w] == calls[m - 1].output@[w]);
            }
        }
        lemma_capacity_mismatch_none(call.input@, previous2);
        assert forall|w: int| 0 <= w < 8 implies spec_add_m31(
            #[trigger] word_values(previous2)[w],
            spec_chunk(call.input@, previous2)[w],
        ) == call.input@[w]@ by {
            lemma_add_sub_m31(call.input@[w]@, previous2[w]@);
        }
        assert forall|i: int| 0 <= i < n implies row_matches_call(rows, calls, i) by {
            if i < m {
                assert(rows[i] == rows0[i]);
                assert(row_matches_call(rows0, calls, i));
            } else {
                assert(rows[i] == row);
            }
        }
    }
}

proof fn lemma_capacity_mismatch_none(input: Seq<M31Word>, previous: Seq<M31Word>)
    requires
        capacity_mismatch(input, previous, 8) is None,
    ensures
        forall|w: int| 8 <= w < 16 ==> input[w] == previous[w],
{
    assert forall|w: int| 8 <= w < 16 implies input[w] == previous[w] by {
        lemma_capacity_mismatch_prefix(input, previous, 8, w as nat);
    }
}

proof fn lemma_capacity_mismatch_prefix(input: Seq<M31Word>, previous: Seq<M31Word>, start: nat, w: nat)
    requires
        start <= w < 16,
        capacity_mismatch(input, previous, start) is None,
    ensures
        input[w as int] == previous[w as int],
    decreases w - start,
{
    if start < w {
        lemma_capacity_mismatch_prefix(input, previous, start + 1, w);
    }
}

/// Every accepted sponge row is its permutation call split apart: call ids
/// are positions, the capacity words are carried over unchanged, adding the
/// absorbed chunk to the previous state gives the permutation input, and the
/// previous state is zero at a session's first step and the prior call's
/// output, in the same session, at every later one.
pub proof fn lemma_sponge_rows_match_calls(trace: TranscriptTrace)
    requires
        spec_sponge_rows(trace) is Ok,
        forall|i: int|
            0 <= i < trace.poseidon_calls@.len() ==> call_canonical(#[trigger] trace.poseidon_calls@[i]),
    ensures
        spec_sponge_rows(trace)->Ok_0.len() == trace.poseidon_calls@.len(),
        forall|i: int|
            0 <= i < trace.poseidon_calls@.len() ==> row_matches_call(
                spec_sponge_rows(trace)->Ok_0,
                trace.poseidon_calls@,
                i,
            ),
{
    lemma_sponge_scan_rows(trace.poseidon_calls@, trace.poseidon_calls@.len());
}

/// Native proof-of-work checking for the outer verifier.
#[derive(Clone, Copy, Debug, Default)]
pub struct NativeTranscriptBackend;

/// Whether a transcript word carries `bits` trailing zero bits.
pub open spec fn pow_satisfied(word: u32, bits: u32) -> bool {
    u32_trailing_zeros(word) >= bits
}

impl NativeTranscriptBackend {
    /// Accepts a nonce exactly when its transcript-derived word has at least
    /// the required number of trailing zero bits.
    pub fn verify_pow(&mut self, check: PowCheck) -> (result: Result<(), TranscriptError>)
        ensures
            *final(self) == *old(self),
            result == if pow_satisfied(check.word@, check.bits) {
                Ok::<(), TranscriptError>(())
            } else {
                Err(TranscriptError::InvalidProofOfWork { nonce: check.nonce, bits: check.bits, word: check.word })
            },
    {
        if check.word.as_u32().trailing_zeros() >= check.bits {
            Ok(())
        } else {
            Err(TranscriptError::InvalidProofOfWork { nonce: check.nonce, bits: check.bits, word: check.word })
        }
    }
}

} // verus!
