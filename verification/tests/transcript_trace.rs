use recursion::m31::{M31Word, M31_MODULUS};
use recursion::transcript_trace::{
    add_m31_words, subtract_m31_words, NativeTranscriptBackend, PermutationId, PoseidonCall,
    PowCheck, TranscriptError, TranscriptTrace,
};

fn word(value: u32) -> M31Word {
    M31Word::try_from_u32(value).unwrap()
}

fn state(values: impl Fn(usize) -> u32) -> [M31Word; 16] {
    core::array::from_fn(|index| word(values(index)))
}

fn call(call_id: u32, hash_id: u32, step: u32, input: [M31Word; 16], output: [M31Word; 16]) -> PoseidonCall {
    PoseidonCall {
        id: PermutationId {
            call_id,
            hash_id,
            step,
        },
        input,
        output,
    }
}

/// Two chained permutations of one session, then the first of a second.
fn fixture() -> TranscriptTrace {
    let first_output = state(|index| 100 + index as u32);
    let second_input = state(|index| if index < 8 { 105 + index as u32 } else { 100 + index as u32 });
    let second_output = state(|index| 200 + index as u32);
    TranscriptTrace {
        hash_frames: Vec::new(),
        poseidon_calls: vec![
            call(0, 0, 0, state(|index| if index < 8 { index as u32 + 1 } else { 0 }), first_output),
            call(1, 0, 1, second_input, second_output),
            call(2, 1, 0, state(|index| if index < 8 { 3 } else { 0 }), state(|_| 7)),
        ],
        pow_checks: vec![PowCheck {
            call_id: 2,
            nonce: 9,
            bits: 1,
            word: word(7),
        }],
    }
}

#[test]
fn chained_session_yields_absorbed_chunks() {
    let rows = fixture().sponge_rows().unwrap();
    assert_eq!(rows.len(), 3);
    assert_eq!(rows[0].previous, [M31Word::zero(); 16]);
    assert_eq!(rows[0].chunk.map(|w| w.as_u32()), [1, 2, 3, 4, 5, 6, 7, 8]);
    assert_eq!(rows[1].previous.map(|w| w.as_u32())[0], 100);
    assert_eq!(rows[1].chunk.map(|w| w.as_u32()), [5; 8]);
    assert_eq!(rows[1].output.map(|w| w.as_u32())[15], 215);
    assert_eq!(rows[2].previous, [M31Word::zero(); 16]);
    assert_eq!(rows[2].chunk.map(|w| w.as_u32()), [3; 8]);
    assert_eq!(
        (rows[2].id.call_id, rows[2].id.hash_id, rows[2].id.step),
        (2, 1, 0)
    );
}

#[test]
fn chunk_wraps_modulo_the_field() {
    let mut trace = fixture();
    trace.poseidon_calls[1].input[0] = word(3);
    let rows = trace.sponge_rows().unwrap();
    assert_eq!(rows[1].chunk[0].as_u32(), 3 + M31_MODULUS - 100);
    assert_eq!(add_m31_words(rows[1].previous[0], rows[1].chunk[0]).as_u32(), 3);
}

#[test]
fn field_arithmetic_reduces_modulo_the_prime() {
    let top = word(M31_MODULUS - 1);
    assert_eq!(add_m31_words(top, word(2)).as_u32(), 1);
    assert_eq!(subtract_m31_words(word(1), word(2)).as_u32(), M31_MODULUS - 1);
    assert_eq!(subtract_m31_words(word(9), word(4)).as_u32(), 5);
}

#[test]
fn call_id_must_be_its_position() {
    let mut trace = fixture();
    trace.poseidon_calls[1].id.call_id = 5;
    assert_eq!(
        trace.sponge_rows().unwrap_err(),
        TranscriptError::TraceCallIdMismatch {
            index: 1,
            expected: 1,
            actual: 5,
        }
    );
}

#[test]
fn skipped_hash_id_is_rejected() {
    let mut trace = fixture();
    trace.poseidon_calls[2].id.hash_id = 2;
    assert_eq!(
        trace.sponge_rows().unwrap_err(),
        TranscriptError::TraceHashIdMismatch {
            call_id: 2,
            expected: 1,
            actual: 2,
        }
    );
}

#[test]
fn reordered_step_is_rejected() {
    let mut trace = fixture();
    trace.poseidon_calls[1].id.step = 3;
    assert_eq!(
        trace.sponge_rows().unwrap_err(),
        TranscriptError::TraceStepMismatch {
            call_id: 1,
            expected: 1,
            actual: 3,
        }
    );
}

#[test]
fn broken_capacity_chaining_is_rejected() {
    let mut trace = fixture();
    trace.poseidon_calls[1].input[8] = word(0);
    assert_eq!(
        trace.sponge_rows().unwrap_err(),
        TranscriptError::TraceCapacityMismatch {
            call_id: 1,
            word: 8,
            expected: word(108),
            actual: word(0),
        }
    );
}

#[test]
fn pow_check_against_missing_call_is_rejected() {
    let mut trace = fixture();
    trace.pow_checks[0].call_id = 3;
    assert_eq!(
        trace.sponge_rows().unwrap_err(),
        TranscriptError::PowDrawCallMissing { call_id: 3 }
    );
}

#[test]
fn pow_check_must_read_the_draw_word() {
    let mut trace = fixture();
    trace.pow_checks[0].word = word(8);
    assert_eq!(
        trace.sponge_rows().unwrap_err(),
        TranscriptError::PowDrawWordMismatch {
            call_id: 2,
            expected: word(7),
            actual: word(8),
        }
    );
}

#[test]
fn native_pow_check_counts_trailing_zero_bits() {
    let mut backend = NativeTranscriptBackend;
    let word = M31Word::try_from_u32(0b1000).unwrap();
    let check = |bits: u32| PowCheck { call_id: 4, nonce: 77, bits, word };
    assert_eq!(backend.verify_pow(check(0)), Ok(()));
    assert_eq!(backend.verify_pow(check(3)), Ok(()));
    assert_eq!(
        backend.verify_pow(check(4)),
        Err(TranscriptError::InvalidProofOfWork { nonce: 77, bits: 4, word })
    );
    let zero = PowCheck { call_id: 0, nonce: 1, bits: 32, word: M31Word::zero() };
    assert_eq!(backend.verify_pow(zero), Ok(()));
}
