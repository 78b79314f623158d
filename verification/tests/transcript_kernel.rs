use recursion::m31::{M31Word, M31_MODULUS};
use recursion::transcript_kernel::{TranscriptBackend, TranscriptKernel, DRAW_TAG};
use recursion::transcript_trace::{PermutationId, PoseidonCall, PowCheck, TranscriptError, TranscriptTrace};

fn word(value: u32) -> M31Word {
    M31Word::try_from_u32(value).unwrap()
}

/// A stand-in permutation that logs every call it performs: each output
/// word mixes two input words and the word's position.
#[derive(Default)]
struct LoggingBackend {
    calls: Vec<PoseidonCall>,
    checks: Vec<PowCheck>,
    refuse_call: Option<u32>,
}

impl TranscriptBackend for LoggingBackend {
    fn permute(&mut self, id: PermutationId, input: [M31Word; 16]) -> Result<[M31Word; 16], TranscriptError> {
        if self.refuse_call == Some(id.call_id) {
            return Err(TranscriptError::RecordedPoseidonOutputMismatch { call_id: id.call_id });
        }
        let output: [M31Word; 16] = core::array::from_fn(|w| {
            let mixed = (input[w].as_u32() as u64 * 3 + input[(w + 5) % 16].as_u32() as u64 + w as u64 + 1)
                % M31_MODULUS as u64;
            word(mixed as u32)
        });
        self.calls.push(PoseidonCall { id, input, output });
        Ok(output)
    }

    fn verify_pow(&mut self, check: PowCheck) -> Result<(), TranscriptError> {
        self.checks.push(check);
        if check.word.as_u32().trailing_zeros() >= check.bits {
            Ok(())
        } else {
            Err(TranscriptError::InvalidProofOfWork {
                nonce: check.nonce,
                bits: check.bits,
                word: check.word,
            })
        }
    }
}

fn values(words: &[M31Word]) -> Vec<u32> {
    words.iter().map(|w| w.as_u32()).collect()
}

fn trace_of(backend: &LoggingBackend) -> TranscriptTrace {
    TranscriptTrace {
        hash_frames: Vec::new(),
        poseidon_calls: backend.calls.clone(),
        pow_checks: backend.checks.clone(),
    }
}

#[test]
fn absorbing_hashes_the_digest_then_the_words_then_one() {
    let mut kernel = TranscriptKernel::new(LoggingBackend::default());
    assert_eq!(values(&kernel.digest()), vec![0; 8]);
    let words: Vec<M31Word> = (1..=4).map(word).collect();
    kernel.absorb_m31_words(&words).unwrap();
    let backend = kernel.backend();
    // Eight digest words, four words and the terminator: two permutations.
    assert_eq!(backend.calls.len(), 2);
    let first = backend.calls[0];
    assert_eq!((first.id.call_id, first.id.hash_id, first.id.step), (0, 0, 0));
    assert_eq!(values(&first.input), vec![0; 16]);
    let second = backend.calls[1];
    assert_eq!((second.id.call_id, second.id.hash_id, second.id.step), (1, 0, 1));
    let mut expected: Vec<u32> = values(&first.output);
    for (w, value) in [1, 2, 3, 4, 1].iter().enumerate() {
        expected[w] = (expected[w] + value) % M31_MODULUS;
    }
    assert_eq!(values(&second.input), expected);
    assert_eq!(values(&kernel.digest()), values(&second.output[..8]));
    assert_eq!(kernel.draw_count(), 0);
}

#[test]
fn machine_words_are_split_into_sixteen_bit_limbs() {
    let mut split = TranscriptKernel::new(LoggingBackend::default());
    split.absorb_u32s(&[0x1234_5678, 0xffff_0001]).unwrap();
    let mut direct = TranscriptKernel::new(LoggingBackend::default());
    direct
        .absorb_m31_words(&[word(0x5678), word(0x1234), word(0x0001), word(0xffff)])
        .unwrap();
    assert_eq!(values(&split.digest()), values(&direct.digest()));
    let mut wide = TranscriptKernel::new(LoggingBackend::default());
    wide.absorb_u64(0xffff_0001_1234_5678).unwrap();
    assert_eq!(values(&wide.digest()), values(&split.digest()));
}

#[test]
fn draws_count_up_and_keep_the_digest() {
    let mut kernel = TranscriptKernel::new(LoggingBackend::default());
    kernel.absorb_digest([word(9); 8]).unwrap();
    let digest = kernel.digest();
    let block = kernel.draw_block().unwrap();
    assert_eq!(kernel.draw_count(), 1);
    assert_eq!(values(&kernel.digest()), values(&digest));
    let draw = *kernel.backend().calls.last().unwrap();
    assert_eq!(values(&block), values(&draw.output[..8]));
    // The draw stream is the digest, the draw counter and the draw tag.
    let first_draw_call = kernel.backend().calls[kernel.backend().calls.len() - 2];
    assert_eq!(values(&first_draw_call.input[..8]), values(&digest));
    assert_eq!(draw.input[0].as_u32(), (first_draw_call.output[0].as_u32() + 0) % M31_MODULUS);
    assert_eq!(draw.input[1].as_u32(), (first_draw_call.output[1].as_u32() + DRAW_TAG) % M31_MODULUS);
    assert_eq!(draw.input[2].as_u32(), (first_draw_call.output[2].as_u32() + 1) % M31_MODULUS);
    let second = kernel.draw_block().unwrap();
    assert_ne!(values(&second), values(&block));
    assert_eq!(kernel.draw_count(), 2);
    let field = kernel.draw_secure_field().unwrap();
    assert_eq!(values(&field), values(&kernel.backend().calls.last().unwrap().output[..4]));
}

#[test]
fn queries_are_masked_draw_words() {
    let mut kernel = TranscriptKernel::new(LoggingBackend::default());
    let queries = kernel.draw_queries(10, 5).unwrap();
    assert_eq!(queries.len(), 10);
    assert_eq!(kernel.draw_count(), 2);
    let calls = &kernel.backend().calls;
    // Each draw is a two-permutation session; queries come from the last
    // output of each.
    let first = calls[1].output;
    let second = calls[3].output;
    for j in 0..8 {
        assert_eq!(queries[j], first[j].as_u32() & 31);
    }
    assert_eq!(queries[8], second[0].as_u32() & 31);
    assert_eq!(queries[9], second[1].as_u32() & 31);
    assert_eq!(
        kernel.draw_queries(1, 0),
        Err(TranscriptError::QueryLogSizeOutOfRange { log_domain_size: 0 })
    );
    assert_eq!(
        kernel.draw_queries(1, 31),
        Err(TranscriptError::QueryLogSizeOutOfRange { log_domain_size: 31 })
    );
    assert_eq!(kernel.draw_queries(0, 4), Ok(vec![]));
}

#[test]
fn proof_of_work_absorbs_the_nonce_once() {
    let mut kernel = TranscriptKernel::new(LoggingBackend::default());
    kernel.absorb_u32s(&[7]).unwrap();
    let mut plain = TranscriptKernel::new(LoggingBackend::default());
    plain.absorb_u32s(&[7]).unwrap();
    plain.absorb_u64(42).unwrap();
    assert_eq!(kernel.verify_and_absorb_pow(42, 0), Ok(()));
    assert_eq!(values(&kernel.digest()), values(&plain.digest()));
    assert_eq!(kernel.draw_count(), 0);
    let backend = kernel.backend();
    let check = backend.checks[0];
    assert_eq!(check.call_id as usize, backend.calls.len() - 1);
    assert_eq!(check.word, backend.calls.last().unwrap().output[0]);
    assert_eq!((check.nonce, check.bits), (42, 0));
    assert_eq!(
        kernel.verify_and_absorb_pow(42, 32),
        Err(TranscriptError::PowBitsOutOfRange { bits: 32 })
    );
}

#[test]
fn refused_permutations_and_checks_are_reported() {
    let backend = LoggingBackend { refuse_call: Some(1), ..Default::default() };
    let mut kernel = TranscriptKernel::new(backend);
    assert_eq!(
        kernel.absorb_m31_words(&[word(1)]),
        Err(TranscriptError::RecordedPoseidonOutputMismatch { call_id: 1 })
    );
    assert_eq!(values(&kernel.digest()), vec![0; 8]);
    let mut kernel = TranscriptKernel::new(LoggingBackend::default());
    // With a stand-in permutation no first draw word has 31 trailing zeros.
    let result = kernel.verify_and_absorb_pow(5, 31);
    assert!(matches!(result, Err(TranscriptError::InvalidProofOfWork { nonce: 5, bits: 31, .. })));
}

#[test]
fn sponge_rows_recover_every_absorbed_chunk() {
    let mut kernel = TranscriptKernel::new(LoggingBackend::default());
    let words: Vec<M31Word> = (10..30).map(word).collect();
    kernel.absorb_m31_words(&words).unwrap();
    kernel.draw_block().unwrap();
    kernel.verify_and_absorb_pow(3, 0).unwrap();
    let backend = kernel.into_backend();
    let rows = trace_of(&backend).sponge_rows().unwrap();
    assert_eq!(rows.len(), backend.calls.len());
    // The first session hashes the zero digest, twenty words and the
    // terminator: chunks of the zero digest, words 10..18, 18..26, then
    // 26..30 followed by one and zero padding.
    assert_eq!(values(&rows[0].chunk), vec![0; 8]);
    assert_eq!(values(&rows[1].chunk), (10..18).collect::<Vec<u32>>());
    assert_eq!(values(&rows[2].chunk), (18..26).collect::<Vec<u32>>());
    assert_eq!(values(&rows[3].chunk), vec![26, 27, 28, 29, 1, 0, 0, 0]);
    assert_eq!((rows[4].id.hash_id, rows[4].id.step), (1, 0));
    for (row, call) in rows.iter().zip(&backend.calls) {
        assert_eq!(row.id, call.id);
        assert_eq!(row.output, call.output);
    }
}

#[test]
fn secure_fields_are_absorbed_as_their_four_words() {
    let mut fields = TranscriptKernel::new(LoggingBackend::default());
    fields
        .absorb_secure_fields(&[[word(1), word(2), word(3), word(4)], [word(5), word(6), word(7), word(8)]])
        .unwrap();
    let mut plain = TranscriptKernel::new(LoggingBackend::default());
    plain.absorb_m31_words(&(1..=8).map(word).collect::<Vec<M31Word>>()).unwrap();
    assert_eq!(values(&fields.digest()), values(&plain.digest()));
    assert_eq!(fields.backend().calls.len(), 3);
}

#[test]
fn split_words_do_not_alias_their_limbs() {
    // 0x0001_0000 splits into limbs (0, 1); it must not hash like the
    // single canonical word 0x10000 nor like the word 1.
    let mut split = TranscriptKernel::new(LoggingBackend::default());
    split.absorb_u32s(&[0x0001_0000]).unwrap();
    let mut limbs = TranscriptKernel::new(LoggingBackend::default());
    limbs.absorb_m31_words(&[word(0), word(1)]).unwrap();
    assert_eq!(values(&split.digest()), values(&limbs.digest()));
    let mut one = TranscriptKernel::new(LoggingBackend::default());
    one.absorb_u32s(&[1]).unwrap();
    assert_ne!(values(&split.digest()), values(&one.digest()));
}
