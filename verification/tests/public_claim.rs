use recursion::m31::{M31Word, M31_MODULUS};
use recursion::public_claim::canonical_layout::{
    input_slot_present, input_slot_value_start, output_slot_address_start,
    output_slot_clock_start, output_slot_present, output_slot_value_start,
    output_word_count_start, output_words_tag, output_slots_start, CLOCK_START, FINAL_PC_START,
    INITIAL_PC_START, INITIAL_REGISTERS_START, INPUT_LENGTH_START, INPUT_WORDS_TAG,
    INPUT_WORD_COUNT_START, IO_HEADER_TAG, PROGRAM_ROOT_PRESENT, PROGRAM_ROOT_START,
    PROGRAM_ROOT_TAG, REGISTER_LAST_CLOCKS_START,
};
use recursion::public_claim::{
    canonical_public_input_words, canonical_public_input_words_from_claim,
    canonical_public_output_words, canonical_public_output_words_from_claim,
    canonical_vm_public_claim_word_kinds, canonical_vm_public_claim_words,
    checked_claim_word_count, validate_claim_word_count, validate_vector_capacity, ClaimField,
    ClaimTag, IoEntries, OutputWord, PublicData, VmPublicClaimError, VmPublicClaimShape,
    VmPublicClaimWordKind, FIXED_CLAIM_WORDS,
};

fn shape() -> VmPublicClaimShape {
    VmPublicClaimShape::new(3, 3).expect("fixture claim shape is canonical")
}

fn public_data() -> PublicData {
    let mut initial_regs = [0_u32; 32];
    initial_regs[1] = 0x8000_0001;
    let mut final_regs = initial_regs;
    final_regs[2] = 9;
    let mut reg_last_clock = [0_u32; 32];
    reg_last_clock[2] = 7;
    PublicData {
        initial_pc: 0x1000,
        final_pc: 0x1004,
        clock: 8,
        initial_regs,
        final_regs,
        reg_last_clock,
        program_root: Some([1, 2, 3, 4, 5, 6, 7, 8]),
        initial_rw_root: Some([11, 12, 13, 14, 15, 16, 17, 18]),
        final_rw_root: Some([21, 22, 23, 24, 25, 26, 27, 28]),
        io_entries: IoEntries {
            input_start: 0x20_0000,
            input_len: 5,
            input_words: vec![0x4433_2211, 0x55],
            output_len: 4,
            output_len_addr: 0x10_0004,
            output_data_addr: 0x10_0008,
            output_words: vec![
                OutputWord {
                    addr: 0x10_0004,
                    value: 4,
                    clock: 6,
                },
                OutputWord {
                    addr: 0x10_0008,
                    value: 0x8877_6655,
                    clock: 7,
                },
            ],
        },
    }
}

fn values(words: &[M31Word]) -> Vec<u32> {
    words.iter().map(|word| word.as_u32()).collect()
}

fn claim(data: &PublicData) -> Vec<u32> {
    values(&canonical_vm_public_claim_words(data, shape()).expect("fixture claim encodes"))
}

#[test]
fn shape_word_count_covers_fixed_words_and_slots() {
    assert_eq!(shape().claim_word_count(), 259 + 3 * 3 + 7 * 3);
    assert_eq!(checked_claim_word_count(3, 3), Ok(289));
    assert_eq!(checked_claim_word_count(0, 0), Ok(FIXED_CLAIM_WORDS));
    assert_eq!(shape().max_input_words(), 3);
    assert_eq!(shape().max_output_words(), 3);
}

#[test]
fn shape_rejects_non_canonical_capacities() {
    assert_eq!(
        VmPublicClaimShape::new(M31_MODULUS, 0),
        Err(VmPublicClaimError::ShapeCapacityOutOfRange {
            field: ClaimField::InputWords,
            capacity: M31_MODULUS,
        })
    );
    assert_eq!(
        VmPublicClaimShape::new(0, u32::MAX),
        Err(VmPublicClaimError::ShapeCapacityOutOfRange {
            field: ClaimField::OutputWords,
            capacity: u32::MAX,
        })
    );
}

#[test]
fn shape_rejects_word_counts_beyond_the_field() {
    let max = M31_MODULUS - 1;
    let word_count = 259 + 3 * max as usize;
    assert_eq!(
        VmPublicClaimShape::new(max, 0),
        Err(VmPublicClaimError::ShapeWordCountOutOfRange { word_count })
    );
}

#[test]
fn claim_words_have_the_shape_length_and_layout() {
    let words = claim(&public_data());
    assert_eq!(words.len(), 289);
    assert_eq!(words[0], 1);
    assert_eq!(words[1], 14);
    assert_eq!(&words[2..6], &[3, 0, 3, 0]);
    assert_eq!(words[6], 2);
    assert_eq!(&words[INITIAL_PC_START..INITIAL_PC_START + 2], &[0x1000, 0]);
    assert_eq!(&words[FINAL_PC_START..FINAL_PC_START + 2], &[0x1004, 0]);
    assert_eq!(&words[CLOCK_START..CLOCK_START + 2], &[8, 0]);
    assert_eq!(
        &words[INITIAL_REGISTERS_START + 2..INITIAL_REGISTERS_START + 4],
        &[0x0001, 0x8000]
    );
    assert_eq!(
        &words[REGISTER_LAST_CLOCKS_START + 4..REGISTER_LAST_CLOCKS_START + 6],
        &[7, 0]
    );
    assert_eq!(words[PROGRAM_ROOT_TAG], 8);
    assert_eq!(words[PROGRAM_ROOT_PRESENT], 1);
    assert_eq!(
        &words[PROGRAM_ROOT_START..PROGRAM_ROOT_START + 8],
        &[1, 2, 3, 4, 5, 6, 7, 8]
    );
    assert_eq!(words[IO_HEADER_TAG], 11);
    assert_eq!(&words[INPUT_LENGTH_START..INPUT_LENGTH_START + 2], &[5, 0]);
    assert_eq!(words[INPUT_WORDS_TAG], 12);
    assert_eq!(&words[INPUT_WORD_COUNT_START..INPUT_WORD_COUNT_START + 2], &[2, 0]);
    assert_eq!(words[input_slot_present(0)], 1);
    assert_eq!(
        &words[input_slot_value_start(0)..input_slot_value_start(0) + 2],
        &[0x2211, 0x4433]
    );
    assert_eq!(&words[input_slot_present(2)..input_slot_present(2) + 3], &[0, 0, 0]);
    let shape = shape();
    assert_eq!(output_words_tag(shape), 265);
    assert_eq!(words[output_words_tag(shape)], 13);
    assert_eq!(output_word_count_start(shape), 266);
    assert_eq!(output_slots_start(shape), 268);
    assert_eq!(&words[output_word_count_start(shape)..output_slots_start(shape)], &[2, 0]);
    assert_eq!(words[output_slot_present(shape, 1)], 1);
    assert_eq!(
        &words[output_slot_address_start(shape, 1)..output_slot_address_start(shape, 1) + 2],
        &[0x0008, 0x0010]
    );
    assert_eq!(
        &words[output_slot_value_start(shape, 1)..output_slot_value_start(shape, 1) + 2],
        &[0x6655, 0x8877]
    );
    assert_eq!(
        &words[output_slot_clock_start(shape, 1)..output_slot_clock_start(shape, 1) + 2],
        &[7, 0]
    );
    assert_eq!(&words[output_slot_present(shape, 2)..289], &[0, 0, 0, 0, 0, 0, 0]);
}

#[test]
fn claim_words_bind_register_last_clocks() {
    let mut second = public_data();
    second.reg_last_clock[2] += 1;
    assert_ne!(claim(&public_data()), claim(&second));
}

#[test]
fn claim_words_bind_input_vector_boundaries() {
    let mut second = public_data();
    second.io_entries.input_words.push(0);
    assert_ne!(claim(&public_data()), claim(&second));
}

#[test]
fn claim_words_bind_the_last_output_clock() {
    let mut second = public_data();
    second.io_entries.output_words.last_mut().unwrap().clock += 1;
    assert_ne!(claim(&public_data()), claim(&second));
}

#[test]
fn claim_words_distinguish_absent_and_zero_roots() {
    let mut absent = public_data();
    absent.program_root = None;
    let mut zero = public_data();
    zero.program_root = Some([0; 8]);
    let absent_words = claim(&absent);
    let zero_words = claim(&zero);
    assert_ne!(absent_words, zero_words);
    assert_eq!(absent_words[PROGRAM_ROOT_PRESENT], 0);
    assert_eq!(zero_words[PROGRAM_ROOT_PRESENT], 1);
}

#[test]
fn vm_public_claim_non_canonical_root_limb_is_rejected() {
    let mut value = public_data();
    value.program_root.as_mut().unwrap()[7] = M31_MODULUS;
    assert_eq!(
        canonical_vm_public_claim_words(&value, shape()),
        Err(VmPublicClaimError::NonCanonicalRoot {
            field: ClaimField::ProgramRoot,
            index: 7,
            value: M31_MODULUS,
        })
    );
}

#[test]
fn final_rw_root_limb_is_checked_after_the_earlier_roots() {
    let mut value = public_data();
    value.final_rw_root.as_mut().unwrap()[0] = u32::MAX;
    assert_eq!(
        canonical_vm_public_claim_words(&value, shape()),
        Err(VmPublicClaimError::NonCanonicalRoot {
            field: ClaimField::FinalRwRoot,
            index: 0,
            value: u32::MAX,
        })
    );
}

#[test]
fn vectors_beyond_the_shape_are_rejected() {
    let mut value = public_data();
    value.io_entries.input_words = vec![1, 2, 3, 4];
    assert_eq!(
        canonical_vm_public_claim_words(&value, shape()),
        Err(VmPublicClaimError::VectorExceedsShape {
            field: ClaimField::InputWords,
            length: 4,
            capacity: 3,
        })
    );
    let mut value = public_data();
    value.io_entries.output_words = vec![OutputWord { addr: 0, value: 0, clock: 0 }; 4];
    assert_eq!(
        canonical_public_output_words(&value.io_entries, shape()),
        Err(VmPublicClaimError::VectorExceedsShape {
            field: ClaimField::OutputWords,
            length: 4,
            capacity: 3,
        })
    );
    assert_eq!(validate_vector_capacity(ClaimField::InputWords, 3, 3), Ok(()));
}

#[test]
fn public_input_words_do_not_alias_a_high_machine_word_with_zero() {
    let first = public_data().io_entries;
    let mut second = public_data().io_entries;
    second.input_words[0] = 0;
    let first_words = values(&canonical_public_input_words(&first, shape()).unwrap());
    let second_words = values(&canonical_public_input_words(&second, shape()).unwrap());
    assert_ne!(first_words, second_words);
}

#[test]
fn public_input_words_have_their_exact_layout() {
    let words = values(&canonical_public_input_words(&public_data().io_entries, shape()).unwrap());
    assert_eq!(
        words,
        vec![
            20, 3, 0, 0x0000, 0x0020, 5, 0, 2, 0, 1, 0x2211, 0x4433, 1, 0x55, 0, 0, 0, 0,
        ]
    );
}

#[test]
fn public_input_words_bind_the_exact_byte_length() {
    let first = public_data().io_entries;
    let mut second = public_data().io_entries;
    second.input_len -= 1;
    assert_ne!(
        values(&canonical_public_input_words(&first, shape()).unwrap()),
        values(&canonical_public_input_words(&second, shape()).unwrap())
    );
}

#[test]
fn public_output_words_exclude_proof_only_access_clocks() {
    let first = public_data().io_entries;
    let mut second = public_data().io_entries;
    second.output_words[1].clock += 1;
    assert_eq!(
        canonical_public_output_words(&first, shape()),
        canonical_public_output_words(&second, shape())
    );
}

#[test]
fn public_output_words_bind_the_last_output_value() {
    let first = public_data().io_entries;
    let mut second = public_data().io_entries;
    second.output_words.last_mut().unwrap().value ^= 1;
    assert_ne!(
        canonical_public_output_words(&first, shape()),
        canonical_public_output_words(&second, shape())
    );
}

#[test]
fn public_words_from_claim_match_the_direct_encoding() {
    let data = public_data();
    let words = canonical_vm_public_claim_words(&data, shape()).unwrap();
    assert_eq!(
        canonical_public_input_words_from_claim(&words, shape()),
        canonical_public_input_words(&data.io_entries, shape())
    );
    assert_eq!(
        canonical_public_output_words_from_claim(&words, shape()),
        canonical_public_output_words(&data.io_entries, shape())
    );
}

#[test]
fn claim_of_the_wrong_length_is_rejected() {
    let words = canonical_vm_public_claim_words(&public_data(), shape()).unwrap();
    assert_eq!(validate_claim_word_count(&words, shape()), Ok(()));
    let short = &words[..288];
    let error = VmPublicClaimError::ClaimWordCountMismatch {
        expected: 289,
        actual: 288,
    };
    assert_eq!(validate_claim_word_count(short, shape()), Err(error));
    assert_eq!(canonical_public_input_words_from_claim(short, shape()), Err(error));
    assert_eq!(canonical_public_output_words_from_claim(short, shape()), Err(error));
}

#[test]
fn word_kinds_classify_every_claim_word() {
    let shape = shape();
    let kinds = canonical_vm_public_claim_word_kinds(shape);
    let words = canonical_vm_public_claim_words(&public_data(), shape).unwrap();
    assert_eq!(kinds.len(), words.len());
    assert_eq!(kinds[0], VmPublicClaimWordKind::Constant(ClaimTag::Claim.word()));
    assert_eq!(kinds[2], VmPublicClaimWordKind::Constant(M31Word::from_u16(3)));
    assert_eq!(kinds[PROGRAM_ROOT_PRESENT], VmPublicClaimWordKind::Boolean);
    assert_eq!(kinds[PROGRAM_ROOT_START], VmPublicClaimWordKind::Field);
    assert_eq!(kinds[INITIAL_PC_START], VmPublicClaimWordKind::U16);
    for (kind, word) in kinds.iter().zip(words.iter()) {
        match kind {
            VmPublicClaimWordKind::Constant(constant) => assert_eq!(constant, word),
            VmPublicClaimWordKind::Boolean => assert!(word.as_u32() <= 1),
            VmPublicClaimWordKind::U16 => assert!(word.as_u32() <= 0xffff),
            VmPublicClaimWordKind::Field => assert!(word.as_u32() < M31_MODULUS),
        }
    }
}
