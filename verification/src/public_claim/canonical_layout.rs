//! Word offsets shared by the claim encoding and its fixed verifier circuit.
use crate::public_claim::{INPUT_SLOTS_START, INPUT_SLOT_WORDS, OUTPUT_SLOT_WORDS, VmPublicClaimShape};
use vstd::prelude::*;

verus! {

pub const CLAIM_TAG: usize = 0;
pub const SHAPE_TAG: usize = 1;
pub const MAX_INPUT_WORDS_START: usize = 2;
pub const MAX_OUTPUT_WORDS_START: usize = 4;
pub const INITIAL_PC_TAG: usize = 6;
pub const INITIAL_PC_START: usize = 7;
pub const FINAL_PC_TAG: usize = 9;
pub const FINAL_PC_START: usize = 10;
pub const CLOCK_TAG: usize = 12;
pub const CLOCK_START: usize = 13;
pub const INITIAL_REGISTERS_TAG: usize = 15;
pub const INITIAL_REGISTERS_START: usize = 16;
pub const FINAL_REGISTERS_TAG: usize = 80;
pub const FINAL_REGISTERS_START: usize = 81;
pub const REGISTER_LAST_CLOCKS_TAG: usize = 145;
pub const REGISTER_LAST_CLOCKS_START: usize = 146;
pub const PROGRAM_ROOT_TAG: usize = 210;
pub const PROGRAM_ROOT_PRESENT: usize = 211;
pub const PROGRAM_ROOT_START: usize = 212;
pub const INITIAL_RW_ROOT_TAG: usize = 220;
pub const INITIAL_RW_ROOT_PRESENT: usize = 221;
pub const INITIAL_RW_ROOT_START: usize = 222;
pub const FINAL_RW_ROOT_TAG: usize = 230;
pub const FINAL_RW_ROOT_PRESENT: usize = 231;
pub const FINAL_RW_ROOT_START: usize = 232;
pub const IO_HEADER_TAG: usize = 240;
pub const INPUT_START_START: usize = 241;
pub const INPUT_LENGTH_START: usize = 243;
pub const OUTPUT_LENGTH_ADDRESS_START: usize = 245;
pub const OUTPUT_DATA_ADDRESS_START: usize = 247;
pub const OUTPUT_LENGTH_START: usize = 249;
pub const HEADER_OUTPUT_WORD_COUNT_START: usize = 251;
pub const INPUT_WORDS_TAG: usize = 253;
pub const INPUT_WORD_COUNT_START: usize = 254;

/// Position of the presence word of input slot `index`.
pub open spec fn spec_input_slot_present(index: nat) -> nat {
    INPUT_SLOTS_START as nat + index * INPUT_SLOT_WORDS as nat
}

/// Position of the output section's tag.
pub open spec fn spec_output_words_tag(shape: VmPublicClaimShape) -> nat {
    spec_input_slot_present(shape.spec_max_input_words() as nat)
}

/// Position of the presence word of output slot `index`.
pub open spec fn spec_output_slot_present(shape: VmPublicClaimShape, index: nat) -> nat {
    spec_output_words_tag(shape) + 3 + index * OUTPUT_SLOT_WORDS as nat
}

pub fn input_slot_present(index: usize) -> (position: usize)
    requires
        spec_input_slot_present(index as nat) <= usize::MAX,
    ensures
        position == spec_input_slot_present(index as nat),
{
    INPUT_SLOTS_START + index * INPUT_SLOT_WORDS
}

pub fn input_slot_value_start(index: usize) -> (position: usize)
    requires
        spec_input_slot_present(index as nat) + 1 <= usize::MAX,
    ensures
        position == spec_input_slot_present(index as nat) + 1,
{
    input_slot_present(index) + 1
}

pub fn output_words_tag(shape: VmPublicClaimShape) -> (position: usize)
    ensures
        position == spec_output_words_tag(shape),
{
    proof {
        use_type_invariant(&shape);
        shape.lemma_word_count_canonical();
    }
    INPUT_SLOTS_START + shape.max_input_words() as usize * INPUT_SLOT_WORDS
}

pub fn output_word_count_start(shape: VmPublicClaimShape) -> (position: usize)
    ensures
        position == spec_output_words_tag(shape) + 1,
{
    proof {
        use_type_invariant(&shape);
        shape.lemma_word_count_canonical();
    }
    output_words_tag(shape) + 1
}

pub fn output_slots_start(shape: VmPublicClaimShape) -> (position: usize)
    ensures
        position == spec_output_words_tag(shape) + 3,
{
    proof {
        use_type_invariant(&shape);
        shape.lemma_word_count_canonical();
    }
    output_words_tag(shape) + 3
}

pub fn output_slot_present(shape: VmPublicClaimShape, index: usize) -> (position: usize)
    requires
        spec_output_slot_present(shape, index as nat) <= usize::MAX,
    ensures
        position == spec_output_slot_present(shape, index as nat),
{
    output_slots_start(shape) + index * OUTPUT_SLOT_WORDS
}

pub fn output_slot_address_start(shape: VmPublicClaimShape, index: usize) -> (position: usize)
    requires
        spec_output_slot_present(shape, index as nat) + 1 <= usize::MAX,
    ensures
        position == spec_output_slot_present(shape, index as nat) + 1,
{
    output_slot_present(shape, index) + 1
}

pub fn output_slot_value_start(shape: VmPublicClaimShape, index: usize) -> (position: usize)
    requires
        spec_output_slot_present(shape, index as nat) + 3 <= usize::MAX,
    ensures
        position == spec_output_slot_present(shape, index as nat) + 3,
{
    output_slot_present(shape, index) + 3
}

pub fn output_slot_clock_start(shape: VmPublicClaimShape, index: usize) -> (position: usize)
    requires
        spec_output_slot_present(shape, index as nat) + 5 <= usize::MAX,
    ensures
        position == spec_output_slot_present(shape, index as nat) + 5,
{
    output_slot_present(shape, index) + 5
}

} // verus!
