//! Canonical fixed-shape encoding of the VM claim hidden inside a segment leaf.
//!
//! The VM claim carries variable-length input and output vectors, register
//! access clocks and optional roots. A recursion leaf commits that complete
//! value before drawing relation challenges. The verifier fixes a shape, so
//! every claim has the same number of input and output slots, with absent
//! suffix slots zero: neither vector length can change the verifier circuit or
//! the hash schedule. Raw machine words are split into 16-bit limbs, so the
//! encoding is injective over all `u32` values.
use crate::m31::{M31_MODULUS, M31Word, lemma_word_values_push, word_values};
use vstd::prelude::*;

pub mod canonical_layout;

use crate::public_claim::canonical_layout::{
    output_slot_present, output_word_count_start, output_words_tag, spec_output_slot_present,
    spec_output_words_tag,
};

verus! {

/// Encoded words before the input slots.
pub const INPUT_SLOTS_START: usize = 256;

/// Encoded words of a claim whose shape has no slots.
pub const FIXED_CLAIM_WORDS: usize = 259;

/// Words of one input slot: presence, then the value's two limbs.
pub const INPUT_SLOT_WORDS: usize = 3;

/// Words of one output slot: presence, then address, value and clock limbs.
pub const OUTPUT_SLOT_WORDS: usize = 7;

/// Domain-separating section tags of the encoding.
#[derive(Clone, Copy, Debug, PartialEq, Eq, Structural)]
pub enum ClaimTag {
    Claim,
    InitialPc,
    FinalPc,
    Clock,
    InitialRegisters,
    FinalRegisters,
    RegisterLastClocks,
    ProgramRoot,
    InitialRwRoot,
    FinalRwRoot,
    IoHeader,
    InputWords,
    OutputWords,
    Shape,
    PublicInput,
    PublicOutput,
}

/// The word that opens each tagged section.
pub open spec fn tag_value(tag: ClaimTag) -> u32 {
    match tag {
        ClaimTag::Claim => 1,
        ClaimTag::InitialPc => 2,
        ClaimTag::FinalPc => 3,
        ClaimTag::Clock => 4,
        ClaimTag::InitialRegisters => 5,
        ClaimTag::FinalRegisters => 6,
        ClaimTag::RegisterLastClocks => 7,
        ClaimTag::ProgramRoot => 8,
        ClaimTag::InitialRwRoot => 9,
        ClaimTag::FinalRwRoot => 10,
        ClaimTag::IoHeader => 11,
        ClaimTag::InputWords => 12,
        ClaimTag::OutputWords => 13,
        ClaimTag::Shape => 14,
        ClaimTag::PublicInput => 20,
        ClaimTag::PublicOutput => 21,
    }
}

impl ClaimTag {
    /// The tag's word.
    pub fn word(self) -> (word: M31Word)
        ensures
            word@ == tag_value(self),
    {
        let value: u16 = match self {
            ClaimTag::Claim => 1,
            ClaimTag::InitialPc => 2,
            ClaimTag::FinalPc => 3,
            ClaimTag::Clock => 4,
            ClaimTag::InitialRegisters => 5,
            ClaimTag::FinalRegisters => 6,
            ClaimTag::RegisterLastClocks => 7,
            ClaimTag::ProgramRoot => 8,
            ClaimTag::InitialRwRoot => 9,
            ClaimTag::FinalRwRoot => 10,
            ClaimTag::IoHeader => 11,
            ClaimTag::InputWords => 12,
            ClaimTag::OutputWords => 13,
            ClaimTag::Shape => 14,
            ClaimTag::PublicInput => 20,
            ClaimTag::PublicOutput => 21,
        };
        M31Word::from_u16(value)
    }
}

/// Which part of the claim an error is about.
#[derive(Clone, Copy, Debug, PartialEq, Eq, Structural)]
pub enum ClaimField {
    InputWords,
    OutputWords,
    ProgramRoot,
    InitialRwRoot,
    FinalRwRoot,
}

/// A VM claim that cannot enter the canonical encoding.
#[derive(Clone, Copy, Debug, PartialEq, Eq, Structural)]
pub enum VmPublicClaimError {
    ClaimWordCountMismatch { expected: usize, actual: usize },
    LengthOutOfRange { field: ClaimField, length: usize },
    NonCanonicalRoot { field: ClaimField, index: usize, value: u32 },
    ShapeCapacityOutOfRange { field: ClaimField, capacity: u32 },
    ShapeWordCountOverflow,
    ShapeWordCountOutOfRange { word_count: usize },
    VectorExceedsShape { field: ClaimField, length: usize, capacity: usize },
}

/// One output written by the VM: where, what, and when.
#[derive(Clone, Copy, Debug, PartialEq, Eq, Structural)]
pub struct OutputWord {
    pub addr: u32,
    pub value: u32,
    pub clock: u32,
}

/// The VM's input and output boundary.
#[derive(Clone, Debug)]
pub struct IoEntries {
    pub input_start: u32,
    pub input_len: u32,
    pub input_words: Vec<u32>,
    pub output_len: u32,
    pub output_len_addr: u32,
    pub output_data_addr: u32,
    pub output_words: Vec<OutputWord>,
}

/// The public claim of one VM execution segment.
#[derive(Clone, Debug)]
pub struct PublicData {
    pub initial_pc: u32,
    pub final_pc: u32,
    pub clock: u32,
    pub initial_regs: [u32; 32],
    pub final_regs: [u32; 32],
    pub reg_last_clock: [u32; 32],
    pub program_root: Option<[u32; 8]>,
    pub initial_rw_root: Option<[u32; 8]>,
    pub final_rw_root: Option<[u32; 8]>,
    pub io_entries: IoEntries,
}

/// Encoded words of a shape.
pub open spec fn spec_claim_word_count(max_input_words: u32, max_output_words: u32) -> nat {
    FIXED_CLAIM_WORDS as nat + INPUT_SLOT_WORDS as nat * max_input_words as nat
        + OUTPUT_SLOT_WORDS as nat * max_output_words as nat
}

/// Why a pair of capacities is not a shape, if it is not.
pub open spec fn spec_shape_error(max_input_words: u32, max_output_words: u32) -> Option<
    VmPublicClaimError,
> {
    if max_input_words >= M31_MODULUS {
        Some(
            VmPublicClaimError::ShapeCapacityOutOfRange {
                field: ClaimField::InputWords,
                capacity: max_input_words,
            },
        )
    } else if max_output_words >= M31_MODULUS {
        Some(
            VmPublicClaimError::ShapeCapacityOutOfRange {
                field: ClaimField::OutputWords,
                capacity: max_output_words,
            },
        )
    } else if spec_claim_word_count(max_input_words, max_output_words) > usize::MAX {
        Some(VmPublicClaimError::ShapeWordCountOverflow)
    } else if spec_claim_word_count(max_input_words, max_output_words) > M31_MODULUS {
        Some(
            VmPublicClaimError::ShapeWordCountOutOfRange {
                word_count: spec_claim_word_count(max_input_words, max_output_words) as usize,
            },
        )
    } else {
        None
    }
}

/// Verifier-owned capacity of the fixed VM public-claim encoding: both
/// capacities and every word index are canonical M31 values.
#[derive(Clone, Copy, Debug, PartialEq, Eq, Structural)]
pub struct VmPublicClaimShape {
    max_input_words: u32,
    max_output_words: u32,
}

impl VmPublicClaimShape {
    /// Every word index of the encoding is a canonical M31 value.
    #[verifier::type_invariant]
    pub closed spec fn indices_canonical(self) -> bool {
        spec_claim_word_count(self.max_input_words, self.max_output_words) <= M31_MODULUS
    }

    pub closed spec fn spec_max_input_words(self) -> u32 {
        self.max_input_words
    }

    pub closed spec fn spec_max_output_words(self) -> u32 {
        self.max_output_words
    }

    /// Words of every claim of this shape.
    pub open spec fn spec_word_count(self) -> nat {
        spec_claim_word_count(self.spec_max_input_words(), self.spec_max_output_words())
    }

    /// What the invariant says of the word count.
    pub proof fn lemma_word_count_canonical(self)
        requires
            self.indices_canonical(),
        ensures
            self.spec_word_count() <= M31_MODULUS,
    {
    }

    /// A shape with the given capacities, when both capacities and every word
    /// index of its encoding are canonical M31 values.
    pub fn new(max_input_words: u32, max_output_words: u32) -> (result: Result<
        Self,
        VmPublicClaimError,
    >)
        ensures
            match spec_shape_error(max_input_words, max_output_words) {
                Some(error) => result == Err::<Self, _>(error),
                None => result matches Ok(shape) && shape.spec_max_input_words() == max_input_words
                    && shape.spec_max_output_words() == max_output_words,
            },
    {
        if max_input_words >= M31_MODULUS {
            return Err(
                VmPublicClaimError::ShapeCapacityOutOfRange {
                    field: ClaimField::InputWords,
                    capacity: max_input_words,
                },
            );
        }
        if max_output_words >= M31_MODULUS {
            return Err(
                VmPublicClaimError::ShapeCapacityOutOfRange {
                    field: ClaimField::OutputWords,
                    capacity: max_output_words,
                },
            );
        }
        let word_count = checked_claim_word_count(max_input_words, max_output_words)?;
        if word_count > M31_MODULUS as usize {
            return Err(VmPublicClaimError::ShapeWordCountOutOfRange { word_count });
        }
        Ok(VmPublicClaimShape { max_input_words, max_output_words })
    }

    pub fn max_input_words(self) -> (count: u32)
        ensures
            count == self.spec_max_input_words(),
    {
        self.max_input_words
    }

    pub fn max_output_words(self) -> (count: u32)
        ensures
            count == self.spec_max_output_words(),
    {
        self.max_output_words
    }

    /// Words of every claim of this shape.
    pub fn claim_word_count(self) -> (count: usize)
        ensures
            count == self.spec_word_count(),
    {
        proof {
            use_type_invariant(self);
        }
        FIXED_CLAIM_WORDS + INPUT_SLOT_WORDS * self.max_input_words as usize + OUTPUT_SLOT_WORDS
            * self.max_output_words as usize
    }
}

/// Encoded words of a shape, or the overflow of `usize`.
pub fn checked_claim_word_count(max_input_words: u32, max_output_words: u32) -> (result: Result<
    usize,
    VmPublicClaimError,
>)
    ensures
        result == if spec_claim_word_count(max_input_words, max_output_words) > usize::MAX {
            Err::<usize, VmPublicClaimError>(VmPublicClaimError::ShapeWordCountOverflow)
        } else {
            Ok(spec_claim_word_count(max_input_words, max_output_words) as usize)
        },
{
    let overflow = VmPublicClaimError::ShapeWordCountOverflow;
    let input = match (max_input_words as usize).checked_mul(INPUT_SLOT_WORDS) {
        Some(words) => words,
        None => return Err(overflow),
    };
    let output = match (max_output_words as usize).checked_mul(OUTPUT_SLOT_WORDS) {
        Some(words) => words,
        None => return Err(overflow),
    };
    let fixed_and_input = match FIXED_CLAIM_WORDS.checked_add(input) {
        Some(words) => words,
        None => return Err(overflow),
    };
    match fixed_and_input.checked_add(output) {
        Some(words) => Ok(words),
        None => Err(overflow),
    }
}

/// The two 16-bit limbs of a machine word, low limb first.
pub open spec fn limbs(value: u32) -> Seq<u32> {
    seq![value % 0x10000, value / 0x10000]
}

/// The limbs of a sequence of machine words, in order.
pub open spec fn limbs_of(values: Seq<u32>) -> Seq<u32>
    decreases values.len(),
{
    if values.len() == 0 {
        Seq::empty()
    } else {
        limbs_of(values.drop_last()) + limbs(values.last())
    }
}

/// A tag followed by the limbs of one machine word.
pub open spec fn tagged_u32(tag: ClaimTag, value: u32) -> Seq<u32> {
    seq![tag_value(tag)] + limbs(value)
}

/// A tag followed by the limbs of several machine words.
pub open spec fn tagged_u32s(tag: ClaimTag, values: Seq<u32>) -> Seq<u32> {
    seq![tag_value(tag)] + limbs_of(values)
}

/// `count` zero words.
pub open spec fn zeros(count: nat) -> Seq<u32> {
    Seq::new(count, |i: int| 0u32)
}

/// A tagged optional root: the tag, a presence bit, then the root's words,
/// or zeros when it is absent.
pub open spec fn root_words(tag: ClaimTag, root: Option<[u32; 8]>) -> Seq<u32> {
    match root {
        Some(root) => seq![tag_value(tag), 1u32] + root@,
        None => seq![tag_value(tag), 0u32] + zeros(8),
    }
}

/// The first of the first `n` values that is not a canonical M31 word.
pub open spec fn first_noncanonical(values: Seq<u32>, n: nat) -> Option<nat>
    decreases n,
{
    if n == 0 {
        None
    } else {
        match first_noncanonical(values, (n - 1) as nat) {
            Some(i) => Some(i),
            None => if values[n - 1] >= M31_MODULUS {
                Some((n - 1) as nat)
            } else {
                None
            },
        }
    }
}

/// Why a present root cannot be encoded, if it cannot.
pub open spec fn root_error(field: ClaimField, root: Option<[u32; 8]>) -> Option<VmPublicClaimError> {
    match root {
        Some(root) => match first_noncanonical(root@, 8) {
            Some(index) => Some(
                VmPublicClaimError::NonCanonicalRoot {
                    field,
                    index: index as usize,
                    value: root@[index as int],
                },
            ),
            None => None,
        },
        None => None,
    }
}

/// Input slot `i`: a presence bit and the value's limbs, or three zeros.
pub open spec fn input_slot(values: Seq<u32>, i: nat) -> Seq<u32> {
    if i < values.len() {
        seq![1u32] + limbs(values[i as int])
    } else {
        zeros(3)
    }
}

/// The first `n` input slots.
pub open spec fn input_slots(values: Seq<u32>, n: nat) -> Seq<u32>
    decreases n,
{
    if n == 0 {
        Seq::empty()
    } else {
        input_slots(values, (n - 1) as nat) + input_slot(values, (n - 1) as nat)
    }
}

/// Output slot `i`: a presence bit and the limbs of address, value and
/// access clock, or seven zeros.
pub open spec fn output_slot(outputs: Seq<OutputWord>, i: nat) -> Seq<u32> {
    if i < outputs.len() {
        seq![1u32] + limbs(outputs[i as int].addr) + limbs(outputs[i as int].value) + limbs(
            outputs[i as int].clock,
        )
    } else {
        zeros(7)
    }
}

/// The first `n` output slots.
pub open spec fn output_slots(outputs: Seq<OutputWord>, n: nat) -> Seq<u32>
    decreases n,
{
    if n == 0 {
        Seq::empty()
    } else {
        output_slots(outputs, (n - 1) as nat) + output_slot(outputs, (n - 1) as nat)
    }
}

/// The IO header: boundaries of both vectors and the output count.
pub open spec fn io_header_words(io: IoEntries) -> Seq<u32> {
    seq![tag_value(ClaimTag::IoHeader)] + limbs(io.input_start) + limbs(io.input_len) + limbs(
        io.output_len_addr,
    ) + limbs(io.output_data_addr) + limbs(io.output_len) + limbs(io.output_words@.len() as u32)
}

/// The input section: its count and every input slot of the shape.
pub open spec fn input_section_words(io: IoEntries, shape: VmPublicClaimShape) -> Seq<u32> {
    seq![tag_value(ClaimTag::InputWords)] + limbs(io.input_words@.len() as u32) + input_slots(
        io.input_words@,
        shape.spec_max_input_words() as nat,
    )
}

/// The output section: its count and every output slot of the shape.
pub open spec fn output_section_words(io: IoEntries, shape: VmPublicClaimShape) -> Seq<u32> {
    seq![tag_value(ClaimTag::OutputWords)] + limbs(io.output_words@.len() as u32) + output_slots(
        io.output_words@,
        shape.spec_max_output_words() as nat,
    )
}

/// Why a vector does not fit its capacity, if it does not.
pub open spec fn capacity_error(field: ClaimField, length: nat, capacity: u32) -> Option<
    VmPublicClaimError,
> {
    if length > capacity {
        Some(
            VmPublicClaimError::VectorExceedsShape {
                field,
                length: length as usize,
                capacity: capacity as usize,
            },
        )
    } else {
        None
    }
}

/// Why a claim cannot be encoded in a shape, if it cannot.
pub open spec fn claim_error(data: PublicData, shape: VmPublicClaimShape) -> Option<VmPublicClaimError> {
    let io = data.io_entries;
    if capacity_error(ClaimField::InputWords, io.input_words@.len(), shape.spec_max_input_words()) is Some {
        capacity_error(ClaimField::InputWords, io.input_words@.len(), shape.spec_max_input_words())
    } else if capacity_error(
        ClaimField::OutputWords,
        io.output_words@.len(),
        shape.spec_max_output_words(),
    ) is Some {
        capacity_error(ClaimField::OutputWords, io.output_words@.len(), shape.spec_max_output_words())
    } else if root_error(ClaimField::ProgramRoot, data.program_root) is Some {
        root_error(ClaimField::ProgramRoot, data.program_root)
    } else if root_error(ClaimField::InitialRwRoot, data.initial_rw_root) is Some {
        root_error(ClaimField::InitialRwRoot, data.initial_rw_root)
    } else {
        root_error(ClaimField::FinalRwRoot, data.final_rw_root)
    }
}

/// The canonical words of a claim in a shape: the fixed head, then the
/// input section, then the output section.
pub open spec fn claim_words(data: PublicData, shape: VmPublicClaimShape) -> Seq<u32> {
    claim_head(data, shape) + input_section_words(data.io_entries, shape) + output_section_words(
        data.io_entries,
        shape,
    )
}

/// Appends the two limbs of a machine word.
fn append_u32(words: &mut Vec<M31Word>, value: u32)
    ensures
        word_values(final(words)@) == word_values(old(words)@) + limbs(value),
{
    let ghost start = words@;
    let low = M31Word::from_u16((value % 0x10000) as u16);
    let high = M31Word::from_u16((value / 0x10000) as u16);
    words.push(low);
    words.push(high);
    proof {
        lemma_word_values_push(start, low);
        lemma_word_values_push(start.push(low), high);
        assert(word_values(words@) =~= word_values(start) + limbs(value));
    }
}

/// Appends one word.
fn append_word(words: &mut Vec<M31Word>, word: M31Word)
    ensures
        word_values(final(words)@) == word_values(old(words)@).push(word@),
{
    let ghost start = words@;
    words.push(word);
    proof {
        lemma_word_values_push(start, word);
    }
}

fn append_tagged_u32(words: &mut Vec<M31Word>, tag: ClaimTag, value: u32)
    ensures
        word_values(final(words)@) == word_values(old(words)@) + tagged_u32(tag, value),
{
    let ghost start = word_values(words@);
    append_word(words, tag.word());
    append_u32(words, value);
    proof {
        assert(word_values(words@) =~= start + tagged_u32(tag, value));
    }
}

fn append_tagged_u32s(words: &mut Vec<M31Word>, tag: ClaimTag, values: &[u32; 32])
    ensures
        word_values(final(words)@) == word_values(old(words)@) + tagged_u32s(tag, values@),
{
    let ghost start = word_values(words@);
    append_word(words, tag.word());
    let mut i: usize = 0;
    while i < 32
        invariant
            i <= 32,
            values@.len() == 32,
            word_values(words@) == start + seq![tag_value(tag)] + limbs_of(values@.take(i as int)),
        decreases 32 - i,
    {
        append_u32(words, values[i]);
        proof {
            assert(values@.take(i as int + 1).drop_last() =~= values@.take(i as int));
            assert(word_values(words@) =~= start + seq![tag_value(tag)] + limbs_of(
                values@.take(i as int + 1),
            ));
        }
        i = i + 1;
    }
    proof {
        assert(values@.take(32) =~= values@);
        assert(word_values(words@) =~= start + tagged_u32s(tag, values@));
    }
}

fn append_optional_root(
    words: &mut Vec<M31Word>,
    tag: ClaimTag,
    field: ClaimField,
    root: Option<[u32; 8]>,
) -> (result: Result<(), VmPublicClaimError>)
    ensures
        match root_error(field, root) {
            Some(error) => result == Err::<(), _>(error),
            None => result is Ok && word_values(final(words)@) == word_values(old(words)@)
                + root_words(tag, root),
        },
{
    let ghost start = word_values(words@);
    append_word(words, tag.word());
    let values: [u32; 8] = match root {
        Some(values) => {
            append_word(words, M31Word::from_u16(1));
            values
        },
        None => {
            append_word(words, M31Word::from_u16(0));
            [0u32; 8]
        },
    };
    proof {
        if root is None {
            assert(values@ =~= zeros(8));
        }
    }
    let mut index: usize = 0;
    while index < 8
        invariant
            index <= 8,
            values@.len() == 8,
            root matches Some(r) ==> r@ == values@,
            root is None ==> values@ == zeros(8),
            root matches Some(r) ==> first_noncanonical(r@, index as nat) is None,
            word_values(words@) == start + seq![
                tag_value(tag),
                if root is Some { 1u32 } else { 0u32 },
            ] + values@.take(index as int),
        decreases 8 - index,
    {
        let word = match M31Word::try_from_u32(values[index]) {
            Some(word) => word,
            None => {
                proof {
                    let r = root->Some_0;
                    assert(first_noncanonical(r@, (index + 1) as nat) == Some(index as nat));
                    lemma_first_noncanonical_sticks(r@, (index + 1) as nat, 8);
                }
                return Err(VmPublicClaimError::NonCanonicalRoot { field, index, value: values[index] });
            },
        };
        append_word(words, word);
        proof {
            assert(values@.take(index as int + 1) =~= values@.take(index as int).push(values@[index as int]));
            assert(word_values(words@) =~= start + seq![
                tag_value(tag),
                if root is Some { 1u32 } else { 0u32 },
            ] + values@.take(index as int + 1));
        }
        index = index + 1;
    }
    proof {
        assert(values@.take(8) =~= values@);
        assert(word_values(words@) =~= start + root_words(tag, root));
    }
    Ok(())
}

proof fn lemma_first_noncanonical_sticks(values: Seq<u32>, n: nat, m: nat)
    requires
        n <= m,
        first_noncanonical(values, n) is Some,
    ensures
        first_noncanonical(values, m) == first_noncanonical(values, n),
    decreases m - n,
{
    if m > n {
        lemma_first_noncanonical_sticks(values, n, (m - 1) as nat);
    }
}

/// Checks that a vector fits its capacity.
pub fn validate_vector_capacity(field: ClaimField, length: usize, capacity: u32) -> (result: Result<
    (),
    VmPublicClaimError,
>)
    ensures
        match capacity_error(field, length as nat, capacity) {
            Some(error) => result == Err::<(), _>(error),
            None => result is Ok,
        },
{
    let capacity = capacity as usize;
    if length > capacity {
        return Err(VmPublicClaimError::VectorExceedsShape { field, length, capacity });
    }
    Ok(())
}

/// Appends a vector length as a machine word.
fn append_length(words: &mut Vec<M31Word>, field: ClaimField, length: usize) -> (result: Result<
    (),
    VmPublicClaimError,
>)
    ensures
        length <= u32::MAX ==> result is Ok && word_values(final(words)@) == word_values(
            old(words)@,
        ) + limbs(length as u32),
        length > u32::MAX ==> result == Err::<(), _>(
            VmPublicClaimError::LengthOutOfRange { field, length },
        ),
{
    if length > u32::MAX as usize {
        return Err(VmPublicClaimError::LengthOutOfRange { field, length });
    }
    append_u32(words, length as u32);
    Ok(())
}

fn append_io_header(words: &mut Vec<M31Word>, io: &IoEntries) -> (result: Result<
    (),
    VmPublicClaimError,
>)
    requires
        io.output_words@.len() <= u32::MAX,
    ensures
        result is Ok,
        word_values(final(words)@) == word_values(old(words)@) + io_header_words(*io),
{
    let ghost start = word_values(words@);
    append_word(words, ClaimTag::IoHeader.word());
    append_u32(words, io.input_start);
    append_u32(words, io.input_len);
    append_u32(words, io.output_len_addr);
    append_u32(words, io.output_data_addr);
    append_u32(words, io.output_len);
    let result = append_length(words, ClaimField::OutputWords, io.output_words.len());
    proof {
        assert(word_values(words@) =~= start + io_header_words(*io));
    }
    result
}

/// Appends the first `count` input slots.
fn append_input_slots(words: &mut Vec<M31Word>, values: &Vec<u32>, count: u32)
    ensures
        word_values(final(words)@) == word_values(old(words)@) + input_slots(values@, count as nat),
{
    let ghost start = word_values(words@);
    let mut index: u32 = 0;
    while index < count
        invariant
            index <= count,
            word_values(words@) == start + input_slots(values@, index as nat),
        decreases count - index,
    {
        let i = index as usize;
        if i < values.len() {
            append_word(words, M31Word::from_u16(1));
            append_u32(words, values[i]);
        } else {
            append_word(words, M31Word::from_u16(0));
            append_u32(words, 0);
        }
        proof {
            assert(limbs(0) =~= seq![0u32, 0u32]);
            assert(word_values(words@) =~= start + input_slots(values@, index as nat + 1));
        }
        index = index + 1;
    }
}

/// Appends the first `count` output slots, with or without access clocks.
fn append_output_slots(
    words: &mut Vec<M31Word>,
    outputs: &Vec<OutputWord>,
    count: u32,
    with_clocks: bool,
)
    ensures
        word_values(final(words)@) == word_values(old(words)@) + if with_clocks {
            output_slots(outputs@, count as nat)
        } else {
            public_output_slots(outputs@, count as nat)
        },
{
    let ghost start = word_values(words@);
    let mut index: u32 = 0;
    while index < count
        invariant
            index <= count,
            word_values(words@) == start + if with_clocks {
                output_slots(outputs@, index as nat)
            } else {
                public_output_slots(outputs@, index as nat)
            },
        decreases count - index,
    {
        let i = index as usize;
        let (present, output) = if i < outputs.len() {
            (1u16, outputs[i])
        } else {
            (0u16, OutputWord { addr: 0, value: 0, clock: 0 })
        };
        append_word(words, M31Word::from_u16(present));
        append_u32(words, output.addr);
        append_u32(words, output.value);
        if with_clocks {
            append_u32(words, output.clock);
        }
        proof {
            assert(limbs(0) =~= seq![0u32, 0u32]);
            if with_clocks {
                assert(word_values(words@) =~= start + output_slots(outputs@, index as nat + 1));
            } else {
                assert(word_values(words@) =~= start + public_output_slots(
                    outputs@,
                    index as nat + 1,
                ));
            }
        }
        index = index + 1;
    }
}

/// Public output slot `i`: a presence bit and the limbs of address and
/// value, or five zeros.
pub open spec fn public_output_slot(outputs: Seq<OutputWord>, i: nat) -> Seq<u32> {
    if i < outputs.len() {
        seq![1u32] + limbs(outputs[i as int].addr) + limbs(outputs[i as int].value)
    } else {
        zeros(5)
    }
}

/// The first `n` public output slots.
pub open spec fn public_output_slots(outputs: Seq<OutputWord>, n: nat) -> Seq<u32>
    decreases n,
{
    if n == 0 {
        Seq::empty()
    } else {
        public_output_slots(outputs, (n - 1) as nat) + public_output_slot(outputs, (n - 1) as nat)
    }
}

/// Encodes every field that contributes VM public LogUp terms or transcript
/// state, in the shape's fixed layout.
pub fn canonical_vm_public_claim_words(public_data: &PublicData, shape: VmPublicClaimShape) -> (result:
    Result<Vec<M31Word>, VmPublicClaimError>)
    ensures
        match claim_error(*public_data, shape) {
            Some(error) => result == Err::<Vec<M31Word>, _>(error),
            None => result matches Ok(words) && word_values(words@) == claim_words(
                *public_data,
                shape,
            ),
        },
{
    let io = &public_data.io_entries;
    validate_vector_capacity(ClaimField::InputWords, io.input_words.len(), shape.max_input_words())?;
    validate_vector_capacity(ClaimField::OutputWords, io.output_words.len(), shape.max_output_words())?;
    let mut words: Vec<M31Word> = Vec::new();
    append_word(&mut words, ClaimTag::Claim.word());
    append_word(&mut words, ClaimTag::Shape.word());
    append_u32(&mut words, shape.max_input_words());
    append_u32(&mut words, shape.max_output_words());
    append_tagged_u32(&mut words, ClaimTag::InitialPc, public_data.initial_pc);
    append_tagged_u32(&mut words, ClaimTag::FinalPc, public_data.final_pc);
    append_tagged_u32(&mut words, ClaimTag::Clock, public_data.clock);
    append_tagged_u32s(&mut words, ClaimTag::InitialRegisters, &public_data.initial_regs);
    append_tagged_u32s(&mut words, ClaimTag::FinalRegisters, &public_data.final_regs);
    append_tagged_u32s(&mut words, ClaimTag::RegisterLastClocks, &public_data.reg_last_clock);
    append_optional_root(
        &mut words,
        ClaimTag::ProgramRoot,
        ClaimField::ProgramRoot,
        public_data.program_root,
    )?;
    append_optional_root(
        &mut words,
        ClaimTag::InitialRwRoot,
        ClaimField::InitialRwRoot,
        public_data.initial_rw_root,
    )?;
    append_optional_root(
        &mut words,
        ClaimTag::FinalRwRoot,
        ClaimField::FinalRwRoot,
        public_data.final_rw_root,
    )?;
    let ghost before_io = word_values(words@);
    append_io_header(&mut words, io)?;
    append_word(&mut words, ClaimTag::InputWords.word());
    append_length(&mut words, ClaimField::InputWords, io.input_words.len())?;
    append_input_slots(&mut words, &io.input_words, shape.max_input_words());
    append_word(&mut words, ClaimTag::OutputWords.word());
    append_length(&mut words, ClaimField::OutputWords, io.output_words.len())?;
    append_output_slots(&mut words, &io.output_words, shape.max_output_words(), true);
    proof {
        reveal(claim_head);
        assert(word_values(words@) =~= claim_words(*public_data, shape));
    }
    Ok(words)
}

/// The application-input words: capacity, boundaries, count and slots.
pub open spec fn public_input_words(io: IoEntries, shape: VmPublicClaimShape) -> Seq<u32> {
    seq![tag_value(ClaimTag::PublicInput)] + limbs(shape.spec_max_input_words()) + limbs(io.input_start)
        + limbs(io.input_len) + limbs(io.input_words@.len() as u32) + input_slots(
        io.input_words@,
        shape.spec_max_input_words() as nat,
    )
}

/// The application-output words: capacity, boundaries, count and slots,
/// without the proof-only access clocks.
pub open spec fn public_output_words(io: IoEntries, shape: VmPublicClaimShape) -> Seq<u32> {
    seq![tag_value(ClaimTag::PublicOutput)] + limbs(shape.spec_max_output_words()) + limbs(
        io.output_len_addr,
    ) + limbs(io.output_data_addr) + limbs(io.output_len) + limbs(io.output_words@.len() as u32)
        + public_output_slots(io.output_words@, shape.spec_max_output_words() as nat)
}

/// Fixed application-input words consumed by the input-digest hash table.
pub fn canonical_public_input_words(io: &IoEntries, shape: VmPublicClaimShape) -> (result: Result<
    Vec<M31Word>,
    VmPublicClaimError,
>)
    ensures
        match capacity_error(ClaimField::InputWords, io.input_words@.len(), shape.spec_max_input_words()) {
            Some(error) => result == Err::<Vec<M31Word>, _>(error),
            None => result matches Ok(words) && word_values(words@) == public_input_words(*io, shape),
        },
{
    validate_vector_capacity(ClaimField::InputWords, io.input_words.len(), shape.max_input_words())?;
    let mut words: Vec<M31Word> = Vec::new();
    append_word(&mut words, ClaimTag::PublicInput.word());
    append_u32(&mut words, shape.max_input_words());
    append_u32(&mut words, io.input_start);
    append_u32(&mut words, io.input_len);
    append_length(&mut words, ClaimField::InputWords, io.input_words.len())?;
    append_input_slots(&mut words, &io.input_words, shape.max_input_words());
    proof {
        assert(word_values(words@) =~= public_input_words(*io, shape));
    }
    Ok(words)
}

/// Fixed application-output words consumed by the output-digest hash table.
pub fn canonical_public_output_words(io: &IoEntries, shape: VmPublicClaimShape) -> (result: Result<
    Vec<M31Word>,
    VmPublicClaimError,
>)
    ensures
        match capacity_error(
            ClaimField::OutputWords,
            io.output_words@.len(),
            shape.spec_max_output_words(),
        ) {
            Some(error) => result == Err::<Vec<M31Word>, _>(error),
            None => result matches Ok(words) && word_values(words@) == public_output_words(*io, shape),
        },
{
    validate_vector_capacity(ClaimField::OutputWords, io.output_words.len(), shape.max_output_words())?;
    let mut words: Vec<M31Word> = Vec::new();
    append_word(&mut words, ClaimTag::PublicOutput.word());
    append_u32(&mut words, shape.max_output_words());
    append_u32(&mut words, io.output_len_addr);
    append_u32(&mut words, io.output_data_addr);
    append_u32(&mut words, io.output_len);
    append_length(&mut words, ClaimField::OutputWords, io.output_words.len())?;
    append_output_slots(&mut words, &io.output_words, shape.max_output_words(), false);
    proof {
        assert(word_values(words@) =~= public_output_words(*io, shape));
    }
    Ok(words)
}

/// Checks that a claim has its shape's word count.
pub fn validate_claim_word_count(claim: &[M31Word], shape: VmPublicClaimShape) -> (result: Result<
    (),
    VmPublicClaimError,
>)
    ensures
        result == if claim@.len() == shape.spec_word_count() {
            Ok::<(), VmPublicClaimError>(())
        } else {
            Err(
                VmPublicClaimError::ClaimWordCountMismatch {
                    expected: shape.spec_word_count() as usize,
                    actual: claim@.len() as usize,
                },
            )
        },
{
    let expected = shape.claim_word_count();
    if claim.len() == expected {
        Ok(())
    } else {
        Err(VmPublicClaimError::ClaimWordCountMismatch { expected, actual: claim.len() })
    }
}

/// Appends `count` words of a claim, starting at `start`.
fn append_range(words: &mut Vec<M31Word>, claim: &[M31Word], start: usize, count: usize)
    requires
        start + count <= claim@.len(),
        start + count <= usize::MAX,
    ensures
        word_values(final(words)@) == word_values(old(words)@) + word_values(claim@).subrange(
            start as int,
            start + count,
        ),
{
    let ghost before = word_values(words@);
    let mut k: usize = 0;
    while k < count
        invariant
            k <= count,
            start + count <= claim@.len(),
            start + count <= usize::MAX,
            word_values(words@) == before + word_values(claim@).subrange(start as int, start + k),
        decreases count - k,
    {
        append_word(words, claim[start + k]);
        proof {
            assert(word_values(words@) =~= before + word_values(claim@).subrange(
                start as int,
                start + k + 1,
            ));
        }
        k = k + 1;
    }
}

/// The public-input words read back from an encoded claim.
pub open spec fn public_input_words_from_claim(claim: Seq<u32>, shape: VmPublicClaimShape) -> Seq<
    u32,
> {
    seq![tag_value(ClaimTag::PublicInput)] + claim.subrange(2, 4) + claim.subrange(241, 243)
        + claim.subrange(243, 245) + claim.subrange(254, 256) + claim.subrange(
        INPUT_SLOTS_START as int,
        spec_output_words_tag(shape) as int,
    )
}

/// The public parts of the first `n` output slots of an encoded claim.
pub open spec fn public_output_parts(claim: Seq<u32>, shape: VmPublicClaimShape, n: nat) -> Seq<u32>
    decreases n,
{
    if n == 0 {
        Seq::empty()
    } else {
        let start = spec_output_slot_present(shape, (n - 1) as nat) as int;
        public_output_parts(claim, shape, (n - 1) as nat) + claim.subrange(start, start + 5)
    }
}

/// The public-output words read back from an encoded claim.
pub open spec fn public_output_words_from_claim(claim: Seq<u32>, shape: VmPublicClaimShape) -> Seq<
    u32,
> {
    let count = spec_output_words_tag(shape) as int + 1;
    seq![tag_value(ClaimTag::PublicOutput)] + claim.subrange(4, 6) + claim.subrange(245, 247)
        + claim.subrange(247, 249) + claim.subrange(249, 251) + claim.subrange(count, count + 2)
        + public_output_parts(claim, shape, shape.spec_max_output_words() as nat)
}

/// Derives the public-input hash stream from the fixed claim encoding.
pub fn canonical_public_input_words_from_claim(claim: &[M31Word], shape: VmPublicClaimShape) -> (result:
    Result<Vec<M31Word>, VmPublicClaimError>)
    ensures
        claim@.len() != shape.spec_word_count() ==> result == Err::<Vec<M31Word>, _>(
            VmPublicClaimError::ClaimWordCountMismatch {
                expected: shape.spec_word_count() as usize,
                actual: claim@.len() as usize,
            },
        ),
        claim@.len() == shape.spec_word_count() ==> (result matches Ok(words) && word_values(words@)
            == public_input_words_from_claim(word_values(claim@), shape)),
{
    validate_claim_word_count(claim, shape)?;
    let mut words: Vec<M31Word> = Vec::new();
    append_word(&mut words, ClaimTag::PublicInput.word());
    append_range(&mut words, claim, 2, 2);
    append_range(&mut words, claim, 241, 2);
    append_range(&mut words, claim, 243, 2);
    append_range(&mut words, claim, 254, 2);
    let end = output_words_tag(shape);
    append_range(&mut words, claim, INPUT_SLOTS_START, end - INPUT_SLOTS_START);
    proof {
        assert(word_values(words@) =~= public_input_words_from_claim(word_values(claim@), shape));
    }
    Ok(words)
}

/// Derives the public-output hash stream from the fixed claim encoding.
pub fn canonical_public_output_words_from_claim(claim: &[M31Word], shape: VmPublicClaimShape) -> (result:
    Result<Vec<M31Word>, VmPublicClaimError>)
    ensures
        claim@.len() != shape.spec_word_count() ==> result == Err::<Vec<M31Word>, _>(
            VmPublicClaimError::ClaimWordCountMismatch {
                expected: shape.spec_word_count() as usize,
                actual: claim@.len() as usize,
            },
        ),
        claim@.len() == shape.spec_word_count() ==> (result matches Ok(words) && word_values(words@)
            == public_output_words_from_claim(word_values(claim@), shape)),
{
    validate_claim_word_count(claim, shape)?;
    proof {
        use_type_invariant(&shape);
    }
    let mut words: Vec<M31Word> = Vec::new();
    append_word(&mut words, ClaimTag::PublicOutput.word());
    append_range(&mut words, claim, 4, 2);
    append_range(&mut words, claim, 245, 2);
    append_range(&mut words, claim, 247, 2);
    append_range(&mut words, claim, 249, 2);
    append_range(&mut words, claim, output_word_count_start(shape), 2);
    let ghost prefix = word_values(words@);
    let count = shape.max_output_words();
    let mut index: u32 = 0;
    while index < count
        invariant
            index <= count,
            count == shape.spec_max_output_words(),
            claim@.len() == shape.spec_word_count(),
            shape.spec_word_count() <= M31_MODULUS,
            word_values(words@) == prefix + public_output_parts(
                word_values(claim@),
                shape,
                index as nat,
            ),
        decreases count - index,
    {
        let start = output_slot_present(shape, index as usize);
        append_range(&mut words, claim, start, 5);
        proof {
            assert(word_values(words@) =~= prefix + public_output_parts(
                word_values(claim@),
                shape,
                index as nat + 1,
            ));
        }
        index = index + 1;
    }
    proof {
        assert(word_values(words@) =~= public_output_words_from_claim(word_values(claim@), shape));
    }
    Ok(words)
}

proof fn lemma_limbs_of_len(values: Seq<u32>)
    ensures
        limbs_of(values).len() == 2 * values.len(),
    decreases values.len(),
{
    if values.len() > 0 {
        lemma_limbs_of_len(values.drop_last());
    }
}

proof fn lemma_input_slots_len(values: Seq<u32>, n: nat)
    ensures
        input_slots(values, n).len() == 3 * n,
    decreases n,
{
    if n > 0 {
        lemma_input_slots_len(values, (n - 1) as nat);
    }
}

proof fn lemma_output_slots_len(outputs: Seq<OutputWord>, n: nat)
    ensures
        output_slots(outputs, n).len() == 7 * n,
        public_output_slots(outputs, n).len() == 5 * n,
    decreases n,
{
    if n > 0 {
        lemma_output_slots_len(outputs, (n - 1) as nat);
    }
}

proof fn lemma_output_slot_within(outputs: Seq<OutputWord>, m: nat, i: nat)
    requires
        i < m,
    ensures
        output_slots(outputs, m).subrange(7 * i as int, 7 * i + 7 as int) == output_slot(outputs, i),
    decreases m,
{
    lemma_output_slots_len(outputs, (m - 1) as nat);
    if i < m - 1 {
        lemma_output_slot_within(outputs, (m - 1) as nat, i);
        assert(output_slots(outputs, m).subrange(7 * i as int, 7 * i + 7 as int) =~= output_slots(
            outputs,
            (m - 1) as nat,
        ).subrange(7 * i as int, 7 * i + 7 as int));
    } else {
        assert(output_slots(outputs, m).subrange(7 * i as int, 7 * i + 7 as int) =~= output_slot(outputs, i));
    }
}

/// The part of the claim encoding before the input section.
#[verifier::opaque]
pub open spec fn claim_head(data: PublicData, shape: VmPublicClaimShape) -> Seq<u32> {
    seq![tag_value(ClaimTag::Claim), tag_value(ClaimTag::Shape)] + limbs(shape.spec_max_input_words())
        + limbs(shape.spec_max_output_words()) + tagged_u32(ClaimTag::InitialPc, data.initial_pc)
        + tagged_u32(ClaimTag::FinalPc, data.final_pc) + tagged_u32(ClaimTag::Clock, data.clock)
        + tagged_u32s(ClaimTag::InitialRegisters, data.initial_regs@) + tagged_u32s(
        ClaimTag::FinalRegisters,
        data.final_regs@,
    ) + tagged_u32s(ClaimTag::RegisterLastClocks, data.reg_last_clock@) + root_words(
        ClaimTag::ProgramRoot,
        data.program_root,
    ) + root_words(ClaimTag::InitialRwRoot, data.initial_rw_root) + root_words(
        ClaimTag::FinalRwRoot,
        data.final_rw_root,
    ) + io_header_words(data.io_entries)
}

proof fn lemma_claim_head(data: PublicData, shape: VmPublicClaimShape)
    ensures
        claim_head(data, shape).len() == 253,
        claim_head(data, shape).subrange(2, 4) == limbs(shape.spec_max_input_words()),
        claim_head(data, shape).subrange(4, 6) == limbs(shape.spec_max_output_words()),
        claim_head(data, shape).subrange(241, 243) == limbs(data.io_entries.input_start),
        claim_head(data, shape).subrange(243, 245) == limbs(data.io_entries.input_len),
        claim_head(data, shape).subrange(245, 247) == limbs(data.io_entries.output_len_addr),
        claim_head(data, shape).subrange(247, 249) == limbs(data.io_entries.output_data_addr),
        claim_head(data, shape).subrange(249, 251) == limbs(data.io_entries.output_len),
{
    reveal(claim_head);
    lemma_limbs_of_len(data.initial_regs@);
    lemma_limbs_of_len(data.final_regs@);
    lemma_limbs_of_len(data.reg_last_clock@);
    let head = claim_head(data, shape);
    let io = data.io_entries;
    let start = seq![tag_value(ClaimTag::Claim), tag_value(ClaimTag::Shape)] + limbs(
        shape.spec_max_input_words(),
    ) + limbs(shape.spec_max_output_words());
    assert(head.subrange(0, 6) =~= start) by {
        assert(head =~= start + head.subrange(6, head.len() as int));
    }
    assert(head.subrange(240, 253) =~= io_header_words(io)) by {
        assert(head =~= head.subrange(0, 240) + io_header_words(io));
    }
    assert(head.subrange(2, 4) =~= start.subrange(2, 4));
    assert(head.subrange(4, 6) =~= start.subrange(4, 6));
    assert(head.subrange(241, 243) =~= io_header_words(io).subrange(1, 3));
    assert(head.subrange(243, 245) =~= io_header_words(io).subrange(3, 5));
    assert(head.subrange(245, 247) =~= io_header_words(io).subrange(5, 7));
    assert(head.subrange(247, 249) =~= io_header_words(io).subrange(7, 9));
    assert(head.subrange(249, 251) =~= io_header_words(io).subrange(9, 11));
}

/// The claim's encoding has exactly its shape's word count, and it is its
/// head, its input section and its output section, in order.
pub proof fn lemma_claim_words_len(data: PublicData, shape: VmPublicClaimShape)
    ensures
        claim_words(data, shape).len() == shape.spec_word_count(),
{
    lemma_claim_head(data, shape);
    lemma_input_slots_len(data.io_entries.input_words@, shape.spec_max_input_words() as nat);
    lemma_output_slots_len(data.io_entries.output_words@, shape.spec_max_output_words() as nat);
}

proof fn lemma_public_output_parts(
    claim: Seq<u32>,
    shape: VmPublicClaimShape,
    outputs: Seq<OutputWord>,
    n: nat,
)
    requires
        n <= shape.spec_max_output_words(),
        claim.len() >= spec_output_words_tag(shape) + 3 + 7 * shape.spec_max_output_words(),
        claim.subrange(
            spec_output_words_tag(shape) + 3 as int,
            spec_output_words_tag(shape) + 3 + 7 * shape.spec_max_output_words() as int,
        ) == output_slots(outputs, shape.spec_max_output_words() as nat),
    ensures
        public_output_parts(claim, shape, n) == public_output_slots(outputs, n),
    decreases n,
{
    if n > 0 {
        let i = (n - 1) as nat;
        let max = shape.spec_max_output_words() as nat;
        let base = spec_output_words_tag(shape) + 3;
        lemma_public_output_parts(claim, shape, outputs, i);
        lemma_output_slot_within(outputs, max, i);
        let start = spec_output_slot_present(shape, i) as int;
        assert(start == base + 7 * i);
        assert(claim.subrange(start, start + 5) =~= output_slots(outputs, max).subrange(
            7 * i as int,
            7 * i + 7 as int,
        ).subrange(0, 5));
        assert(output_slot(outputs, i).subrange(0, 5) =~= public_output_slot(outputs, i));
    }
}

/// Reading the application input back out of an encoded claim gives exactly
/// the application-input words of that claim.
pub proof fn lemma_public_input_from_claim(data: PublicData, shape: VmPublicClaimShape)
    ensures
        public_input_words_from_claim(claim_words(data, shape), shape) == public_input_words(
            data.io_entries,
            shape,
        ),
{
    let io = data.io_entries;
    lemma_claim_words_len(data, shape);
    lemma_claim_head(data, shape);
    lemma_input_slots_len(io.input_words@, shape.spec_max_input_words() as nat);
    let w = claim_words(data, shape);
    let head = claim_head(data, shape);
    let input = input_section_words(io, shape);
    let tag = spec_output_words_tag(shape) as int;
    assert(w.subrange(0, 253) =~= head);
    assert(w.subrange(253, tag + 0) =~= input);
    assert(w.subrange(2, 4) =~= head.subrange(2, 4));
    assert(w.subrange(241, 243) =~= head.subrange(241, 243));
    assert(w.subrange(243, 245) =~= head.subrange(243, 245));
    assert(w.subrange(254, 256) =~= input.subrange(1, 3));
    assert(input.subrange(1, 3) =~= limbs(io.input_words@.len() as u32));
    assert(w.subrange(256, tag) =~= input.subrange(3, input.len() as int));
    assert(input.subrange(3, input.len() as int) =~= input_slots(
        io.input_words@,
        shape.spec_max_input_words() as nat,
    ));
    assert(public_input_words_from_claim(w, shape) =~= public_input_words(io, shape));
}

/// Reading the application output back out of an encoded claim gives exactly
/// the application-output words of that claim, access clocks left out.
proof fn lemma_claim_sections(data: PublicData, shape: VmPublicClaimShape)
    ensures
        claim_words(data, shape).subrange(0, 253) == claim_head(data, shape),
        claim_words(data, shape).subrange(
            spec_output_words_tag(shape) as int,
            claim_words(data, shape).len() as int,
        ) == output_section_words(data.io_entries, shape),
        claim_words(data, shape).len() == spec_output_words_tag(shape) + 3 + 7
            * shape.spec_max_output_words(),
{
    let io = data.io_entries;
    lemma_claim_words_len(data, shape);
    lemma_claim_head(data, shape);
    lemma_input_slots_len(io.input_words@, shape.spec_max_input_words() as nat);
    lemma_output_slots_len(io.output_words@, shape.spec_max_output_words() as nat);
    let w = claim_words(data, shape);
    let front = claim_head(data, shape) + input_section_words(io, shape);
    assert(front.subrange(0, 253) =~= claim_head(data, shape));
    assert(w.subrange(0, 253) =~= front.subrange(0, 253));
    assert(w.subrange(front.len() as int, w.len() as int) =~= output_section_words(io, shape));
}

#[verifier::spinoff_prover]
pub proof fn lemma_public_output_from_claim(data: PublicData, shape: VmPublicClaimShape)
    ensures
        public_output_words_from_claim(claim_words(data, shape), shape) == public_output_words(
            data.io_entries,
            shape,
        ),
{
    let io = data.io_entries;
    lemma_claim_sections(data, shape);
    lemma_claim_head(data, shape);
    lemma_output_slots_len(io.output_words@, shape.spec_max_output_words() as nat);
    let w = claim_words(data, shape);
    let head = claim_head(data, shape);
    let output = output_section_words(io, shape);
    let tag = spec_output_words_tag(shape) as int;
    let max = shape.spec_max_output_words() as nat;
    let tail = w.subrange(tag, w.len() as int);
    assert(w.subrange(4, 6) == limbs(shape.spec_max_output_words())) by {
        assert(w.subrange(4, 6) =~= w.subrange(0, 253).subrange(4, 6));
    }
    assert(w.subrange(245, 247) == limbs(io.output_len_addr)) by {
        assert(w.subrange(245, 247) =~= w.subrange(0, 253).subrange(245, 247));
    }
    assert(w.subrange(247, 249) == limbs(io.output_data_addr)) by {
        assert(w.subrange(247, 249) =~= w.subrange(0, 253).subrange(247, 249));
    }
    assert(w.subrange(249, 251) == limbs(io.output_len)) by {
        assert(w.subrange(249, 251) =~= w.subrange(0, 253).subrange(249, 251));
    }
    assert(w.subrange(tag + 1, tag + 3) == limbs(io.output_words@.len() as u32)) by {
        assert(w.subrange(tag + 1, tag + 3) =~= tail.subrange(1, 3));
        assert(output.subrange(1, 3) =~= limbs(io.output_words@.len() as u32));
    }
    assert(w.subrange(tag + 3, tag + 3 + 7 * max) == output_slots(io.output_words@, max)) by {
        assert(w.subrange(tag + 3, tag + 3 + 7 * max) =~= tail.subrange(3, tail.len() as int));
        assert(output.subrange(3, output.len() as int) =~= output_slots(io.output_words@, max));
    }
    lemma_public_output_parts(w, shape, io.output_words@, max);
    assert(public_output_words_from_claim(w, shape) =~= public_output_words(io, shape));
}

/// Splitting into limbs loses nothing: distinct machine words have distinct
/// limbs, so a high word never aliases zero.
pub proof fn lemma_limbs_injective(a: u32, b: u32)
    requires
        a != b,
    ensures
        limbs(a) != limbs(b),
{
    if limbs(a) == limbs(b) {
        assert(limbs(a)[0] == limbs(b)[0]);
        assert(limbs(a)[1] == limbs(b)[1]);
        assert(a == 0x10000 * (a / 0x10000) + a % 0x10000);
        assert(b == 0x10000 * (b / 0x10000) + b % 0x10000);
    }
}

/// Constraint class of one word of the canonical claim.
#[derive(Clone, Copy, Debug, PartialEq, Eq, Structural)]
pub enum VmPublicClaimWordKind {
    Constant(M31Word),
    Boolean,
    U16,
    Field,
}

/// A word class with its constant taken by value.
#[derive(Clone, Copy, Debug, PartialEq, Eq, Structural)]
pub enum WordKindView {
    Constant(u32),
    Boolean,
    U16,
    Field,
}

impl View for VmPublicClaimWordKind {
    type V = WordKindView;

    open spec fn view(&self) -> WordKindView {
        match *self {
            VmPublicClaimWordKind::Constant(word) => WordKindView::Constant(word@),
            VmPublicClaimWordKind::Boolean => WordKindView::Boolean,
            VmPublicClaimWordKind::U16 => WordKindView::U16,
            VmPublicClaimWordKind::Field => WordKindView::Field,
        }
    }
}

/// The views of a sequence of word classes.
pub open spec fn kind_views(kinds: Seq<VmPublicClaimWordKind>) -> Seq<WordKindView> {
    kinds.map_values(|k: VmPublicClaimWordKind| k@)
}

/// Whether a word meets its class.
pub open spec fn meets(word: u32, kind: WordKindView) -> bool {
    match kind {
        WordKindView::Constant(value) => word == value,
        WordKindView::Boolean => word <= 1,
        WordKindView::U16 => word < 0x10000,
        WordKindView::Field => word < M31_MODULUS,
    }
}

/// Whether every word meets the class at its position.
pub open spec fn conforms(words: Seq<u32>, kinds: Seq<WordKindView>) -> bool {
    &&& words.len() == kinds.len()
    &&& forall|i: int| 0 <= i < words.len() ==> meets(#[trigger] words[i], kinds[i])
}

/// `count` words of one class.
pub open spec fn kinds_of(kind: WordKindView, count: nat) -> Seq<WordKindView> {
    Seq::new(count, |i: int| kind)
}

/// The constant classes of a machine word's limbs.
pub open spec fn constant_limbs(value: u32) -> Seq<WordKindView> {
    seq![WordKindView::Constant(value % 0x10000), WordKindView::Constant(value / 0x10000)]
}

/// A tag's class followed by `count` 16-bit limbs.
pub open spec fn tagged_kinds(tag: ClaimTag, count: nat) -> Seq<WordKindView> {
    seq![WordKindView::Constant(tag_value(tag))] + kinds_of(WordKindView::U16, count)
}

/// The classes of a tagged optional root.
pub open spec fn root_kinds(tag: ClaimTag) -> Seq<WordKindView> {
    seq![WordKindView::Constant(tag_value(tag)), WordKindView::Boolean] + kinds_of(
        WordKindView::Field,
        8,
    )
}

/// The classes of `n` slots, each a presence bit and `limb_count` limbs.
pub open spec fn slot_kinds(limb_count: nat, n: nat) -> Seq<WordKindView>
    decreases n,
{
    if n == 0 {
        Seq::empty()
    } else {
        slot_kinds(limb_count, (n - 1) as nat) + seq![WordKindView::Boolean] + kinds_of(
            WordKindView::U16,
            limb_count,
        )
    }
}

/// The classes of the claim encoding's head.
#[verifier::opaque]
pub open spec fn head_kinds(shape: VmPublicClaimShape) -> Seq<WordKindView> {
    seq![
        WordKindView::Constant(tag_value(ClaimTag::Claim)),
        WordKindView::Constant(tag_value(ClaimTag::Shape)),
    ] + constant_limbs(shape.spec_max_input_words()) + constant_limbs(shape.spec_max_output_words())
        + tagged_kinds(ClaimTag::InitialPc, 2) + tagged_kinds(ClaimTag::FinalPc, 2) + tagged_kinds(
        ClaimTag::Clock,
        2,
    ) + tagged_kinds(ClaimTag::InitialRegisters, 64) + tagged_kinds(ClaimTag::FinalRegisters, 64)
        + tagged_kinds(ClaimTag::RegisterLastClocks, 64) + root_kinds(ClaimTag::ProgramRoot)
        + root_kinds(ClaimTag::InitialRwRoot) + root_kinds(ClaimTag::FinalRwRoot) + tagged_kinds(
        ClaimTag::IoHeader,
        12,
    )
}

/// The verifier-owned class of every word of a shape's claim encoding.
pub open spec fn claim_word_kinds(shape: VmPublicClaimShape) -> Seq<WordKindView> {
    head_kinds(shape) + tagged_kinds(ClaimTag::InputWords, 2) + slot_kinds(
        2,
        shape.spec_max_input_words() as nat,
    ) + tagged_kinds(ClaimTag::OutputWords, 2) + slot_kinds(6, shape.spec_max_output_words() as nat)
}

fn push_kind(kinds: &mut Vec<VmPublicClaimWordKind>, kind: VmPublicClaimWordKind)
    ensures
        kind_views(final(kinds)@) == kind_views(old(kinds)@).push(kind@),
{
    let ghost start = kinds@;
    kinds.push(kind);
    proof {
        assert(kind_views(kinds@) =~= kind_views(start).push(kind@));
    }
}

fn push_kinds(kinds: &mut Vec<VmPublicClaimWordKind>, kind: VmPublicClaimWordKind, count: usize)
    ensures
        kind_views(final(kinds)@) == kind_views(old(kinds)@) + kinds_of(kind@, count as nat),
{
    let ghost start = kind_views(kinds@);
    let mut i: usize = 0;
    while i < count
        invariant
            i <= count,
            kind_views(kinds@) == start + kinds_of(kind@, i as nat),
        decreases count - i,
    {
        push_kind(kinds, kind);
        proof {
            assert(kind_views(kinds@) =~= start + kinds_of(kind@, i as nat + 1));
        }
        i = i + 1;
    }
}

fn push_constant_u32(kinds: &mut Vec<VmPublicClaimWordKind>, value: u32)
    ensures
        kind_views(final(kinds)@) == kind_views(old(kinds)@) + constant_limbs(value),
{
    let ghost start = kind_views(kinds@);
    push_kind(kinds, VmPublicClaimWordKind::Constant(M31Word::from_u16((value % 0x10000) as u16)));
    push_kind(kinds, VmPublicClaimWordKind::Constant(M31Word::from_u16((value / 0x10000) as u16)));
    proof {
        assert(kind_views(kinds@) =~= start + constant_limbs(value));
    }
}

fn push_tagged_kinds(kinds: &mut Vec<VmPublicClaimWordKind>, tag: ClaimTag, count: usize)
    ensures
        kind_views(final(kinds)@) == kind_views(old(kinds)@) + tagged_kinds(tag, count as nat),
{
    let ghost start = kind_views(kinds@);
    push_kind(kinds, VmPublicClaimWordKind::Constant(tag.word()));
    push_kinds(kinds, VmPublicClaimWordKind::U16, count);
    proof {
        assert(kind_views(kinds@) =~= start + tagged_kinds(tag, count as nat));
    }
}

fn push_root_kinds(kinds: &mut Vec<VmPublicClaimWordKind>, tag: ClaimTag)
    ensures
        kind_views(final(kinds)@) == kind_views(old(kinds)@) + root_kinds(tag),
{
    let ghost start = kind_views(kinds@);
    push_kind(kinds, VmPublicClaimWordKind::Constant(tag.word()));
    push_kind(kinds, VmPublicClaimWordKind::Boolean);
    push_kinds(kinds, VmPublicClaimWordKind::Field, 8);
    proof {
        assert(kind_views(kinds@) =~= start + root_kinds(tag));
    }
}

fn push_slot_kinds(kinds: &mut Vec<VmPublicClaimWordKind>, limb_count: usize, count: u32)
    ensures
        kind_views(final(kinds)@) == kind_views(old(kinds)@) + slot_kinds(
            limb_count as nat,
            count as nat,
        ),
{
    let ghost start = kind_views(kinds@);
    let mut i: u32 = 0;
    while i < count
        invariant
            i <= count,
            kind_views(kinds@) == start + slot_kinds(limb_count as nat, i as nat),
        decreases count - i,
    {
        push_kind(kinds, VmPublicClaimWordKind::Boolean);
        push_kinds(kinds, VmPublicClaimWordKind::U16, limb_count);
        proof {
            assert(kind_views(kinds@) =~= start + slot_kinds(limb_count as nat, i as nat + 1));
        }
        i = i + 1;
    }
}

/// The complete verifier-owned word classification of one shape.
pub fn canonical_vm_public_claim_word_kinds(shape: VmPublicClaimShape) -> (kinds: Vec<
    VmPublicClaimWordKind,
>)
    ensures
        kind_views(kinds@) == claim_word_kinds(shape),
{
    let mut kinds: Vec<VmPublicClaimWordKind> = Vec::new();
    push_kind(&mut kinds, VmPublicClaimWordKind::Constant(ClaimTag::Claim.word()));
    push_kind(&mut kinds, VmPublicClaimWordKind::Constant(ClaimTag::Shape.word()));
    push_constant_u32(&mut kinds, shape.max_input_words());
    push_constant_u32(&mut kinds, shape.max_output_words());
    push_tagged_kinds(&mut kinds, ClaimTag::InitialPc, 2);
    push_tagged_kinds(&mut kinds, ClaimTag::FinalPc, 2);
    push_tagged_kinds(&mut kinds, ClaimTag::Clock, 2);
    push_tagged_kinds(&mut kinds, ClaimTag::InitialRegisters, 64);
    push_tagged_kinds(&mut kinds, ClaimTag::FinalRegisters, 64);
    push_tagged_kinds(&mut kinds, ClaimTag::RegisterLastClocks, 64);
    push_root_kinds(&mut kinds, ClaimTag::ProgramRoot);
    push_root_kinds(&mut kinds, ClaimTag::InitialRwRoot);
    push_root_kinds(&mut kinds, ClaimTag::FinalRwRoot);
    push_tagged_kinds(&mut kinds, ClaimTag::IoHeader, 12);
    push_tagged_kinds(&mut kinds, ClaimTag::InputWords, 2);
    push_slot_kinds(&mut kinds, 2, shape.max_input_words());
    push_tagged_kinds(&mut kinds, ClaimTag::OutputWords, 2);
    push_slot_kinds(&mut kinds, 6, shape.max_output_words());
    proof {
        reveal(head_kinds);
        assert(kind_views(kinds@) =~= claim_word_kinds(shape));
    }
    kinds
}

proof fn lemma_conforms_concat(
    a: Seq<u32>,
    a_kinds: Seq<WordKindView>,
    b: Seq<u32>,
    b_kinds: Seq<WordKindView>,
)
    requires
        conforms(a, a_kinds),
        conforms(b, b_kinds),
    ensures
        conforms(a + b, a_kinds + b_kinds),
{
    assert forall|i: int| 0 <= i < (a + b).len() implies meets(#[trigger] (a + b)[i], (a_kinds + b_kinds)[i]) by {
        if i >= a.len() {
            assert(meets(b[i - a.len()], b_kinds[i - a.len()]));
        } else {
            assert(meets(a[i], a_kinds[i]));
        }
    }
}

proof fn lemma_limbs_conform(value: u32)
    ensures
        conforms(limbs(value), kinds_of(WordKindView::U16, 2)),
        conforms(limbs(value), constant_limbs(value)),
{
}

proof fn lemma_limbs_of_conform(values: Seq<u32>)
    ensures
        conforms(limbs_of(values), kinds_of(WordKindView::U16, 2 * values.len())),
    decreases values.len(),
{
    if values.len() > 0 {
        lemma_limbs_of_conform(values.drop_last());
        lemma_limbs_conform(values.last());
        lemma_conforms_concat(
            limbs_of(values.drop_last()),
            kinds_of(WordKindView::U16, 2 * values.drop_last().len()),
            limbs(values.last()),
            kinds_of(WordKindView::U16, 2),
        );
        assert(kinds_of(WordKindView::U16, 2 * values.drop_last().len()) + kinds_of(
            WordKindView::U16,
            2,
        ) =~= kinds_of(WordKindView::U16, 2 * values.len()));
    }
}

proof fn lemma_tagged_u32_conforms(tag: ClaimTag, value: u32)
    ensures
        conforms(tagged_u32(tag, value), tagged_kinds(tag, 2)),
{
    lemma_limbs_conform(value);
    lemma_conforms_concat(
        seq![tag_value(tag)],
        seq![WordKindView::Constant(tag_value(tag))],
        limbs(value),
        kinds_of(WordKindView::U16, 2),
    );
}

proof fn lemma_tagged_u32s_conforms(tag: ClaimTag, values: Seq<u32>)
    ensures
        conforms(tagged_u32s(tag, values), tagged_kinds(tag, 2 * values.len())),
{
    lemma_limbs_of_conform(values);
    lemma_conforms_concat(
        seq![tag_value(tag)],
        seq![WordKindView::Constant(tag_value(tag))],
        limbs_of(values),
        kinds_of(WordKindView::U16, 2 * values.len()),
    );
}

proof fn lemma_first_noncanonical_none(values: Seq<u32>, n: nat)
    requires
        n <= values.len(),
        first_noncanonical(values, n) is None,
    ensures
        forall|i: int| 0 <= i < n ==> #[trigger] values[i] < M31_MODULUS,
    decreases n,
{
    if n > 0 {
        lemma_first_noncanonical_none(values, (n - 1) as nat);
    }
}

proof fn lemma_root_conforms(tag: ClaimTag, field: ClaimField, root: Option<[u32; 8]>)
    requires
        root_error(field, root) is None,
    ensures
        conforms(root_words(tag, root), root_kinds(tag)),
{
    match root {
        Some(r) => {
            lemma_first_noncanonical_none(r@, 8);
        },
        None => {},
    }
}

proof fn lemma_io_header_conforms(io: IoEntries)
    ensures
        conforms(io_header_words(io), tagged_kinds(ClaimTag::IoHeader, 12)),
{
}

proof fn lemma_input_slots_conform(values: Seq<u32>, n: nat)
    ensures
        conforms(input_slots(values, n), slot_kinds(2, n)),
    decreases n,
{
    if n > 0 {
        lemma_input_slots_conform(values, (n - 1) as nat);
        let i = (n - 1) as nat;
        if i < values.len() {
            lemma_limbs_conform(values[i as int]);
        }
        assert(conforms(input_slot(values, i), seq![WordKindView::Boolean] + kinds_of(WordKindView::U16, 2)));
        lemma_conforms_concat(
            input_slots(values, i),
            slot_kinds(2, i),
            input_slot(values, i),
            seq![WordKindView::Boolean] + kinds_of(WordKindView::U16, 2),
        );
        assert(slot_kinds(2, i) + (seq![WordKindView::Boolean] + kinds_of(WordKindView::U16, 2))
            =~= slot_kinds(2, n));
    }
}

proof fn lemma_output_slots_conform(outputs: Seq<OutputWord>, n: nat)
    ensures
        conforms(output_slots(outputs, n), slot_kinds(6, n)),
    decreases n,
{
    if n > 0 {
        lemma_output_slots_conform(outputs, (n - 1) as nat);
        let i = (n - 1) as nat;
        assert(conforms(output_slot(outputs, i), seq![WordKindView::Boolean] + kinds_of(WordKindView::U16, 6)));
        lemma_conforms_concat(
            output_slots(outputs, i),
            slot_kinds(6, i),
            output_slot(outputs, i),
            seq![WordKindView::Boolean] + kinds_of(WordKindView::U16, 6),
        );
        assert(slot_kinds(6, i) + (seq![WordKindView::Boolean] + kinds_of(WordKindView::U16, 6))
            =~= slot_kinds(6, n));
    }
}

#[verifier::spinoff_prover]
proof fn lemma_head_conforms(data: PublicData, shape: VmPublicClaimShape)
    requires
        claim_error(data, shape) is None,
    ensures
        conforms(claim_head(data, shape), head_kinds(shape)),
{
    reveal(claim_head);
    reveal(head_kinds);
    let w0 = seq![tag_value(ClaimTag::Claim), tag_value(ClaimTag::Shape)];
    let k0 = seq![
        WordKindView::Constant(tag_value(ClaimTag::Claim)),
        WordKindView::Constant(tag_value(ClaimTag::Shape)),
    ];
    lemma_limbs_conform(shape.spec_max_input_words());
    lemma_limbs_conform(shape.spec_max_output_words());
    lemma_conforms_concat(w0, k0, limbs(shape.spec_max_input_words()), constant_limbs(shape.spec_max_input_words()));
    let w1 = w0 + limbs(shape.spec_max_input_words());
    let k1 = k0 + constant_limbs(shape.spec_max_input_words());
    lemma_conforms_concat(w1, k1, limbs(shape.spec_max_output_words()), constant_limbs(shape.spec_max_output_words()));
    let w2 = w1 + limbs(shape.spec_max_output_words());
    let k2 = k1 + constant_limbs(shape.spec_max_output_words());
    lemma_tagged_u32_conforms(ClaimTag::InitialPc, data.initial_pc);
    lemma_conforms_concat(w2, k2, tagged_u32(ClaimTag::InitialPc, data.initial_pc), tagged_kinds(ClaimTag::InitialPc, 2));
    let w3 = w2 + tagged_u32(ClaimTag::InitialPc, data.initial_pc);
    let k3 = k2 + tagged_kinds(ClaimTag::InitialPc, 2);
    lemma_tagged_u32_conforms(ClaimTag::FinalPc, data.final_pc);
    lemma_conforms_concat(w3, k3, tagged_u32(ClaimTag::FinalPc, data.final_pc), tagged_kinds(ClaimTag::FinalPc, 2));
    let w4 = w3 + tagged_u32(ClaimTag::FinalPc, data.final_pc);
    let k4 = k3 + tagged_kinds(ClaimTag::FinalPc, 2);
    lemma_tagged_u32_conforms(ClaimTag::Clock, data.clock);
    lemma_conforms_concat(w4, k4, tagged_u32(ClaimTag::Clock, data.clock), tagged_kinds(ClaimTag::Clock, 2));
    let w5 = w4 + tagged_u32(ClaimTag::Clock, data.clock);
    let k5 = k4 + tagged_kinds(ClaimTag::Clock, 2);
    lemma_tagged_u32s_conforms(ClaimTag::InitialRegisters, data.initial_regs@);
    lemma_conforms_concat(w5, k5, tagged_u32s(ClaimTag::InitialRegisters, data.initial_regs@), tagged_kinds(ClaimTag::InitialRegisters, 64));
    let w6 = w5 + tagged_u32s(ClaimTag::InitialRegisters, data.initial_regs@);
    let k6 = k5 + tagged_kinds(ClaimTag::InitialRegisters, 64);
    lemma_tagged_u32s_conforms(ClaimTag::FinalRegisters, data.final_regs@);
    lemma_conforms_concat(w6, k6, tagged_u32s(ClaimTag::FinalRegisters, data.final_regs@), tagged_kinds(ClaimTag::FinalRegisters, 64));
    let w7 = w6 + tagged_u32s(ClaimTag::FinalRegisters, data.final_regs@);
    let k7 = k6 + tagged_kinds(ClaimTag::FinalRegisters, 64);
    lemma_tagged_u32s_conforms(ClaimTag::RegisterLastClocks, data.reg_last_clock@);
    lemma_conforms_concat(w7, k7, tagged_u32s(ClaimTag::RegisterLastClocks, data.reg_last_clock@), tagged_kinds(ClaimTag::RegisterLastClocks, 64));
    let w8 = w7 + tagged_u32s(ClaimTag::RegisterLastClocks, data.reg_last_clock@);
    let k8 = k7 + tagged_kinds(ClaimTag::RegisterLastClocks, 64);
    lemma_root_conforms(ClaimTag::ProgramRoot, ClaimField::ProgramRoot, data.program_root);
    lemma_conforms_concat(w8, k8, root_words(ClaimTag::ProgramRoot, data.program_root), root_kinds(ClaimTag::ProgramRoot));
    let w9 = w8 + root_words(ClaimTag::ProgramRoot, data.program_root);
    let k9 = k8 + root_kinds(ClaimTag::ProgramRoot);
    lemma_root_conforms(ClaimTag::InitialRwRoot, ClaimField::InitialRwRoot, data.initial_rw_root);
    lemma_conforms_concat(w9, k9, root_words(ClaimTag::InitialRwRoot, data.initial_rw_root), root_kinds(ClaimTag::InitialRwRoot));
    let w10 = w9 + root_words(ClaimTag::InitialRwRoot, data.initial_rw_root);
    let k10 = k9 + root_kinds(ClaimTag::InitialRwRoot);
    lemma_root_conforms(ClaimTag::FinalRwRoot, ClaimField::FinalRwRoot, data.final_rw_root);
    lemma_conforms_concat(w10, k10, root_words(ClaimTag::FinalRwRoot, data.final_rw_root), root_kinds(ClaimTag::FinalRwRoot));
    let w11 = w10 + root_words(ClaimTag::FinalRwRoot, data.final_rw_root);
    let k11 = k10 + root_kinds(ClaimTag::FinalRwRoot);
    lemma_io_header_conforms(data.io_entries);
    lemma_conforms_concat(w11, k11, io_header_words(data.io_entries), tagged_kinds(ClaimTag::IoHeader, 12));
}

/// Every word of an encodable claim meets the verifier-owned class at its
/// position: tags and shape limbs are the fixed constants, presence words are
/// bits, machine-word limbs fit 16 bits and root words are canonical.
pub proof fn lemma_claim_words_conform(data: PublicData, shape: VmPublicClaimShape)
    requires
        claim_error(data, shape) is None,
    ensures
        conforms(claim_words(data, shape), claim_word_kinds(shape)),
{
    let io = data.io_entries;
    lemma_head_conforms(data, shape);
    lemma_limbs_conform(io.input_words@.len() as u32);
    lemma_limbs_conform(io.output_words@.len() as u32);
    lemma_input_slots_conform(io.input_words@, shape.spec_max_input_words() as nat);
    lemma_output_slots_conform(io.output_words@, shape.spec_max_output_words() as nat);
    lemma_conforms_concat(
        seq![tag_value(ClaimTag::InputWords)],
        seq![WordKindView::Constant(tag_value(ClaimTag::InputWords))],
        limbs(io.input_words@.len() as u32),
        kinds_of(WordKindView::U16, 2),
    );
    lemma_conforms_concat(
        seq![tag_value(ClaimTag::OutputWords)],
        seq![WordKindView::Constant(tag_value(ClaimTag::OutputWords))],
        limbs(io.output_words@.len() as u32),
        kinds_of(WordKindView::U16, 2),
    );
    let head = claim_head(data, shape);
    let input_tag = seq![tag_value(ClaimTag::InputWords)] + limbs(io.input_words@.len() as u32);
    let output_tag = seq![tag_value(ClaimTag::OutputWords)] + limbs(io.output_words@.len() as u32);
    let inputs = input_slots(io.input_words@, shape.spec_max_input_words() as nat);
    let outputs = output_slots(io.output_words@, shape.spec_max_output_words() as nat);
    let input_kinds = slot_kinds(2, shape.spec_max_input_words() as nat);
    let output_kinds = slot_kinds(6, shape.spec_max_output_words() as nat);
    lemma_conforms_concat(head, head_kinds(shape), input_tag, tagged_kinds(ClaimTag::InputWords, 2));
    lemma_conforms_concat(
        head + input_tag,
        head_kinds(shape) + tagged_kinds(ClaimTag::InputWords, 2),
        inputs,
        input_kinds,
    );
    lemma_conforms_concat(
        head + input_tag + inputs,
        head_kinds(shape) + tagged_kinds(ClaimTag::InputWords, 2) + input_kinds,
        output_tag,
        tagged_kinds(ClaimTag::OutputWords, 2),
    );
    lemma_conforms_concat(
        head + input_tag + inputs + output_tag,
        head_kinds(shape) + tagged_kinds(ClaimTag::InputWords, 2) + input_kinds + tagged_kinds(
            ClaimTag::OutputWords,
            2,
        ),
        outputs,
        output_kinds,
    );
    assert(claim_words(data, shape) =~= head + input_tag + inputs + output_tag + outputs);
}

} // verus!
