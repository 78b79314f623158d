//! Canonical Mersenne-31 words.
//!
//! Every verifier-visible word of the recursion encoding is an integer below
//! `2^31 - 1`. The type keeps that bound as an invariant, so a word can only
//! be built from a value that was checked (or is small enough to need no check).
use vstd::prelude::*;

verus! {

/// The Mersenne-31 modulus `2^31 - 1`.
pub const M31_MODULUS: u32 = 0x7fff_ffff;

/// A canonical base-field word, strictly below [`M31_MODULUS`].
#[derive(Clone, Copy, Debug, PartialEq, Eq, Structural)]
pub struct M31Word {
    value: u32,
}

impl View for M31Word {
    type V = u32;

    closed spec fn view(&self) -> u32 {
        self.value
    }
}

/// The plain values of a sequence of words.
pub open spec fn word_values(words: Seq<M31Word>) -> Seq<u32> {
    words.map_values(|word: M31Word| word@)
}

impl M31Word {
    #[verifier::type_invariant]
    spec fn canonical(self) -> bool {
        self.value < M31_MODULUS
    }

    /// The zero word, as a value.
    pub closed spec fn spec_zero() -> Self {
        M31Word { value: 0 }
    }

    /// Words are equal exactly when their values are.
    pub proof fn lemma_view_injective(a: Self, b: Self)
        ensures
            a == b <==> a@ == b@,
    {
    }

    /// The zero word's value is zero.
    pub proof fn lemma_spec_zero()
        ensures
            Self::spec_zero()@ == 0,
    {
    }

    /// The zero word.
    pub fn zero() -> (word: Self)
        ensures
            word@ == 0,
            word == Self::spec_zero(),
    {
        M31Word { value: 0 }
    }

    /// Every 16-bit value is canonical.
    pub fn from_u16(value: u16) -> (word: Self)
        ensures
            word@ == value as u32,
    {
        M31Word { value: value as u32 }
    }

    /// Checked conversion: `None` exactly when the value is not below the modulus.
    pub fn try_from_u32(value: u32) -> (word: Option<Self>)
        ensures
            word matches Some(w) ==> w@ == value,
            word is Some <==> value < M31_MODULUS,
    {
        if value < M31_MODULUS {
            Some(M31Word { value })
        } else {
            None
        }
    }

    /// The integer held by the word.
    pub fn as_u32(self) -> (value: u32)
        ensures
            value == self@,
            value < M31_MODULUS,
    {
        proof {
            use_type_invariant(&self);
        }
        self.value
    }
}

/// Appending a word appends its value.
pub proof fn lemma_word_values_push(words: Seq<M31Word>, word: M31Word)
    ensures
        word_values(words.push(word)) == word_values(words).push(word@),
{
    assert(word_values(words.push(word)) =~= word_values(words).push(word@));
}

} // verus!
