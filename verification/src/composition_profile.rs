//! Fixed dimensions of one compiled VM AIR composition profile.
use crate::m31::M31_MODULUS;
use vstd::prelude::*;

verus! {

/// Which count of a composition profile is meant.
#[derive(Clone, Copy, Debug, PartialEq, Eq, Structural)]
pub enum CountField {
    SampledValues,
    ClaimedSums,
    RelationChallenges,
    AirInstructions,
}

/// Invalid profile dimension or circuit input assignment.
#[derive(Clone, Copy, Debug, PartialEq, Eq, Structural)]
pub enum VmAirCompositionCircuitError {
    SampledValueCountMismatch { expected: usize, actual: usize },
    ClaimedSumCountMismatch { expected: usize, actual: usize },
    RelationChallengeCountMismatch { expected: usize, actual: usize },
    CountOutOfRange { field: CountField, value: usize },
}

/// Whether a count is a canonical M31 word.
pub open spec fn is_canonical_count(value: usize) -> bool {
    value < M31_MODULUS
}

/// Converts a count to a canonical M31 word value.
pub fn checked_count(field: CountField, value: usize) -> (result: Result<
    u32,
    VmAirCompositionCircuitError,
>)
    ensures
        match result {
            Ok(count) => is_canonical_count(value) && count == value,
            Err(error) => !is_canonical_count(value) && error
                == VmAirCompositionCircuitError::CountOutOfRange { field, value },
        },
{
    if value < M31_MODULUS as usize {
        Ok(value as u32)
    } else {
        Err(VmAirCompositionCircuitError::CountOutOfRange { field, value })
    }
}

/// Fixed dimensions tied to one compiled VM AIR profile.
#[derive(Clone, Debug, PartialEq, Eq)]
pub struct VmAirCompositionProfile {
    component_log_sizes: Vec<u32>,
    sampled_value_count: u32,
    claimed_sum_count: u32,
    relation_challenge_count: u32,
    air_instruction_count: u32,
}

impl VmAirCompositionProfile {
    pub closed spec fn spec_component_log_sizes(&self) -> Seq<u32> {
        self.component_log_sizes@
    }

    pub closed spec fn spec_sampled_value_count(&self) -> u32 {
        self.sampled_value_count
    }

    pub closed spec fn spec_claimed_sum_count(&self) -> u32 {
        self.claimed_sum_count
    }

    pub closed spec fn spec_relation_challenge_count(&self) -> u32 {
        self.relation_challenge_count
    }

    pub closed spec fn spec_air_instruction_count(&self) -> u32 {
        self.air_instruction_count
    }

    /// Every count of a profile is a canonical M31 word.
    pub open spec fn wf(&self) -> bool {
        &&& self.spec_sampled_value_count() < M31_MODULUS
        &&& self.spec_claimed_sum_count() < M31_MODULUS
        &&& self.spec_relation_challenge_count() < M31_MODULUS
        &&& self.spec_air_instruction_count() < M31_MODULUS
    }

    /// Builds a profile from a compiled program's dimensions. Each count is
    /// checked in the order sampled values, claimed sums, relation challenges,
    /// AIR instructions; the first that is not a canonical M31 word is the error.
    pub fn new(
        component_log_sizes: Vec<u32>,
        sampled_value_count: usize,
        claimed_sum_count: usize,
        relation_challenge_count: usize,
        air_instruction_count: usize,
    ) -> (result: Result<Self, VmAirCompositionCircuitError>)
        ensures
            match result {
                Ok(profile) => {
                    &&& is_canonical_count(sampled_value_count)
                    &&& is_canonical_count(claimed_sum_count)
                    &&& is_canonical_count(relation_challenge_count)
                    &&& is_canonical_count(air_instruction_count)
                    &&& profile.spec_component_log_sizes() == component_log_sizes@
                    &&& profile.spec_sampled_value_count() == sampled_value_count
                    &&& profile.spec_claimed_sum_count() == claimed_sum_count
                    &&& profile.spec_relation_challenge_count() == relation_challenge_count
                    &&& profile.spec_air_instruction_count() == air_instruction_count
                    &&& profile.wf()
                },
                Err(error) => if !is_canonical_count(sampled_value_count) {
                    error == VmAirCompositionCircuitError::CountOutOfRange {
                        field: CountField::SampledValues,
                        value: sampled_value_count,
                    }
                } else if !is_canonical_count(claimed_sum_count) {
                    error == VmAirCompositionCircuitError::CountOutOfRange {
                        field: CountField::ClaimedSums,
                        value: claimed_sum_count,
                    }
                } else if !is_canonical_count(relation_challenge_count) {
                    error == VmAirCompositionCircuitError::CountOutOfRange {
                        field: CountField::RelationChallenges,
                        value: relation_challenge_count,
                    }
                } else {
                    !is_canonical_count(air_instruction_count) && error
                        == VmAirCompositionCircuitError::CountOutOfRange {
                        field: CountField::AirInstructions,
                        value: air_instruction_count,
                    }
                },
            },
    {
        let sampled_value_count = checked_count(CountField::SampledValues, sampled_value_count)?;
        let claimed_sum_count = checked_count(CountField::ClaimedSums, claimed_sum_count)?;
        let relation_challenge_count = checked_count(
            CountField::RelationChallenges,
            relation_challenge_count,
        )?;
        let air_instruction_count = checked_count(
            CountField::AirInstructions,
            air_instruction_count,
        )?;
        Ok(VmAirCompositionProfile {
            component_log_sizes,
            sampled_value_count,
            claimed_sum_count,
            relation_challenge_count,
            air_instruction_count,
        })
    }

    pub fn component_log_sizes(&self) -> (sizes: &[u32])
        ensures
            sizes@ == self.spec_component_log_sizes(),
    {
        self.component_log_sizes.as_slice()
    }

    pub fn sampled_value_count(&self) -> (count: u32)
        ensures
            count == self.spec_sampled_value_count(),
    {
        self.sampled_value_count
    }

    pub fn claimed_sum_count(&self) -> (count: u32)
        ensures
            count == self.spec_claimed_sum_count(),
    {
        self.claimed_sum_count
    }

    pub fn relation_challenge_count(&self) -> (count: u32)
        ensures
            count == self.spec_relation_challenge_count(),
    {
        self.relation_challenge_count
    }

    pub fn air_instruction_count(&self) -> (count: u32)
        ensures
            count == self.spec_air_instruction_count(),
    {
        self.air_instruction_count
    }

    /// Whether two profiles have the same component sizes and counts.
    pub fn same_profile(&self, other: &Self) -> (same: bool)
        ensures
            same == same_profile(*self, *other),
            same == (self.spec_component_log_sizes() == other.spec_component_log_sizes()
                && self.spec_sampled_value_count() == other.spec_sampled_value_count()
                && self.spec_claimed_sum_count() == other.spec_claimed_sum_count()
                && self.spec_relation_challenge_count() == other.spec_relation_challenge_count()
                && self.spec_air_instruction_count() == other.spec_air_instruction_count()),
    {
        proof {
            lemma_same_profile_is_field_equality(*self, *other);
        }
        if self.sampled_value_count != other.sampled_value_count
            || self.claimed_sum_count != other.claimed_sum_count
            || self.relation_challenge_count != other.relation_challenge_count
            || self.air_instruction_count != other.air_instruction_count
            || self.component_log_sizes.len() != other.component_log_sizes.len() {
            return false;
        }
        let mut i: usize = 0;
        while i < self.component_log_sizes.len()
            invariant
                i <= self.component_log_sizes@.len(),
                self.component_log_sizes@.len() == other.component_log_sizes@.len(),
                forall|j: int| 0 <= j < i ==> self.component_log_sizes@[j] == other.component_log_sizes@[j],
            decreases self.component_log_sizes@.len() - i,
        {
            if self.component_log_sizes[i] != other.component_log_sizes[i] {
                return false;
            }
            i = i + 1;
        }
        proof {
            assert(self.component_log_sizes@ =~= other.component_log_sizes@);
        }
        true
    }
}

/// Two profiles with the same component sizes and counts.
pub open spec fn same_profile(a: VmAirCompositionProfile, b: VmAirCompositionProfile) -> bool {
    &&& a.spec_component_log_sizes() == b.spec_component_log_sizes()
    &&& a.spec_sampled_value_count() == b.spec_sampled_value_count()
    &&& a.spec_claimed_sum_count() == b.spec_claimed_sum_count()
    &&& a.spec_relation_challenge_count() == b.spec_relation_challenge_count()
    &&& a.spec_air_instruction_count() == b.spec_air_instruction_count()
}

/// Two profiles are the same exactly when every field agrees: the
/// component log sizes and the sampled-value, claimed-sum,
/// relation-challenge and AIR-instruction counts.
pub proof fn lemma_same_profile_is_field_equality(a: VmAirCompositionProfile, b: VmAirCompositionProfile)
    ensures
        same_profile(a, b) <==> (a.spec_component_log_sizes() == b.spec_component_log_sizes()
            && a.spec_sampled_value_count() == b.spec_sampled_value_count()
            && a.spec_claimed_sum_count() == b.spec_claimed_sum_count()
            && a.spec_relation_challenge_count() == b.spec_relation_challenge_count()
            && a.spec_air_instruction_count() == b.spec_air_instruction_count()),
{
}

/// The outcome of checking a composition witness's input counts against
/// the program: the program's sampled-value count must be a canonical word,
/// then the witness must hold exactly that many sampled values, one claimed
/// sum per component and one challenge per relation, checked in that order.
pub open spec fn spec_witness_counts(
    program_sampled_values: usize,
    component_count: usize,
    relation_count: usize,
    sampled_values: usize,
    claimed_sums: usize,
    relation_challenges: usize,
) -> Result<u32, VmAirCompositionCircuitError> {
    if !is_canonical_count(program_sampled_values) {
        Err(
            VmAirCompositionCircuitError::CountOutOfRange {
                field: CountField::SampledValues,
                value: program_sampled_values,
            },
        )
    } else if sampled_values != program_sampled_values {
        Err(
            VmAirCompositionCircuitError::SampledValueCountMismatch {
                expected: program_sampled_values,
                actual: sampled_values,
            },
        )
    } else if claimed_sums != component_count {
        Err(VmAirCompositionCircuitError::ClaimedSumCountMismatch { expected: component_count, actual: claimed_sums })
    } else if relation_challenges != relation_count {
        Err(
            VmAirCompositionCircuitError::RelationChallengeCountMismatch {
                expected: relation_count,
                actual: relation_challenges,
            },
        )
    } else {
        Ok(program_sampled_values as u32)
    }
}

/// Checks a composition witness's input counts against the program before
/// any circuit is built, and gives the sampled-value count as a word.
pub fn validate_witness_counts(
    program_sampled_values: usize,
    component_count: usize,
    relation_count: usize,
    sampled_values: usize,
    claimed_sums: usize,
    relation_challenges: usize,
) -> (result: Result<u32, VmAirCompositionCircuitError>)
    ensures
        result == spec_witness_counts(
            program_sampled_values,
            component_count,
            relation_count,
            sampled_values,
            claimed_sums,
            relation_challenges,
        ),
{
    let sampled_value_count = checked_count(CountField::SampledValues, program_sampled_values)?;
    if sampled_values != program_sampled_values {
        return Err(
            VmAirCompositionCircuitError::SampledValueCountMismatch {
                expected: program_sampled_values,
                actual: sampled_values,
            },
        );
    }
    if claimed_sums != component_count {
        return Err(
            VmAirCompositionCircuitError::ClaimedSumCountMismatch { expected: component_count, actual: claimed_sums },
        );
    }
    if relation_challenges != relation_count {
        return Err(
            VmAirCompositionCircuitError::RelationChallengeCountMismatch {
                expected: relation_count,
                actual: relation_challenges,
            },
        );
    }
    Ok(sampled_value_count)
}

} // verus!
