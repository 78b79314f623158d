use recursion::composition_profile::{validate_witness_counts, CountField, VmAirCompositionCircuitError};

#[test]
fn witness_counts_that_match_the_program_are_accepted() {
    assert_eq!(validate_witness_counts(12, 5, 7, 12, 5, 7), Ok(12));
}

#[test]
fn each_witness_count_is_checked_in_order() {
    assert_eq!(
        validate_witness_counts(12, 5, 7, 11, 4, 6),
        Err(VmAirCompositionCircuitError::SampledValueCountMismatch { expected: 12, actual: 11 })
    );
    assert_eq!(
        validate_witness_counts(12, 5, 7, 12, 4, 6),
        Err(VmAirCompositionCircuitError::ClaimedSumCountMismatch { expected: 5, actual: 4 })
    );
    assert_eq!(
        validate_witness_counts(12, 5, 7, 12, 5, 6),
        Err(VmAirCompositionCircuitError::RelationChallengeCountMismatch { expected: 7, actual: 6 })
    );
}

#[test]
fn a_program_sample_count_past_the_field_is_refused_first() {
    let too_many = 0x7fff_ffff;
    assert_eq!(
        validate_witness_counts(too_many, 5, 7, 0, 0, 0),
        Err(VmAirCompositionCircuitError::CountOutOfRange { field: CountField::SampledValues, value: too_many })
    );
}
