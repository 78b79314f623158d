use recursion::kernel::{VerifierControlPlan, VerifierSchema, VerifierStep};
use recursion::transcript_program::{
    monotonic_delta, validate_input_counts, TranscriptProgramError, WireCounts, WireField,
};

fn plan(steps: Vec<VerifierStep>) -> VerifierControlPlan {
    VerifierControlPlan { schema: VerifierSchema::Vm, steps, pcs_parameter_word_count: 6, statement_word_count: 10 }
}

fn steps() -> Vec<VerifierStep> {
    vec![
        VerifierStep::AbsorbTraceCommitment { tree: 0 },
        VerifierStep::AbsorbTraceCommitment { tree: 1 },
        VerifierStep::AbsorbClaimedSums { count: 3 },
        VerifierStep::AbsorbSampledValues { count: 5 },
        VerifierStep::AbsorbFriCommitment { layer: 0 },
        VerifierStep::AbsorbLastLayerCoefficients { count: 2 },
        VerifierStep::DrawQueryBlock { block: 0, first_query: 0, query_count: 8 },
        VerifierStep::DrawQueryBlock { block: 1, first_query: 8, query_count: 4 },
    ]
}

fn counts() -> WireCounts {
    WireCounts {
        commitments: 2,
        claimed_sums: 3,
        sampled_values: 5,
        fri_layers: 1,
        queries: 12,
        last_layer_coefficients: 2,
    }
}

#[test]
fn matching_wire_dimensions_are_accepted() {
    assert_eq!(validate_input_counts(&plan(steps()), counts()), Ok(()));
}

#[test]
fn each_wire_dimension_is_checked_in_order() {
    let wrong = WireCounts { commitments: 3, fri_layers: 0, ..counts() };
    assert_eq!(
        validate_input_counts(&plan(steps()), wrong),
        Err(TranscriptProgramError::InputCountMismatch { field: WireField::Commitments, expected: 2, actual: 3 })
    );
    let wrong = WireCounts { fri_layers: 2, ..counts() };
    assert_eq!(
        validate_input_counts(&plan(steps()), wrong),
        Err(TranscriptProgramError::InputCountMismatch { field: WireField::FriLayers, expected: 1, actual: 2 })
    );
    let wrong = WireCounts { sampled_values: 4, last_layer_coefficients: 9, ..counts() };
    assert_eq!(
        validate_input_counts(&plan(steps()), wrong),
        Err(TranscriptProgramError::InputCountMismatch { field: WireField::SampledValues, expected: 5, actual: 4 })
    );
    let wrong = WireCounts { queries: 13, ..counts() };
    assert_eq!(
        validate_input_counts(&plan(steps()), wrong),
        Err(TranscriptProgramError::InputCountMismatch { field: WireField::RawQueries, expected: 12, actual: 13 })
    );
}

#[test]
fn query_totals_that_overflow_are_rejected() {
    let mut steps = steps();
    steps.push(VerifierStep::DrawQueryBlock { block: 2, first_query: 12, query_count: u32::MAX });
    assert_eq!(
        validate_input_counts(&plan(steps), counts()),
        Err(TranscriptProgramError::QueryCountOverflow)
    );
}

#[test]
fn identifiers_advance_by_their_difference() {
    assert_eq!(monotonic_delta(3, 10), 7);
    assert_eq!(monotonic_delta(5, 5), 0);
}
