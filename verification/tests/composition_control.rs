use recursion::composition_control::{
    validated_rows, VerifierLane, VmAirCompositionControlError,
    VmAirCompositionControlPreprocessed, CONTROL_COLUMN_COUNT,
};
use recursion::composition_profile::VmAirCompositionProfile;
use recursion::kernel::{VerifierControlPlan, VerifierSchema, VerifierStep};

fn plan(schema: VerifierSchema, air_instructions: u32, sampled_values: u32) -> VerifierControlPlan {
    let mut steps = vec![
        VerifierStep::BindProtocol,
        VerifierStep::BindStatement,
        VerifierStep::DrawCompositionRandomness,
    ];
    for instruction in 0..air_instructions {
        steps.push(VerifierStep::EvaluateAirInstruction { instruction });
    }
    steps.push(VerifierStep::AssertComposition {
        sampled_value_count: sampled_values,
    });
    steps.push(VerifierStep::Complete);
    VerifierControlPlan {
        schema,
        steps,
        pcs_parameter_word_count: 8,
        statement_word_count: 4,
    }
}

#[test]
fn noncontiguous_air_instructions_are_rejected() {
    assert_eq!(
        validated_rows(
            &[
                VerifierStep::EvaluateAirInstruction { instruction: 0 },
                VerifierStep::BindStatement,
                VerifierStep::EvaluateAirInstruction { instruction: 1 },
                VerifierStep::AssertComposition {
                    sampled_value_count: 3,
                },
            ],
            2,
            3,
            0,
        ),
        Err(VmAirCompositionControlError::NonContiguousInstruction {
            previous: 0,
            actual: 2,
        })
    );
}

#[test]
fn missing_composition_assertion_is_rejected() {
    assert_eq!(
        validated_rows(
            &[VerifierStep::EvaluateAirInstruction { instruction: 0 }],
            1,
            3,
            0,
        ),
        Err(VmAirCompositionControlError::CompositionAssertionMissing)
    );
}

#[test]
fn sampled_value_count_drift_is_rejected() {
    assert_eq!(
        validated_rows(
            &[
                VerifierStep::EvaluateAirInstruction { instruction: 0 },
                VerifierStep::AssertComposition {
                    sampled_value_count: 8,
                },
            ],
            1,
            7,
            0,
        ),
        Err(VmAirCompositionControlError::SampledValueCountMismatch {
            expected: 7,
            actual: 8,
        })
    );
}

#[test]
fn instruction_after_assertion_is_rejected() {
    assert_eq!(
        validated_rows(
            &[
                VerifierStep::AssertComposition {
                    sampled_value_count: 2,
                },
                VerifierStep::EvaluateAirInstruction { instruction: 0 },
            ],
            0,
            2,
            0,
        ),
        Err(VmAirCompositionControlError::InstructionAfterCompositionAssertion { instruction: 0 })
    );
}

#[test]
fn out_of_order_instruction_is_rejected() {
    assert_eq!(
        validated_rows(
            &[VerifierStep::EvaluateAirInstruction { instruction: 1 }],
            1,
            2,
            0,
        ),
        Err(VmAirCompositionControlError::NonCanonicalInstructionIndex {
            expected: 0,
            actual: 1,
        })
    );
}

#[test]
fn short_air_program_is_rejected_at_the_assertion() {
    assert_eq!(
        validated_rows(
            &[
                VerifierStep::EvaluateAirInstruction { instruction: 0 },
                VerifierStep::AssertComposition {
                    sampled_value_count: 2,
                },
            ],
            2,
            2,
            0,
        ),
        Err(VmAirCompositionControlError::InstructionCountMismatch {
            expected: 2,
            actual: 1,
        })
    );
}

#[test]
fn duplicate_and_detached_assertions_are_rejected() {
    assert_eq!(
        validated_rows(
            &[
                VerifierStep::AssertComposition {
                    sampled_value_count: 2,
                },
                VerifierStep::AssertComposition {
                    sampled_value_count: 2,
                },
            ],
            0,
            2,
            0,
        ),
        Err(VmAirCompositionControlError::DuplicateCompositionAssertion)
    );
    assert_eq!(
        validated_rows(
            &[
                VerifierStep::EvaluateAirInstruction { instruction: 0 },
                VerifierStep::Complete,
                VerifierStep::AssertComposition {
                    sampled_value_count: 2,
                },
            ],
            1,
            2,
            0,
        ),
        Err(VmAirCompositionControlError::CompositionAssertionNotAdjacent {
            previous: 0,
            actual: 2,
        })
    );
}

#[test]
fn accepted_lane_rows_follow_the_plan_positions() {
    let rows = validated_rows(
        &[
            VerifierStep::BindProtocol,
            VerifierStep::EvaluateAirInstruction { instruction: 0 },
            VerifierStep::EvaluateAirInstruction { instruction: 1 },
            VerifierStep::AssertComposition {
                sampled_value_count: 5,
            },
        ],
        2,
        5,
        0,
    )
    .unwrap();
    assert_eq!(rows.len(), 3);
    assert_eq!(
        rows.iter().map(|row| row.sequence).collect::<Vec<_>>(),
        vec![1, 2, 3]
    );
    assert_eq!(rows[0].arg_0, 0);
    assert_eq!(rows[1].arg_0, 1);
    assert_eq!(rows[2].arg_0, 5);
    assert!(rows.iter().all(|row| row.segment_mask == 1 && row.verifier_id == 0));
}

#[test]
fn preprocessing_owns_one_segment_and_two_binary_lanes() {
    let profile = VmAirCompositionProfile::new(vec![6, 6], 3, 2, 1, 4).unwrap();
    let preprocessed = VmAirCompositionControlPreprocessed::new(
        &plan(VerifierSchema::Vm, 4, 3),
        &profile,
        &plan(VerifierSchema::Recursion, 2, 7),
        2,
        7,
    )
    .unwrap();
    assert_eq!(preprocessed.row_count(), 5 + 3 + 3);
    assert_eq!(preprocessed.log_size(), 4);
    assert_eq!(
        (
            preprocessed.vm_air_instruction_count(),
            preprocessed.vm_sampled_value_count(),
            preprocessed.recursion_air_instruction_count(),
            preprocessed.recursion_sampled_value_count(),
        ),
        (4, 3, 2, 7)
    );
}

#[test]
fn swapped_plans_are_rejected_by_schema() {
    let profile = VmAirCompositionProfile::new(vec![6], 3, 2, 1, 4).unwrap();
    assert_eq!(
        VmAirCompositionControlPreprocessed::new(
            &plan(VerifierSchema::Recursion, 4, 3),
            &profile,
            &plan(VerifierSchema::Recursion, 2, 7),
            2,
            7,
        )
        .err(),
        Some(VmAirCompositionControlError::SchemaMismatch {
            lane: VerifierLane::Segment,
            expected: VerifierSchema::Vm,
            actual: VerifierSchema::Recursion,
        })
    );
}

#[test]
fn control_columns_follow_the_rows() {
    let profile = VmAirCompositionProfile::new(vec![6, 6], 3, 2, 1, 4).unwrap();
    let preprocessed = VmAirCompositionControlPreprocessed::new(
        &plan(VerifierSchema::Vm, 4, 3),
        &profile,
        &plan(VerifierSchema::Recursion, 2, 7),
        2,
        7,
    )
    .unwrap();
    let columns = preprocessed.column_values();
    assert_eq!(columns.len(), CONTROL_COLUMN_COUNT);
    assert!(columns.iter().all(|column| column.len() == 16));
    // Segment lane: four instructions from plan position three, then the assertion.
    assert_eq!(columns[3][..5].to_vec(), vec![3, 4, 5, 6, 7]);
    assert_eq!(columns[1][..5].to_vec(), vec![1, 1, 1, 1, 1]);
    assert_eq!(columns[5][..4].to_vec(), vec![0, 1, 2, 3]);
    assert_eq!(columns[5][4], 3);
    // Binary lanes: masks off, the two recursion verifier ids.
    assert_eq!(columns[1][5..11].to_vec(), vec![0, 0, 0, 0, 0, 0]);
    assert_eq!(columns[2][5], columns[2][6]);
    assert_ne!(columns[2][5], columns[2][8]);
    for (index, row) in preprocessed.rows().iter().enumerate() {
        assert_eq!(columns[0][index], 1);
        assert_eq!(columns[2][index], row.verifier_id);
        assert_eq!(columns[4][index], row.tag);
        assert_eq!(columns[8][index], row.arg_3);
    }
    assert!(columns.iter().all(|column| column[11..].iter().all(|value| *value == 0)));
}
