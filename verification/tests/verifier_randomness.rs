use recursion::composition_control::VerifierLane;
use recursion::kernel::{
    VerifierControlPlan, VerifierSchema, VerifierStep, LEFT_RECURSION_VERIFIER_ID,
    RIGHT_RECURSION_VERIFIER_ID, SEGMENT_VERIFIER_ID,
};
use recursion::verifier_randomness::{
    append_plan_rows, draw_descriptor, DrawDescriptor, VerifierRandomnessError,
    VerifierRandomnessKind, VerifierRandomnessPreprocessed, RANDOMNESS_COLUMN_COUNT,
};

fn plan(schema: VerifierSchema, steps: Vec<VerifierStep>) -> VerifierControlPlan {
    VerifierControlPlan {
        schema,
        steps,
        pcs_parameter_word_count: 6,
        statement_word_count: 10,
    }
}

fn draws() -> Vec<VerifierStep> {
    vec![
        VerifierStep::BindProtocol,
        VerifierStep::DrawRelationChallenge { challenge: 0 },
        VerifierStep::DrawCompositionRandomness,
        VerifierStep::DrawOodsPoint,
        VerifierStep::DrawDeepRandomness,
        VerifierStep::DrawFriAlpha { layer: 2 },
        VerifierStep::DrawQueryBlock {
            block: 0,
            first_query: 8,
            query_count: 3,
        },
        VerifierStep::Complete,
    ]
}

#[test]
fn kinds_have_fixed_column_values() {
    assert_eq!(VerifierRandomnessKind::CompositionRandomness.as_u32(), 1);
    assert_eq!(VerifierRandomnessKind::OodsPoint.as_u32(), 2);
    assert_eq!(VerifierRandomnessKind::DeepRandomness.as_u32(), 3);
    assert_eq!(VerifierRandomnessKind::FriAlpha.as_u32(), 4);
    assert_eq!(VerifierRandomnessKind::RawQuery.as_u32(), 5);
}

#[test]
fn secure_draws_have_four_live_words() {
    assert_eq!(
        draw_descriptor(VerifierStep::DrawFriAlpha { layer: 2 }),
        Ok(Some(DrawDescriptor {
            kind: VerifierRandomnessKind::FriAlpha,
            item_base: 2,
            query_items: false,
            word_count: 4,
        }))
    );
    assert_eq!(draw_descriptor(VerifierStep::DrawRelationChallenge { challenge: 1 }), Ok(None));
    assert_eq!(draw_descriptor(VerifierStep::BindStatement), Ok(None));
}

#[test]
fn query_blocks_index_raw_queries() {
    assert_eq!(
        draw_descriptor(VerifierStep::DrawQueryBlock {
            block: 1,
            first_query: 8,
            query_count: 8,
        }),
        Ok(Some(DrawDescriptor {
            kind: VerifierRandomnessKind::RawQuery,
            item_base: 8,
            query_items: true,
            word_count: 8,
        }))
    );
}

#[test]
fn empty_or_wide_query_blocks_are_rejected() {
    for query_count in [0, 9] {
        assert_eq!(
            draw_descriptor(VerifierStep::DrawQueryBlock {
                block: 0,
                first_query: 0,
                query_count,
            }),
            Err(VerifierRandomnessError::QueryBlockWidthOutOfRange { query_count })
        );
    }
}

#[test]
fn overflowing_query_block_is_rejected() {
    assert_eq!(
        draw_descriptor(VerifierStep::DrawQueryBlock {
            block: 0,
            first_query: u32::MAX - 1,
            query_count: 2,
        }),
        Err(VerifierRandomnessError::QueryIndexOverflow)
    );
}

#[test]
fn plan_rows_follow_draw_steps() {
    let mut rows = Vec::new();
    let count = append_plan_rows(&mut rows, &plan(VerifierSchema::Vm, draws()), SEGMENT_VERIFIER_ID, 1, 0);
    assert_eq!(count, Ok(5));
    let sequences: Vec<u32> = rows.iter().map(|row| row.sequence).collect();
    assert_eq!(sequences, vec![2, 3, 4, 5, 6]);
    assert_eq!(rows[4].descriptor.word_count, 3);
    assert_eq!(rows[4].encoding.tag, 21);
    assert!(rows.iter().all(|row| row.segment_mask == 1 && row.binary_mask == 0));
}

#[test]
fn plan_without_draws_is_rejected() {
    let mut rows = Vec::new();
    assert_eq!(
        append_plan_rows(
            &mut rows,
            &plan(VerifierSchema::Recursion, vec![VerifierStep::BindProtocol]),
            LEFT_RECURSION_VERIFIER_ID,
            0,
            1,
        ),
        Err(VerifierRandomnessError::VerifierRandomnessMissing {
            schema: VerifierSchema::Recursion,
        })
    );
}

#[test]
fn preprocessing_covers_all_three_lanes() {
    let pre = VerifierRandomnessPreprocessed::new(
        &plan(VerifierSchema::Vm, draws()),
        &plan(
            VerifierSchema::Recursion,
            vec![VerifierStep::DrawOodsPoint, VerifierStep::DrawDeepRandomness],
        ),
    )
    .unwrap();
    assert_eq!(pre.vm_draw_count(), 5);
    assert_eq!(pre.recursion_draw_count(), 2);
    // The VM draws plus one copy of the recursion draws per binary lane.
    assert_eq!(pre.rows().len(), 5 + 2 * 2);
    assert_eq!(pre.log_size(), 4);
    let lanes: Vec<u32> = pre.rows().iter().map(|row| row.verifier_id).collect();
    assert_eq!(
        lanes,
        vec![
            SEGMENT_VERIFIER_ID,
            SEGMENT_VERIFIER_ID,
            SEGMENT_VERIFIER_ID,
            SEGMENT_VERIFIER_ID,
            SEGMENT_VERIFIER_ID,
            LEFT_RECURSION_VERIFIER_ID,
            LEFT_RECURSION_VERIFIER_ID,
            RIGHT_RECURSION_VERIFIER_ID,
            RIGHT_RECURSION_VERIFIER_ID,
        ]
    );
    assert_eq!(pre.rows()[5].descriptor, pre.rows()[7].descriptor);
}

#[test]
fn swapped_schemas_are_rejected() {
    let vm = plan(VerifierSchema::Vm, draws());
    assert_eq!(
        VerifierRandomnessPreprocessed::new(&vm, &vm).unwrap_err(),
        VerifierRandomnessError::SchemaMismatch {
            lane: VerifierLane::Binary,
            expected: VerifierSchema::Recursion,
            actual: VerifierSchema::Vm,
        }
    );
    let recursion = plan(VerifierSchema::Recursion, draws());
    assert_eq!(
        VerifierRandomnessPreprocessed::new(&recursion, &recursion).unwrap_err(),
        VerifierRandomnessError::SchemaMismatch {
            lane: VerifierLane::Segment,
            expected: VerifierSchema::Vm,
            actual: VerifierSchema::Recursion,
        }
    );
}

#[test]
fn column_values_spread_rows_over_the_padded_domain() {
    let pre = VerifierRandomnessPreprocessed::new(
        &plan(VerifierSchema::Vm, draws()),
        &plan(
            VerifierSchema::Recursion,
            vec![VerifierStep::DrawOodsPoint, VerifierStep::DrawDeepRandomness],
        ),
    )
    .unwrap();
    let columns = pre.column_values();
    assert_eq!(columns.len(), RANDOMNESS_COLUMN_COUNT);
    assert!(columns.iter().all(|column| column.len() == 16));
    // Row four is the query block of the VM plan: three raw queries from eight.
    assert_eq!(columns[0][4], 1);
    assert_eq!(columns[1][4], 1);
    assert_eq!(columns[2][4], 0);
    assert_eq!(columns[3][4], SEGMENT_VERIFIER_ID);
    assert_eq!(columns[4][4], 6);
    assert_eq!(columns[5][4], 21);
    assert_eq!(columns[10][4], 5);
    assert_eq!(columns[11][4], 8);
    assert_eq!(columns[12][4], 1);
    let word_masks: Vec<u32> = (13..21).map(|c| columns[c][4]).collect();
    assert_eq!(word_masks, vec![1, 1, 1, 0, 0, 0, 0, 0]);
    // Row eight is the last right-recursion draw; rows past the table are zero.
    assert_eq!(columns[2][8], 1);
    assert_eq!(columns[3][8], RIGHT_RECURSION_VERIFIER_ID);
    assert!(columns.iter().all(|column| column[9..].iter().all(|value| *value == 0)));
}
