use recursion::kernel::{StepEncoding, VerifierControlPlan, VerifierSchema, VerifierStep};
use recursion::m31::{M31Word, M31_MODULUS};

#[test]
fn step_tags_follow_the_pipeline_order() {
    assert_eq!(
        VerifierStep::BindProtocol.encode(),
        StepEncoding { tag: 1, arity: 0, arg_0: 0, arg_1: 0, arg_2: 0, arg_3: 0 }
    );
    assert_eq!(VerifierStep::AbsorbTraceCommitment { tree: 2 }.encode().tag, 4);
    assert_eq!(VerifierStep::Complete.encode().tag, 28);
}

#[test]
fn step_arguments_fill_in_field_order() {
    assert_eq!(
        VerifierStep::DrawQueryBlock { block: 1, first_query: 8, query_count: 8 }.encode(),
        StepEncoding { tag: 21, arity: 3, arg_0: 1, arg_1: 8, arg_2: 8, arg_3: 0 }
    );
    assert_eq!(
        VerifierStep::VerifyTraceMerklePath { tree: 3, query: 5, depth: 9 }.encode(),
        StepEncoding { tag: 22, arity: 3, arg_0: 3, arg_1: 5, arg_2: 9, arg_3: 0 }
    );
    assert_eq!(
        VerifierStep::FoldFri { layer: 2, query: 7 }.encode(),
        StepEncoding { tag: 25, arity: 2, arg_0: 2, arg_1: 7, arg_2: 0, arg_3: 0 }
    );
}

#[test]
fn control_plan_exposes_its_schema_and_steps() {
    let plan = VerifierControlPlan {
        schema: VerifierSchema::Recursion,
        steps: vec![VerifierStep::BindProtocol, VerifierStep::Complete],
        pcs_parameter_word_count: 4,
        statement_word_count: 2,
    };
    assert_eq!(plan.schema(), VerifierSchema::Recursion);
    assert_eq!(plan.steps(), &[VerifierStep::BindProtocol, VerifierStep::Complete][..]);
}

#[test]
fn m31_words_are_canonical() {
    assert_eq!(M31Word::zero().as_u32(), 0);
    assert_eq!(M31Word::from_u16(0xffff).as_u32(), 0xffff);
    assert_eq!(M31Word::try_from_u32(M31_MODULUS - 1).map(M31Word::as_u32), Some(M31_MODULUS - 1));
    assert_eq!(M31Word::try_from_u32(M31_MODULUS), None);
    assert_eq!(M31Word::try_from_u32(u32::MAX), None);
}
