use recursion::kernel::{VerifierControlPlan, VerifierSchema, VerifierStep};
use recursion::m31::{M31Word, M31_MODULUS};
use recursion::pcs_layout::{PcsConfig, PcsManifestShape};
use recursion::trace_merkle::{
    canonical_usize, control_sequence, validate_profile, TraceArithmetic, TraceIndexField,
    TraceMerkleError, ValidatedProfile,
};

fn word(value: u32) -> M31Word {
    M31Word::try_from_u32(value).unwrap()
}

fn plan(schema: VerifierSchema, steps: Vec<VerifierStep>) -> VerifierControlPlan {
    VerifierControlPlan {
        schema,
        steps,
        pcs_parameter_word_count: 0,
        statement_word_count: 0,
    }
}

fn config() -> PcsConfig {
    PcsConfig { log_blowup_factor: 1, n_queries: 2, lifting_log_size: None }
}

fn columns() -> Vec<Vec<u32>> {
    vec![vec![3, 5], vec![4]]
}

fn shape() -> PcsManifestShape {
    PcsManifestShape {
        claimed_sum_count: word(0),
        sampled_value_count: word(3),
        queried_value_count: word(6),
        table_log_sizes: [3, 5, 4].map(word).to_vec(),
        tree_heights: [6, 5].map(word).to_vec(),
        lifting_log_size: 6,
    }
}

#[test]
fn agreeing_profile_fixes_its_query_dimensions() {
    let plan = plan(VerifierSchema::Vm, vec![VerifierStep::Complete]);
    assert_eq!(
        validate_profile(VerifierSchema::Vm, &plan, config(), &shape(), &columns()),
        Ok(ValidatedProfile { query_count: 2, queried_value_count: 6 })
    );
}

#[test]
fn profile_for_another_schema_is_rejected() {
    let plan = plan(VerifierSchema::Recursion, vec![]);
    assert_eq!(
        validate_profile(VerifierSchema::Vm, &plan, config(), &shape(), &columns()),
        Err(TraceMerkleError::SchemaMismatch {
            profile: VerifierSchema::Vm,
            expected: VerifierSchema::Vm,
            actual: VerifierSchema::Recursion,
        })
    );
}

#[test]
fn profile_with_a_wrong_tree_height_is_rejected() {
    let plan = plan(VerifierSchema::Vm, vec![]);
    let mut shape = shape();
    shape.tree_heights[1] = word(7);
    assert_eq!(
        validate_profile(VerifierSchema::Vm, &plan, config(), &shape, &columns()),
        Err(TraceMerkleError::TreeHeightMismatch {
            profile: VerifierSchema::Vm,
            tree: 1,
            expected: 5,
            actual: 7,
        })
    );
}

#[test]
fn lifted_profile_commits_every_tree_at_the_lifting_height() {
    let plan = plan(VerifierSchema::Vm, vec![]);
    let config = PcsConfig { log_blowup_factor: 1, n_queries: 2, lifting_log_size: Some(6) };
    let mut shape = shape();
    shape.tree_heights = [6, 6].map(word).to_vec();
    assert_eq!(
        validate_profile(VerifierSchema::Vm, &plan, config, &shape, &columns()),
        Ok(ValidatedProfile { query_count: 2, queried_value_count: 6 })
    );
}

#[test]
fn profile_with_wrong_counts_is_rejected() {
    let plan = plan(VerifierSchema::Vm, vec![]);
    let mut short = shape();
    short.tree_heights.pop();
    assert_eq!(
        validate_profile(VerifierSchema::Vm, &plan, config(), &short, &columns()),
        Err(TraceMerkleError::TreeCountMismatch {
            profile: VerifierSchema::Vm,
            expected: 1,
            actual: 2,
        })
    );
    let mut extra = shape();
    extra.table_log_sizes.push(word(3));
    assert_eq!(
        validate_profile(VerifierSchema::Vm, &plan, config(), &extra, &columns()),
        Err(TraceMerkleError::ColumnCountMismatch {
            profile: VerifierSchema::Vm,
            expected: 4,
            actual: 3,
        })
    );
    let mut sizes = shape();
    sizes.table_log_sizes[1] = word(4);
    assert_eq!(
        validate_profile(VerifierSchema::Vm, &plan, config(), &sizes, &columns()),
        Err(TraceMerkleError::ColumnLogSizeMismatch {
            profile: VerifierSchema::Vm,
            column: 1,
            expected: 5,
            actual: 4,
        })
    );
    let mut queried = shape();
    queried.queried_value_count = word(5);
    assert_eq!(
        validate_profile(VerifierSchema::Vm, &plan, config(), &queried, &columns()),
        Err(TraceMerkleError::QueriedValueCountMismatch {
            profile: VerifierSchema::Vm,
            expected: 6,
            actual: 5,
        })
    );
}

#[test]
fn empty_tree_and_height_overflow_are_rejected() {
    let plan = plan(VerifierSchema::Recursion, vec![]);
    let mut shape = shape();
    shape.table_log_sizes = [3, 5].map(word).to_vec();
    assert_eq!(
        validate_profile(
            VerifierSchema::Recursion,
            &plan,
            config(),
            &shape,
            &[vec![3, 5], vec![]]
        ),
        Err(TraceMerkleError::EmptyCommitmentTree { profile: VerifierSchema::Recursion, tree: 1 })
    );
    let huge = PcsConfig { log_blowup_factor: u32::MAX, n_queries: 2, lifting_log_size: None };
    assert_eq!(
        validate_profile(VerifierSchema::Recursion, &plan, huge, &self::shape(), &columns()),
        Err(TraceMerkleError::ArithmeticOverflow { field: TraceArithmetic::TraceTreeHeight })
    );
}

#[test]
fn positions_become_canonical_control_words() {
    assert_eq!(canonical_usize(TraceIndexField::RawQuery, 17), Ok(17));
    assert_eq!(
        canonical_usize(TraceIndexField::TreeColumn, M31_MODULUS as usize),
        Err(TraceMerkleError::IndexNotCanonical {
            field: TraceIndexField::TreeColumn,
            value: M31_MODULUS,
        })
    );
    let too_large = u32::MAX as usize + 1;
    assert_eq!(
        canonical_usize(TraceIndexField::CommitmentTree, too_large),
        Err(TraceMerkleError::IndexOutOfRange {
            field: TraceIndexField::CommitmentTree,
            value: too_large,
        })
    );
}

#[test]
fn control_sequence_finds_the_single_matching_step() {
    let steps = vec![
        VerifierStep::BindProtocol,
        VerifierStep::VerifyTraceMerklePath { tree: 0, query: 0, depth: 6 },
        VerifierStep::VerifyTraceMerklePath { tree: 0, query: 1, depth: 6 },
        VerifierStep::Complete,
    ];
    let plan = plan(VerifierSchema::Vm, steps);
    assert_eq!(
        control_sequence(&plan, VerifierStep::VerifyTraceMerklePath { tree: 0, query: 1, depth: 6 }),
        Ok(2)
    );
    assert_eq!(
        control_sequence(&plan, VerifierStep::VerifyTraceMerklePath { tree: 1, query: 0, depth: 6 }),
        Err(TraceMerkleError::ControlStepMissing {
            expected: VerifierStep::VerifyTraceMerklePath { tree: 1, query: 0, depth: 6 },
        })
    );
}

#[test]
fn duplicated_control_step_is_rejected() {
    let plan = plan(
        VerifierSchema::Vm,
        vec![VerifierStep::Complete, VerifierStep::BindProtocol, VerifierStep::Complete],
    );
    assert_eq!(
        control_sequence(&plan, VerifierStep::Complete),
        Err(TraceMerkleError::DuplicateControlStep { expected: VerifierStep::Complete })
    );
}
