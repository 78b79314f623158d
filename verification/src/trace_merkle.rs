//! Trusted trace Merkle-leaf profiles of the VM and recursion verifiers.
//!
//! Each verifier profile fixes its commitment trees, their columns and the
//! number of queries. A profile is accepted only when the plan's schema, the
//! manifest's table log sizes, tree heights and queried-value count all agree
//! with the program's column layout under the PCS parameters.
use crate::kernel::{VerifierControlPlan, VerifierSchema, VerifierStep};
use crate::m31::{M31_MODULUS, M31Word, word_values};
use crate::pcs_layout::{
    PcsConfig, PcsManifestShape, find_mismatch, first_mismatch, flat_log_sizes, flatten_log_sizes,
    lemma_first_mismatch_sticks, lemma_flat_len, max_log_size, seq_max, total_columns,
};
use vstd::prelude::*;

verus! {

/// Words of a Merkle digest.
pub const DIGEST_WORDS: usize = 8;

/// Which computation left the machine range.
#[derive(Clone, Copy, Debug, PartialEq, Eq, Structural)]
pub enum TraceArithmetic {
    TraceTreeHeight,
    QueriedValueCount,
    TracePathIndex,
}

/// Which index failed the canonical-word check.
#[derive(Clone, Copy, Debug, PartialEq, Eq, Structural)]
pub enum TraceIndexField {
    CommitmentTree,
    RawQuery,
    TreeColumn,
    LeafHashStep,
    ControlSequence,
}

/// Invalid trusted trace-leaf profile, layout, query route or witness.
#[derive(Clone, Copy, Debug, PartialEq, Eq, Structural)]
pub enum TraceMerkleError {
    SchemaMismatch { profile: VerifierSchema, expected: VerifierSchema, actual: VerifierSchema },
    TreeCountMismatch { profile: VerifierSchema, expected: usize, actual: usize },
    ColumnCountMismatch { profile: VerifierSchema, expected: usize, actual: usize },
    ColumnLogSizeMismatch { profile: VerifierSchema, column: usize, expected: u32, actual: u32 },
    EmptyCommitmentTree { profile: VerifierSchema, tree: usize },
    TreeHeightMismatch { profile: VerifierSchema, tree: usize, expected: u32, actual: u32 },
    QueriedValueCountMismatch { profile: VerifierSchema, expected: usize, actual: usize },
    ControlStepMissing { expected: VerifierStep },
    DuplicateControlStep { expected: VerifierStep },
    RowCountOverflow,
    LogSizeOutOfRange { log_size: u32 },
    ArithmeticOverflow { field: TraceArithmetic },
    IndexOutOfRange { field: TraceIndexField, value: usize },
    IndexNotCanonical { field: TraceIndexField, value: u32 },
    QueriedValueCountMismatchForWitness { verifier_id: u32, expected: usize, actual: usize },
    RawQueryCountMismatch { verifier_id: u32, expected: usize, actual: usize },
    UnknownVerifierId { verifier_id: u32 },
    QueriedValueMissing { verifier_id: u32, index: usize },
    RawQueryMissing { verifier_id: u32, query: u32 },
    TraceOffsetNotZero { verifier_id: u32, tree: u32, query: u32, offset: u32 },
    LeafClaimCountMismatch { expected: usize, actual: usize },
    ActivePathSetMissing { verifier_id: u32 },
    InvalidPathLayout { verifier_id: u32, roots: usize, paths: usize },
    TracePathCountMismatch { verifier_id: u32, expected: usize, actual: usize },
    TraceRootCountMismatch { verifier_id: u32, expected: usize, actual: usize },
    TracePathMissing { verifier_id: u32, tree: u32, query: u32 },
    TracePathDepthMismatch { verifier_id: u32, tree: u32, query: u32, expected: u32, actual: u32 },
    TraceRootMissing { verifier_id: u32, tree: u32 },
    TracePathRootMismatch { verifier_id: u32, tree: u32, query: u32 },
}

/// One authenticated leaf endpoint produced by the fixed hash schedule.
#[derive(Clone, Copy, Debug)]
pub struct TraceLeafClaim {
    pub verifier_id: u32,
    pub tree: u32,
    pub query: u32,
    pub tree_id: u32,
    pub height: u32,
    pub position: u32,
    pub digest: [u32; 8],
}

/// The query dimensions a checked profile fixes.
#[derive(Clone, Copy, Debug, PartialEq, Eq, Structural)]
pub struct ValidatedProfile {
    pub query_count: usize,
    pub queried_value_count: usize,
}

/// The committed height one tree's columns require: its largest column
/// extended by the blowup, or the lifting domain when there is one.
pub open spec fn required_tree_height(
    columns: Seq<u32>,
    tree: nat,
    config: PcsConfig,
    profile: VerifierSchema,
) -> Result<u32, TraceMerkleError> {
    if columns.len() == 0 {
        Err(TraceMerkleError::EmptyCommitmentTree { profile, tree: tree as usize })
    } else if seq_max(columns) + config.log_blowup_factor > u32::MAX {
        Err(TraceMerkleError::ArithmeticOverflow { field: TraceArithmetic::TraceTreeHeight })
    } else {
        match config.lifting_log_size {
            Some(lifting) => Ok(lifting),
            None => Ok((seq_max(columns) + config.log_blowup_factor) as u32),
        }
    }
}

/// The error of the first of the first `n` trees whose manifest height
/// differs from the height its columns require.
pub open spec fn tree_height_error(
    sizes: Seq<Seq<u32>>,
    heights: Seq<u32>,
    config: PcsConfig,
    profile: VerifierSchema,
    n: nat,
) -> Option<TraceMerkleError>
    decreases n,
{
    if n == 0 {
        None
    } else {
        match tree_height_error(sizes, heights, config, profile, (n - 1) as nat) {
            Some(error) => Some(error),
            None => match required_tree_height(sizes[n - 1], (n - 1) as nat, config, profile) {
                Err(error) => Some(error),
                Ok(expected) => if expected != heights[n - 1] {
                    Some(
                        TraceMerkleError::TreeHeightMismatch {
                            profile,
                            tree: (n - 1) as usize,
                            expected,
                            actual: heights[n - 1],
                        },
                    )
                } else {
                    None
                },
            },
        }
    }
}

proof fn lemma_tree_height_error_sticks(
    sizes: Seq<Seq<u32>>,
    heights: Seq<u32>,
    config: PcsConfig,
    profile: VerifierSchema,
    n: nat,
    m: nat,
)
    requires
        n <= m,
        tree_height_error(sizes, heights, config, profile, n) is Some,
    ensures
        tree_height_error(sizes, heights, config, profile, m) == tree_height_error(
            sizes,
            heights,
            config,
            profile,
            n,
        ),
    decreases m - n,
{
    if m > n {
        lemma_tree_height_error_sticks(sizes, heights, config, profile, n, (m - 1) as nat);
    }
}

/// The checked query dimensions of one verifier profile, or the first
/// disagreement between its plan, manifest shape and column layout.
pub open spec fn spec_validate_profile(
    profile: VerifierSchema,
    plan: VerifierControlPlan,
    config: PcsConfig,
    shape: PcsManifestShape,
    sizes: Seq<Seq<u32>>,
) -> Result<ValidatedProfile, TraceMerkleError> {
    let flat = flat_log_sizes(sizes, sizes.len());
    let tables = word_values(shape.table_log_sizes@);
    let heights = word_values(shape.tree_heights@);
    if plan.schema != profile {
        Err(TraceMerkleError::SchemaMismatch { profile, expected: profile, actual: plan.schema })
    } else if sizes.len() != heights.len() {
        Err(
            TraceMerkleError::TreeCountMismatch {
                profile,
                expected: heights.len() as usize,
                actual: sizes.len() as usize,
            },
        )
    } else if flat.len() != tables.len() {
        Err(
            TraceMerkleError::ColumnCountMismatch {
                profile,
                expected: tables.len() as usize,
                actual: flat.len() as usize,
            },
        )
    } else if first_mismatch(flat, tables, flat.len()) is Some {
        let column = first_mismatch(flat, tables, flat.len())->Some_0;
        Err(
            TraceMerkleError::ColumnLogSizeMismatch {
                profile,
                column: column as usize,
                expected: flat[column as int],
                actual: tables[column as int],
            },
        )
    } else if tree_height_error(sizes, heights, config, profile, sizes.len()) is Some {
        Err(tree_height_error(sizes, heights, config, profile, sizes.len())->Some_0)
    } else if flat.len() * config.n_queries > usize::MAX {
        Err(TraceMerkleError::ArithmeticOverflow { field: TraceArithmetic::QueriedValueCount })
    } else if flat.len() * config.n_queries != shape.queried_value_count@ {
        Err(
            TraceMerkleError::QueriedValueCountMismatch {
                profile,
                expected: (flat.len() * config.n_queries) as usize,
                actual: shape.queried_value_count@ as usize,
            },
        )
    } else {
        Ok(
            ValidatedProfile {
                query_count: config.n_queries,
                queried_value_count: (flat.len() * config.n_queries) as usize,
            },
        )
    }
}

/// Checks one verifier profile: plan schema, tree and column counts, every
/// column log size, every tree height and the queried-value count.
#[verifier::loop_isolation(false)]
pub fn validate_profile(
    profile: VerifierSchema,
    plan: &VerifierControlPlan,
    config: PcsConfig,
    shape: &PcsManifestShape,
    column_log_sizes: &[Vec<u32>],
) -> (result: Result<ValidatedProfile, TraceMerkleError>)
    ensures
        result == spec_validate_profile(
            profile,
            *plan,
            config,
            *shape,
            column_log_sizes@.map_values(|c: Vec<u32>| c@),
        ),
{
    let ghost sizes = column_log_sizes@.map_values(|c: Vec<u32>| c@);
    let ghost heights = word_values(shape.tree_heights@);
    if plan.schema() != profile {
        return Err(TraceMerkleError::SchemaMismatch { profile, expected: profile, actual: plan.schema() });
    }
    if column_log_sizes.len() != shape.tree_heights.len() {
        return Err(
            TraceMerkleError::TreeCountMismatch {
                profile,
                expected: shape.tree_heights.len(),
                actual: column_log_sizes.len(),
            },
        );
    }
    let flattened = flatten_log_sizes(column_log_sizes);
    if flattened.len() != shape.table_log_sizes.len() {
        return Err(
            TraceMerkleError::ColumnCountMismatch {
                profile,
                expected: shape.table_log_sizes.len(),
                actual: flattened.len(),
            },
        );
    }
    if let Some(column) = find_mismatch(flattened.as_slice(), shape.table_log_sizes.as_slice()) {
        assert(word_values(shape.table_log_sizes@)[column as int] == shape.table_log_sizes@[column as int]@);
        return Err(
            TraceMerkleError::ColumnLogSizeMismatch {
                profile,
                column,
                expected: flattened[column],
                actual: shape.table_log_sizes[column].as_u32(),
            },
        );
    }
    let mut tree: usize = 0;
    while tree < column_log_sizes.len()
        invariant
            tree <= column_log_sizes@.len(),
            sizes == column_log_sizes@.map_values(|c: Vec<u32>| c@),
            heights == word_values(shape.tree_heights@),
            sizes.len() == heights.len(),
            tree_height_error(sizes, heights, config, profile, tree as nat) is None,
        decreases column_log_sizes@.len() - tree,
    {
        let columns = &column_log_sizes[tree];
        assert(sizes[tree as int] == columns@);
        assert(heights[tree as int] == shape.tree_heights@[tree as int]@);
        if columns.len() == 0 {
            proof {
                lemma_tree_height_error_sticks(sizes, heights, config, profile, (tree + 1) as nat, sizes.len());
            }
            return Err(TraceMerkleError::EmptyCommitmentTree { profile, tree });
        }
        let largest = max_log_size(columns);
        if largest > u32::MAX - config.log_blowup_factor {
            proof {
                lemma_tree_height_error_sticks(sizes, heights, config, profile, (tree + 1) as nat, sizes.len());
            }
            return Err(TraceMerkleError::ArithmeticOverflow { field: TraceArithmetic::TraceTreeHeight });
        }
        let natural = largest + config.log_blowup_factor;
        let expected = match config.lifting_log_size {
            Some(lifting) => lifting,
            None => natural,
        };
        let actual = shape.tree_heights[tree].as_u32();
        if expected != actual {
            proof {
                lemma_tree_height_error_sticks(sizes, heights, config, profile, (tree + 1) as nat, sizes.len());
            }
            return Err(TraceMerkleError::TreeHeightMismatch { profile, tree, expected, actual });
        }
        tree = tree + 1;
    }
    let query_count = config.n_queries;
    let queried_value_count = match flattened.len().checked_mul(query_count) {
        Some(count) => count,
        None => {
            return Err(TraceMerkleError::ArithmeticOverflow { field: TraceArithmetic::QueriedValueCount });
        },
    };
    let actual = shape.queried_value_count.as_u32() as usize;
    if queried_value_count != actual {
        return Err(
            TraceMerkleError::QueriedValueCountMismatch { profile, expected: queried_value_count, actual },
        );
    }
    Ok(ValidatedProfile { query_count, queried_value_count })
}

/// A position as a canonical control word, or why it is not one.
pub open spec fn spec_canonical_usize(field: TraceIndexField, value: usize) -> Result<u32, TraceMerkleError> {
    if value > u32::MAX {
        Err(TraceMerkleError::IndexOutOfRange { field, value })
    } else if value >= M31_MODULUS {
        Err(TraceMerkleError::IndexNotCanonical { field, value: value as u32 })
    } else {
        Ok(value as u32)
    }
}

/// Converts a position to a canonical control word.
pub fn canonical_usize(field: TraceIndexField, value: usize) -> (result: Result<u32, TraceMerkleError>)
    ensures
        result == spec_canonical_usize(field, value),
{
    if value > u32::MAX as usize {
        return Err(TraceMerkleError::IndexOutOfRange { field, value });
    }
    let value = value as u32;
    match M31Word::try_from_u32(value) {
        Some(word) => Ok(word.as_u32()),
        None => Err(TraceMerkleError::IndexNotCanonical { field, value }),
    }
}

/// The first of the first `n` plan positions holding `step`.
pub open spec fn first_step_position(steps: Seq<VerifierStep>, step: VerifierStep, n: nat) -> Option<nat>
    decreases n,
{
    if n == 0 {
        None
    } else {
        match first_step_position(steps, step, (n - 1) as nat) {
            Some(i) => Some(i),
            None => if steps[n - 1] == step {
                Some((n - 1) as nat)
            } else {
                None
            },
        }
    }
}

/// The plan position of the one step equal to `expected`, or why there is
/// not exactly one.
pub open spec fn spec_control_sequence(steps: Seq<VerifierStep>, expected: VerifierStep) -> Result<
    u32,
    TraceMerkleError,
> {
    match first_step_position(steps, expected, steps.len()) {
        None => Err(TraceMerkleError::ControlStepMissing { expected }),
        Some(first) => if exists|j: int| first < j < steps.len() && steps[j] == expected {
            Err(TraceMerkleError::DuplicateControlStep { expected })
        } else {
            spec_canonical_usize(TraceIndexField::ControlSequence, first as usize)
        },
    }
}

proof fn lemma_first_step_position(steps: Seq<VerifierStep>, step: VerifierStep, n: nat)
    requires
        n <= steps.len(),
    ensures
        first_step_position(steps, step, n) matches Some(i) ==> i < n && steps[i as int] == step
            && forall|j: int| 0 <= j < i ==> steps[j] != step,
        first_step_position(steps, step, n) is None ==> forall|j: int| 0 <= j < n ==> steps[j] != step,
    decreases n,
{
    if n > 0 {
        lemma_first_step_position(steps, step, (n - 1) as nat);
    }
}

proof fn lemma_first_step_position_found(steps: Seq<VerifierStep>, step: VerifierStep, i: nat, n: nat)
    requires
        i < n <= steps.len(),
        steps[i as int] == step,
        forall|j: int| 0 <= j < i ==> steps[j] != step,
    ensures
        first_step_position(steps, step, n) == Some(i),
    decreases n,
{
    if n > i + 1 {
        lemma_first_step_position_found(steps, step, i, (n - 1) as nat);
    } else {
        lemma_first_step_position(steps, step, i);
    }
}

/// The plan position of the one step equal to `expected`.
pub fn control_sequence(plan: &VerifierControlPlan, expected: VerifierStep) -> (result: Result<
    u32,
    TraceMerkleError,
>)
    ensures
        result == spec_control_sequence(plan.steps@, expected),
{
    let ghost steps = plan.steps@;
    let n = plan.steps.len();
    let mut first: Option<usize> = None;
    let mut i: usize = 0;
    while i < n
        invariant
            i <= n,
            n == steps.len(),
            steps == plan.steps@,
            match first {
                None => forall|j: int| 0 <= j < i ==> steps[j] != expected,
                Some(f) => f < i && steps[f as int] == expected && (forall|j: int|
                    0 <= j < f ==> steps[j] != expected) && (forall|j: int|
                    f < j < i ==> steps[j] != expected),
            },
        decreases n - i,
    {
        if plan.steps[i] == expected {
            match first {
                None => {
                    first = Some(i);
                },
                Some(f) => {
                    proof {
                        lemma_first_step_position_found(steps, expected, f as nat, n as nat);
                        assert(f < i < steps.len() && steps[i as int] == expected);
                    }
                    return Err(TraceMerkleError::DuplicateControlStep { expected });
                },
            }
        }
        i = i + 1;
    }
    match first {
        None => {
            proof {
                lemma_first_step_position(steps, expected, n as nat);
                if first_step_position(steps, expected, n as nat) is Some {
                    let k = first_step_position(steps, expected, n as nat)->Some_0;
                    assert(steps[k as int] == expected);
                }
            }
            Err(TraceMerkleError::ControlStepMissing { expected })
        },
        Some(f) => {
            proof {
                lemma_first_step_position_found(steps, expected, f as nat, n as nat);
            }
            canonical_usize(TraceIndexField::ControlSequence, f)
        },
    }
}

} // verus!
