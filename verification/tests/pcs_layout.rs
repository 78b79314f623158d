use recursion::m31::M31Word;
use recursion::pcs_layout::{
    expected_tree_heights, tree_column_offsets, validate_count, LayoutArithmetic, LayoutCount,
    PcsConfig, PcsManifestShape, VmPcsLayout, VmPcsLayoutError, VmProgramGeometry,
};

fn word(value: u32) -> M31Word {
    M31Word::try_from_u32(value).unwrap()
}

fn sizes() -> Vec<Vec<u32>> {
    vec![vec![3, 5], vec![4], vec![2, 2, 6]]
}

fn program() -> VmProgramGeometry {
    VmProgramGeometry {
        component_count: 3,
        column_log_sizes: sizes(),
        sample_count: 10,
        max_log_degree_bound: 6,
    }
}

fn config() -> PcsConfig {
    PcsConfig {
        log_blowup_factor: 1,
        n_queries: 2,
        lifting_log_size: None,
    }
}

fn shape() -> PcsManifestShape {
    PcsManifestShape {
        claimed_sum_count: word(3),
        sampled_value_count: word(10),
        queried_value_count: word(12),
        table_log_sizes: [3, 5, 4, 2, 2, 6].map(word).to_vec(),
        tree_heights: [6, 5, 7].map(word).to_vec(),
        lifting_log_size: 7,
    }
}

#[test]
fn agreeing_manifest_builds_the_layout() {
    let layout = VmPcsLayout::new(program(), config(), &shape()).unwrap();
    assert_eq!(layout.column_log_sizes().len(), 3);
    assert_eq!(layout.total_column_count(), 6);
    assert_eq!(layout.queried_value_count(), Ok(12));
    assert_eq!(layout.tree_heights(), &[6, 5, 7][..]);
    assert_eq!(layout.lifting_log_size(), 7);
    assert_eq!(layout.n_queries(), 2);
}

#[test]
fn queried_value_indices_are_tree_column_query_major() {
    let layout = VmPcsLayout::new(program(), config(), &shape()).unwrap();
    assert_eq!(layout.queried_value_index(0, 0, 0), Ok(0));
    assert_eq!(layout.queried_value_index(0, 0, 1), Ok(1));
    assert_eq!(layout.queried_value_index(0, 1, 0), Ok(2));
    assert_eq!(layout.queried_value_index(1, 0, 1), Ok(5));
    assert_eq!(layout.queried_value_index(2, 2, 1), Ok(11));
    let mut seen = Vec::new();
    for tree in 0..3 {
        for column in 0..sizes()[tree].len() {
            for query in 0..2 {
                seen.push(layout.queried_value_index(tree, column, query).unwrap());
            }
        }
    }
    assert_eq!(seen, (0..12).collect::<Vec<_>>());
}

#[test]
fn out_of_range_coordinates_are_rejected() {
    let layout = VmPcsLayout::new(program(), config(), &shape()).unwrap();
    assert_eq!(
        layout.queried_value_index(3, 0, 0),
        Err(VmPcsLayoutError::TreeIndexOutOfRange { tree: 3 })
    );
    assert_eq!(
        layout.queried_value_index(1, 1, 0),
        Err(VmPcsLayoutError::ColumnIndexOutOfRange {
            tree: 1,
            column: 1,
            column_count: 1,
        })
    );
    assert_eq!(
        layout.queried_value_index(1, 0, 2),
        Err(VmPcsLayoutError::QueryIndexOutOfRange {
            query: 2,
            query_count: 2,
        })
    );
}

#[test]
fn one_table_degree_substitution_is_rejected() {
    let mut shape = shape();
    shape.table_log_sizes[0] = word(2);
    assert_eq!(
        VmPcsLayout::new(program(), config(), &shape).unwrap_err(),
        VmPcsLayoutError::TableLogSizeMismatch {
            table: 0,
            expected: 3,
            actual: 2,
        }
    );
}

#[test]
fn count_mismatches_are_rejected_in_order() {
    let mut claimed = shape();
    claimed.claimed_sum_count = word(4);
    claimed.sampled_value_count = word(11);
    assert_eq!(
        VmPcsLayout::new(program(), config(), &claimed).unwrap_err(),
        VmPcsLayoutError::CountMismatch {
            field: LayoutCount::ClaimedSums,
            expected: 3,
            actual: 4,
        }
    );
    let mut queried = shape();
    queried.queried_value_count = word(6);
    assert_eq!(
        VmPcsLayout::new(program(), config(), &queried).unwrap_err(),
        VmPcsLayoutError::CountMismatch {
            field: LayoutCount::QueriedValues,
            expected: 12,
            actual: 6,
        }
    );
}

#[test]
fn tree_and_column_counts_must_agree() {
    let mut trees = shape();
    trees.tree_heights.pop();
    assert_eq!(
        VmPcsLayout::new(program(), config(), &trees).unwrap_err(),
        VmPcsLayoutError::TreeCountMismatch {
            expected: 3,
            actual: 2,
        }
    );
    let mut tables = shape();
    tables.table_log_sizes.push(word(1));
    assert_eq!(
        VmPcsLayout::new(program(), config(), &tables).unwrap_err(),
        VmPcsLayoutError::ColumnCountMismatch {
            expected: 6,
            actual: 7,
        }
    );
}

#[test]
fn tree_height_and_degree_must_agree() {
    let mut heights = shape();
    heights.tree_heights[1] = word(6);
    assert_eq!(
        VmPcsLayout::new(program(), config(), &heights).unwrap_err(),
        VmPcsLayoutError::TreeHeightMismatch {
            tree: 1,
            expected: 5,
            actual: 6,
        }
    );
    let mut lifting = shape();
    lifting.lifting_log_size = 8;
    assert_eq!(
        VmPcsLayout::new(program(), config(), &lifting).unwrap_err(),
        VmPcsLayoutError::MaxLogDegreeBoundMismatch {
            expected: 7,
            actual: 6,
        }
    );
    let mut tiny = shape();
    tiny.lifting_log_size = 0;
    assert_eq!(
        VmPcsLayout::new(program(), config(), &tiny).unwrap_err(),
        VmPcsLayoutError::ArithmeticOverflow {
            field: LayoutArithmetic::EffectiveMaximumDegree,
        }
    );
}

#[test]
fn lifting_raises_every_tree_and_bounds_it() {
    let lifted = PcsConfig {
        lifting_log_size: Some(8),
        ..config()
    };
    assert_eq!(expected_tree_heights(&sizes(), lifted), Ok(vec![8, 8, 8]));
    let low = PcsConfig {
        lifting_log_size: Some(6),
        ..config()
    };
    assert_eq!(
        expected_tree_heights(&sizes(), low),
        Err(VmPcsLayoutError::TreeExceedsLiftingDomain {
            tree: 2,
            natural: 7,
            lifting: 6,
        })
    );
    assert_eq!(
        expected_tree_heights(&[vec![1], vec![]], config()),
        Err(VmPcsLayoutError::EmptyCommitmentTree { tree: 1 })
    );
}

#[test]
fn offsets_accumulate_tree_sizes() {
    assert_eq!(tree_column_offsets(&sizes()), Ok(vec![0, 2, 3, 6]));
    assert_eq!(tree_column_offsets(&[]), Ok(vec![0]));
}

#[test]
fn counts_compare_by_value() {
    assert_eq!(validate_count(LayoutCount::SampledValues, 4, word(4)), Ok(()));
    assert_eq!(
        validate_count(LayoutCount::SampledValues, 4, word(5)),
        Err(VmPcsLayoutError::CountMismatch {
            field: LayoutCount::SampledValues,
            expected: 4,
            actual: 5,
        })
    );
}
