use recursion::kernel::{VerifierControlPlan, VerifierSchema, VerifierStep};
use recursion::leaf_order::stable_log_size_order;
use recursion::m31::M31Word;
use recursion::pcs_layout::{PcsConfig, PcsManifestShape};
use recursion::trace_leaf::{LeafChunk, TraceMerklePreprocessed};
use recursion::trace_merkle::{TraceMerkleError, ValidatedProfile};

fn word(value: u32) -> M31Word {
    M31Word::try_from_u32(value).unwrap()
}

fn path(tree: u32, query: u32, depth: u32) -> VerifierStep {
    VerifierStep::VerifyTraceMerklePath { tree, query, depth }
}

fn vm_plan() -> VerifierControlPlan {
    VerifierControlPlan {
        schema: VerifierSchema::Vm,
        steps: vec![
            VerifierStep::BindProtocol,
            path(0, 0, 6),
            path(0, 1, 6),
            path(1, 0, 5),
            path(1, 1, 5),
            VerifierStep::Complete,
        ],
        pcs_parameter_word_count: 0,
        statement_word_count: 0,
    }
}

fn recursion_plan() -> VerifierControlPlan {
    VerifierControlPlan {
        schema: VerifierSchema::Recursion,
        steps: vec![path(0, 0, 3), VerifierStep::Complete],
        pcs_parameter_word_count: 0,
        statement_word_count: 0,
    }
}

fn vm_config() -> PcsConfig {
    PcsConfig { log_blowup_factor: 1, n_queries: 2, lifting_log_size: None }
}

fn recursion_config() -> PcsConfig {
    PcsConfig { log_blowup_factor: 1, n_queries: 1, lifting_log_size: None }
}

fn vm_shape() -> PcsManifestShape {
    PcsManifestShape {
        claimed_sum_count: word(0),
        sampled_value_count: word(0),
        queried_value_count: word(6),
        table_log_sizes: [5, 3, 4].map(word).to_vec(),
        tree_heights: [6, 5].map(word).to_vec(),
        lifting_log_size: 6,
    }
}

fn recursion_shape() -> PcsManifestShape {
    PcsManifestShape {
        claimed_sum_count: word(0),
        sampled_value_count: word(0),
        queried_value_count: word(1),
        table_log_sizes: [2].map(word).to_vec(),
        tree_heights: [3].map(word).to_vec(),
        lifting_log_size: 3,
    }
}

fn build(vm_plan: &VerifierControlPlan) -> Result<TraceMerklePreprocessed, TraceMerkleError> {
    TraceMerklePreprocessed::new(
        vm_plan,
        vm_config(),
        &vm_shape(),
        &[vec![5, 3], vec![4]],
        &[10, 11],
        &recursion_plan(),
        recursion_config(),
        &recursion_shape(),
        &[vec![2]],
        &[20],
        &[30],
    )
}

#[test]
fn stable_order_sorts_by_log_size_and_keeps_ties_in_column_order() {
    assert_eq!(stable_log_size_order(&[5, 3, 5, 1, 3]), vec![3, 1, 4, 0, 2]);
    assert_eq!(stable_log_size_order(&[]), Vec::<usize>::new());
    assert_eq!(stable_log_size_order(&[7, 7, 7]), vec![0, 1, 2]);
}

#[test]
fn every_opening_gets_its_leaf_hash_steps() {
    let table = build(&vm_plan()).unwrap();
    assert_eq!(table.rows().len(), 6);
    assert_eq!(table.log_size(), 4);
    assert_eq!(table.vm_profile(), ValidatedProfile { query_count: 2, queried_value_count: 6 });
    assert_eq!(table.recursion_profile(), ValidatedProfile { query_count: 1, queried_value_count: 1 });
    let first = table.rows()[0];
    assert_eq!((first.verifier_id, first.segment_mask, first.binary_mask), (0, 1, 0));
    assert_eq!((first.tree, first.query, first.tree_id, first.tree_height), (0, 0, 10, 6));
    assert_eq!((first.step, first.first, first.last), (0, true, true));
    assert_eq!(first.control_sequence, 1);
    assert_eq!(first.control_tag, 22);
    assert_eq!(first.control_args, [0, 0, 6, 0]);
    assert_eq!(first.chunks[0], LeafChunk::Value { column: 1, flat_index: 2 });
    assert_eq!(first.chunks[1], LeafChunk::Value { column: 0, flat_index: 0 });
    assert_eq!(first.chunks[2], LeafChunk::Constant(1));
    assert_eq!(first.chunks[7], LeafChunk::Constant(0));
    let second_tree = table.rows()[3];
    assert_eq!((second_tree.tree, second_tree.query, second_tree.control_sequence), (1, 1, 4));
    assert_eq!(second_tree.chunks[0], LeafChunk::Value { column: 0, flat_index: 5 });
    let left = table.rows()[4];
    assert_eq!((left.verifier_id, left.segment_mask, left.binary_mask, left.tree_id), (1, 0, 1, 20));
    let right = table.rows()[5];
    assert_eq!((right.verifier_id, right.tree_id, right.control_sequence), (2, 30, 0));
}

#[test]
fn missing_or_repeated_path_step_is_rejected() {
    let mut plan = vm_plan();
    plan.steps.remove(3);
    assert_eq!(
        build(&plan).err(),
        Some(TraceMerkleError::ControlStepMissing { expected: path(1, 0, 5) })
    );
    let mut plan = vm_plan();
    plan.steps.push(path(0, 1, 6));
    assert_eq!(
        build(&plan).err(),
        Some(TraceMerkleError::DuplicateControlStep { expected: path(0, 1, 6) })
    );
}

#[test]
fn long_trees_take_several_leaf_steps() {
    let sizes: Vec<u32> = (0..9).map(|k| 9 - k).collect();
    let shape = PcsManifestShape {
        claimed_sum_count: word(0),
        sampled_value_count: word(0),
        queried_value_count: word(9),
        table_log_sizes: sizes.iter().copied().map(word).collect(),
        tree_heights: vec![word(10)],
        lifting_log_size: 10,
    };
    let plan = VerifierControlPlan {
        schema: VerifierSchema::Vm,
        steps: vec![path(0, 0, 10)],
        pcs_parameter_word_count: 0,
        statement_word_count: 0,
    };
    let config = PcsConfig { log_blowup_factor: 1, n_queries: 1, lifting_log_size: None };
    let table = TraceMerklePreprocessed::new(
        &plan,
        config,
        &shape,
        &[sizes],
        &[7],
        &recursion_plan(),
        recursion_config(),
        &recursion_shape(),
        &[vec![2]],
        &[20],
        &[30],
    )
    .unwrap();
    let rows = table.rows();
    assert_eq!(rows.len(), 4);
    assert_eq!((rows[0].first, rows[0].last, rows[1].first, rows[1].last), (true, false, false, true));
    // Ascending log size reverses the columns.
    assert_eq!(rows[0].chunks[0], LeafChunk::Value { column: 8, flat_index: 8 });
    assert_eq!(rows[1].chunks[0], LeafChunk::Value { column: 0, flat_index: 0 });
    assert_eq!(rows[1].chunks[1], LeafChunk::Constant(1));
}

#[test]
fn leaf_columns_lay_out_each_row() {
    let table = build(&vm_plan()).unwrap();
    let columns = table.column_values();
    assert_eq!(columns.len(), 41);
    assert!(columns.iter().all(|column| column.len() == 16));
    let row = |i: usize| columns.iter().map(|column| column[i]).collect::<Vec<u32>>();
    let first = row(0);
    assert_eq!(&first[0..17], &[1, 1, 0, 0, 0, 0, 10, 6, 0, 1, 1, 1, 22, 0, 0, 6, 0]);
    assert_eq!(&first[17..26], &[1, 1, 0, 1, 0, 0, 0, 0, 1]);
    assert!(row(6).iter().all(|value| *value == 0));
}
