//! Fixed trace-leaf hash schedules of the VM and recursion PCS profiles.
//!
//! Every queried trace value appears once in its tree's leaf stream: the
//! tree's columns in stable ascending log-size order, then one terminating
//! word, then zeros up to a whole number of eight-word sponge steps. Each
//! (tree, query) opening is one run of steps, bound to the one control step
//! that verifies that tree's Merkle path for that query, so no proof can omit
//! or repeat an opening.
use crate::kernel::{
    LEFT_RECURSION_VERIFIER_ID, RIGHT_RECURSION_VERIFIER_ID, SEGMENT_VERIFIER_ID, VerifierControlPlan,
    VerifierSchema, VerifierStep, spec_encode,
};
use crate::domain::{MAX_LOG_SIZE, PaddedSizeError, domain_size, padded_log_size, spec_padded_log_size};
use crate::leaf_order::{
    leaf_before, leaf_order, lemma_leaf_order_exists, listed, stable_log_size_order,
};
use crate::m31::{M31_MODULUS, M31Word, lemma_word_values_push, word_values};
use crate::pcs_layout::{
    PcsConfig, PcsManifestShape, column_offset, lemma_column_offset_monotonic, lemma_flat_len,
    total_columns,
};
use crate::trace_merkle::{
    TraceMerkleError, ValidatedProfile, control_sequence, spec_control_sequence, spec_validate_profile,
    tree_height_error, validate_profile,
};
use vstd::arithmetic::power2::pow2;
use vstd::prelude::*;

verus! {

/// Words absorbed per leaf-hash step.
pub const LEAF_RATE: usize = 8;

/// Where one absorbed leaf word comes from: a queried value of a tree
/// column, with that value's flat index, or a constant.
#[derive(Clone, Copy, Debug, PartialEq, Eq, Structural)]
pub enum LeafChunk {
    Value { column: u32, flat_index: usize },
    Constant(u32),
}

/// The mode masks and verifier id shared by every row of one lane.
#[derive(Clone, Copy, Debug, PartialEq, Eq, Structural)]
pub struct LeafLane {
    pub verifier_id: u32,
    pub segment_mask: u32,
    pub binary_mask: u32,
}

/// One leaf-hash step of one (tree, query) opening.
#[derive(Clone, Copy, Debug)]
pub struct TraceLeafRow {
    pub segment_mask: u32,
    pub binary_mask: u32,
    pub verifier_id: u32,
    pub tree: u32,
    pub query: u32,
    pub tree_id: u32,
    pub tree_height: u32,
    pub step: u32,
    pub first: bool,
    pub last: bool,
    pub control_sequence: u32,
    pub control_tag: u32,
    pub control_args: [u32; 4],
    pub chunks: [LeafChunk; 8],
}

/// Leaf-hash steps of a tree with `n` columns: its values and the
/// terminating word, eight words per step.
pub open spec fn leaf_step_count(n: nat) -> nat {
    (n + 8) / 8
}

/// The word at position `index` of one opening's leaf stream.
pub open spec fn leaf_chunk(order: Seq<usize>, offset: nat, query_count: nat, query: nat, index: nat) -> LeafChunk {
    if index < order.len() {
        LeafChunk::Value {
            column: order[index as int] as u32,
            flat_index: ((offset + order[index as int]) * query_count + query) as usize,
        }
    } else if index == order.len() {
        LeafChunk::Constant(1)
    } else {
        LeafChunk::Constant(0)
    }
}

/// The control step that verifies tree `tree`'s path for query `query`.
pub open spec fn path_step(tree: nat, query: nat, depth: u32) -> VerifierStep {
    VerifierStep::VerifyTraceMerklePath { tree: tree as u32, query: query as u32, depth }
}

/// Step `step` of the opening at query `query` of a tree whose columns
/// enter the leaves in `order`, after `offset` columns of earlier trees.
pub open spec fn leaf_row_of(
    order: Seq<usize>,
    offset: nat,
    query_count: nat,
    lane: LeafLane,
    tree: nat,
    query: nat,
    tree_id: u32,
    height: u32,
    step: nat,
    sequence: u32,
) -> TraceLeafRow {
    let encoded = spec_encode(path_step(tree, query, height));
    let base = 8 * step;
    TraceLeafRow {
        segment_mask: lane.segment_mask,
        binary_mask: lane.binary_mask,
        verifier_id: lane.verifier_id,
        tree: tree as u32,
        query: query as u32,
        tree_id,
        tree_height: height,
        step: step as u32,
        first: step == 0,
        last: step + 1 == leaf_step_count(order.len()),
        control_sequence: sequence,
        control_tag: encoded.tag,
        control_args: [encoded.arg_0, encoded.arg_1, encoded.arg_2, encoded.arg_3],
        chunks: [
            leaf_chunk(order, offset, query_count, query, base),
            leaf_chunk(order, offset, query_count, query, base + 1),
            leaf_chunk(order, offset, query_count, query, base + 2),
            leaf_chunk(order, offset, query_count, query, base + 3),
            leaf_chunk(order, offset, query_count, query, base + 4),
            leaf_chunk(order, offset, query_count, query, base + 5),
            leaf_chunk(order, offset, query_count, query, base + 6),
            leaf_chunk(order, offset, query_count, query, base + 7),
        ],
    }
}

/// The steps of one opening of a tree whose columns enter the leaves in
/// `order`.
pub open spec fn opening_rows_of(
    order: Seq<usize>,
    offset: nat,
    query_count: nat,
    lane: LeafLane,
    tree: nat,
    query: nat,
    tree_id: u32,
    height: u32,
    sequence: u32,
) -> Seq<TraceLeafRow> {
    Seq::new(
        leaf_step_count(order.len()),
        |step: int| leaf_row_of(order, offset, query_count, lane, tree, query, tree_id, height, step as nat, sequence),
    )
}

/// The steps of the opening of tree `tree` at query `query`.
pub open spec fn opening_rows(
    sizes: Seq<Seq<u32>>,
    heights: Seq<u32>,
    tree_ids: Seq<u32>,
    query_count: nat,
    lane: LeafLane,
    tree: nat,
    query: nat,
    sequence: u32,
) -> Seq<TraceLeafRow> {
    opening_rows_of(
        leaf_order(sizes[tree as int]),
        column_offset(sizes, tree),
        query_count,
        lane,
        tree,
        query,
        tree_ids[tree as int],
        heights[tree as int],
        sequence,
    )
}

/// The rows of the first `n` queries of one tree, and the error that
/// stopped them, if any.
pub open spec fn tree_rows(
    steps: Seq<VerifierStep>,
    sizes: Seq<Seq<u32>>,
    heights: Seq<u32>,
    tree_ids: Seq<u32>,
    query_count: nat,
    lane: LeafLane,
    tree: nat,
    n: nat,
) -> (Seq<TraceLeafRow>, Option<TraceMerkleError>)
    decreases n,
{
    if n == 0 {
        (Seq::empty(), None)
    } else {
        let (rows, error) = tree_rows(steps, sizes, heights, tree_ids, query_count, lane, tree, (n - 1) as nat);
        if error is Some {
            (rows, error)
        } else {
            match spec_control_sequence(steps, path_step(tree, (n - 1) as nat, heights[tree as int])) {
                Err(error) => (rows, Some(error)),
                Ok(sequence) => (
                    rows + opening_rows(sizes, heights, tree_ids, query_count, lane, tree, (n - 1) as nat, sequence),
                    None,
                ),
            }
        }
    }
}

/// The rows of the first `n` trees of one lane, and the error that stopped
/// them, if any.
pub open spec fn lane_rows(
    steps: Seq<VerifierStep>,
    sizes: Seq<Seq<u32>>,
    heights: Seq<u32>,
    tree_ids: Seq<u32>,
    query_count: nat,
    lane: LeafLane,
    n: nat,
) -> (Seq<TraceLeafRow>, Option<TraceMerkleError>)
    decreases n,
{
    if n == 0 {
        (Seq::empty(), None)
    } else {
        let (rows, error) = lane_rows(steps, sizes, heights, tree_ids, query_count, lane, (n - 1) as nat);
        if error is Some {
            (rows, error)
        } else {
            let (added, error) = tree_rows(
                steps,
                sizes,
                heights,
                tree_ids,
                query_count,
                lane,
                (n - 1) as nat,
                query_count,
            );
            (rows + added, error)
        }
    }
}

/// What a validated profile guarantees of its trees: one height and id per
/// tree, no empty tree, a machine-sized column count, and fewer queried
/// values than the field modulus.
pub open spec fn lane_bounded(
    sizes: Seq<Seq<u32>>,
    heights: Seq<u32>,
    tree_ids: Seq<u32>,
    query_count: nat,
) -> bool {
    &&& heights.len() == sizes.len()
    &&& tree_ids.len() == sizes.len()
    &&& forall|t: int| 0 <= t < sizes.len() ==> #[trigger] sizes[t].len() > 0
    &&& total_columns(sizes) <= usize::MAX
    &&& total_columns(sizes) * query_count < M31_MODULUS
}

proof fn lemma_offsets_count_trees(sizes: Seq<Seq<u32>>, t: nat)
    requires
        t <= sizes.len(),
        forall|i: int| 0 <= i < sizes.len() ==> #[trigger] sizes[i].len() > 0,
    ensures
        column_offset(sizes, t) >= t,
    decreases t,
{
    if t > 0 {
        lemma_offsets_count_trees(sizes, (t - 1) as nat);
    }
}

proof fn lemma_flat_index_bound(a: int, q: int, total: int, count: int)
    requires
        0 <= a < total,
        0 <= q < count,
    ensures
        a * count + q < total * count,
        0 <= a * count + q,
{
    assert(a * count + q < total * count && 0 <= a * count + q) by (nonlinear_arith)
        requires
            0 <= a < total,
            0 <= q < count,
    ;
}

proof fn lemma_factor_bound(total: int, count: int)
    requires
        total >= 1,
        count >= 0,
    ensures
        count <= total * count,
        total <= total * count || count == 0,
{
    assert(count <= total * count && (total <= total * count || count == 0)) by (nonlinear_arith)
        requires
            total >= 1,
            count >= 0,
    ;
}

fn chunk_at(order: &[usize], offset: usize, query_count: usize, query: usize, index: usize) -> (chunk: LeafChunk)
    requires
        offset + order@.len() <= 0x8000_0000,
        forall|r: int| 0 <= r < order@.len() ==> #[trigger] order@[r] < order@.len(),
        (offset + order@.len()) * query_count < M31_MODULUS,
        query < query_count,
    ensures
        chunk == leaf_chunk(order@, offset as nat, query_count as nat, query as nat, index as nat),
{
    if index < order.len() {
        let column = order[index];
        proof {
            lemma_flat_index_bound(
                (offset + column) as int,
                query as int,
                (offset + order@.len()) as int,
                query_count as int,
            );
        }
        LeafChunk::Value { column: column as u32, flat_index: (offset + column) * query_count + query }
    } else if index == order.len() {
        LeafChunk::Constant(1)
    } else {
        LeafChunk::Constant(0)
    }
}

proof fn lemma_tree_rows_error_sticks(
    steps: Seq<VerifierStep>,
    sizes: Seq<Seq<u32>>,
    heights: Seq<u32>,
    tree_ids: Seq<u32>,
    query_count: nat,
    lane: LeafLane,
    tree: nat,
    n: nat,
    m: nat,
)
    requires
        n <= m,
        tree_rows(steps, sizes, heights, tree_ids, query_count, lane, tree, n).1 is Some,
    ensures
        tree_rows(steps, sizes, heights, tree_ids, query_count, lane, tree, m) == tree_rows(
            steps,
            sizes,
            heights,
            tree_ids,
            query_count,
            lane,
            tree,
            n,
        ),
    decreases m - n,
{
    if m > n {
        lemma_tree_rows_error_sticks(steps, sizes, heights, tree_ids, query_count, lane, tree, n, (m - 1) as nat);
    }
}

proof fn lemma_lane_rows_error_sticks(
    steps: Seq<VerifierStep>,
    sizes: Seq<Seq<u32>>,
    heights: Seq<u32>,
    tree_ids: Seq<u32>,
    query_count: nat,
    lane: LeafLane,
    n: nat,
    m: nat,
)
    requires
        n <= m,
        lane_rows(steps, sizes, heights, tree_ids, query_count, lane, n).1 is Some,
    ensures
        lane_rows(steps, sizes, heights, tree_ids, query_count, lane, m) == lane_rows(
            steps,
            sizes,
            heights,
            tree_ids,
            query_count,
            lane,
            n,
        ),
    decreases m - n,
{
    if m > n {
        lemma_lane_rows_error_sticks(steps, sizes, heights, tree_ids, query_count, lane, n, (m - 1) as nat);
    }
}

proof fn lemma_mul_le(a: int, b: int, c: int)
    requires
        0 <= a <= b,
        0 <= c,
    ensures
        a * c <= b * c,
{
    assert(a * c <= b * c) by (nonlinear_arith)
        requires
            0 <= a <= b,
            0 <= c,
    ;
}

/// Appends the steps of one opening.
fn push_opening(
    rows: &mut Vec<TraceLeafRow>,
    order: &[usize],
    offset: usize,
    query_count: usize,
    lane: LeafLane,
    tree: usize,
    query: usize,
    tree_id: u32,
    height: u32,
    sequence: u32,
)
    requires
        offset + order@.len() <= 0x8000_0000,
        forall|r: int| 0 <= r < order@.len() ==> #[trigger] order@[r] < order@.len(),
        (offset + order@.len()) * query_count < M31_MODULUS,
        query < query_count,
        tree < M31_MODULUS,
    ensures
        final(rows)@ == old(rows)@ + opening_rows_of(
            order@,
            offset as nat,
            query_count as nat,
            lane,
            tree as nat,
            query as nat,
            tree_id,
            height,
            sequence,
        ),
{
    let ghost opening = opening_rows_of(
        order@,
        offset as nat,
        query_count as nat,
        lane,
        tree as nat,
        query as nat,
        tree_id,
        height,
        sequence,
    );
    let encoded = VerifierStep::VerifyTraceMerklePath { tree: tree as u32, query: query as u32, depth: height }.encode();
    let row_count = order.len() / 8 + 1;
    let ghost start = rows@;
    let mut step: usize = 0;
    proof {
        assert(rows@ =~= start + opening.take(0));
    }
    while step < row_count
        invariant
            step <= row_count,
            row_count == leaf_step_count(order@.len()),
            row_count <= order@.len() + 1,
            offset + order@.len() <= 0x8000_0000,
            forall|r: int| 0 <= r < order@.len() ==> #[trigger] order@[r] < order@.len(),
            (offset + order@.len()) * query_count < M31_MODULUS,
            query < query_count,
            tree < M31_MODULUS,
            opening == opening_rows_of(
                order@,
                offset as nat,
                query_count as nat,
                lane,
                tree as nat,
                query as nat,
                tree_id,
                height,
                sequence,
            ),
            encoded == spec_encode(path_step(tree as nat, query as nat, height)),
            rows@ == start + opening.take(step as int),
        decreases row_count - step,
    {
        let base = step * 8;
        let chunks = [
            chunk_at(order, offset, query_count, query, base),
            chunk_at(order, offset, query_count, query, base + 1),
            chunk_at(order, offset, query_count, query, base + 2),
            chunk_at(order, offset, query_count, query, base + 3),
            chunk_at(order, offset, query_count, query, base + 4),
            chunk_at(order, offset, query_count, query, base + 5),
            chunk_at(order, offset, query_count, query, base + 6),
            chunk_at(order, offset, query_count, query, base + 7),
        ];
        let row = TraceLeafRow {
            segment_mask: lane.segment_mask,
            binary_mask: lane.binary_mask,
            verifier_id: lane.verifier_id,
            tree: tree as u32,
            query: query as u32,
            tree_id,
            tree_height: height,
            step: step as u32,
            first: step == 0,
            last: step + 1 == row_count,
            control_sequence: sequence,
            control_tag: encoded.tag,
            control_args: [encoded.arg_0, encoded.arg_1, encoded.arg_2, encoded.arg_3],
            chunks,
        };
        proof {
            assert(row == opening[step as int]);
        }
        rows.push(row);
        proof {
            assert(opening.take(step as int + 1) =~= opening.take(step as int).push(opening[step as int]));
        }
        step = step + 1;
    }
    proof {
        assert(opening.take(row_count as int) =~= opening);
    }
}

/// Appends the leaf-hash rows of one lane: for each tree, for each query,
/// the steps of that opening, bound to its path-verification control step.
/// Stops at the first opening whose control step is missing or repeated.
#[verifier::loop_isolation(false)]
fn append_lane_rows(
    rows: &mut Vec<TraceLeafRow>,
    plan: &VerifierControlPlan,
    column_log_sizes: &[Vec<u32>],
    tree_heights: &[u32],
    tree_ids: &[u32],
    query_count: usize,
    lane: LeafLane,
) -> (result: Result<(), TraceMerkleError>)
    requires
        lane_bounded(
            column_log_sizes@.map_values(|c: Vec<u32>| c@),
            tree_heights@,
            tree_ids@,
            query_count as nat,
        ),
    ensures
        ({
            let (added, error) = lane_rows(
                plan.steps@,
                column_log_sizes@.map_values(|c: Vec<u32>| c@),
                tree_heights@,
                tree_ids@,
                query_count as nat,
                lane,
                column_log_sizes@.len(),
            );
            &&& final(rows)@ == old(rows)@ + added
            &&& match error {
                Some(error) => result == Err::<(), _>(error),
                None => result is Ok,
            }
        }),
{
    let ghost sizes = column_log_sizes@.map_values(|c: Vec<u32>| c@);
    let ghost steps = plan.steps@;
    let ghost heights = tree_heights@;
    let ghost ids = tree_ids@;
    let ghost q_count = query_count as nat;
    let ghost start = rows@;
    let tree_count = column_log_sizes.len();
    let mut tree_offset: usize = 0;
    let mut tree: usize = 0;
    proof {
        assert(rows@ =~= start + Seq::<TraceLeafRow>::empty());
        lemma_offsets_count_trees(sizes, sizes.len());
    }
    while tree < tree_count
        invariant
            tree <= tree_count,
            tree_count == sizes.len(),
            tree_offset == column_offset(sizes, tree as nat),
            lane_rows(steps, sizes, heights, ids, q_count, lane, tree as nat).1 is None,
            rows@ == start + lane_rows(steps, sizes, heights, ids, q_count, lane, tree as nat).0,
        decreases tree_count - tree,
    {
        let columns = &column_log_sizes[tree];
        assert(columns@ == sizes[tree as int]);
        let order = stable_log_size_order(columns.as_slice());
        proof {
            lemma_column_offset_monotonic(sizes, (tree + 1) as nat, sizes.len());
            assert(column_offset(sizes, (tree + 1) as nat) == tree_offset + columns@.len());
        }
        let ghost before_tree = rows@;
        let mut query: usize = 0;
        proof {
            assert(rows@ =~= before_tree + Seq::<TraceLeafRow>::empty());
        }
        while query < query_count
            invariant
                query <= query_count,
                tree < tree_count,
                columns@ == sizes[tree as int],
                order@ == leaf_order(sizes[tree as int]),
                order@.len() == columns@.len(),
                forall|r: int| 0 <= r < order@.len() ==> #[trigger] order@[r] < order@.len(),
                tree_offset == column_offset(sizes, tree as nat),
                tree_offset + columns@.len() <= total_columns(sizes),
                before_tree == start + lane_rows(steps, sizes, heights, ids, q_count, lane, tree as nat).0,
                tree_rows(steps, sizes, heights, ids, q_count, lane, tree as nat, query as nat).1 is None,
                rows@ == before_tree + tree_rows(steps, sizes, heights, ids, q_count, lane, tree as nat, query as nat).0,
            decreases query_count - query,
        {
            proof {
                lemma_factor_bound(total_columns(sizes) as int, query_count as int);
                lemma_mul_le((tree_offset + columns@.len()) as int, total_columns(sizes) as int, query_count as int);
            }
            let control = VerifierStep::VerifyTraceMerklePath {
                tree: tree as u32,
                query: query as u32,
                depth: tree_heights[tree],
            };
            assert(control == path_step(tree as nat, query as nat, heights[tree as int]));
            let sequence = match control_sequence(plan, control) {
                Ok(sequence) => sequence,
                Err(error) => {
                    proof {
                        lemma_tree_rows_error_sticks(steps, sizes, heights, ids, q_count, lane, tree as nat, (query + 1) as nat, q_count);
                        lemma_lane_rows_error_sticks(steps, sizes, heights, ids, q_count, lane, (tree + 1) as nat, sizes.len());
                    }
                    return Err(error);
                },
            };
            push_opening(
                rows,
                order.as_slice(),
                tree_offset,
                query_count,
                lane,
                tree,
                query,
                tree_ids[tree],
                tree_heights[tree],
                sequence,
            );
            query = query + 1;
        }
        proof {
            assert(rows@ =~= start + lane_rows(steps, sizes, heights, ids, q_count, lane, (tree + 1) as nat).0);
        }
        tree_offset = tree_offset + columns.len();
        tree = tree + 1;
    }
    Ok(())
}

proof fn lemma_tree_heights_nonempty(
    sizes: Seq<Seq<u32>>,
    heights: Seq<u32>,
    config: PcsConfig,
    profile: VerifierSchema,
    n: nat,
)
    requires
        n <= sizes.len(),
        tree_height_error(sizes, heights, config, profile, n) is None,
    ensures
        forall|t: int| 0 <= t < n ==> #[trigger] sizes[t].len() > 0,
    decreases n,
{
    if n > 0 {
        lemma_tree_heights_nonempty(sizes, heights, config, profile, (n - 1) as nat);
    }
}

/// What an accepted profile guarantees of its lane, given one id per tree.
proof fn lemma_validated_lane(
    profile: VerifierSchema,
    plan: VerifierControlPlan,
    config: PcsConfig,
    shape: PcsManifestShape,
    sizes: Seq<Seq<u32>>,
    tree_ids: Seq<u32>,
)
    requires
        spec_validate_profile(profile, plan, config, shape, sizes) is Ok,
        tree_ids.len() == sizes.len(),
        shape.queried_value_count@ < M31_MODULUS,
        shape.table_log_sizes@.len() <= usize::MAX,
    ensures
        lane_bounded(sizes, word_values(shape.tree_heights@), tree_ids, config.n_queries as nat),
        spec_validate_profile(profile, plan, config, shape, sizes)->Ok_0.query_count == config.n_queries,
{
    let heights = word_values(shape.tree_heights@);
    lemma_flat_len(sizes, sizes.len());
    lemma_tree_heights_nonempty(sizes, heights, config, profile, sizes.len());
    assert(heights.len() == sizes.len());
    assert(total_columns(sizes) <= usize::MAX);
    assert(total_columns(sizes) * config.n_queries == shape.queried_value_count@);
}

fn word_list(words: &[M31Word]) -> (values: Vec<u32>)
    ensures
        values@ == word_values(words@),
{
    let mut values: Vec<u32> = Vec::new();
    let mut i: usize = 0;
    while i < words.len()
        invariant
            i <= words@.len(),
            values@ == word_values(words@.take(i as int)),
        decreases words@.len() - i,
    {
        proof {
            assert(words@.take(i as int + 1) =~= words@.take(i as int).push(words@[i as int]));
            lemma_word_values_push(words@.take(i as int), words@[i as int]);
        }
        values.push(words[i].as_u32());
        i = i + 1;
    }
    proof {
        assert(words@.take(words@.len() as int) =~= words@);
    }
    values
}

/// The VM lane: segment mode, the segment verifier.
pub open spec fn vm_lane() -> LeafLane {
    LeafLane { verifier_id: SEGMENT_VERIFIER_ID, segment_mask: 1, binary_mask: 0 }
}

/// A recursion lane: binary mode, the given child verifier.
pub open spec fn recursion_lane(verifier_id: u32) -> LeafLane {
    LeafLane { verifier_id, segment_mask: 0, binary_mask: 1 }
}

/// The leaf rows of both profiles with their checked query dimensions: the
/// VM lane, then the left and right recursion lanes; or the first error.
pub open spec fn spec_leaf_table(
    vm_plan: VerifierControlPlan,
    vm_config: PcsConfig,
    vm_shape: PcsManifestShape,
    vm_sizes: Seq<Seq<u32>>,
    vm_tree_ids: Seq<u32>,
    recursion_plan: VerifierControlPlan,
    recursion_config: PcsConfig,
    recursion_shape: PcsManifestShape,
    recursion_sizes: Seq<Seq<u32>>,
    left_tree_ids: Seq<u32>,
    right_tree_ids: Seq<u32>,
) -> Result<(Seq<TraceLeafRow>, ValidatedProfile, ValidatedProfile), TraceMerkleError> {
    match spec_validate_profile(VerifierSchema::Vm, vm_plan, vm_config, vm_shape, vm_sizes) {
        Err(error) => Err(error),
        Ok(vm) => match spec_validate_profile(
            VerifierSchema::Recursion,
            recursion_plan,
            recursion_config,
            recursion_shape,
            recursion_sizes,
        ) {
            Err(error) => Err(error),
            Ok(recursion) => {
                let vm_heights = word_values(vm_shape.tree_heights@);
                let recursion_heights = word_values(recursion_shape.tree_heights@);
                let (vm_rows, vm_error) = lane_rows(
                    vm_plan.steps@,
                    vm_sizes,
                    vm_heights,
                    vm_tree_ids,
                    vm.query_count as nat,
                    vm_lane(),
                    vm_sizes.len(),
                );
                let (left_rows, left_error) = lane_rows(
                    recursion_plan.steps@,
                    recursion_sizes,
                    recursion_heights,
                    left_tree_ids,
                    recursion.query_count as nat,
                    recursion_lane(LEFT_RECURSION_VERIFIER_ID),
                    recursion_sizes.len(),
                );
                let (right_rows, right_error) = lane_rows(
                    recursion_plan.steps@,
                    recursion_sizes,
                    recursion_heights,
                    right_tree_ids,
                    recursion.query_count as nat,
                    recursion_lane(RIGHT_RECURSION_VERIFIER_ID),
                    recursion_sizes.len(),
                );
                if vm_error is Some {
                    Err(vm_error->Some_0)
                } else if left_error is Some {
                    Err(left_error->Some_0)
                } else if right_error is Some {
                    Err(right_error->Some_0)
                } else {
                    Ok((vm_rows + left_rows + right_rows, vm, recursion))
                }
            },
        },
    }
}

/// Trusted leaf streams for the VM and recursion PCS profiles.
#[derive(Debug)]
pub struct TraceMerklePreprocessed {
    log_size: u32,
    rows: Vec<TraceLeafRow>,
    vm_queried_value_count: usize,
    vm_query_count: usize,
    recursion_queried_value_count: usize,
    recursion_query_count: usize,
}

impl TraceMerklePreprocessed {
    /// The rows fit the table's domain, which fits the largest domain.
    #[verifier::type_invariant]
    closed spec fn rows_fit(self) -> bool {
        &&& self.log_size <= MAX_LOG_SIZE
        &&& self.rows@.len() <= pow2(self.log_size as nat)
    }

    pub closed spec fn spec_log_size(&self) -> u32 {
        self.log_size
    }

    pub closed spec fn spec_rows(&self) -> Seq<TraceLeafRow> {
        self.rows@
    }

    pub closed spec fn spec_vm_profile(&self) -> ValidatedProfile {
        ValidatedProfile { query_count: self.vm_query_count, queried_value_count: self.vm_queried_value_count }
    }

    pub closed spec fn spec_recursion_profile(&self) -> ValidatedProfile {
        ValidatedProfile {
            query_count: self.recursion_query_count,
            queried_value_count: self.recursion_queried_value_count,
        }
    }

    /// Checks both profiles and lays out every opening's leaf-hash steps:
    /// the VM lane in segment mode, then the left and right recursion lanes
    /// in binary mode, padded to a power-of-two domain. Each lane names its
    /// trees by the ids given for that lane.
    pub fn new(
        vm_plan: &VerifierControlPlan,
        vm_config: PcsConfig,
        vm_shape: &PcsManifestShape,
        vm_column_log_sizes: &[Vec<u32>],
        vm_tree_ids: &[u32],
        recursion_plan: &VerifierControlPlan,
        recursion_config: PcsConfig,
        recursion_shape: &PcsManifestShape,
        recursion_column_log_sizes: &[Vec<u32>],
        left_tree_ids: &[u32],
        right_tree_ids: &[u32],
    ) -> (result: Result<Self, TraceMerkleError>)
        requires
            vm_tree_ids@.len() == vm_column_log_sizes@.len(),
            left_tree_ids@.len() == recursion_column_log_sizes@.len(),
            right_tree_ids@.len() == recursion_column_log_sizes@.len(),
        ensures
            match spec_leaf_table(
                *vm_plan,
                vm_config,
                *vm_shape,
                vm_column_log_sizes@.map_values(|c: Vec<u32>| c@),
                vm_tree_ids@,
                *recursion_plan,
                recursion_config,
                *recursion_shape,
                recursion_column_log_sizes@.map_values(|c: Vec<u32>| c@),
                left_tree_ids@,
                right_tree_ids@,
            ) {
                Err(error) => result == Err::<Self, _>(error),
                Ok((rows, vm, recursion)) => match spec_padded_log_size(rows.len(), MAX_LOG_SIZE) {
                    Ok(log_size) => result matches Ok(pre) && pre.spec_rows() == rows && pre.spec_log_size()
                        == log_size && pre.spec_vm_profile() == vm && pre.spec_recursion_profile()
                        == recursion,
                    Err(PaddedSizeError::RowCountOverflow) => result == Err::<Self, _>(
                        TraceMerkleError::RowCountOverflow,
                    ),
                    Err(PaddedSizeError::LogSizeOutOfRange { log_size }) => result == Err::<Self, _>(
                        TraceMerkleError::LogSizeOutOfRange { log_size },
                    ),
                },
            },
    {
        let ghost vm_sizes = vm_column_log_sizes@.map_values(|c: Vec<u32>| c@);
        let ghost recursion_sizes = recursion_column_log_sizes@.map_values(|c: Vec<u32>| c@);
        let vm = validate_profile(VerifierSchema::Vm, vm_plan, vm_config, vm_shape, vm_column_log_sizes)?;
        let recursion = validate_profile(
            VerifierSchema::Recursion,
            recursion_plan,
            recursion_config,
            recursion_shape,
            recursion_column_log_sizes,
        )?;
        let vm_heights = word_list(vm_shape.tree_heights.as_slice());
        let recursion_heights = word_list(recursion_shape.tree_heights.as_slice());
        let _ = vm_shape.queried_value_count.as_u32();
        let _ = recursion_shape.queried_value_count.as_u32();
        let _ = vm_shape.table_log_sizes.len();
        let _ = recursion_shape.table_log_sizes.len();
        proof {
            lemma_validated_lane(VerifierSchema::Vm, *vm_plan, vm_config, *vm_shape, vm_sizes, vm_tree_ids@);
            lemma_validated_lane(
                VerifierSchema::Recursion,
                *recursion_plan,
                recursion_config,
                *recursion_shape,
                recursion_sizes,
                left_tree_ids@,
            );
        }
        let mut rows: Vec<TraceLeafRow> = Vec::new();
        let vm_lane = LeafLane { verifier_id: SEGMENT_VERIFIER_ID, segment_mask: 1, binary_mask: 0 };
        append_lane_rows(
            &mut rows,
            vm_plan,
            vm_column_log_sizes,
            vm_heights.as_slice(),
            vm_tree_ids,
            vm.query_count,
            vm_lane,
        )?;
        let left_lane = LeafLane { verifier_id: LEFT_RECURSION_VERIFIER_ID, segment_mask: 0, binary_mask: 1 };
        append_lane_rows(
            &mut rows,
            recursion_plan,
            recursion_column_log_sizes,
            recursion_heights.as_slice(),
            left_tree_ids,
            recursion.query_count,
            left_lane,
        )?;
        let right_lane = LeafLane { verifier_id: RIGHT_RECURSION_VERIFIER_ID, segment_mask: 0, binary_mask: 1 };
        append_lane_rows(
            &mut rows,
            recursion_plan,
            recursion_column_log_sizes,
            recursion_heights.as_slice(),
            right_tree_ids,
            recursion.query_count,
            right_lane,
        )?;
        let log_size = match padded_log_size(rows.len(), MAX_LOG_SIZE) {
            Ok(log_size) => log_size,
            Err(PaddedSizeError::RowCountOverflow) => {
                return Err(TraceMerkleError::RowCountOverflow);
            },
            Err(PaddedSizeError::LogSizeOutOfRange { log_size }) => {
                return Err(TraceMerkleError::LogSizeOutOfRange { log_size });
            },
        };
        Ok(TraceMerklePreprocessed {
            log_size,
            rows,
            vm_queried_value_count: vm.queried_value_count,
            vm_query_count: vm.query_count,
            recursion_queried_value_count: recursion.queried_value_count,
            recursion_query_count: recursion.query_count,
        })
    }

    /// The log size of the table's domain, which holds every row.
    pub fn log_size(&self) -> (log_size: u32)
        ensures
            log_size == self.spec_log_size(),
            log_size <= MAX_LOG_SIZE,
            self.spec_rows().len() <= pow2(log_size as nat),
    {
        proof {
            use_type_invariant(self);
        }
        self.log_size
    }

    /// The table's rows: the VM lane, then the two recursion lanes.
    pub fn rows(&self) -> (rows: &[TraceLeafRow])
        ensures
            rows@ == self.spec_rows(),
    {
        self.rows.as_slice()
    }

    /// The checked query dimensions of the VM profile.
    pub fn vm_profile(&self) -> (profile: ValidatedProfile)
        ensures
            profile == self.spec_vm_profile(),
    {
        ValidatedProfile { query_count: self.vm_query_count, queried_value_count: self.vm_queried_value_count }
    }

    /// The checked query dimensions of the recursion profile.
    pub fn recursion_profile(&self) -> (profile: ValidatedProfile)
        ensures
            profile == self.spec_recursion_profile(),
    {
        ValidatedProfile {
            query_count: self.recursion_query_count,
            queried_value_count: self.recursion_queried_value_count,
        }
    }
}

/// Preprocessed columns of the trace-leaf table: seventeen row columns,
/// then three per absorbed word.
pub const LEAF_COLUMN_COUNT: usize = 41;

/// One when a condition holds, else zero.
pub open spec fn indicator(condition: bool) -> u32 {
    if condition {
        1
    } else {
        0
    }
}

/// The value of one row in preprocessed column `column`, in the table's
/// column order: row mask; segment and binary masks; verifier id; tree;
/// query; tree id; tree height; step; first and last masks; control
/// sequence, tag and four arguments; then for each absorbed word its value
/// mask, its tree column when it is a value, and its constant when it is one.
pub open spec fn leaf_column_value(row: TraceLeafRow, column: nat) -> u32 {
    if column == 0 {
        1
    } else if column == 1 {
        row.segment_mask
    } else if column == 2 {
        row.binary_mask
    } else if column == 3 {
        row.verifier_id
    } else if column == 4 {
        row.tree
    } else if column == 5 {
        row.query
    } else if column == 6 {
        row.tree_id
    } else if column == 7 {
        row.tree_height
    } else if column == 8 {
        row.step
    } else if column == 9 {
        indicator(row.first)
    } else if column == 10 {
        indicator(row.last)
    } else if column == 11 {
        row.control_sequence
    } else if column == 12 {
        row.control_tag
    } else if column < 17 {
        row.control_args@[column - 13]
    } else if column < LEAF_COLUMN_COUNT {
        let chunk = row.chunks@[(column - 17) / 3];
        let part = (column - 17) % 3;
        match chunk {
            LeafChunk::Value { column: tree_column, .. } => if part == 0 {
                1
            } else if part == 1 {
                tree_column
            } else {
                0
            },
            LeafChunk::Constant(value) => if part == 2 {
                value
            } else {
                0
            },
        }
    } else {
        0
    }
}

fn leaf_row_value(row: &TraceLeafRow, column: usize) -> (value: u32)
    requires
        column < LEAF_COLUMN_COUNT,
    ensures
        value == leaf_column_value(*row, column as nat),
{
    if column < 17 {
        match column {
            0 => 1,
            1 => row.segment_mask,
            2 => row.binary_mask,
            3 => row.verifier_id,
            4 => row.tree,
            5 => row.query,
            6 => row.tree_id,
            7 => row.tree_height,
            8 => row.step,
            9 => if row.first {
                1
            } else {
                0
            },
            10 => if row.last {
                1
            } else {
                0
            },
            11 => row.control_sequence,
            12 => row.control_tag,
            _ => row.control_args[column - 13],
        }
    } else {
        let slot = (column - 17) / 3;
        let part = (column - 17) % 3;
        match row.chunks[slot] {
            LeafChunk::Value { column: tree_column, .. } => if part == 0 {
                1
            } else if part == 1 {
                tree_column
            } else {
                0
            },
            LeafChunk::Constant(value) => if part == 2 {
                value
            } else {
                0
            },
        }
    }
}

impl TraceMerklePreprocessed {
    /// The values of every preprocessed column over the padded domain: row
    /// `i` of column `c` is the value of table row `i` in column `c`, and
    /// zero past the table's end.
    pub fn column_values(&self) -> (columns: Vec<Vec<u32>>)
        ensures
            columns@.len() == LEAF_COLUMN_COUNT,
            forall|c: int|
                0 <= c < LEAF_COLUMN_COUNT ==> {
                    let column = #[trigger] columns@[c]@;
                    &&& column.len() == pow2(self.spec_log_size() as nat)
                    &&& forall|i: int|
                        0 <= i < column.len() ==> #[trigger] column[i] == if i < self.spec_rows().len() {
                            leaf_column_value(self.spec_rows()[i], c as nat)
                        } else {
                            0
                        }
                },
    {
        let size = domain_size(self.log_size());
        let rows = self.rows();
        let mut columns: Vec<Vec<u32>> = Vec::new();
        let mut c: usize = 0;
        while c < LEAF_COLUMN_COUNT
            invariant
                c <= LEAF_COLUMN_COUNT,
                columns@.len() == c,
                rows@ == self.spec_rows(),
                size == pow2(self.spec_log_size() as nat),
                rows@.len() <= size,
                forall|d: int|
                    0 <= d < c ==> {
                        let column = #[trigger] columns@[d]@;
                        &&& column.len() == size
                        &&& forall|i: int|
                            0 <= i < column.len() ==> #[trigger] column[i] == if i < rows@.len() {
                                leaf_column_value(rows@[i], d as nat)
                            } else {
                                0
                            }
                    },
            decreases LEAF_COLUMN_COUNT - c,
        {
            let mut column: Vec<u32> = Vec::new();
            let mut i: usize = 0;
            while i < size
                invariant
                    i <= size,
                    column@.len() == i,
                    c < LEAF_COLUMN_COUNT,
                    forall|j: int|
                        0 <= j < i ==> #[trigger] column@[j] == if j < rows@.len() {
                            leaf_column_value(rows@[j], c as nat)
                        } else {
                            0
                        },
                decreases size - i,
            {
                if i < rows.len() {
                    column.push(leaf_row_value(&rows[i], c));
                } else {
                    column.push(0);
                }
                i = i + 1;
            }
            columns.push(column);
            c = c + 1;
        }
        columns
    }
}

proof fn lemma_row_chunks(
    order: Seq<usize>,
    offset: nat,
    query_count: nat,
    lane: LeafLane,
    tree: nat,
    query: nat,
    tree_id: u32,
    height: u32,
    step: nat,
    sequence: u32,
)
    ensures
        forall|slot: int|
            0 <= slot < 8 ==> #[trigger] leaf_row_of(
                order,
                offset,
                query_count,
                lane,
                tree,
                query,
                tree_id,
                height,
                step,
                sequence,
            ).chunks@[slot] == leaf_chunk(order, offset, query_count, query, (8 * step + slot) as nat),
{
    let row = leaf_row_of(order, offset, query_count, lane, tree, query, tree_id, height, step, sequence);
    assert forall|slot: int| 0 <= slot < 8 implies #[trigger] row.chunks@[slot] == leaf_chunk(
        order,
        offset,
        query_count,
        query,
        (8 * step + slot) as nat,
    ) by {
        if slot == 0 {
            assert(row.chunks@[0] == leaf_chunk(order, offset, query_count, query, 8 * step));
        }
    }
}

/// The word a tree column contributes to the opening at `query`.
pub open spec fn column_value(offset: nat, query_count: nat, query: nat, column: int) -> LeafChunk {
    LeafChunk::Value { column: column as u32, flat_index: ((offset + column) * query_count + query) as usize }
}

/// Whether some step of an opening absorbs `chunk`.
pub open spec fn stream_absorbs(rows: Seq<TraceLeafRow>, chunk: LeafChunk) -> bool {
    exists|step: int, slot: int| 0 <= step < rows.len() && 0 <= slot < 8 && #[trigger] rows[step].chunks@[slot] == chunk
}

/// Every column of a tree enters each opening's leaf stream exactly once,
/// as the queried value with flat index `(offset + column) * queries +
/// query`; the word after the last column is the terminating one; and every
/// later word is zero.
pub proof fn lemma_opening_absorbs_each_value_once(
    sizes: Seq<Seq<u32>>,
    heights: Seq<u32>,
    tree_ids: Seq<u32>,
    query_count: nat,
    lane: LeafLane,
    tree: nat,
    query: nat,
    sequence: u32,
)
    requires
        tree < sizes.len(),
        sizes[tree as int].len() < M31_MODULUS,
    ensures
        ({
            let rows = opening_rows(sizes, heights, tree_ids, query_count, lane, tree, query, sequence);
            let n = sizes[tree as int].len();
            let offset = column_offset(sizes, tree);
            &&& forall|c: int|
                0 <= c < n ==> #[trigger] stream_absorbs(rows, column_value(offset, query_count, query, c))
            &&& forall|s1: int, k1: int, s2: int, k2: int|
                0 <= s1 < rows.len() && 0 <= k1 < 8 && 0 <= s2 < rows.len() && 0 <= k2 < 8 && (
                #[trigger] rows[s1].chunks@[k1]) is Value && (#[trigger] rows[s2].chunks@[k2]) is Value
                    && rows[s1].chunks@[k1]->column == rows[s2].chunks@[k2]->column ==> s1 == s2 && k1 == k2
            &&& forall|step: int, slot: int|
                0 <= step < rows.len() && 0 <= slot < 8 && 8 * step + slot >= n ==> #[trigger] rows[step].chunks@[slot]
                    == LeafChunk::Constant(if 8 * step + slot == n {
                    1u32
                } else {
                    0u32
                })
        }),
{
    let keys = sizes[tree as int];
    let n = keys.len();
    let order = leaf_order(keys);
    let offset = column_offset(sizes, tree);
    let rows = opening_rows(sizes, heights, tree_ids, query_count, lane, tree, query, sequence);
    lemma_leaf_order_exists(keys);
    let id = tree_ids[tree as int];
    let height = heights[tree as int];
    assert forall|step: int, slot: int| 0 <= step < rows.len() && 0 <= slot < 8 implies #[trigger] rows[step].chunks@[slot]
        == leaf_chunk(order, offset, query_count, query, (8 * step + slot) as nat) by {
        lemma_row_chunks(order, offset, query_count, lane, tree, query, id, height, step as nat, sequence);
        assert(rows[step] == leaf_row_of(order, offset, query_count, lane, tree, query, id, height, step as nat, sequence));
    }
    assert forall|c: int| 0 <= c < n implies #[trigger] stream_absorbs(rows, column_value(offset, query_count, query, c)) by {
        assert(listed(order, c));
        let r = choose|r: int| 0 <= r < order.len() && #[trigger] order[r] == c;
        let step = r / 8;
        let slot = r % 8;
        assert(8 * step + slot == r);
        assert(step < rows.len());
        assert(rows[step].chunks@[slot] == leaf_chunk(order, offset, query_count, query, r as nat));
    }
    assert forall|s1: int, k1: int, s2: int, k2: int|
        0 <= s1 < rows.len() && 0 <= k1 < 8 && 0 <= s2 < rows.len() && 0 <= k2 < 8 && (
        #[trigger] rows[s1].chunks@[k1]) is Value && (#[trigger] rows[s2].chunks@[k2]) is Value
            && rows[s1].chunks@[k1]->column == rows[s2].chunks@[k2]->column implies s1 == s2 && k1 == k2 by {
        let r1 = 8 * s1 + k1;
        let r2 = 8 * s2 + k2;
        assert(rows[s1].chunks@[k1] == leaf_chunk(order, offset, query_count, query, r1 as nat));
        assert(rows[s2].chunks@[k2] == leaf_chunk(order, offset, query_count, query, r2 as nat));
        assert(r1 < n && r2 < n);
        assert(order[r1] < n && order[r2] < n);
        assert(order[r1] == order[r2]);
        if r1 < r2 {
            assert(leaf_before(keys, order[r1] as int, order[r2] as int));
        } else if r2 < r1 {
            assert(leaf_before(keys, order[r2] as int, order[r1] as int));
        }
    }
}

} // verus!
