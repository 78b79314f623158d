use recursion::kernel::{VerifierControlPlan, VerifierSchema, VerifierStep};
use recursion::m31::M31Word;
use recursion::pcs_layout::{PcsConfig, PcsManifestShape};
use recursion::trace_leaf::TraceMerklePreprocessed;
use recursion::trace_leaf_sponge::{
    TraceLeafRequest, TraceLeafSponge, TraceOpeningSet, UniversalTraceOpeningWitness,
};
use recursion::trace_merkle::{TraceLeafClaim, TraceMerkleError};

fn word(value: u32) -> M31Word {
    M31Word::try_from_u32(value).unwrap()
}

fn path(tree: u32, query: u32, depth: u32) -> VerifierStep {
    VerifierStep::VerifyTraceMerklePath { tree, query, depth }
}

fn plan(schema: VerifierSchema, steps: Vec<VerifierStep>) -> VerifierControlPlan {
    VerifierControlPlan { schema, steps, pcs_parameter_word_count: 0, statement_word_count: 0 }
}

fn shape(queried: u32, table_log_sizes: &[u32], heights: &[u32]) -> PcsManifestShape {
    PcsManifestShape {
        claimed_sum_count: word(0),
        sampled_value_count: word(0),
        queried_value_count: word(queried),
        table_log_sizes: table_log_sizes.iter().copied().map(word).collect(),
        tree_heights: heights.iter().copied().map(word).collect(),
        lifting_log_size: heights[0],
    }
}

fn config(n_queries: usize) -> PcsConfig {
    PcsConfig { log_blowup_factor: 1, n_queries, lifting_log_size: None }
}

/// Four single-step VM openings, then one step in each recursion lane.
fn preprocessed() -> TraceMerklePreprocessed {
    TraceMerklePreprocessed::new(
        &plan(
            VerifierSchema::Vm,
            vec![
                VerifierStep::BindProtocol,
                path(0, 0, 6),
                path(0, 1, 6),
                path(1, 0, 5),
                path(1, 1, 5),
                VerifierStep::Complete,
            ],
        ),
        config(2),
        &shape(6, &[5, 3, 4], &[6, 5]),
        &[vec![5, 3], vec![4]],
        &[10, 11],
        &plan(VerifierSchema::Recursion, vec![path(0, 0, 3), VerifierStep::Complete]),
        config(1),
        &shape(1, &[2], &[3]),
        &[vec![2]],
        &[20],
        &[30],
    )
    .unwrap()
}

/// One VM opening of nine columns: two leaf steps.
fn long_preprocessed() -> TraceMerklePreprocessed {
    let sizes: Vec<u32> = (0..9).map(|k| 9 - k).collect();
    TraceMerklePreprocessed::new(
        &plan(VerifierSchema::Vm, vec![path(0, 0, 10)]),
        config(1),
        &shape(9, &sizes, &[10]),
        &[sizes.clone()],
        &[7],
        &plan(VerifierSchema::Recursion, vec![path(0, 0, 3), VerifierStep::Complete]),
        config(1),
        &shape(1, &[2], &[3]),
        &[vec![2]],
        &[20],
        &[30],
    )
    .unwrap()
}

fn permute(input: [u32; 16]) -> [u32; 16] {
    let mut output = [0u32; 16];
    for j in 0..16 {
        output[j] = (input[(j + 1) % 16] + 7) % 0x7fff_ffff;
    }
    output
}

/// Drives the sponge to the end, routing a raw query `q` to position `3 q`.
fn run(
    table: &mut Vec<u32>,
    preprocessed: &TraceMerklePreprocessed,
    witness: UniversalTraceOpeningWitness<'_>,
    permute: impl Fn([u32; 16]) -> [u32; 16],
) -> Result<Vec<TraceLeafClaim>, TraceMerkleError> {
    let mut sponge = TraceLeafSponge::new(preprocessed, witness)?;
    loop {
        let input = match sponge.next_request(table, preprocessed, witness)? {
            TraceLeafRequest::Done => return Ok(sponge.into_claims()),
            TraceLeafRequest::Permute { input } => input,
            TraceLeafRequest::Route { raw_query, .. } => sponge.route_evaluated(3 * raw_query, 0)?,
        };
        sponge.permuted(table, permute(input));
    }
}

#[test]
fn segment_witness_hashes_each_vm_opening_and_zeroes_the_recursion_lanes() {
    let pre = preprocessed();
    let values: Vec<M31Word> = (100..106).map(word).collect();
    let raw = vec![word(4), word(9)];
    let witness = UniversalTraceOpeningWitness::Segment(TraceOpeningSet {
        queried_values: &values,
        raw_queries: &raw,
    });
    let mut table = Vec::new();
    let claims = run(&mut table, &pre, witness, permute).unwrap();
    assert_eq!(table.len(), 6 * 42);
    assert!(table[4 * 42..].iter().all(|value| *value == 0));
    // First row: leaf domain state, then chunks (value 2, value 0, terminator).
    let mut start = [0u32; 16];
    start[15] = 1;
    let chunks = [102, 100, 1, 0, 0, 0, 0, 0];
    let mut input = start;
    for j in 0..8 {
        input[j] += chunks[j];
    }
    let output = permute(input);
    assert_eq!(&table[0..2], &[1, 12]);
    assert_eq!(&table[2..18], &start);
    assert_eq!(&table[18..26], &chunks);
    assert_eq!(&table[26..42], &output);
    assert_eq!(claims.len(), 4);
    let first = claims[0];
    assert_eq!(
        (first.verifier_id, first.tree, first.query, first.tree_id, first.height, first.position),
        (0, 0, 0, 10, 6, 12)
    );
    assert_eq!(first.digest, output[..8]);
    let last = claims[3];
    assert_eq!((last.tree, last.query, last.tree_id, last.height, last.position), (1, 1, 11, 5, 27));
}

#[test]
fn binary_witness_zeroes_the_vm_lane_and_hashes_both_recursion_lanes() {
    let pre = preprocessed();
    let left_values = vec![word(5)];
    let right_values = vec![word(6)];
    let raw = vec![word(2)];
    let witness = UniversalTraceOpeningWitness::Binary {
        left: TraceOpeningSet { queried_values: &left_values, raw_queries: &raw },
        right: TraceOpeningSet { queried_values: &right_values, raw_queries: &raw },
    };
    let mut table = Vec::new();
    let claims = run(&mut table, &pre, witness, permute).unwrap();
    assert_eq!(table.len(), 6 * 42);
    assert!(table[..4 * 42].iter().all(|value| *value == 0));
    assert_eq!(claims.len(), 2);
    assert_eq!((claims[0].verifier_id, claims[0].tree_id, claims[0].position), (1, 20, 6));
    assert_eq!((claims[1].verifier_id, claims[1].tree_id, claims[1].position), (2, 30, 6));
    assert_eq!(table[4 * 42 + 18], 5);
    assert_eq!(table[5 * 42 + 18], 6);
}

#[test]
fn empty_witness_records_only_zero_rows() {
    let pre = preprocessed();
    let mut table = vec![9];
    let claims = run(&mut table, &pre, UniversalTraceOpeningWitness::Empty, permute).unwrap();
    assert!(claims.is_empty());
    assert_eq!(table.len(), 1 + 6 * 42);
    assert!(table[1..].iter().all(|value| *value == 0));
}

#[test]
fn later_steps_continue_from_the_permuted_state_modulo_the_prime() {
    let pre = long_preprocessed();
    let values: Vec<M31Word> = (1..10).map(word).collect();
    let raw = vec![word(1)];
    let witness = UniversalTraceOpeningWitness::Segment(TraceOpeningSet {
        queried_values: &values,
        raw_queries: &raw,
    });
    let big = |input: [u32; 16]| {
        let mut output = [0u32; 16];
        for j in 0..16 {
            output[j] = if input[j] < 16 { 0x7fff_fffe } else { input[j] % 16 };
        }
        output
    };
    let mut table = Vec::new();
    let claims = run(&mut table, &pre, witness, big).unwrap();
    // Two VM steps, two zero recursion rows.
    assert_eq!(table.len(), 4 * 42);
    let first_output: Vec<u32> = table[26..42].to_vec();
    assert_eq!(&table[42 + 2..42 + 18], &first_output[..]);
    // Second step absorbs value 0 (flat index 0) and the terminator.
    assert_eq!(&table[42 + 18..42 + 20], &[1, 1]);
    // 0x7fff_fffe + 1 wraps to zero before the permutation.
    assert_eq!(first_output[0], 0x7fff_fffe);
    assert_eq!(table[42 + 26], 0x7fff_fffe);
    assert_eq!(claims.len(), 1);
    assert_eq!(claims[0].position, 3);
}

#[test]
fn opening_counts_are_checked_before_any_row() {
    let pre = preprocessed();
    let values: Vec<M31Word> = (0..5).map(word).collect();
    let raw = vec![word(0), word(0)];
    let witness =
        UniversalTraceOpeningWitness::Segment(TraceOpeningSet { queried_values: &values, raw_queries: &raw });
    assert_eq!(
        TraceLeafSponge::new(&pre, witness).err(),
        Some(TraceMerkleError::QueriedValueCountMismatchForWitness { verifier_id: 0, expected: 6, actual: 5 })
    );
    let left_values = vec![word(1)];
    let right_values = vec![word(1)];
    let no_raw: Vec<M31Word> = Vec::new();
    let one_raw = vec![word(0)];
    let witness = UniversalTraceOpeningWitness::Binary {
        left: TraceOpeningSet { queried_values: &left_values, raw_queries: &one_raw },
        right: TraceOpeningSet { queried_values: &right_values, raw_queries: &no_raw },
    };
    assert_eq!(
        TraceLeafSponge::new(&pre, witness).err(),
        Some(TraceMerkleError::RawQueryCountMismatch { verifier_id: 2, expected: 1, actual: 0 })
    );
}

#[test]
fn a_trace_route_with_an_offset_is_refused() {
    let pre = preprocessed();
    let values: Vec<M31Word> = (100..106).map(word).collect();
    let raw = vec![word(4), word(9)];
    let witness = UniversalTraceOpeningWitness::Segment(TraceOpeningSet {
        queried_values: &values,
        raw_queries: &raw,
    });
    let mut sponge = TraceLeafSponge::new(&pre, witness).unwrap();
    let mut table = Vec::new();
    match sponge.next_request(&mut table, &pre, witness).unwrap() {
        TraceLeafRequest::Route { verifier_id, tree, query, raw_query } => {
            assert_eq!((verifier_id, tree, query, raw_query), (0, 0, 0, 4));
        }
        _ => panic!("the first VM row ends its opening"),
    }
    assert_eq!(
        sponge.route_evaluated(12, 1).err(),
        Some(TraceMerkleError::TraceOffsetNotZero { verifier_id: 0, tree: 0, query: 0, offset: 1 })
    );
    assert!(table.is_empty());
}
