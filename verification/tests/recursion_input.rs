use recursion::circuit::{CircuitNode, ConstraintCircuit, NodeOp};
use recursion::composition_input::{
    AnchorKind, CircuitAnchorMode, CompositionInputSource, RecursionAirCompositionInputSource,
    VmAirCompositionCircuit, VmAirCompositionInputBinding, VmAirCompositionInputError,
    VmAirCompositionInputPreprocessed, VmAirCompositionInputSource,
};
use recursion::composition_profile::VmAirCompositionProfile;
use recursion::composition_values::{push_air_composition_inputs, push_vm_air_composition_inputs};
use recursion::kernel::ProofKind;
use recursion::m31::M31_MODULUS;
use recursion::recursion_input::{
    recursion_input_rows, validate_recursion_source, RecursionAirCompositionCircuit,
    RecursionAirCompositionInputBinding, RecursionCompositionInputLane, RecursionInputBounds,
};
use recursion::verifier_randomness::VerifierRandomnessKind;

const BOUNDS: RecursionInputBounds = RecursionInputBounds { statement_word_count: 12, relation_count: 3 };

fn input(use_count: u32) -> CircuitNode {
    CircuitNode { op: NodeOp::Input, use_count, value: [0; 4] }
}

fn vm_reference() -> VmAirCompositionCircuit {
    let profile = VmAirCompositionProfile::new(vec![4], 0, 0, 0, 1).unwrap();
    let mut sources = Vec::new();
    for word_index in 0..4 {
        sources.push(VmAirCompositionInputSource::CompositionRandomnessWord { word_index });
    }
    for word_index in 0..4 {
        sources.push(VmAirCompositionInputSource::OodsPointWord { word_index });
    }
    sources.push(VmAirCompositionInputSource::SegmentSelector);
    let nodes: Vec<CircuitNode> = (0..9).map(|_| input(1)).collect();
    let bindings = sources
        .into_iter()
        .enumerate()
        .map(|(node, source)| VmAirCompositionInputBinding { node_id: node as u32, source })
        .collect();
    VmAirCompositionCircuit::new(profile, ConstraintCircuit { nodes, outputs: vec![] }, bindings)
}

fn child_sources() -> Vec<RecursionAirCompositionInputSource> {
    vec![
        RecursionAirCompositionInputSource::ParentBinarySelector,
        RecursionAirCompositionInputSource::ChildKindSelector { kind: ProofKind::SegmentLeaf },
        RecursionAirCompositionInputSource::ChildKindSelector { kind: ProofKind::BinaryNode },
        RecursionAirCompositionInputSource::ChildKindSelector { kind: ProofKind::EmptyLeaf },
        RecursionAirCompositionInputSource::StatementWord { word_index: 11 },
        RecursionAirCompositionInputSource::ClaimedSumWord { item_index: 2, word_index: 3 },
    ]
}

fn child_with(sources: Vec<RecursionAirCompositionInputSource>, values: [u32; 6]) -> RecursionAirCompositionCircuit {
    let nodes: Vec<CircuitNode> = (0..6)
        .map(|k| CircuitNode { op: NodeOp::Input, use_count: 2, value: [values[k], 0, 0, 0] })
        .collect();
    let bindings = sources
        .into_iter()
        .enumerate()
        .map(|(node, source)| RecursionAirCompositionInputBinding { node_id: node as u32, source })
        .collect();
    RecursionAirCompositionCircuit::new(ConstraintCircuit { nodes, outputs: vec![] }, bindings)
}

fn lane(verifier_id: u32, circuit_id: u32, circuit: &RecursionAirCompositionCircuit) -> RecursionCompositionInputLane<'_> {
    RecursionCompositionInputLane { verifier_id, circuit_id, statement_scope: verifier_id + 10, circuit }
}

#[test]
fn child_sources_map_to_their_index_columns() {
    assert_eq!(
        validate_recursion_source(RecursionAirCompositionInputSource::ParentBinarySelector, BOUNDS),
        Ok((0, 0))
    );
    assert_eq!(
        validate_recursion_source(
            RecursionAirCompositionInputSource::ChildKindSelector { kind: ProofKind::EmptyLeaf },
            BOUNDS
        ),
        Ok((2, 0))
    );
    assert_eq!(
        validate_recursion_source(
            RecursionAirCompositionInputSource::SampledValueWord { item_index: 7, word_index: 1 },
            BOUNDS
        ),
        Ok((7, 1))
    );
    assert_eq!(
        validate_recursion_source(
            RecursionAirCompositionInputSource::RelationChallengeWord { challenge: 2, word_index: 7 },
            BOUNDS
        ),
        Ok((2, 7))
    );
}

#[test]
fn out_of_range_child_sources_are_rejected() {
    assert_eq!(
        validate_recursion_source(RecursionAirCompositionInputSource::StatementWord { word_index: 12 }, BOUNDS),
        Err(VmAirCompositionInputError::StatementWordIndexOutOfRange { word_index: 12 })
    );
    assert_eq!(
        validate_recursion_source(
            RecursionAirCompositionInputSource::ClaimedSumWord { item_index: 0, word_index: 4 },
            BOUNDS
        ),
        Err(VmAirCompositionInputError::RecursionSecureWordIndexOutOfRange { word_index: 4 })
    );
    assert_eq!(
        validate_recursion_source(
            RecursionAirCompositionInputSource::RelationChallengeWord { challenge: 3, word_index: 0 },
            BOUNDS
        ),
        Err(VmAirCompositionInputError::ChallengeIndexOutOfRange { challenge: 3 })
    );
    assert_eq!(
        validate_recursion_source(
            RecursionAirCompositionInputSource::RelationChallengeWord { challenge: 0, word_index: 8 },
            BOUNDS
        ),
        Err(VmAirCompositionInputError::ChallengeWordOutOfRange { word_index: 8 })
    );
    assert_eq!(
        validate_recursion_source(RecursionAirCompositionInputSource::OodsPointWord { word_index: 4 }, BOUNDS),
        Err(VmAirCompositionInputError::RandomnessWordOutOfRange {
            kind: VerifierRandomnessKind::OodsPoint,
            word_index: 4,
        })
    );
}

#[test]
fn a_lane_owns_each_child_input_in_binary_mode() {
    let child = child_with(child_sources(), [0; 6]);
    let rows = recursion_input_rows(lane(1, 5, &child), BOUNDS).unwrap();
    assert_eq!(rows.len(), 6);
    for (k, row) in rows.iter().enumerate() {
        assert_eq!(
            row.source,
            Some(CompositionInputSource::Recursion {
                verifier_id: 1,
                statement_scope: 11,
                source: child_sources()[k],
            })
        );
        assert_eq!(row.anchor, AnchorKind::Unanchored);
        assert_eq!(row.anchor_mode, CircuitAnchorMode::binary_only());
        assert_eq!(row.circuit_id, 5);
        assert_eq!(row.node_id, k as u32);
        assert_eq!(row.use_count, 2);
    }
    assert_eq!((rows[2].source_index_0, rows[4].source_index_0), (1, 11));
    assert_eq!((rows[5].source_index_0, rows[5].source_index_1), (2, 3));
}

#[test]
fn a_lane_needs_one_parent_and_three_child_selectors() {
    let mut sources = child_sources();
    sources[3] = RecursionAirCompositionInputSource::StatementWord { word_index: 0 };
    let child = child_with(sources, [0; 6]);
    assert_eq!(
        recursion_input_rows(lane(1, 5, &child), BOUNDS).err(),
        Some(VmAirCompositionInputError::RecursionSelectorCountMismatch { parent: 1, child: 2 })
    );
    let mut repeated = child_sources();
    repeated[5] = RecursionAirCompositionInputSource::ParentBinarySelector;
    let child = child_with(repeated, [0; 6]);
    assert_eq!(
        recursion_input_rows(lane(1, 5, &child), BOUNDS).err(),
        Some(VmAirCompositionInputError::DuplicateRecursionInputSource {
            circuit_id: 5,
            source: RecursionAirCompositionInputSource::ParentBinarySelector,
        })
    );
}

#[test]
fn lane_scopes_must_be_canonical() {
    let child = child_with(child_sources(), [0; 6]);
    let bad = RecursionCompositionInputLane {
        verifier_id: M31_MODULUS,
        circuit_id: 5,
        statement_scope: 0,
        circuit: &child,
    };
    assert_eq!(
        recursion_input_rows(bad, BOUNDS).err(),
        Some(VmAirCompositionInputError::VerifierIdNotCanonical { verifier_id: M31_MODULUS })
    );
    let bad = RecursionCompositionInputLane {
        verifier_id: 1,
        circuit_id: 5,
        statement_scope: u32::MAX,
        circuit: &child,
    };
    assert_eq!(
        recursion_input_rows(bad, BOUNDS).err(),
        Some(VmAirCompositionInputError::StatementScopeNotCanonical { statement_scope: u32::MAX })
    );
}

#[test]
fn table_holds_vm_inputs_then_both_child_lanes_then_anchors() {
    let reference = vm_reference();
    let left = child_with(child_sources(), [0; 6]);
    let right = child_with(child_sources(), [0; 6]);
    let lanes = [lane(1, 5, &left), lane(2, 6, &right)];
    let table =
        VmAirCompositionInputPreprocessed::new_with_anchors_and_recursion_inputs(&reference, 9, &lanes, BOUNDS, &[])
            .unwrap();
    assert_eq!(table.vm_input_count(), 9);
    assert_eq!(table.input_count(), 21);
    assert_eq!(table.rows().len(), 21);
    assert_eq!(table.log_size(), 5);
    assert_eq!(table.rows()[9].circuit_id, 5);
    assert_eq!(table.rows()[20].circuit_id, 6);
    let columns = table.column_values();
    // Row twelve is the left child's empty-leaf selector; row nineteen the
    // right child's statement word.
    assert_eq!((columns[23][12], columns[24][12], columns[26][12]), (0, 1, 1));
    assert_eq!((columns[27][19], columns[28][19], columns[29][19]), (1, 2, 12));
    assert_eq!((columns[2][20], columns[30][20]), (1, 1));
    assert_eq!((columns[25][9], columns[6][9]), (1, 0));
    assert_eq!((columns[28][0], columns[23][0], columns[4][0]), (0, 1, 1));
    let same_lane_twice = [lane(1, 5, &left), lane(1, 5, &left)];
    assert!(VmAirCompositionInputPreprocessed::new_with_anchors_and_recursion_inputs(
        &reference,
        9,
        &same_lane_twice,
        BOUNDS,
        &[]
    )
    .is_ok());
}

fn vm_witness(selector: u32) -> VmAirCompositionCircuit {
    let reference = vm_reference();
    let mut circuit = reference.circuit().clone();
    circuit.nodes[8].value = [selector, 0, 0, 0];
    VmAirCompositionCircuit::new(reference.profile().clone(), circuit, reference.input_bindings().to_vec())
}

#[test]
fn binary_mode_fills_child_values_and_zeroes_the_vm_lane() {
    let reference = vm_reference();
    let left_reference = child_with(child_sources(), [0; 6]);
    let right_reference = child_with(child_sources(), [0; 6]);
    let references = [lane(1, 5, &left_reference), lane(2, 6, &right_reference)];
    let table_layout =
        VmAirCompositionInputPreprocessed::new_with_anchors_and_recursion_inputs(&reference, 9, &references, BOUNDS, &[])
            .unwrap();
    let left = child_with(child_sources(), [1, 1, 0, 0, 40, 41]);
    let right = child_with(child_sources(), [1, 0, 1, 0, 50, 51]);
    let witnesses = [lane(1, 5, &left), lane(2, 6, &right)];
    let mut table = Vec::new();
    assert_eq!(
        push_air_composition_inputs(
            &mut table,
            &table_layout,
            &reference,
            &vm_witness(0),
            &references,
            &witnesses,
            ProofKind::BinaryNode,
        ),
        Ok(())
    );
    let mut expected = vec![0; 9];
    expected.extend([1, 1, 0, 0, 40, 41, 1, 0, 1, 0, 50, 51]);
    assert_eq!(table, expected);
}

#[test]
fn child_inputs_must_be_zero_outside_binary_mode() {
    let reference = vm_reference();
    let child_reference = child_with(child_sources(), [0; 6]);
    let references = [lane(1, 5, &child_reference)];
    let table_layout =
        VmAirCompositionInputPreprocessed::new_with_anchors_and_recursion_inputs(&reference, 9, &references, BOUNDS, &[])
            .unwrap();
    let leaking = child_with(child_sources(), [0, 0, 0, 0, 7, 0]);
    let witnesses = [lane(1, 5, &leaking)];
    assert_eq!(
        push_air_composition_inputs(
            &mut Vec::new(),
            &table_layout,
            &reference,
            &vm_witness(1),
            &references,
            &witnesses,
            ProofKind::SegmentLeaf,
        ),
        Err(VmAirCompositionInputError::InactiveInputIsNonZero { node_id: 4 })
    );
    let selected = child_with(child_sources(), [1, 0, 0, 0, 0, 0]);
    let witnesses = [lane(1, 5, &selected)];
    assert_eq!(
        push_air_composition_inputs(
            &mut Vec::new(),
            &table_layout,
            &reference,
            &vm_witness(0),
            &references,
            &witnesses,
            ProofKind::EmptyLeaf,
        ),
        Err(VmAirCompositionInputError::InactiveInputIsNonZero { node_id: 0 })
    );
}

#[test]
fn child_witnesses_must_match_their_lanes() {
    let reference = vm_reference();
    let child_reference = child_with(child_sources(), [0; 6]);
    let references = [lane(1, 5, &child_reference)];
    let table_layout =
        VmAirCompositionInputPreprocessed::new_with_anchors_and_recursion_inputs(&reference, 9, &references, BOUNDS, &[])
            .unwrap();
    let witness = child_with(child_sources(), [1, 1, 0, 0, 0, 0]);
    assert_eq!(
        push_air_composition_inputs(
            &mut Vec::new(),
            &table_layout,
            &reference,
            &vm_witness(0),
            &references,
            &[],
            ProofKind::BinaryNode,
        ),
        Err(VmAirCompositionInputError::RecursionLaneCountMismatch { expected: 1, actual: 0 })
    );
    let moved = [RecursionCompositionInputLane {
        verifier_id: 1,
        circuit_id: 5,
        statement_scope: 99,
        circuit: &witness,
    }];
    assert_eq!(
        push_air_composition_inputs(
            &mut Vec::new(),
            &table_layout,
            &reference,
            &vm_witness(0),
            &references,
            &moved,
            ProofKind::BinaryNode,
        ),
        Err(VmAirCompositionInputError::InputLayoutMismatch)
    );
    // Without its child lane the table still expects the child's inputs.
    assert_eq!(
        push_vm_air_composition_inputs(&mut Vec::new(), &table_layout, &reference, &vm_witness(0), ProofKind::BinaryNode),
        Err(VmAirCompositionInputError::InputCountMismatch { expected: 15, actual: 9 })
    );
}
