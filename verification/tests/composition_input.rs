use recursion::circuit::{CircuitNode, ConstraintCircuit, NodeOp};
use recursion::composition_input::{
    append_anchor_rows, checked_node_id, expected_input_count, validate_randomness_word,
    validate_secure_coordinate, validate_source, vm_input_rows, AnchorKind, CircuitAnchorLane,
    CircuitAnchorMode, CompositionInputSource, VmAirCompositionCircuit,
    VmAirCompositionInputBinding, VmAirCompositionInputError, VmAirCompositionInputKind,
    VmAirCompositionInputPreprocessed, VmAirCompositionInputSource,
};
use recursion::composition_lowering::{lower_vm_air_composition_circuit, VmAirCompositionLoweringError};
use recursion::composition_profile::VmAirCompositionProfile;
use recursion::composition_values::push_vm_air_composition_inputs;
use recursion::kernel::ProofKind;
use recursion::m31::M31_MODULUS;
use recursion::verifier_randomness::VerifierRandomnessKind;

fn profile() -> VmAirCompositionProfile {
    VmAirCompositionProfile::new(vec![4], 1, 0, 0, 1).unwrap()
}

fn input(use_count: u32) -> CircuitNode {
    CircuitNode { op: NodeOp::Input, use_count, value: [0; 4] }
}

fn sources() -> Vec<VmAirCompositionInputSource> {
    let mut sources = Vec::new();
    for word_index in 0..4 {
        sources.push(VmAirCompositionInputSource::SampledValueWord { item_index: 0, word_index });
    }
    for word_index in 0..4 {
        sources.push(VmAirCompositionInputSource::CompositionRandomnessWord { word_index });
    }
    for word_index in 0..4 {
        sources.push(VmAirCompositionInputSource::OodsPointWord { word_index });
    }
    sources.push(VmAirCompositionInputSource::SegmentSelector);
    sources
}

fn circuit() -> ConstraintCircuit {
    let mut nodes: Vec<CircuitNode> = (0..13).map(|k| input(k + 1)).collect();
    nodes.push(CircuitNode { op: NodeOp::Const, use_count: 2, value: [5, 0, 0, 0] });
    nodes.push(CircuitNode { op: NodeOp::Mul(0, 13), use_count: 1, value: [0; 4] });
    ConstraintCircuit { nodes, outputs: vec![14] }
}

fn reference_with(sources: Vec<VmAirCompositionInputSource>) -> VmAirCompositionCircuit {
    let bindings = sources
        .into_iter()
        .enumerate()
        .map(|(node, source)| VmAirCompositionInputBinding { node_id: node as u32, source })
        .collect();
    VmAirCompositionCircuit::new(profile(), circuit(), bindings)
}

#[test]
fn input_count_covers_every_verifier_source() {
    assert_eq!(expected_input_count(&profile()), Ok(13));
    let wide = VmAirCompositionProfile::new(vec![], 2, 3, 1, 0).unwrap();
    assert_eq!(expected_input_count(&wide), Ok(8 + 12 + 8 + 8 + 1));
}

#[test]
fn vm_inputs_own_each_source_once() {
    let rows = vm_input_rows(&reference_with(sources()), 9).unwrap();
    assert_eq!(rows.len(), 13);
    for (k, row) in rows.iter().enumerate() {
        assert_eq!(row.source, Some(CompositionInputSource::Vm(sources()[k])));
        assert_eq!(row.anchor, AnchorKind::Unanchored);
        assert_eq!(row.anchor_mode, CircuitAnchorMode::segment_only());
        assert_eq!(row.circuit_id, 9);
        assert_eq!(row.node_id, k as u32);
        assert_eq!(row.use_count, k as u32 + 1);
    }
    assert_eq!((rows[2].source_index_0, rows[2].source_index_1), (0, 2));
    assert_eq!((rows[12].source_index_0, rows[12].source_index_1), (0, 0));
}

#[test]
fn table_holds_inputs_then_constant_and_output_anchors() {
    let table = VmAirCompositionInputPreprocessed::new(&reference_with(sources()), 9).unwrap();
    assert_eq!(table.input_count(), 13);
    assert_eq!(table.rows().len(), 15);
    assert_eq!(table.log_size(), 4);
    let constant = table.rows()[13];
    assert_eq!(constant.source, None);
    assert_eq!(constant.anchor, AnchorKind::Constant);
    assert_eq!(constant.node_id, 13);
    assert_eq!(constant.use_count, 2);
    assert_eq!(constant.fixed_value, [5, 0, 0, 0]);
    let output = table.rows()[14];
    assert_eq!(output.anchor, AnchorKind::Output);
    assert_eq!(output.node_id, 14);
    assert_eq!(output.use_count, 0);
}

#[test]
fn further_circuits_are_anchored_in_their_own_modes() {
    let other = ConstraintCircuit {
        nodes: vec![CircuitNode { op: NodeOp::Const, use_count: 1, value: [1, 2, 3, 4] }],
        outputs: vec![0],
    };
    let lanes = [CircuitAnchorLane {
        circuit_id: 3,
        circuit: &other,
        active_in: CircuitAnchorMode::binary_only(),
    }];
    let table =
        VmAirCompositionInputPreprocessed::new_with_anchors(&reference_with(sources()), 9, &lanes)
            .unwrap();
    assert_eq!(table.rows().len(), 17);
    assert_eq!(table.rows()[15].circuit_id, 3);
    assert_eq!(table.rows()[15].anchor_mode, CircuitAnchorMode::binary_only());
    assert_eq!(table.rows()[16].anchor, AnchorKind::Output);
    let repeated = [CircuitAnchorLane {
        circuit_id: 9,
        circuit: &other,
        active_in: CircuitAnchorMode::all(),
    }];
    assert_eq!(
        VmAirCompositionInputPreprocessed::new_with_anchors(&reference_with(sources()), 9, &repeated)
            .err(),
        Some(VmAirCompositionInputError::DuplicateCircuitId { circuit_id: 9 })
    );
}

#[test]
fn append_anchor_rows_records_the_circuit_id() {
    let circuit = circuit();
    let mut rows = Vec::new();
    let mut ids = vec![1];
    let lane = CircuitAnchorLane { circuit_id: 2, circuit: &circuit, active_in: CircuitAnchorMode::all() };
    assert_eq!(append_anchor_rows(&mut rows, lane, &mut ids), Ok(()));
    assert_eq!(ids, vec![1, 2]);
    assert_eq!(rows.len(), 2);
    assert_eq!(rows[0].anchor_mode, CircuitAnchorMode::all());
    let bad = CircuitAnchorLane {
        circuit_id: M31_MODULUS,
        circuit: &circuit,
        active_in: CircuitAnchorMode::all(),
    };
    assert_eq!(
        append_anchor_rows(&mut rows, bad, &mut ids),
        Err(VmAirCompositionInputError::CircuitIdNotCanonical { circuit_id: M31_MODULUS })
    );
}

#[test]
fn duplicate_source_is_rejected() {
    let mut sources = sources();
    sources[5] = sources[4];
    assert_eq!(
        vm_input_rows(&reference_with(sources.clone()), 9).err(),
        Some(VmAirCompositionInputError::DuplicateInputSource { source: sources[4] })
    );
}

#[test]
fn missing_selector_is_rejected() {
    let mut sources = sources();
    sources.pop();
    assert_eq!(
        vm_input_rows(&reference_with(sources), 9).err(),
        Some(VmAirCompositionInputError::SelectorCountMismatch { actual: 0 })
    );
}

#[test]
fn binding_to_a_non_input_node_is_rejected() {
    let mut bindings: Vec<VmAirCompositionInputBinding> = sources()
        .into_iter()
        .enumerate()
        .map(|(node, source)| VmAirCompositionInputBinding { node_id: node as u32, source })
        .collect();
    bindings[0].node_id = 13;
    let reference = VmAirCompositionCircuit::new(profile(), circuit(), bindings.clone());
    assert_eq!(
        vm_input_rows(&reference, 9).err(),
        Some(VmAirCompositionInputError::BindingTargetsNonInput { node_id: 13 })
    );
    bindings[0].node_id = 40;
    let reference = VmAirCompositionCircuit::new(profile(), circuit(), bindings);
    assert_eq!(
        vm_input_rows(&reference, 9).err(),
        Some(VmAirCompositionInputError::NodeMissing { node_id: 40 })
    );
}

#[test]
fn non_canonical_circuit_id_is_rejected() {
    assert_eq!(
        vm_input_rows(&reference_with(sources()), M31_MODULUS).err(),
        Some(VmAirCompositionInputError::CircuitIdNotCanonical { circuit_id: M31_MODULUS })
    );
}

#[test]
fn source_coordinates_are_range_checked() {
    let profile = profile();
    let mut selectors = 0usize;
    assert_eq!(
        validate_source(
            VmAirCompositionInputSource::SampledValueWord { item_index: 1, word_index: 0 },
            &profile,
            &mut selectors
        ),
        Err(VmAirCompositionInputError::SecureItemIndexOutOfRange {
            kind: VmAirCompositionInputKind::SampledValue,
            item_index: 1,
            item_count: 1,
        })
    );
    assert_eq!(
        validate_source(
            VmAirCompositionInputSource::RelationChallengeWord { challenge: 0, word_index: 0 },
            &profile,
            &mut selectors
        ),
        Err(VmAirCompositionInputError::ChallengeIndexOutOfRange { challenge: 0 })
    );
    assert_eq!(
        validate_source(VmAirCompositionInputSource::SegmentSelector, &profile, &mut selectors),
        Ok((0, 0))
    );
    assert_eq!(selectors, 1);
    assert_eq!(
        validate_secure_coordinate(VmAirCompositionInputKind::ClaimedSum, 0, 4, 1),
        Err(VmAirCompositionInputError::SecureWordIndexOutOfRange {
            kind: VmAirCompositionInputKind::ClaimedSum,
            word_index: 4,
        })
    );
    assert_eq!(
        validate_randomness_word(VerifierRandomnessKind::OodsPoint, 4),
        Err(VmAirCompositionInputError::RandomnessWordOutOfRange {
            kind: VerifierRandomnessKind::OodsPoint,
            word_index: 4,
        })
    );
    assert_eq!(validate_randomness_word(VerifierRandomnessKind::OodsPoint, 3), Ok(()));
}

#[test]
fn node_ids_must_be_canonical() {
    assert_eq!(checked_node_id(5), Ok(5));
    assert_eq!(
        checked_node_id(M31_MODULUS as usize),
        Err(VmAirCompositionInputError::NodeIdNotCanonical { node_id: M31_MODULUS })
    );
}

#[test]
fn nonzero_output_count_reads_the_constrained_equality() {
    let reference = reference_with(sources());
    assert_eq!(reference.nonzero_output_count(), 0);
    assert_eq!(reference.constrained_equality(), [0; 4]);
    let mut circuit = circuit();
    circuit.nodes[14].value = [0, 0, 0, 9];
    let witness = VmAirCompositionCircuit::new(profile(), circuit, reference.input_bindings().to_vec());
    assert_eq!(witness.nonzero_output_count(), 1);
    assert_eq!(witness.constrained_equality(), [0, 0, 0, 9]);
}

#[test]
fn lowering_admits_only_zero_equality_witnesses_of_the_reference() {
    let reference = reference_with(sources());
    assert_eq!(lower_vm_air_composition_circuit(4, &reference, &reference), Ok(()));
    let mut nonzero_circuit = circuit();
    nonzero_circuit.nodes[14].value = [1, 0, 0, 0];
    let nonzero = VmAirCompositionCircuit::new(profile(), nonzero_circuit, reference.input_bindings().to_vec());
    assert_eq!(
        lower_vm_air_composition_circuit(4, &reference, &nonzero),
        Err(VmAirCompositionLoweringError::NonzeroCompositionEquality)
    );
    let other_profile = VmAirCompositionProfile::new(vec![5], 1, 0, 0, 1).unwrap();
    let moved = VmAirCompositionCircuit::new(other_profile, circuit(), reference.input_bindings().to_vec());
    assert_eq!(
        lower_vm_air_composition_circuit(4, &reference, &moved),
        Err(VmAirCompositionLoweringError::ProfileMismatch)
    );
    let mut shuffled = circuit();
    shuffled.nodes[14].op = NodeOp::Mul(13, 0);
    let swapped = VmAirCompositionCircuit::new(profile(), shuffled, reference.input_bindings().to_vec());
    assert_eq!(
        lower_vm_air_composition_circuit(4, &reference, &swapped),
        Err(VmAirCompositionLoweringError::NodeStructureMismatch { node_id: 14 })
    );
    let mut extra_output = circuit();
    extra_output.outputs.push(13);
    let more = VmAirCompositionCircuit::new(profile(), extra_output, reference.input_bindings().to_vec());
    assert_eq!(
        lower_vm_air_composition_circuit(4, &reference, &more),
        Err(VmAirCompositionLoweringError::OutputLayoutMismatch)
    );
    let mut sources = sources();
    sources.swap(0, 1);
    assert_eq!(
        lower_vm_air_composition_circuit(4, &reference, &reference_with(sources)),
        Err(VmAirCompositionLoweringError::InputLayoutMismatch)
    );
    assert_eq!(
        lower_vm_air_composition_circuit(u32::MAX, &reference, &reference),
        Err(VmAirCompositionLoweringError::CircuitIdNotCanonical { circuit_id: u32::MAX })
    );
}

fn witness_with(value: impl Fn(usize) -> u32, selector: u32) -> VmAirCompositionCircuit {
    let mut circuit = circuit();
    for k in 0..12 {
        circuit.nodes[k].value = [value(k), 0, 0, 0];
    }
    circuit.nodes[12].value = [selector, 0, 0, 0];
    let bindings = reference_with(sources()).input_bindings().to_vec();
    VmAirCompositionCircuit::new(profile(), circuit, bindings)
}

#[test]
fn active_segment_inputs_fill_the_table_in_row_order() {
    let reference = reference_with(sources());
    let table_layout = VmAirCompositionInputPreprocessed::new(&reference, 9).unwrap();
    let witness = witness_with(|k| 10 + k as u32, 1);
    let mut table = Vec::new();
    assert_eq!(
        push_vm_air_composition_inputs(&mut table, &table_layout, &reference, &witness, ProofKind::SegmentLeaf),
        Ok(())
    );
    let mut expected: Vec<u32> = (0..12).map(|k| 10 + k).collect();
    expected.extend([1, 0, 0]);
    assert_eq!(table, expected);
}

#[test]
fn inactive_inputs_must_be_zero() {
    let reference = reference_with(sources());
    let table_layout = VmAirCompositionInputPreprocessed::new(&reference, 9).unwrap();
    let zero = witness_with(|_| 0, 0);
    let mut table = vec![5];
    assert_eq!(
        push_vm_air_composition_inputs(&mut table, &table_layout, &reference, &zero, ProofKind::BinaryNode),
        Ok(())
    );
    assert_eq!(table, vec![5; 1].into_iter().chain(std::iter::repeat(0).take(15)).collect::<Vec<u32>>());
    let leaking = witness_with(|k| if k == 3 { 8 } else { 0 }, 0);
    let mut table = Vec::new();
    assert_eq!(
        push_vm_air_composition_inputs(&mut table, &table_layout, &reference, &leaking, ProofKind::EmptyLeaf),
        Err(VmAirCompositionInputError::InactiveInputIsNonZero { node_id: 3 })
    );
    assert!(table.is_empty());
    let selected = witness_with(|_| 0, 1);
    assert_eq!(
        push_vm_air_composition_inputs(&mut Vec::new(), &table_layout, &reference, &selected, ProofKind::BinaryNode),
        Err(VmAirCompositionInputError::InactiveInputIsNonZero { node_id: 12 })
    );
}

#[test]
fn witness_inputs_must_match_the_reference_layout() {
    let reference = reference_with(sources());
    let table_layout = VmAirCompositionInputPreprocessed::new(&reference, 9).unwrap();
    let mut sources = sources();
    sources.swap(2, 3);
    let reordered = reference_with(sources);
    let mut table = Vec::new();
    assert_eq!(
        push_vm_air_composition_inputs(&mut table, &table_layout, &reference, &reordered, ProofKind::SegmentLeaf),
        Err(VmAirCompositionInputError::InputLayoutMismatch)
    );
    let mut wide = circuit();
    wide.nodes[0].value = [1, 2, 0, 0];
    let extension = VmAirCompositionCircuit::new(profile(), wide, reference.input_bindings().to_vec());
    assert_eq!(
        push_vm_air_composition_inputs(&mut table, &table_layout, &reference, &extension, ProofKind::SegmentLeaf),
        Err(VmAirCompositionInputError::InputIsNotBaseField { node_id: 0 })
    );
    assert!(table.is_empty());
}

#[test]
fn table_rows_must_name_the_witness_coordinates() {
    let reference = reference_with(sources());
    let table_layout = VmAirCompositionInputPreprocessed::new(&reference, 9).unwrap();
    // A circuit whose first two inputs sit on swapped nodes keys its values
    // differently from the table's rows.
    let swapped: Vec<VmAirCompositionInputBinding> = sources()
        .into_iter()
        .enumerate()
        .map(|(node, source)| {
            let node_id = match node {
                0 => 1,
                1 => 0,
                other => other as u32,
            };
            VmAirCompositionInputBinding { node_id, source }
        })
        .collect();
    let mut nodes = circuit();
    nodes.nodes[12].value = [1, 0, 0, 0];
    let other = VmAirCompositionCircuit::new(profile(), nodes, swapped);
    let mut table = Vec::new();
    assert_eq!(
        push_vm_air_composition_inputs(&mut table, &table_layout, &other, &other, ProofKind::SegmentLeaf),
        Err(VmAirCompositionInputError::InputCoordinateMismatch { node_id: 0 })
    );
    assert!(table.is_empty());
}

#[test]
fn column_values_lay_out_every_row_over_the_padded_domain() {
    let reference = reference_with(sources());
    let table_layout = VmAirCompositionInputPreprocessed::new(&reference, 9).unwrap();
    let columns = table_layout.column_values();
    assert_eq!(columns.len(), 31);
    assert!(columns.iter().all(|column| column.len() == 16));
    let row = |i: usize| columns.iter().map(|column| column[i]).collect::<Vec<u32>>();
    let first = row(0);
    assert_eq!(&first[0..13], &[1, 1, 0, 0, 0, 0, 0, 9, 0, 1, 0, 0, 0]);
    assert_eq!(first[23], 1);
    let selector = row(12);
    assert_eq!(selector[6], 1);
    assert_eq!(selector[9], 13);
    let constant = row(13);
    assert_eq!(&constant[12..23], &[1, 2, 0, 0, 0, 0, 0, 5, 0, 0, 0]);
    assert_eq!(constant[0], 1);
    assert_eq!(constant[23], 0);
    let output = row(14);
    assert_eq!(&output[12..19], &[1, 0, 0, 0, 1, 0, 0]);
    assert_eq!(output[8], 14);
    assert!(row(15).iter().all(|value| *value == 0));
}

#[test]
fn preprocessing_owns_every_tracked_input_once() {
    let reference = reference_with(sources());
    let preprocessing = VmAirCompositionInputPreprocessed::new(&reference, 9).expect("reference owns every input once");
    assert_eq!(preprocessing.input_count(), reference.input_bindings().len());
}

#[test]
fn active_selector_cannot_be_reused_in_binary_mode() {
    let reference = reference_with(sources());
    let preprocessing = VmAirCompositionInputPreprocessed::new(&reference, 9).expect("reference owns every input once");
    let active = witness_with(|k| 10 + k as u32, 1);
    let result =
        push_vm_air_composition_inputs(&mut Vec::new(), &preprocessing, &reference, &active, ProofKind::BinaryNode);
    assert!(matches!(result, Err(VmAirCompositionInputError::InactiveInputIsNonZero { .. })));
}

#[test]
fn inactive_reference_has_one_zero_output() {
    let circuit = reference_with(sources());
    assert_eq!((circuit.circuit().outputs.len(), circuit.nonzero_output_count()), (1, 0));
}

#[test]
fn lowering_rejects_a_nonzero_composition_equality() {
    let reference = reference_with(sources());
    let mut nonzero_circuit = circuit();
    nonzero_circuit.nodes[14].value = [1, 0, 0, 0];
    let witness = VmAirCompositionCircuit::new(profile(), nonzero_circuit, reference.input_bindings().to_vec());
    assert_eq!(
        lower_vm_air_composition_circuit(4, &reference, &witness),
        Err(VmAirCompositionLoweringError::NonzeroCompositionEquality)
    );
}
