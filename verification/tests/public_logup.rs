use recursion::circuit::{CircuitNode, ConstraintCircuit, NodeOp};
use recursion::kernel::ProofKind;
use recursion::public_claim::{
    canonical_vm_public_claim_word_kinds, VmPublicClaimShape, VmPublicClaimWordKind,
};
use recursion::public_logup_input::{
    push_vm_public_logup_inputs, VmPublicLogupCircuit, VmPublicLogupInputBinding,
    VmPublicLogupInputError, VmPublicLogupInputPreprocessed, VmPublicLogupInputSource,
};
use recursion::public_logup_lowering::{lower_vm_public_logup_circuit, VmPublicLogupLoweringError};

const CIRCUIT_ID: u32 = 37;

fn shape() -> VmPublicClaimShape {
    VmPublicClaimShape::new(0, 0).unwrap()
}

fn sources() -> Vec<VmPublicLogupInputSource> {
    let kinds = canonical_vm_public_claim_word_kinds(shape());
    let mut sources = Vec::new();
    for index in 0..kinds.len() as u32 {
        sources.push(VmPublicLogupInputSource::ClaimWord { index });
    }
    for (index, kind) in kinds.iter().enumerate() {
        if *kind == VmPublicClaimWordKind::U16 {
            for byte_index in 0..2 {
                sources.push(VmPublicLogupInputSource::ClaimByte { word_index: index as u32, byte_index });
            }
        }
    }
    for challenge in [0, 1, 3] {
        for word_index in 0..8 {
            sources.push(VmPublicLogupInputSource::RelationChallengeWord { challenge, word_index });
        }
    }
    for limb_index in 0..4 {
        sources.push(VmPublicLogupInputSource::ClaimedSumWord { item_index: 0, limb_index });
    }
    sources.push(VmPublicLogupInputSource::SegmentSelector);
    sources
}

fn circuit_with(sources: &[VmPublicLogupInputSource], value: u32, selector: u32, output: u32) -> VmPublicLogupCircuit {
    let mut nodes: Vec<CircuitNode> = sources
        .iter()
        .map(|source| {
            let limb = if *source == VmPublicLogupInputSource::SegmentSelector { selector } else { value };
            CircuitNode { op: NodeOp::Input, use_count: 1, value: [limb, 0, 0, 0] }
        })
        .collect();
    let first = nodes.len();
    nodes.push(CircuitNode { op: NodeOp::Const, use_count: 1, value: [3, 0, 0, 0] });
    nodes.push(CircuitNode { op: NodeOp::Mul(0, first), use_count: 1, value: [output, 0, 0, 0] });
    let output_node = nodes.len() - 1;
    let bindings = sources
        .iter()
        .enumerate()
        .map(|(node, source)| VmPublicLogupInputBinding { node_id: node as u32, source: *source })
        .collect();
    VmPublicLogupCircuit::new(shape(), 1, 2, ConstraintCircuit { nodes, outputs: vec![output_node] }, bindings)
}

fn reference() -> VmPublicLogupCircuit {
    circuit_with(&sources(), 0, 0, 0)
}

#[test]
fn preprocessing_covers_every_circuit_input_exactly_once() {
    let reference = reference();
    let preprocessing = VmPublicLogupInputPreprocessed::new(&reference, CIRCUIT_ID).unwrap();
    assert_eq!(preprocessing.input_count(), reference.input_bindings().len());
    let kinds = canonical_vm_public_claim_word_kinds(shape());
    let u16_words = kinds.iter().filter(|kind| **kind == VmPublicClaimWordKind::U16).count();
    assert_eq!(preprocessing.input_count(), 259 + 2 * u16_words + 24 + 4 + 1);
    for (row, binding) in preprocessing.rows().iter().zip(reference.input_bindings()) {
        assert_eq!(row.source, binding.source);
        assert_eq!(row.node_id, binding.node_id);
        assert_eq!(row.circuit_id, CIRCUIT_ID);
        assert_eq!(row.use_count, 1);
    }
    assert_eq!(preprocessing.log_size(), 10);
}

#[test]
fn claim_byte_sources_must_name_16_bit_words() {
    let mut sources = sources();
    let first_byte = sources
        .iter()
        .position(|source| matches!(source, VmPublicLogupInputSource::ClaimByte { .. }))
        .unwrap();
    // The claim tag at word zero is a constant, not a 16-bit limb.
    sources[first_byte] = VmPublicLogupInputSource::ClaimByte { word_index: 0, byte_index: 0 };
    let reference = circuit_with(&sources, 0, 0, 0);
    assert_eq!(
        VmPublicLogupInputPreprocessed::new(&reference, CIRCUIT_ID).err(),
        Some(VmPublicLogupInputError::ByteSourceIsNotU16 { word_index: 0 })
    );
}

#[test]
fn unexpected_challenges_and_indices_are_rejected() {
    let mut sources = sources();
    let challenge = sources
        .iter()
        .position(|source| matches!(source, VmPublicLogupInputSource::RelationChallengeWord { .. }))
        .unwrap();
    sources[challenge] = VmPublicLogupInputSource::RelationChallengeWord { challenge: 2, word_index: 0 };
    assert_eq!(
        VmPublicLogupInputPreprocessed::new(&circuit_with(&sources, 0, 0, 0), CIRCUIT_ID).err(),
        Some(VmPublicLogupInputError::UnexpectedChallenge { challenge: 2 })
    );
    let mut sources = self::sources();
    sources[0] = VmPublicLogupInputSource::ClaimWord { index: 259 };
    assert_eq!(
        VmPublicLogupInputPreprocessed::new(&circuit_with(&sources, 0, 0, 0), CIRCUIT_ID).err(),
        Some(VmPublicLogupInputError::ClaimIndexOutOfRange { index: 259, claim_word_count: 259 })
    );
}

#[test]
fn duplicate_and_missing_sources_are_rejected() {
    let mut sources = sources();
    sources[1] = sources[0];
    assert_eq!(
        VmPublicLogupInputPreprocessed::new(&circuit_with(&sources, 0, 0, 0), CIRCUIT_ID).err(),
        Some(VmPublicLogupInputError::DuplicateInputSource {
            source: VmPublicLogupInputSource::ClaimWord { index: 0 }
        })
    );
    let mut sources = self::sources();
    sources.remove(0);
    let count = sources.len();
    assert_eq!(
        VmPublicLogupInputPreprocessed::new(&circuit_with(&sources, 0, 0, 0), CIRCUIT_ID).err(),
        Some(VmPublicLogupInputError::InputCountMismatch { expected: count + 1, actual: count })
    );
    assert_eq!(
        VmPublicLogupInputPreprocessed::new(&reference(), u32::MAX).err(),
        Some(VmPublicLogupInputError::CircuitIdNotCanonical { circuit_id: u32::MAX })
    );
}

#[test]
fn active_segment_inputs_are_materialized_in_row_order() {
    let reference = reference();
    let preprocessing = VmPublicLogupInputPreprocessed::new(&reference, CIRCUIT_ID).unwrap();
    let witness = circuit_with(&sources(), 7, 1, 0);
    let mut table = vec![99];
    assert_eq!(
        push_vm_public_logup_inputs(&mut table, &preprocessing, &reference, &witness, ProofKind::SegmentLeaf),
        Ok(())
    );
    assert_eq!(table.len(), 1 + preprocessing.input_count());
    assert_eq!(table[0], 99);
    assert!(table[1..table.len() - 1].iter().all(|value| *value == 7));
    assert_eq!(*table.last().unwrap(), 1);
}

#[test]
fn inactive_modes_carry_zero_inputs() {
    let reference = reference();
    let preprocessing = VmPublicLogupInputPreprocessed::new(&reference, CIRCUIT_ID).unwrap();
    let zero = circuit_with(&sources(), 0, 0, 0);
    let mut table = Vec::new();
    assert_eq!(
        push_vm_public_logup_inputs(&mut table, &preprocessing, &reference, &zero, ProofKind::BinaryNode),
        Ok(())
    );
    assert!(table.iter().all(|value| *value == 0));
    let nonzero = circuit_with(&sources(), 7, 0, 0);
    let mut table = Vec::new();
    assert_eq!(
        push_vm_public_logup_inputs(&mut table, &preprocessing, &reference, &nonzero, ProofKind::EmptyLeaf),
        Err(VmPublicLogupInputError::InactiveInputIsNonZero { node_id: 0 })
    );
    assert!(table.is_empty());
    let selected = circuit_with(&sources(), 0, 1, 0);
    let mut table = Vec::new();
    let selector_node = preprocessing.input_count() as u32 - 1;
    assert_eq!(
        push_vm_public_logup_inputs(&mut table, &preprocessing, &reference, &selected, ProofKind::BinaryNode),
        Err(VmPublicLogupInputError::InactiveInputIsNonZero { node_id: selector_node })
    );
    assert_eq!(table.len(), preprocessing.input_count() - 1);
}

#[test]
fn witness_with_another_layout_pushes_nothing() {
    let reference = reference();
    let preprocessing = VmPublicLogupInputPreprocessed::new(&reference, CIRCUIT_ID).unwrap();
    let mut sources = sources();
    sources.swap(0, 1);
    let witness = circuit_with(&sources, 0, 1, 0);
    let mut table = Vec::new();
    assert_eq!(
        push_vm_public_logup_inputs(&mut table, &preprocessing, &reference, &witness, ProofKind::SegmentLeaf),
        Err(VmPublicLogupInputError::InputLayoutMismatch)
    );
    assert!(table.is_empty());
}

#[test]
fn extension_field_input_is_rejected() {
    let reference = reference();
    let preprocessing = VmPublicLogupInputPreprocessed::new(&reference, CIRCUIT_ID).unwrap();
    let sources = sources();
    let mut nodes = reference.circuit().nodes.clone();
    nodes[2].value = [5, 1, 0, 0];
    let bindings = reference.input_bindings().to_vec();
    let witness = VmPublicLogupCircuit::new(
        shape(),
        1,
        2,
        ConstraintCircuit { nodes, outputs: reference.circuit().outputs.clone() },
        bindings,
    );
    let _ = sources;
    let mut table = Vec::new();
    assert_eq!(
        push_vm_public_logup_inputs(&mut table, &preprocessing, &reference, &witness, ProofKind::SegmentLeaf),
        Err(VmPublicLogupInputError::InputIsNotBaseField { node_id: 2 })
    );
    assert_eq!(table.len(), 2);
}

#[test]
fn lowering_admits_a_zero_sum_witness_of_the_reference_structure() {
    let reference = reference();
    let witness = circuit_with(&sources(), 7, 1, 0);
    assert_eq!(lower_vm_public_logup_circuit(CIRCUIT_ID, &reference, &witness), Ok(()));
}

#[test]
fn lowering_rejects_a_nonzero_global_sum() {
    let reference = reference();
    let witness = circuit_with(&sources(), 7, 1, 5);
    assert_eq!(
        lower_vm_public_logup_circuit(CIRCUIT_ID, &reference, &witness),
        Err(VmPublicLogupLoweringError::NonzeroGlobalSum)
    );
}

#[test]
fn lowering_rejects_structural_substitutions() {
    let reference = reference();
    let mut nodes = reference.circuit().nodes.clone();
    let last = nodes.len() - 1;
    nodes[last].op = NodeOp::Add(0, last - 1);
    let witness = VmPublicLogupCircuit::new(
        shape(),
        1,
        2,
        ConstraintCircuit { nodes: nodes.clone(), outputs: reference.circuit().outputs.clone() },
        reference.input_bindings().to_vec(),
    );
    assert_eq!(
        lower_vm_public_logup_circuit(CIRCUIT_ID, &reference, &witness),
        Err(VmPublicLogupLoweringError::NodeStructureMismatch { node_id: last })
    );
    let mut nodes = reference.circuit().nodes.clone();
    nodes[last - 1].value = [4, 0, 0, 0];
    let witness = VmPublicLogupCircuit::new(
        shape(),
        1,
        2,
        ConstraintCircuit { nodes, outputs: reference.circuit().outputs.clone() },
        reference.input_bindings().to_vec(),
    );
    assert_eq!(
        lower_vm_public_logup_circuit(CIRCUIT_ID, &reference, &witness),
        Err(VmPublicLogupLoweringError::NodeStructureMismatch { node_id: last - 1 })
    );
    let other_counts = VmPublicLogupCircuit::new(
        shape(),
        1,
        3,
        reference.circuit().clone(),
        reference.input_bindings().to_vec(),
    );
    assert_eq!(
        lower_vm_public_logup_circuit(CIRCUIT_ID, &reference, &other_counts),
        Err(VmPublicLogupLoweringError::CountMismatch)
    );
    assert_eq!(
        lower_vm_public_logup_circuit(u32::MAX, &reference, &reference),
        Err(VmPublicLogupLoweringError::CircuitIdNotCanonical { circuit_id: u32::MAX })
    );
}

#[test]
fn logup_column_values_mark_each_source_kind() {
    let reference = reference();
    let preprocessing = VmPublicLogupInputPreprocessed::new(&reference, CIRCUIT_ID).unwrap();
    let columns = preprocessing.column_values();
    assert_eq!(columns.len(), 11);
    assert!(columns.iter().all(|column| column.len() == 1024));
    let row = |i: usize| columns.iter().map(|column| column[i]).collect::<Vec<u32>>();
    assert_eq!(row(5), vec![1, 1, 0, 0, 0, 0, CIRCUIT_ID, 5, 1, 5, 0]);
    let last = preprocessing.input_count() - 1;
    assert_eq!(row(last), vec![1, 0, 0, 0, 0, 1, CIRCUIT_ID, last as u32, 1, 0, 0]);
    let first_claimed_sum = last - 4;
    assert_eq!(row(first_claimed_sum), vec![1, 0, 0, 0, 1, 0, CIRCUIT_ID, first_claimed_sum as u32, 1, 0, 0]);
    assert!(row(last + 1).iter().all(|value| *value == 0));
}
