//! Structural admission of a VM composition witness circuit for lowering.
//!
//! Shared arithmetic tables own the witness circuit's operations, so the
//! witness must reproduce the fixed reference exactly: the same profile,
//! input bindings, outputs, node count, operations and constants. Only then,
//! and only when its composition equality is zero, may it be lowered.
use crate::circuit::{
    NodeOp, find_structure_mismatch, first_structure_mismatch, has_output, lemma_first_structure_mismatch,
    lemma_node_matches_is_exact, node_matches, same_outputs, spec_nonzero_output_count,
};
use crate::composition_input::{VmAirCompositionCircuit, VmAirCompositionInputBinding};
use crate::composition_profile::{lemma_same_profile_is_field_equality, same_profile};
use crate::m31::M31_MODULUS;
use vstd::prelude::*;

verus! {

/// Invalid circuit identity, structure, or composition-equality witness.
#[derive(Clone, Copy, Debug, PartialEq, Eq, Structural)]
pub enum VmAirCompositionLoweringError {
    CircuitIdNotCanonical { circuit_id: u32 },
    ProfileMismatch,
    InputLayoutMismatch,
    OutputLayoutMismatch,
    NodeCountMismatch { expected: usize, actual: usize },
    NodeStructureMismatch { node_id: usize },
    NodeIdOutOfRange { node_id: usize },
    NonArithmeticOperation,
    NonzeroCompositionEquality,
}

/// Why the witness does not have the reference's structure, if it does not.
pub open spec fn structure_error(reference: VmAirCompositionCircuit, witness: VmAirCompositionCircuit) -> Option<
    VmAirCompositionLoweringError,
> {
    let expected = reference.spec_circuit();
    let actual = witness.spec_circuit();
    if !same_profile(reference.spec_profile(), witness.spec_profile()) {
        Some(VmAirCompositionLoweringError::ProfileMismatch)
    } else if reference.spec_input_bindings() != witness.spec_input_bindings() {
        Some(VmAirCompositionLoweringError::InputLayoutMismatch)
    } else if expected.outputs@ != actual.outputs@ {
        Some(VmAirCompositionLoweringError::OutputLayoutMismatch)
    } else if expected.nodes@.len() != actual.nodes@.len() {
        Some(
            VmAirCompositionLoweringError::NodeCountMismatch {
                expected: expected.nodes@.len() as usize,
                actual: actual.nodes@.len() as usize,
            },
        )
    } else {
        match first_structure_mismatch(expected.nodes@, actual.nodes@, expected.nodes@.len()) {
            Some(node_id) => Some(VmAirCompositionLoweringError::NodeStructureMismatch { node_id: node_id as usize }),
            None => None,
        }
    }
}

/// Why the witness may not be lowered under `circuit_id`, if it may not.
pub open spec fn lowering_error(
    circuit_id: u32,
    reference: VmAirCompositionCircuit,
    witness: VmAirCompositionCircuit,
) -> Option<VmAirCompositionLoweringError> {
    if circuit_id >= M31_MODULUS {
        Some(VmAirCompositionLoweringError::CircuitIdNotCanonical { circuit_id })
    } else {
        match structure_error(reference, witness) {
            Some(error) => Some(error),
            None => if spec_nonzero_output_count(witness.spec_circuit()) != 0 {
                Some(VmAirCompositionLoweringError::NonzeroCompositionEquality)
            } else {
                None
            },
        }
    }
}

fn same_bindings(a: &[VmAirCompositionInputBinding], b: &[VmAirCompositionInputBinding]) -> (equal: bool)
    ensures
        equal == (a@ == b@),
{
    if a.len() != b.len() {
        return false;
    }
    let mut i: usize = 0;
    while i < a.len()
        invariant
            i <= a@.len(),
            a@.len() == b@.len(),
            forall|j: int| 0 <= j < i ==> a@[j] == b@[j],
        decreases a@.len() - i,
    {
        if a[i] != b[i] {
            return false;
        }
        i = i + 1;
    }
    proof {
        assert(a@ =~= b@);
    }
    true
}

/// Admits a witness circuit for lowering under `circuit_id`: the id is a
/// canonical word, the witness has the reference's exact structure, and its
/// composition equality is zero. Admission is all this does: writing the
/// admitted circuit's rows into the shared operation tables is left to the
/// caller.
pub fn lower_vm_air_composition_circuit(
    circuit_id: u32,
    reference: &VmAirCompositionCircuit,
    witness: &VmAirCompositionCircuit,
) -> (result: Result<(), VmAirCompositionLoweringError>)
    requires
        circuit_id < M31_MODULUS && structure_error(*reference, *witness) is None ==> has_output(
            witness.spec_circuit(),
        ),
    ensures
        match lowering_error(circuit_id, *reference, *witness) {
            Some(error) => result == Err::<(), _>(error),
            None => result is Ok,
        },
{
    if circuit_id >= M31_MODULUS {
        return Err(VmAirCompositionLoweringError::CircuitIdNotCanonical { circuit_id });
    }
    if !reference.profile().same_profile(witness.profile()) {
        return Err(VmAirCompositionLoweringError::ProfileMismatch);
    }
    if !same_bindings(reference.input_bindings(), witness.input_bindings()) {
        return Err(VmAirCompositionLoweringError::InputLayoutMismatch);
    }
    let expected = reference.circuit();
    let actual = witness.circuit();
    if !same_outputs(expected.outputs.as_slice(), actual.outputs.as_slice()) {
        return Err(VmAirCompositionLoweringError::OutputLayoutMismatch);
    }
    if expected.nodes.len() != actual.nodes.len() {
        return Err(
            VmAirCompositionLoweringError::NodeCountMismatch {
                expected: expected.nodes.len(),
                actual: actual.nodes.len(),
            },
        );
    }
    if let Some(node_id) = find_structure_mismatch(expected.nodes.as_slice(), actual.nodes.as_slice()) {
        return Err(VmAirCompositionLoweringError::NodeStructureMismatch { node_id });
    }
    if witness.nonzero_output_count() != 0 {
        return Err(VmAirCompositionLoweringError::NonzeroCompositionEquality);
    }
    Ok(())
}


/// A witness admitted for lowering reproduces its reference: the same
/// profile, input bindings and outputs, the same number of nodes, every node
/// with the reference's operation and operands and every constant with the
/// reference's value; and its composition equality is zero.
pub proof fn lemma_admitted_witness_reproduces_reference(
    circuit_id: u32,
    reference: VmAirCompositionCircuit,
    witness: VmAirCompositionCircuit,
)
    requires
        lowering_error(circuit_id, reference, witness) is None,
    ensures
        ({
            let expected = reference.spec_circuit();
            let actual = witness.spec_circuit();
            &&& circuit_id < M31_MODULUS
            &&& same_profile(reference.spec_profile(), witness.spec_profile())
            &&& reference.spec_input_bindings() == witness.spec_input_bindings()
            &&& expected.outputs@ == actual.outputs@
            &&& expected.nodes@.len() == actual.nodes@.len()
            &&& reference.spec_profile().spec_component_log_sizes() == witness.spec_profile().spec_component_log_sizes()
            &&& reference.spec_profile().spec_sampled_value_count() == witness.spec_profile().spec_sampled_value_count()
            &&& reference.spec_profile().spec_claimed_sum_count() == witness.spec_profile().spec_claimed_sum_count()
            &&& reference.spec_profile().spec_relation_challenge_count()
                == witness.spec_profile().spec_relation_challenge_count()
            &&& reference.spec_profile().spec_air_instruction_count()
                == witness.spec_profile().spec_air_instruction_count()
            &&& forall|i: int| 0 <= i < expected.nodes@.len() ==> #[trigger] node_matches(expected.nodes@[i], actual.nodes@[i])
            &&& forall|i: int|
                0 <= i < expected.nodes@.len() ==> (#[trigger] actual.nodes@[i]).op == expected.nodes@[i].op
            &&& forall|i: int|
                0 <= i < expected.nodes@.len() && expected.nodes@[i].op == NodeOp::Const ==> (
                #[trigger] actual.nodes@[i]).value == expected.nodes@[i].value
            &&& spec_nonzero_output_count(actual) == 0
        }),
{
    let expected = reference.spec_circuit();
    let actual = witness.spec_circuit();
    lemma_first_structure_mismatch(expected.nodes@, actual.nodes@, expected.nodes@.len());
    lemma_same_profile_is_field_equality(reference.spec_profile(), witness.spec_profile());
    assert forall|i: int| 0 <= i < expected.nodes@.len() implies (#[trigger] actual.nodes@[i]).op
        == expected.nodes@[i].op && (expected.nodes@[i].op == NodeOp::Const ==> actual.nodes@[i].value
        == expected.nodes@[i].value) by {
        assert(node_matches(expected.nodes@[i], actual.nodes@[i]));
        lemma_node_matches_is_exact(expected.nodes@[i], actual.nodes@[i]);
    }
}

} // verus!
