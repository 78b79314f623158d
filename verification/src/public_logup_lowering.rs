//! Structural admission of a VM public-LogUp witness circuit for lowering.
//!
//! Shared arithmetic tables own the witness circuit's operations, so the
//! witness must reproduce the fixed reference exactly: the same claim shape,
//! counts, input bindings, outputs, node count, operations and constants.
//! Only then, and only when its global LogUp sum is zero, may it be lowered.
use crate::circuit::{
    NodeOp, find_structure_mismatch, first_structure_mismatch, has_output, lemma_first_structure_mismatch,
    lemma_node_matches_is_exact, node_matches, same_outputs, spec_nonzero_output_count,
};
use crate::m31::M31_MODULUS;
use crate::public_logup_input::{VmPublicLogupCircuit, VmPublicLogupInputBinding};
use vstd::prelude::*;

verus! {

/// Invalid circuit identity, structure, or global-sum witness.
#[derive(Clone, Copy, Debug, PartialEq, Eq, Structural)]
pub enum VmPublicLogupLoweringError {
    CircuitIdNotCanonical { circuit_id: u32 },
    ShapeMismatch,
    CountMismatch,
    InputLayoutMismatch,
    OutputLayoutMismatch,
    NodeCountMismatch { expected: usize, actual: usize },
    NodeStructureMismatch { node_id: usize },
    NodeIdOutOfRange { node_id: usize },
    NonArithmeticOperation,
    NonzeroGlobalSum,
}

/// Why the witness does not have the reference's structure, if it does not.
pub open spec fn logup_structure_error(reference: VmPublicLogupCircuit, witness: VmPublicLogupCircuit) -> Option<
    VmPublicLogupLoweringError,
> {
    let expected = reference.spec_circuit();
    let actual = witness.spec_circuit();
    if reference.spec_shape() != witness.spec_shape() {
        Some(VmPublicLogupLoweringError::ShapeMismatch)
    } else if reference.spec_claimed_sum_count() != witness.spec_claimed_sum_count()
        || reference.spec_public_term_count() != witness.spec_public_term_count() {
        Some(VmPublicLogupLoweringError::CountMismatch)
    } else if reference.spec_input_bindings() != witness.spec_input_bindings() {
        Some(VmPublicLogupLoweringError::InputLayoutMismatch)
    } else if expected.outputs@ != actual.outputs@ {
        Some(VmPublicLogupLoweringError::OutputLayoutMismatch)
    } else if expected.nodes@.len() != actual.nodes@.len() {
        Some(
            VmPublicLogupLoweringError::NodeCountMismatch {
                expected: expected.nodes@.len() as usize,
                actual: actual.nodes@.len() as usize,
            },
        )
    } else {
        match first_structure_mismatch(expected.nodes@, actual.nodes@, expected.nodes@.len()) {
            Some(node_id) => Some(VmPublicLogupLoweringError::NodeStructureMismatch { node_id: node_id as usize }),
            None => None,
        }
    }
}

/// Why the witness may not be lowered under `circuit_id`, if it may not.
pub open spec fn logup_lowering_error(
    circuit_id: u32,
    reference: VmPublicLogupCircuit,
    witness: VmPublicLogupCircuit,
) -> Option<VmPublicLogupLoweringError> {
    if circuit_id >= M31_MODULUS {
        Some(VmPublicLogupLoweringError::CircuitIdNotCanonical { circuit_id })
    } else {
        match logup_structure_error(reference, witness) {
            Some(error) => Some(error),
            None => if spec_nonzero_output_count(witness.spec_circuit()) != 0 {
                Some(VmPublicLogupLoweringError::NonzeroGlobalSum)
            } else {
                None
            },
        }
    }
}

fn same_bindings(a: &[VmPublicLogupInputBinding], b: &[VmPublicLogupInputBinding]) -> (equal: bool)
    ensures
        equal == (a@ == b@),
{
    if a.len() != b.len() {
        return false;
    }
    let mut i: usize = 0;
    while i < a.len()
        invariant
            i <= a@.len(),
            a@.len() == b@.len(),
            forall|j: int| 0 <= j < i ==> a@[j] == b@[j],
        decreases a@.len() - i,
    {
        if a[i] != b[i] {
            return false;
        }
        i = i + 1;
    }
    proof {
        assert(a@ =~= b@);
    }
    true
}

/// Admits a witness circuit for lowering under `circuit_id`: the id is a
/// canonical word, the witness has the reference's exact structure, and its
/// global LogUp sum is zero. Admission is all this does: writing the
/// admitted circuit's rows into the shared operation tables is left to the
/// caller.
pub fn lower_vm_public_logup_circuit(
    circuit_id: u32,
    reference: &VmPublicLogupCircuit,
    witness: &VmPublicLogupCircuit,
) -> (result: Result<(), VmPublicLogupLoweringError>)
    requires
        circuit_id < M31_MODULUS && logup_structure_error(*reference, *witness) is None ==> has_output(
            witness.spec_circuit(),
        ),
    ensures
        match logup_lowering_error(circuit_id, *reference, *witness) {
            Some(error) => result == Err::<(), _>(error),
            None => result is Ok,
        },
{
    if circuit_id >= M31_MODULUS {
        return Err(VmPublicLogupLoweringError::CircuitIdNotCanonical { circuit_id });
    }
    if reference.shape() != witness.shape() {
        return Err(VmPublicLogupLoweringError::ShapeMismatch);
    }
    if reference.claimed_sum_count() != witness.claimed_sum_count()
        || reference.public_term_count() != witness.public_term_count() {
        return Err(VmPublicLogupLoweringError::CountMismatch);
    }
    if !same_bindings(reference.input_bindings(), witness.input_bindings()) {
        return Err(VmPublicLogupLoweringError::InputLayoutMismatch);
    }
    let expected = reference.circuit();
    let actual = witness.circuit();
    if !same_outputs(expected.outputs.as_slice(), actual.outputs.as_slice()) {
        return Err(VmPublicLogupLoweringError::OutputLayoutMismatch);
    }
    if expected.nodes.len() != actual.nodes.len() {
        return Err(
            VmPublicLogupLoweringError::NodeCountMismatch {
                expected: expected.nodes.len(),
                actual: actual.nodes.len(),
            },
        );
    }
    if let Some(node_id) = find_structure_mismatch(expected.nodes.as_slice(), actual.nodes.as_slice()) {
        return Err(VmPublicLogupLoweringError::NodeStructureMismatch { node_id });
    }
    if witness.nonzero_output_count() != 0 {
        return Err(VmPublicLogupLoweringError::NonzeroGlobalSum);
    }
    Ok(())
}


/// A witness admitted for lowering reproduces its reference: the same claim
/// shape, counts, input bindings and outputs, the same number of nodes, every
/// node with the reference's operation and operands and every constant with
/// the reference's value; and its global LogUp sum is zero.
pub proof fn lemma_admitted_witness_reproduces_reference(
    circuit_id: u32,
    reference: VmPublicLogupCircuit,
    witness: VmPublicLogupCircuit,
)
    requires
        logup_lowering_error(circuit_id, reference, witness) is None,
    ensures
        ({
            let expected = reference.spec_circuit();
            let actual = witness.spec_circuit();
            &&& circuit_id < M31_MODULUS
            &&& reference.spec_shape() == witness.spec_shape()
            &&& reference.spec_claimed_sum_count() == witness.spec_claimed_sum_count()
            &&& reference.spec_public_term_count() == witness.spec_public_term_count()
            &&& reference.spec_input_bindings() == witness.spec_input_bindings()
            &&& expected.outputs@ == actual.outputs@
            &&& expected.nodes@.len() == actual.nodes@.len()
            &&& forall|i: int| 0 <= i < expected.nodes@.len() ==> #[trigger] node_matches(expected.nodes@[i], actual.nodes@[i])
            &&& forall|i: int|
                0 <= i < expected.nodes@.len() ==> (#[trigger] actual.nodes@[i]).op == expected.nodes@[i].op
            &&& forall|i: int|
                0 <= i < expected.nodes@.len() && expected.nodes@[i].op == NodeOp::Const ==> (
                #[trigger] actual.nodes@[i]).value == expected.nodes@[i].value
            &&& spec_nonzero_output_count(actual) == 0
        }),
{
    let expected = reference.spec_circuit();
    let actual = witness.spec_circuit();
    lemma_first_structure_mismatch(expected.nodes@, actual.nodes@, expected.nodes@.len());
    assert forall|i: int| 0 <= i < expected.nodes@.len() implies (#[trigger] actual.nodes@[i]).op
        == expected.nodes@[i].op && (expected.nodes@[i].op == NodeOp::Const ==> actual.nodes@[i].value
        == expected.nodes@[i].value) by {
        assert(node_matches(expected.nodes@[i], actual.nodes@[i]));
        lemma_node_matches_is_exact(expected.nodes@[i], actual.nodes@[i]);
    }
}

} // verus!
