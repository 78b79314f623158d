//! Recorded arithmetic circuits over the secure field, as plain values.
//!
//! A circuit is a list of nodes in recording order and a list of output
//! nodes. Each node carries its operation (with operand node indices), how
//! many times the circuit's outputs use it, and the four canonical base-field
//! limbs of its recorded value. Lowering compares a witness circuit with the
//! fixed reference it must reproduce, so the structure checks live here.
use vstd::prelude::*;

verus! {

/// The operation of one circuit node, with its operand node indices.
#[derive(Clone, Copy, Debug, PartialEq, Eq, Structural)]
pub enum NodeOp {
    Input,
    Const,
    Add(usize, usize),
    Sub(usize, usize),
    Mul(usize, usize),
    Neg(usize),
    Inverse(usize),
}

/// One node of a fixed arithmetic circuit: its operation, how many times the
/// circuit's outputs use it, and the four canonical base-field limbs of its
/// value.
#[derive(Clone, Copy, Debug)]
pub struct CircuitNode {
    pub op: NodeOp,
    pub use_count: u32,
    pub value: [u32; 4],
}

/// A fixed arithmetic circuit: its nodes in order and its output nodes.
#[derive(Clone, Debug)]
pub struct ConstraintCircuit {
    pub nodes: Vec<CircuitNode>,
    pub outputs: Vec<usize>,
}

/// Whether two limb arrays hold the same limbs.
pub open spec fn same_limbs(a: [u32; 4], b: [u32; 4]) -> bool {
    forall|i: int| 0 <= i < 4 ==> a@[i] == b@[i]
}

/// Whether a value is the zero of the secure field.
pub open spec fn is_zero_value(value: [u32; 4]) -> bool {
    forall|i: int| 0 <= i < 4 ==> value@[i] == 0
}

/// A witness node has the structure of its reference node: the same
/// operation and operands, and for a constant the same value.
pub open spec fn node_matches(expected: CircuitNode, actual: CircuitNode) -> bool {
    &&& expected.op == actual.op
    &&& expected.op == NodeOp::Const ==> same_limbs(expected.value, actual.value)
}

/// The first of the first `n` nodes whose witness structure differs from
/// the reference.
pub open spec fn first_structure_mismatch(
    reference: Seq<CircuitNode>,
    witness: Seq<CircuitNode>,
    n: nat,
) -> Option<nat>
    decreases n,
{
    if n == 0 {
        None
    } else {
        match first_structure_mismatch(reference, witness, (n - 1) as nat) {
            Some(i) => Some(i),
            None => if node_matches(reference[n - 1], witness[n - 1]) {
                None
            } else {
                Some((n - 1) as nat)
            },
        }
    }
}

/// The circuit has a first output naming one of its nodes.
pub open spec fn has_output(circuit: ConstraintCircuit) -> bool {
    &&& circuit.outputs@.len() > 0
    &&& circuit.outputs@[0] < circuit.nodes@.len()
}

/// The value of the circuit's first output.
pub open spec fn output_value(circuit: ConstraintCircuit) -> [u32; 4] {
    circuit.nodes@[circuit.outputs@[0] as int].value
}

/// One when the circuit's first output is not zero, else zero.
pub open spec fn spec_nonzero_output_count(circuit: ConstraintCircuit) -> usize {
    if is_zero_value(output_value(circuit)) {
        0
    } else {
        1
    }
}

/// The first structural mismatch is a mismatch with none before it, and its
/// absence means every node matches.
pub proof fn lemma_first_structure_mismatch(reference: Seq<CircuitNode>, witness: Seq<CircuitNode>, n: nat)
    ensures
        first_structure_mismatch(reference, witness, n) matches Some(i) ==> i < n && !node_matches(
            reference[i as int],
            witness[i as int],
        ) && forall|j: int| 0 <= j < i ==> node_matches(reference[j], witness[j]),
        first_structure_mismatch(reference, witness, n) is None ==> forall|j: int|
            0 <= j < n ==> node_matches(reference[j], witness[j]),
    decreases n,
{
    if n > 0 {
        lemma_first_structure_mismatch(reference, witness, (n - 1) as nat);
    }
}

proof fn lemma_first_structure_mismatch_sticks(
    reference: Seq<CircuitNode>,
    witness: Seq<CircuitNode>,
    n: nat,
    m: nat,
)
    requires
        n <= m,
        first_structure_mismatch(reference, witness, n) is Some,
    ensures
        first_structure_mismatch(reference, witness, m) == first_structure_mismatch(reference, witness, n),
    decreases m - n,
{
    if m > n {
        lemma_first_structure_mismatch_sticks(reference, witness, n, (m - 1) as nat);
    }
}

/// Two limb arrays hold the same limbs exactly when they are the same
/// value: every one of the four limbs takes part.
pub proof fn lemma_same_limbs_is_equality(a: [u32; 4], b: [u32; 4])
    ensures
        same_limbs(a, b) <==> a == b,
        same_limbs(a, b) <==> (a@[0] == b@[0] && a@[1] == b@[1] && a@[2] == b@[2] && a@[3] == b@[3]),
{
    if same_limbs(a, b) {
        assert(a =~= b);
    }
}

/// A value is zero exactly when all four of its limbs are zero.
pub proof fn lemma_zero_value_is_all_zero(value: [u32; 4])
    ensures
        is_zero_value(value) <==> value == [0u32, 0u32, 0u32, 0u32],
{
    let zero = [0u32, 0u32, 0u32, 0u32];
    if is_zero_value(value) {
        assert(value =~= zero);
    }
    if value == zero {
        assert(value@ == zero@);
    }
}

/// A witness node matches its reference node exactly when it has the
/// reference's operation and operands and, for a constant, the reference's
/// whole value.
pub proof fn lemma_node_matches_is_exact(expected: CircuitNode, actual: CircuitNode)
    ensures
        node_matches(expected, actual) <==> (expected.op == actual.op && (expected.op == NodeOp::Const
            ==> expected.value == actual.value)),
{
    lemma_same_limbs_is_equality(expected.value, actual.value);
}

fn limbs_equal(a: [u32; 4], b: [u32; 4]) -> (equal: bool)
    ensures
        equal == same_limbs(a, b),
        equal == (a == b),
{
    proof {
        lemma_same_limbs_is_equality(a, b);
    }
    let equal = a[0] == b[0] && a[1] == b[1] && a[2] == b[2] && a[3] == b[3];
    proof {
        if !equal {
            assert(!(a@[0] == b@[0] && a@[1] == b@[1] && a@[2] == b@[2] && a@[3] == b@[3]));
        }
    }
    equal
}

/// The first node whose witness structure differs from the reference.
pub fn find_structure_mismatch(reference: &[CircuitNode], witness: &[CircuitNode]) -> (result: Option<
    usize,
>)
    requires
        reference@.len() == witness@.len(),
    ensures
        match first_structure_mismatch(reference@, witness@, reference@.len()) {
            Some(i) => result == Some(i as usize),
            None => result is None,
        },
{
    let mut i: usize = 0;
    while i < reference.len()
        invariant
            i <= reference@.len(),
            reference@.len() == witness@.len(),
            first_structure_mismatch(reference@, witness@, i as nat) is None,
        decreases reference@.len() - i,
    {
        let expected = reference[i];
        let actual = witness[i];
        let same_value = limbs_equal(expected.value, actual.value);
        if expected.op != actual.op || (expected.op == NodeOp::Const && !same_value) {
            proof {
                lemma_first_structure_mismatch_sticks(reference@, witness@, (i + 1) as nat, reference@.len());
            }
            return Some(i);
        }
        i = i + 1;
    }
    None
}

/// Whether two output lists are the same list.
pub fn same_outputs(a: &[usize], b: &[usize]) -> (equal: bool)
    ensures
        equal == (a@ == b@),
{
    if a.len() != b.len() {
        return false;
    }
    let mut i: usize = 0;
    while i < a.len()
        invariant
            i <= a@.len(),
            a@.len() == b@.len(),
            forall|j: int| 0 <= j < i ==> a@[j] == b@[j],
        decreases a@.len() - i,
    {
        if a[i] != b[i] {
            return false;
        }
        i = i + 1;
    }
    proof {
        assert(a@ =~= b@);
    }
    true
}

/// One when the circuit's first output is not zero, else zero.
pub fn nonzero_output_count(circuit: &ConstraintCircuit) -> (count: usize)
    requires
        has_output(*circuit),
    ensures
        count == spec_nonzero_output_count(*circuit),
{
    let value = circuit.nodes[circuit.outputs[0]].value;
    let zero = value[0] == 0 && value[1] == 0 && value[2] == 0 && value[3] == 0;
    proof {
        if !zero {
            assert(!(value@[0] == 0 && value@[1] == 0 && value@[2] == 0 && value@[3] == 0));
        }
    }
    if zero {
        0
    } else {
        1
    }
}

} // verus!
