//! Materialization of the universal composition circuits' input values.
//!
//! Each witness circuit must have its reference's input layout. Each input
//! of a lane yields one value keyed by (circuit, node, source): a base-field
//! value that is zero outside the lane's active mode, with the lane's mode
//! selector one exactly inside it. The VM lane is active in segment mode,
//! each recursion lane in binary mode. The input table then takes, row by
//! row, the value of each input row's key, and zero for each anchor row. A
//! key missing, taken twice or left over is a coordinate or count mismatch.
use crate::circuit::{CircuitNode, NodeOp, same_outputs};
use crate::composition_input::{
    CompositionInputSource, InputRow, RecursionAirCompositionInputSource, VmAirCompositionCircuit,
    VmAirCompositionInputBinding, VmAirCompositionInputError, VmAirCompositionInputPreprocessed,
    VmAirCompositionInputSource,
};
use crate::composition_profile::same_profile;
use crate::kernel::ProofKind;
use crate::recursion_input::{
    RecursionAirCompositionInputBinding, RecursionCompositionInputLane, RecursionLaneView,
    recursion_lane_view, recursion_lane_views,
};
use vstd::prelude::*;

verus! {

/// One materialized input value and the coordinates it belongs to.
#[derive(Clone, Copy, Debug, PartialEq, Eq, Structural)]
pub struct InputValue {
    pub circuit_id: u32,
    pub node_id: u32,
    pub source: CompositionInputSource,
    pub value: u32,
}

/// One input of a lane: its node and the verifier value that supplies it.
pub type InputSlot = (u32, CompositionInputSource);

/// Whether an input row is keyed like a value.
pub open spec fn row_has_key(row: InputRow, entry: InputValue) -> bool {
    &&& row.source == Some(entry.source)
    &&& row.circuit_id == entry.circuit_id
    &&& row.node_id == entry.node_id
}

/// Whether two values have the same key.
pub open spec fn same_key(a: InputValue, b: InputValue) -> bool {
    &&& a.circuit_id == b.circuit_id
    &&& a.node_id == b.node_id
    &&& a.source == b.source
}

/// Whether a source is a lane's mode selector: the VM segment selector or a
/// child's parent binary selector.
pub open spec fn is_mode_selector(source: CompositionInputSource) -> bool {
    ||| source == CompositionInputSource::Vm(VmAirCompositionInputSource::SegmentSelector)
    ||| source matches CompositionInputSource::Recursion {
        source: RecursionAirCompositionInputSource::ParentBinarySelector,
        ..
    }
}

/// The value a witness input carries in its lane's mode, or why it is not a
/// base-field value of that mode.
pub open spec fn composition_input_value(
    source: CompositionInputSource,
    node_id: u32,
    value: [u32; 4],
    active: bool,
) -> Result<u32, VmAirCompositionInputError> {
    let expected: u32 = if is_mode_selector(source) {
        if active {
            1
        } else {
            0
        }
    } else if active {
        value@[0]
    } else {
        0
    };
    if value@[1] != 0 || value@[2] != 0 || value@[3] != 0 {
        Err(VmAirCompositionInputError::InputIsNotBaseField { node_id })
    } else if value@[0] != expected {
        Err(VmAirCompositionInputError::InactiveInputIsNonZero { node_id })
    } else {
        Ok(expected)
    }
}

/// The input slots of the VM lane.
pub open spec fn vm_slots(bindings: Seq<VmAirCompositionInputBinding>) -> Seq<InputSlot> {
    bindings.map_values(
        |binding: VmAirCompositionInputBinding| (binding.node_id, CompositionInputSource::Vm(binding.source)),
    )
}

/// The input slots of a recursion lane, in the lane's verifier and
/// statement scope.
pub open spec fn child_slots(lane: RecursionLaneView) -> Seq<InputSlot> {
    lane.4.map_values(
        |binding: RecursionAirCompositionInputBinding|
            (
                binding.node_id,
                CompositionInputSource::Recursion {
                    verifier_id: lane.0,
                    statement_scope: lane.2,
                    source: binding.source,
                },
            ),
    )
}

/// The values collected so far followed by those of the first `n` slots of
/// one lane under `circuit_id`, or the first error met.
pub open spec fn spec_lane_values(
    prior: Seq<InputValue>,
    slots: Seq<InputSlot>,
    nodes: Seq<CircuitNode>,
    active: bool,
    circuit_id: u32,
    n: nat,
) -> Result<Seq<InputValue>, VmAirCompositionInputError>
    decreases n,
{
    if n == 0 {
        Ok(prior)
    } else {
        match spec_lane_values(prior, slots, nodes, active, circuit_id, (n - 1) as nat) {
            Err(error) => Err(error),
            Ok(values) => {
                let (node_id, source) = slots[n - 1];
                if node_id >= nodes.len() {
                    Err(VmAirCompositionInputError::NodeMissing { node_id })
                } else if nodes[node_id as int].op != NodeOp::Input {
                    Err(VmAirCompositionInputError::BindingTargetsNonInput { node_id })
                } else {
                    match composition_input_value(source, node_id, nodes[node_id as int].value, active) {
                        Err(error) => Err(error),
                        Ok(value) => {
                            let entry = InputValue { circuit_id, node_id, source, value };
                            if exists|j: int| 0 <= j < values.len() && same_key(#[trigger] values[j], entry) {
                                Err(VmAirCompositionInputError::InputCoordinateMismatch { node_id })
                            } else {
                                Ok(values.push(entry))
                            }
                        },
                    }
                }
            },
        }
    }
}

/// Whether two recursion lanes have the same scopes, circuit id, bindings
/// and outputs.
pub open spec fn same_lane_layout(reference: RecursionLaneView, witness: RecursionLaneView) -> bool {
    &&& reference.0 == witness.0
    &&& reference.1 == witness.1
    &&& reference.2 == witness.2
    &&& reference.4 == witness.4
    &&& reference.3.outputs@ == witness.3.outputs@
}

/// The values collected so far followed by those of the first `n`
/// recursion lanes, each checked against its reference first, or the first
/// error met.
pub open spec fn spec_child_values(
    prior: Seq<InputValue>,
    references: Seq<RecursionLaneView>,
    witnesses: Seq<RecursionLaneView>,
    active: bool,
    n: nat,
) -> Result<Seq<InputValue>, VmAirCompositionInputError>
    decreases n,
{
    if n == 0 {
        Ok(prior)
    } else {
        match spec_child_values(prior, references, witnesses, active, (n - 1) as nat) {
            Err(error) => Err(error),
            Ok(values) => {
                let witness = witnesses[n - 1];
                if !same_lane_layout(references[n - 1], witness) {
                    Err(VmAirCompositionInputError::InputLayoutMismatch)
                } else {
                    let slots = child_slots(witness);
                    spec_lane_values(values, slots, witness.3.nodes@, active, witness.1, slots.len())
                }
            },
        }
    }
}

/// Whether a row before `k` already took the key of `entry`.
pub open spec fn key_taken(rows: Seq<InputRow>, k: int, entry: InputValue) -> bool {
    exists|j: int| 0 <= j < k && row_has_key(#[trigger] rows[j], entry)
}

/// Whether some value has the key of input row `row`.
pub open spec fn row_key_found(values: Seq<InputValue>, row: InputRow) -> bool {
    exists|e: int| 0 <= e < values.len() && row_has_key(row, #[trigger] values[e])
}

/// The value whose key is the key of input row `row`.
pub open spec fn row_value(values: Seq<InputValue>, row: InputRow) -> u32 {
    values[choose|e: int| 0 <= e < values.len() && row_has_key(row, #[trigger] values[e])].value
}

/// The table words of the first `n` rows, and the error that stopped the
/// table, if any: zero for an anchor row, and for an input row the value of
/// its key, which must exist and be taken by no earlier row.
pub open spec fn spec_fill(rows: Seq<InputRow>, values: Seq<InputValue>, n: nat) -> (
    Seq<u32>,
    Option<VmAirCompositionInputError>,
)
    decreases n,
{
    if n == 0 {
        (Seq::empty(), None)
    } else {
        let (words, error) = spec_fill(rows, values, (n - 1) as nat);
        if error is Some {
            (words, error)
        } else {
            let k = n - 1;
            let row = rows[k];
            match row.source {
                None => (words.push(0), None),
                Some(source) => if !row_key_found(values, row) || (exists|j: int|
                    0 <= j < k && #[trigger] rows[j].source == row.source && rows[j].circuit_id
                        == row.circuit_id && rows[j].node_id == row.node_id) {
                    (words, Some(VmAirCompositionInputError::InputCoordinateMismatch { node_id: row.node_id }))
                } else {
                    (words.push(row_value(values, row)), None)
                },
            }
        }
    }
}

/// How many of the first `n` values no row takes.
pub open spec fn untaken_count(rows: Seq<InputRow>, values: Seq<InputValue>, n: nat) -> nat
    decreases n,
{
    if n == 0 {
        0
    } else {
        untaken_count(rows, values, (n - 1) as nat) + if key_taken(rows, rows.len() as int, values[n - 1]) {
            0nat
        } else {
            1nat
        }
    }
}

/// The first row that is a VM input row.
pub open spec fn first_vm_row(rows: Seq<InputRow>, n: nat) -> Option<nat>
    decreases n,
{
    if n == 0 {
        None
    } else {
        match first_vm_row(rows, (n - 1) as nat) {
            Some(i) => Some(i),
            None => if rows[n - 1].source matches Some(CompositionInputSource::Vm(_)) {
                Some((n - 1) as nat)
            } else {
                None
            },
        }
    }
}

/// What materializing the witnesses' inputs pushes, and the error it stops
/// at, if any.
pub open spec fn spec_push_composition(
    preprocessed: VmAirCompositionInputPreprocessed,
    vm_reference: VmAirCompositionCircuit,
    vm_witness: VmAirCompositionCircuit,
    recursion_references: Seq<RecursionLaneView>,
    recursion_witnesses: Seq<RecursionLaneView>,
    proof_kind: ProofKind,
) -> (Seq<u32>, Option<VmAirCompositionInputError>) {
    let rows = preprocessed.spec_rows();
    let bindings = vm_witness.spec_input_bindings();
    let input_count = preprocessed.spec_input_count();
    let vm_input_count = preprocessed.spec_vm_input_count();
    match first_vm_row(rows, rows.len()) {
        None => (Seq::empty(), Some(VmAirCompositionInputError::VmInputLaneMissing)),
        Some(first) => if !same_profile(vm_reference.spec_profile(), vm_witness.spec_profile())
            || vm_reference.spec_input_bindings() != bindings || vm_reference.spec_circuit().outputs@
            != vm_witness.spec_circuit().outputs@ {
            (Seq::empty(), Some(VmAirCompositionInputError::InputLayoutMismatch))
        } else if bindings.len() != vm_input_count {
            (
                Seq::empty(),
                Some(
                    VmAirCompositionInputError::InputCountMismatch {
                        expected: vm_input_count,
                        actual: bindings.len() as usize,
                    },
                ),
            )
        } else {
            match spec_lane_values(
                Seq::empty(),
                vm_slots(bindings),
                vm_witness.spec_circuit().nodes@,
                proof_kind == ProofKind::SegmentLeaf,
                rows[first as int].circuit_id,
                bindings.len(),
            ) {
                Err(error) => (Seq::empty(), Some(error)),
                Ok(vm_values) => if recursion_references.len() != recursion_witnesses.len() {
                    (
                        Seq::empty(),
                        Some(
                            VmAirCompositionInputError::RecursionLaneCountMismatch {
                                expected: recursion_references.len() as usize,
                                actual: recursion_witnesses.len() as usize,
                            },
                        ),
                    )
                } else {
                    match spec_child_values(
                        vm_values,
                        recursion_references,
                        recursion_witnesses,
                        proof_kind == ProofKind::BinaryNode,
                        recursion_references.len(),
                    ) {
                        Err(error) => (Seq::empty(), Some(error)),
                        Ok(values) => if values.len() != input_count {
                            (
                                Seq::empty(),
                                Some(
                                    VmAirCompositionInputError::InputCountMismatch {
                                        expected: input_count,
                                        actual: values.len() as usize,
                                    },
                                ),
                            )
                        } else {
                            let (words, error) = spec_fill(rows, values, rows.len());
                            if error is Some {
                                (words, error)
                            } else {
                                let leftover = untaken_count(rows, values, values.len());
                                if leftover != 0 {
                                    (
                                        words,
                                        Some(
                                            VmAirCompositionInputError::InputCountMismatch {
                                                expected: input_count,
                                                actual: (input_count + leftover) as usize,
                                            },
                                        ),
                                    )
                                } else {
                                    (words, None)
                                }
                            }
                        },
                    }
                },
            }
        },
    }
}

/// Distinct values have distinct keys.
pub open spec fn keys_distinct(values: Seq<InputValue>) -> bool {
    forall|i: int, j: int| 0 <= i < j < values.len() ==> !same_key(#[trigger] values[i], #[trigger] values[j])
}

/// What one input value records of the slot it came from.
pub open spec fn slot_entry(
    entry: InputValue,
    slot: InputSlot,
    nodes: Seq<CircuitNode>,
    active: bool,
    circuit_id: u32,
) -> bool {
    &&& entry.circuit_id == circuit_id
    &&& entry.node_id == slot.0
    &&& entry.source == slot.1
    &&& slot.0 < nodes.len()
    &&& nodes[slot.0 as int].op == NodeOp::Input
    &&& entry.value == nodes[slot.0 as int].value@[0]
    &&& is_mode_selector(slot.1) ==> entry.value == (if active {
        1u32
    } else {
        0u32
    })
    &&& !active && !is_mode_selector(slot.1) ==> entry.value == 0
}

proof fn lemma_lane_values(
    prior: Seq<InputValue>,
    slots: Seq<InputSlot>,
    nodes: Seq<CircuitNode>,
    active: bool,
    circuit_id: u32,
    n: nat,
)
    requires
        n <= slots.len(),
        keys_distinct(prior),
        spec_lane_values(prior, slots, nodes, active, circuit_id, n) is Ok,
    ensures
        ({
            let values = spec_lane_values(prior, slots, nodes, active, circuit_id, n)->Ok_0;
            &&& values.len() == prior.len() + n
            &&& values.subrange(0, prior.len() as int) == prior
            &&& keys_distinct(values)
            &&& forall|e: int|
                0 <= e < n ==> slot_entry(#[trigger] values[prior.len() + e], slots[e], nodes, active, circuit_id)
        }),
    decreases n,
{
    if n > 0 {
        let m = (n - 1) as nat;
        lemma_lane_values(prior, slots, nodes, active, circuit_id, m);
        let before = spec_lane_values(prior, slots, nodes, active, circuit_id, m)->Ok_0;
        let after = spec_lane_values(prior, slots, nodes, active, circuit_id, n)->Ok_0;
        assert(after == before.push(after[after.len() - 1]));
        assert(after.subrange(0, prior.len() as int) =~= before.subrange(0, prior.len() as int));
        assert forall|i: int, j: int| 0 <= i < j < after.len() implies !same_key(#[trigger] after[i], #[trigger] after[j]) by {
            assert(after[i] == before[i]);
            if j < before.len() {
                assert(after[j] == before[j]);
            }
        }
        assert forall|e: int| 0 <= e < n implies slot_entry(
            #[trigger] after[prior.len() + e],
            slots[e],
            nodes,
            active,
            circuit_id,
        ) by {
            if e < m {
                assert(after[prior.len() + e] == before[prior.len() + e]);
            }
        }
    }
}

proof fn lemma_lane_values_error_sticks(
    prior: Seq<InputValue>,
    slots: Seq<InputSlot>,
    nodes: Seq<CircuitNode>,
    active: bool,
    circuit_id: u32,
    n: nat,
    m: nat,
)
    requires
        n <= m,
        spec_lane_values(prior, slots, nodes, active, circuit_id, n) is Err,
    ensures
        spec_lane_values(prior, slots, nodes, active, circuit_id, m) == spec_lane_values(
            prior,
            slots,
            nodes,
            active,
            circuit_id,
            n,
        ),
    decreases m - n,
{
    if m > n {
        lemma_lane_values_error_sticks(prior, slots, nodes, active, circuit_id, n, (m - 1) as nat);
    }
}

/// Appends the value of each slot of one lane under `circuit_id`.
#[verifier::loop_isolation(false)]
fn append_lane_values(
    values: &mut Vec<InputValue>,
    slots: &[InputSlot],
    nodes: &[CircuitNode],
    active: bool,
    circuit_id: u32,
) -> (result: Result<(), VmAirCompositionInputError>)
    requires
        keys_distinct(old(values)@),
    ensures
        match spec_lane_values(old(values)@, slots@, nodes@, active, circuit_id, slots@.len()) {
            Ok(collected) => result is Ok && final(values)@ == collected,
            Err(error) => result == Err::<(), _>(error),
        },
{
    let ghost prior = values@;
    let n = slots.len();
    let mut k: usize = 0;
    while k < n
        invariant
            k <= n,
            n == slots@.len(),
            keys_distinct(prior),
            spec_lane_values(prior, slots@, nodes@, active, circuit_id, k as nat) == Ok::<
                _,
                VmAirCompositionInputError,
            >(values@),
        decreases n - k,
    {
        proof {
            lemma_lane_values(prior, slots@, nodes@, active, circuit_id, k as nat);
        }
        let (node_id, source) = slots[k];
        let index = node_id as usize;
        if index >= nodes.len() {
            proof {
                lemma_lane_values_error_sticks(prior, slots@, nodes@, active, circuit_id, (k + 1) as nat, n as nat);
            }
            return Err(VmAirCompositionInputError::NodeMissing { node_id });
        }
        let node = nodes[index];
        if node.op != NodeOp::Input {
            proof {
                lemma_lane_values_error_sticks(prior, slots@, nodes@, active, circuit_id, (k + 1) as nat, n as nat);
            }
            return Err(VmAirCompositionInputError::BindingTargetsNonInput { node_id });
        }
        let limbs = node.value;
        if limbs[1] != 0 || limbs[2] != 0 || limbs[3] != 0 {
            proof {
                lemma_lane_values_error_sticks(prior, slots@, nodes@, active, circuit_id, (k + 1) as nat, n as nat);
            }
            return Err(VmAirCompositionInputError::InputIsNotBaseField { node_id });
        }
        let selector = match source {
            CompositionInputSource::Vm(VmAirCompositionInputSource::SegmentSelector) => true,
            CompositionInputSource::Recursion {
                source: RecursionAirCompositionInputSource::ParentBinarySelector,
                ..
            } => true,
            _ => false,
        };
        let expected: u32 = if selector {
            if active {
                1
            } else {
                0
            }
        } else if active {
            limbs[0]
        } else {
            0
        };
        if limbs[0] != expected {
            proof {
                lemma_lane_values_error_sticks(prior, slots@, nodes@, active, circuit_id, (k + 1) as nat, n as nat);
            }
            return Err(VmAirCompositionInputError::InactiveInputIsNonZero { node_id });
        }
        let entry = InputValue { circuit_id, node_id, source, value: expected };
        let mut j: usize = 0;
        while j < values.len()
            invariant
                j <= values@.len(),
                forall|i: int| 0 <= i < j ==> !same_key(#[trigger] values@[i], entry),
            decreases values@.len() - j,
        {
            let other = values[j];
            if other.circuit_id == entry.circuit_id && other.node_id == entry.node_id && other.source
                == entry.source {
                proof {
                    assert(same_key(values@[j as int], entry));
                    lemma_lane_values_error_sticks(prior, slots@, nodes@, active, circuit_id, (k + 1) as nat, n as nat);
                }
                return Err(VmAirCompositionInputError::InputCoordinateMismatch { node_id });
            }
            j = j + 1;
        }
        values.push(entry);
        k = k + 1;
    }
    Ok(())
}

/// The value whose key is the key of `row`, trying position `hint` first.
fn find_value(values: &[InputValue], row: InputRow, hint: usize) -> (found: Option<usize>)
    ensures
        match found {
            Some(e) => e < values@.len() && row_has_key(row, values@[e as int]),
            None => !row_key_found(values@, row),
        },
{
    if hint < values.len() {
        let entry = values[hint];
        if row.source == Some(entry.source) && row.circuit_id == entry.circuit_id && row.node_id
            == entry.node_id {
            return Some(hint);
        }
    }
    let mut e: usize = 0;
    while e < values.len()
        invariant
            e <= values@.len(),
            forall|i: int| 0 <= i < e ==> !row_has_key(row, #[trigger] values@[i]),
        decreases values@.len() - e,
    {
        let entry = values[e];
        if row.source == Some(entry.source) && row.circuit_id == entry.circuit_id && row.node_id
            == entry.node_id {
            return Some(e);
        }
        e = e + 1;
    }
    None
}

proof fn lemma_fill_error_sticks(rows: Seq<InputRow>, values: Seq<InputValue>, n: nat, m: nat)
    requires
        n <= m,
        spec_fill(rows, values, n).1 is Some,
    ensures
        spec_fill(rows, values, m) == spec_fill(rows, values, n),
    decreases m - n,
{
    if m > n {
        lemma_fill_error_sticks(rows, values, n, (m - 1) as nat);
    }
}

/// Writes one table word per row: zero for an anchor, the value of its key
/// for an input row. Returns how many values no row took.
#[verifier::loop_isolation(false)]
fn fill_rows(table: &mut Vec<u32>, rows: &[InputRow], values: &[InputValue]) -> (result: Result<
    usize,
    VmAirCompositionInputError,
>)
    requires
        keys_distinct(values@),
    ensures
        final(table)@ == old(table)@ + spec_fill(rows@, values@, rows@.len()).0,
        match spec_fill(rows@, values@, rows@.len()).1 {
            Some(error) => result == Err::<usize, _>(error),
            None => result == Ok::<usize, VmAirCompositionInputError>(
                untaken_count(rows@, values@, values@.len()) as usize,
            ),
        },
{
    let ghost start = table@;
    let mut used: Vec<bool> = Vec::new();
    let mut u: usize = 0;
    while u < values.len()
        invariant
            u <= values@.len(),
            used@.len() == u,
            forall|e: int| 0 <= e < u ==> !used@[e],
        decreases values@.len() - u,
    {
        used.push(false);
        u = u + 1;
    }
    let n = rows.len();
    let mut ordinal: usize = 0;
    let mut k: usize = 0;
    proof {
        assert(table@ =~= start + Seq::<u32>::empty());
    }
    while k < n
        invariant
            k <= n,
            n == rows@.len(),
            used@.len() == values@.len(),
            spec_fill(rows@, values@, k as nat).1 is None,
            table@ == start + spec_fill(rows@, values@, k as nat).0,
            forall|e: int| 0 <= e < values@.len() ==> used@[e] == key_taken(rows@, k as int, values@[e]),
        decreases n - k,
    {
        let row = rows[k];
        match row.source {
            None => {
                table.push(0);
                proof {
                    assert forall|e: int| 0 <= e < values@.len() implies used@[e] == key_taken(
                        rows@,
                        k as int + 1,
                        values@[e],
                    ) by {
                        if key_taken(rows@, k as int + 1, values@[e]) {
                            let j = choose|j: int| 0 <= j < k + 1 && row_has_key(#[trigger] rows@[j], values@[e]);
                            assert(j < k);
                        }
                    }
                }
            },
            Some(source) => {
                let found = find_value(values, row, ordinal);
                let e = match found {
                    Some(e) => e,
                    None => {
                        proof {
                            lemma_fill_error_sticks(rows@, values@, (k + 1) as nat, n as nat);
                        }
                        return Err(VmAirCompositionInputError::InputCoordinateMismatch { node_id: row.node_id });
                    },
                };
                if used[e] {
                    proof {
                        let j = choose|j: int| 0 <= j < k && row_has_key(#[trigger] rows@[j], values@[e as int]);
                        assert(rows@[j].source == row.source && rows@[j].circuit_id == row.circuit_id
                            && rows@[j].node_id == row.node_id);
                        lemma_fill_error_sticks(rows@, values@, (k + 1) as nat, n as nat);
                    }
                    return Err(VmAirCompositionInputError::InputCoordinateMismatch { node_id: row.node_id });
                }
                proof {
                    assert forall|j: int| 0 <= j < k implies !(#[trigger] rows@[j].source == row.source
                        && rows@[j].circuit_id == row.circuit_id && rows@[j].node_id == row.node_id) by {
                        if rows@[j].source == row.source && rows@[j].circuit_id == row.circuit_id
                            && rows@[j].node_id == row.node_id {
                            assert(row_has_key(rows@[j], values@[e as int]));
                        }
                    }
                    let c = choose|i: int| 0 <= i < values@.len() && row_has_key(row, #[trigger] values@[i]);
                    if c != e {
                        if c < e {
                            assert(!same_key(values@[c], values@[e as int]));
                        } else {
                            assert(!same_key(values@[e as int], values@[c]));
                        }
                    }
                    assert(row_value(values@, row) == values@[e as int].value);
                }
                table.push(values[e].value);
                used.set(e, true);
                proof {
                    assert forall|i: int| 0 <= i < values@.len() implies used@[i] == key_taken(
                        rows@,
                        k as int + 1,
                        values@[i],
                    ) by {
                        if i == e {
                            assert(row_has_key(rows@[k as int], values@[i]));
                        } else {
                            if row_has_key(rows@[k as int], values@[i]) {
                                if i < e {
                                    assert(!same_key(values@[i], values@[e as int]));
                                } else {
                                    assert(!same_key(values@[e as int], values@[i]));
                                }
                            }
                            if key_taken(rows@, k as int + 1, values@[i]) {
                                let j = choose|j: int| 0 <= j < k + 1 && row_has_key(#[trigger] rows@[j], values@[i]);
                                assert(j < k);
                            }
                        }
                    }
                }
                if ordinal < usize::MAX {
                    ordinal = ordinal + 1;
                }
            },
        }
        k = k + 1;
    }
    let mut leftover: usize = 0;
    let mut i: usize = 0;
    while i < values.len()
        invariant
            i <= values@.len(),
            used@.len() == values@.len(),
            forall|e: int| 0 <= e < values@.len() ==> used@[e] == key_taken(rows@, rows@.len() as int, values@[e]),
            leftover == untaken_count(rows@, values@, i as nat),
            leftover <= i,
        decreases values@.len() - i,
    {
        if !used[i] {
            leftover = leftover + 1;
        }
        i = i + 1;
    }
    Ok(leftover)
}

fn same_bindings(a: &[VmAirCompositionInputBinding], b: &[VmAirCompositionInputBinding]) -> (equal: bool)
    ensures
        equal == (a@ == b@),
{
    if a.len() != b.len() {
        return false;
    }
    let mut i: usize = 0;
    while i < a.len()
        invariant
            i <= a@.len(),
            a@.len() == b@.len(),
            forall|j: int| 0 <= j < i ==> a@[j] == b@[j],
        decreases a@.len() - i,
    {
        if a[i] != b[i] {
            return false;
        }
        i = i + 1;
    }
    proof {
        assert(a@ =~= b@);
    }
    true
}

fn same_child_bindings(a: &[RecursionAirCompositionInputBinding], b: &[RecursionAirCompositionInputBinding]) -> (equal: bool)
    ensures
        equal == (a@ == b@),
{
    if a.len() != b.len() {
        return false;
    }
    let mut i: usize = 0;
    while i < a.len()
        invariant
            i <= a@.len(),
            a@.len() == b@.len(),
            forall|j: int| 0 <= j < i ==> a@[j] == b@[j],
        decreases a@.len() - i,
    {
        if a[i] != b[i] {
            return false;
        }
        i = i + 1;
    }
    proof {
        assert(a@ =~= b@);
    }
    true
}

/// The slots of the VM lane.
fn vm_lane_slots(bindings: &[VmAirCompositionInputBinding]) -> (slots: Vec<InputSlot>)
    ensures
        slots@ == vm_slots(bindings@),
{
    let mut slots: Vec<InputSlot> = Vec::new();
    let mut i: usize = 0;
    while i < bindings.len()
        invariant
            i <= bindings@.len(),
            slots@ == vm_slots(bindings@.subrange(0, i as int)),
        decreases bindings@.len() - i,
    {
        let binding = bindings[i];
        slots.push((binding.node_id, CompositionInputSource::Vm(binding.source)));
        proof {
            assert(bindings@.subrange(0, i + 1) =~= bindings@.subrange(0, i as int).push(binding));
            assert(slots@ =~= vm_slots(bindings@.subrange(0, i + 1)));
        }
        i = i + 1;
    }
    proof {
        assert(bindings@.subrange(0, bindings@.len() as int) =~= bindings@);
    }
    slots
}

/// The slots of one recursion lane.
fn child_lane_slots(lane: RecursionCompositionInputLane) -> (slots: Vec<InputSlot>)
    ensures
        slots@ == child_slots(recursion_lane_view(lane)),
{
    let bindings = lane.circuit.input_bindings();
    let ghost view = recursion_lane_view(lane);
    let mut slots: Vec<InputSlot> = Vec::new();
    let mut i: usize = 0;
    while i < bindings.len()
        invariant
            i <= bindings@.len(),
            bindings@ == view.4,
            view.0 == lane.verifier_id,
            view.2 == lane.statement_scope,
            slots@ == child_slots((view.0, view.1, view.2, view.3, bindings@.subrange(0, i as int))),
        decreases bindings@.len() - i,
    {
        let binding = bindings[i];
        slots.push(
            (
                binding.node_id,
                CompositionInputSource::Recursion {
                    verifier_id: lane.verifier_id,
                    statement_scope: lane.statement_scope,
                    source: binding.source,
                },
            ),
        );
        proof {
            assert(bindings@.subrange(0, i + 1) =~= bindings@.subrange(0, i as int).push(binding));
            assert(slots@ =~= child_slots((view.0, view.1, view.2, view.3, bindings@.subrange(0, i + 1))));
        }
        i = i + 1;
    }
    proof {
        assert(bindings@.subrange(0, bindings@.len() as int) =~= bindings@);
    }
    slots
}

fn find_first_vm_row(rows: &[InputRow]) -> (found: Option<usize>)
    ensures
        match first_vm_row(rows@, rows@.len()) {
            Some(i) => found == Some(i as usize),
            None => found is None,
        },
{
    let mut i: usize = 0;
    while i < rows.len()
        invariant
            i <= rows@.len(),
            first_vm_row(rows@, i as nat) is None,
        decreases rows@.len() - i,
    {
        if matches!(rows[i].source, Some(CompositionInputSource::Vm(_))) {
            proof {
                lemma_first_vm_row_sticks(rows@, (i + 1) as nat, rows@.len());
            }
            return Some(i);
        }
        i = i + 1;
    }
    None
}

proof fn lemma_first_vm_row_sticks(rows: Seq<InputRow>, n: nat, m: nat)
    requires
        n <= m,
        first_vm_row(rows, n) is Some,
    ensures
        first_vm_row(rows, m) == first_vm_row(rows, n),
    decreases m - n,
{
    if m > n {
        lemma_first_vm_row_sticks(rows, n, (m - 1) as nat);
    }
}

proof fn lemma_first_vm_row_bound(rows: Seq<InputRow>, n: nat)
    requires
        n <= rows.len(),
    ensures
        first_vm_row(rows, n) matches Some(i) ==> i < n,
    decreases n,
{
    if n > 0 {
        lemma_first_vm_row_bound(rows, (n - 1) as nat);
    }
}

proof fn lemma_untaken_bound(rows: Seq<InputRow>, values: Seq<InputValue>, n: nat)
    ensures
        untaken_count(rows, values, n) <= n,
    decreases n,
{
    if n > 0 {
        lemma_untaken_bound(rows, values, (n - 1) as nat);
    }
}

proof fn lemma_child_values_error_sticks(
    prior: Seq<InputValue>,
    references: Seq<RecursionLaneView>,
    witnesses: Seq<RecursionLaneView>,
    active: bool,
    n: nat,
    m: nat,
)
    requires
        n <= m,
        spec_child_values(prior, references, witnesses, active, n) is Err,
    ensures
        spec_child_values(prior, references, witnesses, active, m) == spec_child_values(
            prior,
            references,
            witnesses,
            active,
            n,
        ),
    decreases m - n,
{
    if m > n {
        lemma_child_values_error_sticks(prior, references, witnesses, active, n, (m - 1) as nat);
    }
}

/// Whether a value is the value of some slot of recursion lane `l` or an
/// earlier one, in binary mode under that lane's circuit id.
pub open spec fn value_from_child_lanes(
    entry: InputValue,
    witnesses: Seq<RecursionLaneView>,
    active: bool,
    n: int,
) -> bool {
    exists|l: int, s: int|
        0 <= l < n && 0 <= s < child_slots(witnesses[l]).len() && slot_entry(
            entry,
            #[trigger] child_slots(witnesses[l])[s],
            witnesses[l].3.nodes@,
            active,
            witnesses[l].1,
        )
}

proof fn lemma_child_values(
    prior: Seq<InputValue>,
    references: Seq<RecursionLaneView>,
    witnesses: Seq<RecursionLaneView>,
    active: bool,
    n: nat,
)
    requires
        n <= witnesses.len(),
        keys_distinct(prior),
        spec_child_values(prior, references, witnesses, active, n) is Ok,
    ensures
        ({
            let values = spec_child_values(prior, references, witnesses, active, n)->Ok_0;
            &&& values.len() >= prior.len()
            &&& values.subrange(0, prior.len() as int) == prior
            &&& keys_distinct(values)
            &&& forall|e: int|
                prior.len() <= e < values.len() ==> value_from_child_lanes(
                    #[trigger] values[e],
                    witnesses,
                    active,
                    n as int,
                )
        }),
    decreases n,
{
    if n > 0 {
        let m = (n - 1) as nat;
        lemma_child_values(prior, references, witnesses, active, m);
        let before = spec_child_values(prior, references, witnesses, active, m)->Ok_0;
        let witness = witnesses[m as int];
        let slots = child_slots(witness);
        lemma_lane_values(before, slots, witness.3.nodes@, active, witness.1, slots.len());
        let after = spec_child_values(prior, references, witnesses, active, n)->Ok_0;
        assert(after.subrange(0, prior.len() as int) =~= before.subrange(0, prior.len() as int)) by {
            assert forall|i: int| 0 <= i < prior.len() implies after[i] == before[i] by {
                assert(after.subrange(0, before.len() as int)[i] == before[i]);
            }
        }
        assert forall|e: int| prior.len() <= e < after.len() implies value_from_child_lanes(
            #[trigger] after[e],
            witnesses,
            active,
            n as int,
        ) by {
            if e < before.len() {
                assert(after.subrange(0, before.len() as int)[e] == before[e]);
                assert(value_from_child_lanes(before[e], witnesses, active, m as int));
                let (l, s) = choose|l: int, s: int|
                    0 <= l < m && 0 <= s < child_slots(witnesses[l]).len() && slot_entry(
                        before[e],
                        #[trigger] child_slots(witnesses[l])[s],
                        witnesses[l].3.nodes@,
                        active,
                        witnesses[l].1,
                    );
                assert(slot_entry(after[e], child_slots(witnesses[l])[s], witnesses[l].3.nodes@, active, witnesses[l].1));
            } else {
                let s = e - before.len();
                assert(slot_entry(after[before.len() + s], slots[s], witness.3.nodes@, active, witness.1));
                assert(slot_entry(after[e], child_slots(witnesses[m as int])[s], witnesses[m as int].3.nodes@, active, witnesses[m as int].1));
            }
        }
    }
}

/// Appends the values of every recursion lane, each checked against its
/// reference first.
#[verifier::loop_isolation(false)]
fn append_child_values(
    values: &mut Vec<InputValue>,
    references: &[RecursionCompositionInputLane],
    witnesses: &[RecursionCompositionInputLane],
    active: bool,
) -> (result: Result<(), VmAirCompositionInputError>)
    requires
        keys_distinct(old(values)@),
        references@.len() == witnesses@.len(),
    ensures
        match spec_child_values(
            old(values)@,
            recursion_lane_views(references@),
            recursion_lane_views(witnesses@),
            active,
            references@.len(),
        ) {
            Ok(collected) => result is Ok && final(values)@ == collected,
            Err(error) => result == Err::<(), _>(error),
        },
{
    let ghost prior = values@;
    let ghost refs = recursion_lane_views(references@);
    let ghost wits = recursion_lane_views(witnesses@);
    let n = references.len();
    let mut l: usize = 0;
    while l < n
        invariant
            l <= n,
            n == references@.len(),
            n == witnesses@.len(),
            keys_distinct(prior),
            refs == recursion_lane_views(references@),
            wits == recursion_lane_views(witnesses@),
            spec_child_values(prior, refs, wits, active, l as nat) == Ok::<_, VmAirCompositionInputError>(values@),
        decreases n - l,
    {
        proof {
            lemma_child_values(prior, refs, wits, active, l as nat);
        }
        let reference = references[l];
        let witness = witnesses[l];
        assert(refs[l as int] == recursion_lane_view(reference));
        assert(wits[l as int] == recursion_lane_view(witness));
        if reference.verifier_id != witness.verifier_id || reference.circuit_id != witness.circuit_id
            || reference.statement_scope != witness.statement_scope || !same_child_bindings(
            reference.circuit.input_bindings(),
            witness.circuit.input_bindings(),
        ) || !same_outputs(
            reference.circuit.circuit().outputs.as_slice(),
            witness.circuit.circuit().outputs.as_slice(),
        ) {
            proof {
                lemma_child_values_error_sticks(prior, refs, wits, active, (l + 1) as nat, n as nat);
            }
            return Err(VmAirCompositionInputError::InputLayoutMismatch);
        }
        let slots = child_lane_slots(witness);
        match append_lane_values(values, slots.as_slice(), witness.circuit.circuit().nodes.as_slice(), active, witness.circuit_id) {
            Ok(()) => {},
            Err(error) => {
                proof {
                    lemma_child_values_error_sticks(prior, refs, wits, active, (l + 1) as nat, n as nat);
                }
                return Err(error);
            },
        }
        l = l + 1;
    }
    Ok(())
}

/// Materializes the VM lane's input values alone, with no recursion lanes.
pub fn push_vm_air_composition_inputs(
    table: &mut Vec<u32>,
    preprocessed: &VmAirCompositionInputPreprocessed,
    reference: &VmAirCompositionCircuit,
    witness: &VmAirCompositionCircuit,
    proof_kind: ProofKind,
) -> (result: Result<(), VmAirCompositionInputError>)
    ensures
        ({
            let (words, error) = spec_push_composition(
                *preprocessed,
                *reference,
                *witness,
                Seq::empty(),
                Seq::empty(),
                proof_kind,
            );
            &&& final(table)@ == old(table)@ + words
            &&& match error {
                Some(error) => result == Err::<(), _>(error),
                None => result is Ok,
            }
        }),
{
    let no_lanes: Vec<RecursionCompositionInputLane> = Vec::new();
    proof {
        assert(recursion_lane_views(no_lanes@) =~= Seq::<RecursionLaneView>::empty());
    }
    push_air_composition_inputs(table, preprocessed, reference, witness, no_lanes.as_slice(), no_lanes.as_slice(), proof_kind)
}

/// Materializes every lane's input values into the input table's value
/// column, one word per table row: zero for each anchor row and, for each
/// input row, the value of the witness input with that row's circuit, node
/// and source. The VM witness must have the reference's profile, bindings
/// and outputs and the table's VM input count; each recursion witness must
/// have its reference's scopes, circuit id, bindings and outputs. Each input
/// must be a base-field value that is zero outside its lane's mode, with the
/// lane's selector one exactly inside it; the values must number the
/// table's inputs, and each must be taken by exactly one row. Words are
/// pushed in row order until the first row that fails.
pub fn push_air_composition_inputs(
    table: &mut Vec<u32>,
    preprocessed: &VmAirCompositionInputPreprocessed,
    vm_reference: &VmAirCompositionCircuit,
    vm_witness: &VmAirCompositionCircuit,
    recursion_references: &[RecursionCompositionInputLane],
    recursion_witnesses: &[RecursionCompositionInputLane],
    proof_kind: ProofKind,
) -> (result: Result<(), VmAirCompositionInputError>)
    ensures
        ({
            let (words, error) = spec_push_composition(
                *preprocessed,
                *vm_reference,
                *vm_witness,
                recursion_lane_views(recursion_references@),
                recursion_lane_views(recursion_witnesses@),
                proof_kind,
            );
            &&& final(table)@ == old(table)@ + words
            &&& match error {
                Some(error) => result == Err::<(), _>(error),
                None => result is Ok,
            }
        }),
{
    let rows = preprocessed.rows();
    let input_count = preprocessed.input_count();
    proof {
        assert(old(table)@ + Seq::<u32>::empty() =~= old(table)@);
    }
    let first = match find_first_vm_row(rows) {
        Some(first) => first,
        None => {
            return Err(VmAirCompositionInputError::VmInputLaneMissing);
        },
    };
    proof {
        lemma_first_vm_row_bound(rows@, rows@.len());
    }
    let circuit_id = rows[first].circuit_id;
    if !vm_reference.profile().same_profile(vm_witness.profile()) || !same_bindings(
        vm_reference.input_bindings(),
        vm_witness.input_bindings(),
    ) || !same_outputs(vm_reference.circuit().outputs.as_slice(), vm_witness.circuit().outputs.as_slice()) {
        return Err(VmAirCompositionInputError::InputLayoutMismatch);
    }
    let bindings = vm_witness.input_bindings();
    let vm_input_count = preprocessed.vm_input_count();
    if bindings.len() != vm_input_count {
        return Err(VmAirCompositionInputError::InputCountMismatch { expected: vm_input_count, actual: bindings.len() });
    }
    let slots = vm_lane_slots(bindings);
    let mut values: Vec<InputValue> = Vec::new();
    match append_lane_values(
        &mut values,
        slots.as_slice(),
        vm_witness.circuit().nodes.as_slice(),
        proof_kind == ProofKind::SegmentLeaf,
        circuit_id,
    ) {
        Ok(()) => {},
        Err(error) => {
            return Err(error);
        },
    }
    proof {
        lemma_lane_values(
            Seq::empty(),
            slots@,
            vm_witness.spec_circuit().nodes@,
            proof_kind == ProofKind::SegmentLeaf,
            circuit_id,
            slots@.len(),
        );
    }
    if recursion_references.len() != recursion_witnesses.len() {
        return Err(
            VmAirCompositionInputError::RecursionLaneCountMismatch {
                expected: recursion_references.len(),
                actual: recursion_witnesses.len(),
            },
        );
    }
    let ghost vm_values = values@;
    match append_child_values(
        &mut values,
        recursion_references,
        recursion_witnesses,
        proof_kind == ProofKind::BinaryNode,
    ) {
        Ok(()) => {},
        Err(error) => {
            return Err(error);
        },
    }
    proof {
        lemma_child_values(
            vm_values,
            recursion_lane_views(recursion_references@),
            recursion_lane_views(recursion_witnesses@),
            proof_kind == ProofKind::BinaryNode,
            recursion_references@.len() as nat,
        );
    }
    if values.len() != input_count {
        return Err(VmAirCompositionInputError::InputCountMismatch { expected: input_count, actual: values.len() });
    }
    let leftover = fill_rows(table, rows, values.as_slice())?;
    proof {
        lemma_untaken_bound(rows@, values@, values@.len());
    }
    if leftover != 0 {
        return Err(
            VmAirCompositionInputError::InputCountMismatch {
                expected: input_count,
                actual: input_count + leftover,
            },
        );
    }
    Ok(())
}

proof fn lemma_fill_words(rows: Seq<InputRow>, values: Seq<InputValue>, n: nat)
    requires
        n <= rows.len(),
        spec_fill(rows, values, n).1 is None,
    ensures
        ({
            let words = spec_fill(rows, values, n).0;
            &&& words.len() == n
            &&& forall|i: int|
                0 <= i < n ==> match (#[trigger] rows[i]).source {
                    None => words[i] == 0,
                    Some(_) => row_key_found(values, rows[i]) && words[i] == row_value(values, rows[i]),
                }
        }),
    decreases n,
{
    if n > 0 {
        lemma_fill_words(rows, values, (n - 1) as nat);
        let before = spec_fill(rows, values, (n - 1) as nat).0;
        let after = spec_fill(rows, values, n).0;
        assert forall|i: int| 0 <= i < n implies match (#[trigger] rows[i]).source {
            None => after[i] == 0,
            Some(_) => row_key_found(values, rows[i]) && after[i] == row_value(values, rows[i]),
        } by {
            if i < n - 1 {
                assert(after[i] == before[i]);
            }
        }
    }
}

/// Whether a value is the value of some input of the VM lane, in segment
/// mode under the VM lane's circuit id, or of some input of a recursion
/// lane, in binary mode under that lane's circuit id.
pub open spec fn value_from_lanes(
    entry: InputValue,
    vm_witness: VmAirCompositionCircuit,
    vm_circuit_id: u32,
    recursion_witnesses: Seq<RecursionLaneView>,
    proof_kind: ProofKind,
) -> bool {
    let slots = vm_slots(vm_witness.spec_input_bindings());
    ||| exists|s: int|
        0 <= s < slots.len() && slot_entry(
            entry,
            #[trigger] slots[s],
            vm_witness.spec_circuit().nodes@,
            proof_kind == ProofKind::SegmentLeaf,
            vm_circuit_id,
        )
    ||| value_from_child_lanes(
        entry,
        recursion_witnesses,
        proof_kind == ProofKind::BinaryNode,
        recursion_witnesses.len() as int,
    )
}

/// Every materialization that succeeds writes one word per table row: zero
/// for each anchor row, and for each input row the recorded value of a
/// witness input with that row's circuit, node and source, taken from the
/// VM lane in segment mode or from a recursion lane in binary mode. A
/// lane's selector is one exactly in its lane's mode, and every other input
/// is zero outside it.
pub proof fn lemma_pushed_words_follow_rows(
    preprocessed: VmAirCompositionInputPreprocessed,
    vm_reference: VmAirCompositionCircuit,
    vm_witness: VmAirCompositionCircuit,
    recursion_references: Seq<RecursionLaneView>,
    recursion_witnesses: Seq<RecursionLaneView>,
    proof_kind: ProofKind,
)
    requires
        spec_push_composition(
            preprocessed,
            vm_reference,
            vm_witness,
            recursion_references,
            recursion_witnesses,
            proof_kind,
        ).1 is None,
    ensures
        ({
            let words = spec_push_composition(
                preprocessed,
                vm_reference,
                vm_witness,
                recursion_references,
                recursion_witnesses,
                proof_kind,
            ).0;
            let rows = preprocessed.spec_rows();
            let vm_circuit_id = rows[first_vm_row(rows, rows.len())->Some_0 as int].circuit_id;
            &&& words.len() == rows.len()
            &&& forall|i: int|
                0 <= i < rows.len() ==> match (#[trigger] rows[i]).source {
                    None => words[i] == 0,
                    Some(source) => value_from_lanes(
                        InputValue {
                            circuit_id: rows[i].circuit_id,
                            node_id: rows[i].node_id,
                            source,
                            value: words[i],
                        },
                        vm_witness,
                        vm_circuit_id,
                        recursion_witnesses,
                        proof_kind,
                    ),
                }
        }),
{
    let rows = preprocessed.spec_rows();
    let bindings = vm_witness.spec_input_bindings();
    let nodes = vm_witness.spec_circuit().nodes@;
    let first = first_vm_row(rows, rows.len())->Some_0;
    let circuit_id = rows[first as int].circuit_id;
    let slots = vm_slots(bindings);
    let segment = proof_kind == ProofKind::SegmentLeaf;
    let binary = proof_kind == ProofKind::BinaryNode;
    lemma_lane_values(Seq::empty(), slots, nodes, segment, circuit_id, bindings.len());
    let vm_values = spec_lane_values(Seq::empty(), slots, nodes, segment, circuit_id, bindings.len())->Ok_0;
    lemma_child_values(vm_values, recursion_references, recursion_witnesses, binary, recursion_references.len());
    let values = spec_child_values(
        vm_values,
        recursion_references,
        recursion_witnesses,
        binary,
        recursion_references.len(),
    )->Ok_0;
    lemma_fill_words(rows, values, rows.len());
    let words = spec_fill(rows, values, rows.len()).0;
    assert forall|i: int| 0 <= i < rows.len() implies match (#[trigger] rows[i]).source {
        None => words[i] == 0,
        Some(source) => value_from_lanes(
            InputValue { circuit_id: rows[i].circuit_id, node_id: rows[i].node_id, source, value: words[i] },
            vm_witness,
            circuit_id,
            recursion_witnesses,
            proof_kind,
        ),
    } by {
        if let Some(source) = rows[i].source {
            let e = choose|e: int| 0 <= e < values.len() && row_has_key(rows[i], #[trigger] values[e]);
            let entry = InputValue { circuit_id: rows[i].circuit_id, node_id: rows[i].node_id, source, value: words[i] };
            assert(entry == values[e]);
            if e < vm_values.len() {
                assert(values.subrange(0, vm_values.len() as int)[e] == vm_values[e]);
                assert(slot_entry(vm_values[0 + e], slots[e], nodes, segment, circuit_id));
            } else {
                assert(value_from_child_lanes(values[e], recursion_witnesses, binary, recursion_references.len() as int));
            }
        }
    }
}

} // verus!
