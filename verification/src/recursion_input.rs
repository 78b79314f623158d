//! Input ownership of the recursion children's composition circuits.
//!
//! In a binary parent, each child's composition circuit is a lane of the
//! universal input table: every input of the child's circuit is owned by a
//! verifier value in the child's verifier and statement scope, such as a
//! statement word, a sampled value or claimed-sum word, a relation
//! challenge word, a randomness word, the parent's binary selector or one of
//! the three child-kind selectors. The lane's rows are active in binary mode.
use crate::circuit::{CircuitNode, ConstraintCircuit, NodeOp};
use crate::composition_input::{
    AnchorKind, CircuitAnchorMode, CompositionInputSource, InputRow, RELATION_CHALLENGE_WORD_COUNT,
    RecursionAirCompositionInputSource, SECURE_VALUE_WORD_COUNT, VmAirCompositionInputError,
    validate_randomness_word,
};
use crate::kernel::ProofKind;
use crate::m31::M31_MODULUS;
use crate::verifier_randomness::VerifierRandomnessKind;
use vstd::prelude::*;

verus! {

/// Child circuit node and the exact verifier relation that supplies it.
#[derive(Clone, Copy, Debug, PartialEq, Eq, Structural)]
pub struct RecursionAirCompositionInputBinding {
    pub node_id: u32,
    pub source: RecursionAirCompositionInputSource,
}

/// A recursion child's fixed composition circuit and the verifier relation
/// of each of its inputs.
#[derive(Clone, Debug)]
pub struct RecursionAirCompositionCircuit {
    circuit: ConstraintCircuit,
    input_bindings: Vec<RecursionAirCompositionInputBinding>,
}

impl RecursionAirCompositionCircuit {
    pub closed spec fn spec_circuit(&self) -> ConstraintCircuit {
        self.circuit
    }

    pub closed spec fn spec_input_bindings(&self) -> Seq<RecursionAirCompositionInputBinding> {
        self.input_bindings@
    }

    /// A compiled child circuit with the verifier relation of each input.
    pub fn new(circuit: ConstraintCircuit, input_bindings: Vec<RecursionAirCompositionInputBinding>) -> (result: Self)
        ensures
            result.spec_circuit() == circuit,
            result.spec_input_bindings() == input_bindings@,
    {
        RecursionAirCompositionCircuit { circuit, input_bindings }
    }

    pub fn circuit(&self) -> (circuit: &ConstraintCircuit)
        ensures
            *circuit == self.spec_circuit(),
    {
        &self.circuit
    }

    pub fn input_bindings(&self) -> (bindings: &[RecursionAirCompositionInputBinding])
        ensures
            bindings@ == self.spec_input_bindings(),
    {
        self.input_bindings.as_slice()
    }
}

/// One recursion-child composition graph and the verifier and statement
/// scopes that own its inputs in a binary parent.
#[derive(Clone, Copy)]
pub struct RecursionCompositionInputLane<'a> {
    pub verifier_id: u32,
    pub circuit_id: u32,
    pub statement_scope: u32,
    pub circuit: &'a RecursionAirCompositionCircuit,
}

/// The protocol's bounds on child input coordinates: the words of a
/// canonical statement and the universal relations whose challenges a
/// child may read.
#[derive(Clone, Copy, Debug, PartialEq, Eq, Structural)]
pub struct RecursionInputBounds {
    pub statement_word_count: u32,
    pub relation_count: u32,
}

/// A recursion lane as plain values: verifier id, circuit id, statement
/// scope, the child's circuit and its input bindings.
pub type RecursionLaneView = (u32, u32, u32, ConstraintCircuit, Seq<RecursionAirCompositionInputBinding>);

/// The plain values of one recursion lane.
pub open spec fn recursion_lane_view(lane: RecursionCompositionInputLane) -> RecursionLaneView {
    (
        lane.verifier_id,
        lane.circuit_id,
        lane.statement_scope,
        lane.circuit.spec_circuit(),
        lane.circuit.spec_input_bindings(),
    )
}

/// The plain values of a sequence of recursion lanes.
pub open spec fn recursion_lane_views(lanes: Seq<RecursionCompositionInputLane>) -> Seq<RecursionLaneView> {
    lanes.map_values(|lane: RecursionCompositionInputLane| recursion_lane_view(lane))
}

/// The column index of a child proof kind.
pub open spec fn kind_index(kind: ProofKind) -> u32 {
    match kind {
        ProofKind::SegmentLeaf => 0,
        ProofKind::BinaryNode => 1,
        ProofKind::EmptyLeaf => 2,
    }
}

/// The two source-index columns of a child input, or why its source is out
/// of range for the protocol's bounds.
pub open spec fn spec_recursion_source_indices(
    source: RecursionAirCompositionInputSource,
    bounds: RecursionInputBounds,
) -> Result<(u32, u32), VmAirCompositionInputError> {
    match source {
        RecursionAirCompositionInputSource::ParentBinarySelector => Ok((0, 0)),
        RecursionAirCompositionInputSource::ChildKindSelector { kind } => Ok((kind_index(kind), 0)),
        RecursionAirCompositionInputSource::StatementWord { word_index } => if word_index
            >= bounds.statement_word_count {
            Err(VmAirCompositionInputError::StatementWordIndexOutOfRange { word_index })
        } else {
            Ok((word_index, 0))
        },
        RecursionAirCompositionInputSource::SampledValueWord { item_index, word_index } => if word_index
            >= SECURE_VALUE_WORD_COUNT {
            Err(VmAirCompositionInputError::RecursionSecureWordIndexOutOfRange { word_index })
        } else {
            Ok((item_index, word_index))
        },
        RecursionAirCompositionInputSource::ClaimedSumWord { item_index, word_index } => if word_index
            >= SECURE_VALUE_WORD_COUNT {
            Err(VmAirCompositionInputError::RecursionSecureWordIndexOutOfRange { word_index })
        } else {
            Ok((item_index, word_index))
        },
        RecursionAirCompositionInputSource::RelationChallengeWord { challenge, word_index } => if challenge
            >= bounds.relation_count {
            Err(VmAirCompositionInputError::ChallengeIndexOutOfRange { challenge })
        } else if word_index >= RELATION_CHALLENGE_WORD_COUNT {
            Err(VmAirCompositionInputError::ChallengeWordOutOfRange { word_index })
        } else {
            Ok((challenge, word_index))
        },
        RecursionAirCompositionInputSource::CompositionRandomnessWord { word_index } => if word_index
            >= SECURE_VALUE_WORD_COUNT {
            Err(
                VmAirCompositionInputError::RandomnessWordOutOfRange {
                    kind: VerifierRandomnessKind::CompositionRandomness,
                    word_index,
                },
            )
        } else {
            Ok((0, word_index))
        },
        RecursionAirCompositionInputSource::OodsPointWord { word_index } => if word_index
            >= SECURE_VALUE_WORD_COUNT {
            Err(
                VmAirCompositionInputError::RandomnessWordOutOfRange {
                    kind: VerifierRandomnessKind::OodsPoint,
                    word_index,
                },
            )
        } else {
            Ok((0, word_index))
        },
    }
}

/// Checks one child input source against the protocol's bounds and returns
/// its two source-index columns.
pub fn validate_recursion_source(
    source: RecursionAirCompositionInputSource,
    bounds: RecursionInputBounds,
) -> (result: Result<(u32, u32), VmAirCompositionInputError>)
    ensures
        result == spec_recursion_source_indices(source, bounds),
{
    match source {
        RecursionAirCompositionInputSource::ParentBinarySelector => Ok((0, 0)),
        RecursionAirCompositionInputSource::ChildKindSelector { kind } => Ok(
            (
                match kind {
                    ProofKind::SegmentLeaf => 0,
                    ProofKind::BinaryNode => 1,
                    ProofKind::EmptyLeaf => 2,
                },
                0,
            ),
        ),
        RecursionAirCompositionInputSource::StatementWord { word_index } => {
            if word_index >= bounds.statement_word_count {
                return Err(VmAirCompositionInputError::StatementWordIndexOutOfRange { word_index });
            }
            Ok((word_index, 0))
        },
        RecursionAirCompositionInputSource::SampledValueWord { item_index, word_index }
        | RecursionAirCompositionInputSource::ClaimedSumWord { item_index, word_index } => {
            if word_index >= SECURE_VALUE_WORD_COUNT {
                return Err(VmAirCompositionInputError::RecursionSecureWordIndexOutOfRange { word_index });
            }
            Ok((item_index, word_index))
        },
        RecursionAirCompositionInputSource::RelationChallengeWord { challenge, word_index } => {
            if challenge >= bounds.relation_count {
                return Err(VmAirCompositionInputError::ChallengeIndexOutOfRange { challenge });
            }
            if word_index >= RELATION_CHALLENGE_WORD_COUNT {
                return Err(VmAirCompositionInputError::ChallengeWordOutOfRange { word_index });
            }
            Ok((challenge, word_index))
        },
        RecursionAirCompositionInputSource::CompositionRandomnessWord { word_index } => {
            validate_randomness_word(VerifierRandomnessKind::CompositionRandomness, word_index)?;
            Ok((0, word_index))
        },
        RecursionAirCompositionInputSource::OodsPointWord { word_index } => {
            validate_randomness_word(VerifierRandomnessKind::OodsPoint, word_index)?;
            Ok((0, word_index))
        },
    }
}

/// Whether child binding `k` repeats the source of an earlier binding.
pub open spec fn recursion_source_repeated(bindings: Seq<RecursionAirCompositionInputBinding>, k: int) -> bool {
    exists|j: int| 0 <= j < k && bindings[j].source == bindings[k].source
}

/// The input rows of the first `n` child bindings of a lane and how many of
/// them are the parent's binary selector and a child-kind selector, or the
/// first error met.
pub open spec fn spec_recursion_scan(
    lane: RecursionLaneView,
    bounds: RecursionInputBounds,
    n: nat,
) -> Result<(Seq<InputRow>, nat, nat), VmAirCompositionInputError>
    decreases n,
{
    let (verifier_id, circuit_id, statement_scope, circuit, bindings) = lane;
    let nodes = circuit.nodes@;
    if n == 0 {
        Ok((Seq::empty(), 0, 0))
    } else {
        match spec_recursion_scan(lane, bounds, (n - 1) as nat) {
            Err(error) => Err(error),
            Ok((rows, parents, children)) => {
                let k = n - 1;
                let binding = bindings[k];
                let node_id = binding.node_id;
                if recursion_source_repeated(bindings, k) {
                    Err(VmAirCompositionInputError::DuplicateRecursionInputSource { circuit_id, source: binding.source })
                } else if node_id >= M31_MODULUS {
                    Err(VmAirCompositionInputError::NodeIdNotCanonical { node_id })
                } else if node_id >= nodes.len() {
                    Err(VmAirCompositionInputError::NodeMissing { node_id })
                } else if nodes[node_id as int].op != NodeOp::Input {
                    Err(VmAirCompositionInputError::BindingTargetsNonInput { node_id })
                } else {
                    match spec_recursion_source_indices(binding.source, bounds) {
                        Err(error) => Err(error),
                        Ok((index_0, index_1)) => if nodes[node_id as int].use_count >= M31_MODULUS {
                            Err(
                                VmAirCompositionInputError::UseCountNotCanonical {
                                    node_id,
                                    use_count: nodes[node_id as int].use_count,
                                },
                            )
                        } else {
                            Ok(
                                (
                                    rows.push(
                                        InputRow {
                                            source: Some(
                                                CompositionInputSource::Recursion {
                                                    verifier_id,
                                                    statement_scope,
                                                    source: binding.source,
                                                },
                                            ),
                                            anchor: AnchorKind::Unanchored,
                                            anchor_mode: CircuitAnchorMode::spec_binary(),
                                            circuit_id,
                                            node_id,
                                            use_count: nodes[node_id as int].use_count,
                                            source_index_0: index_0,
                                            source_index_1: index_1,
                                            fixed_value: [0u32, 0u32, 0u32, 0u32],
                                        },
                                    ),
                                    if binding.source is ParentBinarySelector {
                                        parents + 1
                                    } else {
                                        parents
                                    },
                                    if binding.source is ChildKindSelector {
                                        children + 1
                                    } else {
                                        children
                                    },
                                ),
                            )
                        },
                    }
                }
            },
        }
    }
}

/// The binary-mode input rows of one recursion lane, or why its scopes are
/// not canonical or its bindings do not own one parent selector and three
/// child-kind selectors.
pub open spec fn spec_recursion_rows(lane: RecursionLaneView, bounds: RecursionInputBounds) -> Result<
    Seq<InputRow>,
    VmAirCompositionInputError,
> {
    let (verifier_id, circuit_id, statement_scope, circuit, bindings) = lane;
    if verifier_id >= M31_MODULUS {
        Err(VmAirCompositionInputError::VerifierIdNotCanonical { verifier_id })
    } else if statement_scope >= M31_MODULUS {
        Err(VmAirCompositionInputError::StatementScopeNotCanonical { statement_scope })
    } else if circuit_id >= M31_MODULUS {
        Err(VmAirCompositionInputError::CircuitIdNotCanonical { circuit_id })
    } else {
        match spec_recursion_scan(lane, bounds, bindings.len()) {
            Err(error) => Err(error),
            Ok((rows, parents, children)) => if parents != 1 || children != 3 {
                Err(
                    VmAirCompositionInputError::RecursionSelectorCountMismatch {
                        parent: parents as usize,
                        child: children as usize,
                    },
                )
            } else {
                Ok(rows)
            },
        }
    }
}

proof fn lemma_recursion_scan_error_sticks(lane: RecursionLaneView, bounds: RecursionInputBounds, n: nat, m: nat)
    requires
        n <= m,
        spec_recursion_scan(lane, bounds, n) is Err,
    ensures
        spec_recursion_scan(lane, bounds, m) == spec_recursion_scan(lane, bounds, n),
    decreases m - n,
{
    if m > n {
        lemma_recursion_scan_error_sticks(lane, bounds, n, (m - 1) as nat);
    }
}

proof fn lemma_recursion_scan_counts(lane: RecursionLaneView, bounds: RecursionInputBounds, n: nat)
    requires
        spec_recursion_scan(lane, bounds, n) is Ok,
    ensures
        ({
            let (rows, parents, children) = spec_recursion_scan(lane, bounds, n)->Ok_0;
            &&& rows.len() == n
            &&& parents + children <= n
        }),
    decreases n,
{
    if n > 0 {
        lemma_recursion_scan_counts(lane, bounds, (n - 1) as nat);
    }
}

/// Whether an earlier child binding has the same source as binding `k`.
fn recursion_source_seen(bindings: &[RecursionAirCompositionInputBinding], k: usize) -> (seen: bool)
    requires
        k < bindings@.len(),
    ensures
        seen == recursion_source_repeated(bindings@, k as int),
{
    let mut j: usize = 0;
    while j < k
        invariant
            j <= k < bindings@.len(),
            forall|i: int| 0 <= i < j ==> bindings@[i].source != bindings@[k as int].source,
        decreases k - j,
    {
        if bindings[j].source == bindings[k].source {
            return true;
        }
        j = j + 1;
    }
    false
}

/// The binary-mode input rows of one recursion lane.
#[verifier::loop_isolation(false)]
pub fn recursion_input_rows(lane: RecursionCompositionInputLane, bounds: RecursionInputBounds) -> (result: Result<
    Vec<InputRow>,
    VmAirCompositionInputError,
>)
    ensures
        match spec_recursion_rows(recursion_lane_view(lane), bounds) {
            Ok(rows) => result matches Ok(v) && v@ == rows,
            Err(error) => result == Err::<Vec<InputRow>, _>(error),
        },
{
    let ghost view = recursion_lane_view(lane);
    if lane.verifier_id >= M31_MODULUS {
        return Err(VmAirCompositionInputError::VerifierIdNotCanonical { verifier_id: lane.verifier_id });
    }
    if lane.statement_scope >= M31_MODULUS {
        return Err(
            VmAirCompositionInputError::StatementScopeNotCanonical { statement_scope: lane.statement_scope },
        );
    }
    if lane.circuit_id >= M31_MODULUS {
        return Err(VmAirCompositionInputError::CircuitIdNotCanonical { circuit_id: lane.circuit_id });
    }
    let nodes = &lane.circuit.circuit().nodes;
    let bindings = lane.circuit.input_bindings();
    let mut rows: Vec<InputRow> = Vec::new();
    let mut parents: usize = 0;
    let mut children: usize = 0;
    let n = bindings.len();
    let mut k: usize = 0;
    while k < n
        invariant
            k <= n,
            n == bindings@.len(),
            bindings@ == view.4,
            nodes@ == view.3.nodes@,
            spec_recursion_scan(view, bounds, k as nat) == Ok::<_, VmAirCompositionInputError>(
                (rows@, parents as nat, children as nat),
            ),
        decreases n - k,
    {
        proof {
            lemma_recursion_scan_counts(view, bounds, k as nat);
        }
        let binding = bindings[k];
        if recursion_source_seen(bindings, k) {
            proof {
                lemma_recursion_scan_error_sticks(view, bounds, (k + 1) as nat, n as nat);
            }
            return Err(
                VmAirCompositionInputError::DuplicateRecursionInputSource {
                    circuit_id: lane.circuit_id,
                    source: binding.source,
                },
            );
        }
        let node_id = binding.node_id;
        if node_id >= M31_MODULUS {
            proof {
                lemma_recursion_scan_error_sticks(view, bounds, (k + 1) as nat, n as nat);
            }
            return Err(VmAirCompositionInputError::NodeIdNotCanonical { node_id });
        }
        let index = node_id as usize;
        if index >= nodes.len() {
            proof {
                lemma_recursion_scan_error_sticks(view, bounds, (k + 1) as nat, n as nat);
            }
            return Err(VmAirCompositionInputError::NodeMissing { node_id });
        }
        let node = nodes[index];
        if node.op != NodeOp::Input {
            proof {
                lemma_recursion_scan_error_sticks(view, bounds, (k + 1) as nat, n as nat);
            }
            return Err(VmAirCompositionInputError::BindingTargetsNonInput { node_id });
        }
        let (source_index_0, source_index_1) = match validate_recursion_source(binding.source, bounds) {
            Ok(indices) => indices,
            Err(error) => {
                proof {
                    lemma_recursion_scan_error_sticks(view, bounds, (k + 1) as nat, n as nat);
                }
                return Err(error);
            },
        };
        if node.use_count >= M31_MODULUS {
            proof {
                lemma_recursion_scan_error_sticks(view, bounds, (k + 1) as nat, n as nat);
            }
            return Err(
                VmAirCompositionInputError::UseCountNotCanonical { node_id, use_count: node.use_count },
            );
        }
        match binding.source {
            RecursionAirCompositionInputSource::ParentBinarySelector => {
                parents = parents + 1;
            },
            RecursionAirCompositionInputSource::ChildKindSelector { .. } => {
                children = children + 1;
            },
            _ => {},
        }
        rows.push(
            InputRow {
                source: Some(
                    CompositionInputSource::Recursion {
                        verifier_id: lane.verifier_id,
                        statement_scope: lane.statement_scope,
                        source: binding.source,
                    },
                ),
                anchor: AnchorKind::Unanchored,
                anchor_mode: CircuitAnchorMode::binary_only(),
                circuit_id: lane.circuit_id,
                node_id,
                use_count: node.use_count,
                source_index_0,
                source_index_1,
                fixed_value: [0u32, 0u32, 0u32, 0u32],
            },
        );
        k = k + 1;
    }
    if parents != 1 || children != 3 {
        return Err(VmAirCompositionInputError::RecursionSelectorCountMismatch { parent: parents, child: children });
    }
    Ok(rows)
}

/// Row `i` of a lane owns child binding `i` in the lane's scopes.
pub open spec fn row_owns_binding(
    row: InputRow,
    lane: RecursionLaneView,
    bounds: RecursionInputBounds,
    binding: RecursionAirCompositionInputBinding,
) -> bool {
    let (verifier_id, circuit_id, statement_scope, circuit, _) = lane;
    let nodes = circuit.nodes@;
    &&& row.source == Some(
        CompositionInputSource::Recursion { verifier_id, statement_scope, source: binding.source },
    )
    &&& row.circuit_id == circuit_id
    &&& row.anchor == AnchorKind::Unanchored
    &&& row.anchor_mode == CircuitAnchorMode::spec_binary()
    &&& row.node_id == binding.node_id
    &&& row.node_id < nodes.len()
    &&& nodes[row.node_id as int].op == NodeOp::Input
    &&& row.use_count == nodes[row.node_id as int].use_count
    &&& spec_recursion_source_indices(binding.source, bounds) == Ok::<_, VmAirCompositionInputError>(
        (row.source_index_0, row.source_index_1),
    )
}

proof fn lemma_recursion_scan_owns(lane: RecursionLaneView, bounds: RecursionInputBounds, n: nat)
    requires
        n <= lane.4.len(),
        spec_recursion_scan(lane, bounds, n) is Ok,
    ensures
        ({
            let rows = spec_recursion_scan(lane, bounds, n)->Ok_0.0;
            &&& rows.len() == n
            &&& forall|i: int| 0 <= i < n ==> row_owns_binding(#[trigger] rows[i], lane, bounds, lane.4[i])
            &&& forall|i: int, j: int| 0 <= i < j < n ==> (#[trigger] rows[i]).source != (#[trigger] rows[j]).source
        }),
    decreases n,
{
    if n > 0 {
        let m = (n - 1) as nat;
        lemma_recursion_scan_owns(lane, bounds, m);
        let before = spec_recursion_scan(lane, bounds, m)->Ok_0.0;
        let after = spec_recursion_scan(lane, bounds, n)->Ok_0.0;
        assert forall|i: int| 0 <= i < n implies row_owns_binding(#[trigger] after[i], lane, bounds, lane.4[i]) by {
            if i < m {
                assert(after[i] == before[i]);
            }
        }
        assert forall|i: int, j: int| 0 <= i < j < n implies (#[trigger] after[i]).source != (#[trigger] after[j]).source by {
            assert(after[i] == before[i]);
            if j < m {
                assert(after[j] == before[j]);
            } else {
                assert(!recursion_source_repeated(lane.4, m as int));
                assert(lane.4[i].source != lane.4[m as int].source);
            }
        }
    }
}

/// Every accepted recursion lane owns exactly its child circuit's inputs:
/// one binary-mode row per binding, in order, each on an input node of the
/// child circuit with that node's use count, under the lane's circuit id,
/// with its source in the lane's verifier and statement scopes and source
/// indices in range; no source is owned twice.
pub proof fn lemma_recursion_rows_own_inputs(lane: RecursionLaneView, bounds: RecursionInputBounds)
    requires
        spec_recursion_rows(lane, bounds) is Ok,
    ensures
        ({
            let rows = spec_recursion_rows(lane, bounds)->Ok_0;
            &&& rows.len() == lane.4.len()
            &&& forall|i: int| 0 <= i < rows.len() ==> row_owns_binding(#[trigger] rows[i], lane, bounds, lane.4[i])
            &&& forall|i: int, j: int|
                0 <= i < j < rows.len() ==> (#[trigger] rows[i]).source != (#[trigger] rows[j]).source
        }),
{
    lemma_recursion_scan_owns(lane, bounds, lane.4.len());
}

/// The input rows of the first `n` recursion lanes, in lane order, or the
/// first error met.
pub open spec fn spec_recursion_lane_rows(
    lanes: Seq<RecursionLaneView>,
    bounds: RecursionInputBounds,
    n: nat,
) -> Result<Seq<InputRow>, VmAirCompositionInputError>
    decreases n,
{
    if n == 0 {
        Ok(Seq::empty())
    } else {
        match spec_recursion_lane_rows(lanes, bounds, (n - 1) as nat) {
            Err(error) => Err(error),
            Ok(rows) => match spec_recursion_rows(lanes[n - 1], bounds) {
                Err(error) => Err(error),
                Ok(added) => Ok(rows + added),
            },
        }
    }
}

pub proof fn lemma_recursion_lane_rows_error_sticks(
    lanes: Seq<RecursionLaneView>,
    bounds: RecursionInputBounds,
    n: nat,
    m: nat,
)
    requires
        n <= m,
        spec_recursion_lane_rows(lanes, bounds, n) is Err,
    ensures
        spec_recursion_lane_rows(lanes, bounds, m) == spec_recursion_lane_rows(lanes, bounds, n),
    decreases m - n,
{
    if m > n {
        lemma_recursion_lane_rows_error_sticks(lanes, bounds, n, (m - 1) as nat);
    }
}

} // verus!
