//! Ownership of the universal composition circuit's inputs and anchors.
//!
//! Verifier preprocessing assigns every segment-mode input of the VM
//! composition circuit to the verifier value that supplies it: a sampled
//! value word, a claimed-sum word, a relation-challenge word, a randomness
//! word or the segment selector. In a binary parent, each recursion child's
//! composition circuit adds a lane of binary-mode inputs in the child's
//! verifier and statement scopes. The same table anchors each fixed circuit's
//! constants and zero outputs, so every source is consumed and every circuit
//! wire is emitted with its exact verifier-owned use count.
use crate::circuit::{
    CircuitNode, ConstraintCircuit, NodeOp, has_output, nonzero_output_count, output_value,
    spec_nonzero_output_count,
};
use crate::composition_profile::VmAirCompositionProfile;
use crate::domain::{MAX_LOG_SIZE, PaddedSizeError, padded_log_size, spec_padded_log_size};
use vstd::arithmetic::power2::pow2;
use crate::kernel::ProofKind;
use crate::m31::M31_MODULUS;
use crate::recursion_input::{
    RecursionCompositionInputLane, RecursionInputBounds, RecursionLaneView,
    lemma_recursion_lane_rows_error_sticks, recursion_input_rows, recursion_lane_view, recursion_lane_views,
    spec_recursion_lane_rows, spec_recursion_rows,
};
use crate::verifier_randomness::VerifierRandomnessKind;
use vstd::prelude::*;

verus! {

/// Words of one secure-field value.
pub const SECURE_VALUE_WORD_COUNT: u32 = 4;

/// Words of one relation challenge.
pub const RELATION_CHALLENGE_WORD_COUNT: u32 = 8;

/// Exact verifier relation that owns one input of a recursion child's
/// composition circuit.
#[derive(Clone, Copy, Debug, PartialEq, Eq, Structural)]
pub enum RecursionAirCompositionInputSource {
    ParentBinarySelector,
    ChildKindSelector { kind: ProofKind },
    StatementWord { word_index: u32 },
    SampledValueWord { item_index: u32, word_index: u32 },
    ClaimedSumWord { item_index: u32, word_index: u32 },
    RelationChallengeWord { challenge: u32, word_index: u32 },
    CompositionRandomnessWord { word_index: u32 },
    OodsPointWord { word_index: u32 },
}

/// Exact verifier relation that owns one composition-circuit input.
#[derive(Clone, Copy, Debug, PartialEq, Eq, Structural)]
pub enum VmAirCompositionInputSource {
    SampledValueWord { item_index: u32, word_index: u32 },
    ClaimedSumWord { item_index: u32, word_index: u32 },
    RelationChallengeWord { challenge: u32, word_index: u32 },
    CompositionRandomnessWord { word_index: u32 },
    OodsPointWord { word_index: u32 },
    SegmentSelector,
}

/// Circuit node and the exact verifier relation that supplies its value.
#[derive(Clone, Copy, Debug, PartialEq, Eq, Structural)]
pub struct VmAirCompositionInputBinding {
    pub node_id: u32,
    pub source: VmAirCompositionInputSource,
}

/// Which secure-valued proof item a coordinate indexes.
#[derive(Clone, Copy, Debug, PartialEq, Eq, Structural)]
pub enum VmAirCompositionInputKind {
    SampledValue,
    ClaimedSum,
}

/// Invalid composition input layout or coordinate.
#[derive(Clone, Copy, Debug, PartialEq, Eq, Structural)]
pub enum VmAirCompositionInputError {
    VerifierIdNotCanonical { verifier_id: u32 },
    StatementScopeNotCanonical { statement_scope: u32 },
    CircuitIdNotCanonical { circuit_id: u32 },
    DuplicateCircuitId { circuit_id: u32 },
    RowCountOverflow,
    LogSizeOutOfRange { log_size: u32 },
    NodeIdNotCanonical { node_id: u32 },
    NodeIndexOutOfRange { node_id: usize },
    NodeMissing { node_id: u32 },
    BindingTargetsNonInput { node_id: u32 },
    UseCountNotCanonical { node_id: u32, use_count: u32 },
    DuplicateInputSource { source: VmAirCompositionInputSource },
    DuplicateRecursionInputSource { circuit_id: u32, source: RecursionAirCompositionInputSource },
    SecureItemIndexOutOfRange { kind: VmAirCompositionInputKind, item_index: u32, item_count: u32 },
    SecureWordIndexOutOfRange { kind: VmAirCompositionInputKind, word_index: u32 },
    ChallengeIndexOutOfRange { challenge: u32 },
    ChallengeWordOutOfRange { word_index: u32 },
    RandomnessWordOutOfRange { kind: VerifierRandomnessKind, word_index: u32 },
    SelectorCountMismatch { actual: usize },
    RecursionSelectorCountMismatch { parent: usize, child: usize },
    StatementWordIndexOutOfRange { word_index: u32 },
    RecursionSecureWordIndexOutOfRange { word_index: u32 },
    RecursionLaneCountMismatch { expected: usize, actual: usize },
    InputCountMismatch { expected: usize, actual: usize },
    VmInputLaneMissing,
    InputLayoutMismatch,
    InputCoordinateMismatch { node_id: u32 },
    InputIsNotBaseField { node_id: u32 },
    InactiveInputIsNonZero { node_id: u32 },
}

/// Why a secure-value coordinate is out of range, if it is.
pub open spec fn secure_coordinate_error(
    kind: VmAirCompositionInputKind,
    item_index: u32,
    word_index: u32,
    item_count: u32,
) -> Option<VmAirCompositionInputError> {
    if item_index >= item_count {
        Some(VmAirCompositionInputError::SecureItemIndexOutOfRange { kind, item_index, item_count })
    } else if word_index >= SECURE_VALUE_WORD_COUNT {
        Some(VmAirCompositionInputError::SecureWordIndexOutOfRange { kind, word_index })
    } else {
        None
    }
}

/// Checks one coordinate of a secure-valued item.
pub fn validate_secure_coordinate(
    kind: VmAirCompositionInputKind,
    item_index: u32,
    word_index: u32,
    item_count: u32,
) -> (result: Result<(), VmAirCompositionInputError>)
    ensures
        match secure_coordinate_error(kind, item_index, word_index, item_count) {
            Some(error) => result == Err::<(), _>(error),
            None => result is Ok,
        },
{
    if item_index >= item_count {
        return Err(VmAirCompositionInputError::SecureItemIndexOutOfRange { kind, item_index, item_count });
    }
    if word_index >= SECURE_VALUE_WORD_COUNT {
        return Err(VmAirCompositionInputError::SecureWordIndexOutOfRange { kind, word_index });
    }
    Ok(())
}

/// Checks one word index of a secure-field randomness draw.
pub fn validate_randomness_word(kind: VerifierRandomnessKind, word_index: u32) -> (result: Result<
    (),
    VmAirCompositionInputError,
>)
    ensures
        result == if word_index >= SECURE_VALUE_WORD_COUNT {
            Err::<(), VmAirCompositionInputError>(
                VmAirCompositionInputError::RandomnessWordOutOfRange { kind, word_index },
            )
        } else {
            Ok(())
        },
{
    if word_index >= SECURE_VALUE_WORD_COUNT {
        return Err(VmAirCompositionInputError::RandomnessWordOutOfRange { kind, word_index });
    }
    Ok(())
}

/// The two source-index columns of an input, or why its source is out of
/// range for the profile.
pub open spec fn spec_source_indices(
    source: VmAirCompositionInputSource,
    profile: VmAirCompositionProfile,
) -> Result<(u32, u32), VmAirCompositionInputError> {
    match source {
        VmAirCompositionInputSource::SampledValueWord { item_index, word_index } => match secure_coordinate_error(
            VmAirCompositionInputKind::SampledValue,
            item_index,
            word_index,
            profile.spec_sampled_value_count(),
        ) {
            Some(error) => Err(error),
            None => Ok((item_index, word_index)),
        },
        VmAirCompositionInputSource::ClaimedSumWord { item_index, word_index } => match secure_coordinate_error(
            VmAirCompositionInputKind::ClaimedSum,
            item_index,
            word_index,
            profile.spec_claimed_sum_count(),
        ) {
            Some(error) => Err(error),
            None => Ok((item_index, word_index)),
        },
        VmAirCompositionInputSource::RelationChallengeWord { challenge, word_index } => if challenge
            >= profile.spec_relation_challenge_count() {
            Err(VmAirCompositionInputError::ChallengeIndexOutOfRange { challenge })
        } else if word_index >= RELATION_CHALLENGE_WORD_COUNT {
            Err(VmAirCompositionInputError::ChallengeWordOutOfRange { word_index })
        } else {
            Ok((challenge, word_index))
        },
        VmAirCompositionInputSource::CompositionRandomnessWord { word_index } => if word_index
            >= SECURE_VALUE_WORD_COUNT {
            Err(
                VmAirCompositionInputError::RandomnessWordOutOfRange {
                    kind: VerifierRandomnessKind::CompositionRandomness,
                    word_index,
                },
            )
        } else {
            Ok((0, word_index))
        },
        VmAirCompositionInputSource::OodsPointWord { word_index } => if word_index
            >= SECURE_VALUE_WORD_COUNT {
            Err(
                VmAirCompositionInputError::RandomnessWordOutOfRange {
                    kind: VerifierRandomnessKind::OodsPoint,
                    word_index,
                },
            )
        } else {
            Ok((0, word_index))
        },
        VmAirCompositionInputSource::SegmentSelector => Ok((0, 0)),
    }
}

/// Checks one input source against the profile and returns its two
/// source-index columns; counts segment selectors.
pub fn validate_source(
    source: VmAirCompositionInputSource,
    profile: &VmAirCompositionProfile,
    selector_count: &mut usize,
) -> (result: Result<(u32, u32), VmAirCompositionInputError>)
    ensures
        *old(selector_count) == usize::MAX && source is SegmentSelector ==> result == Err::<
            (u32, u32),
            _,
        >(VmAirCompositionInputError::RowCountOverflow),
        !(*old(selector_count) == usize::MAX && source is SegmentSelector) ==> result
            == spec_source_indices(source, *profile),
        *final(selector_count) == if source is SegmentSelector && result is Ok {
            *old(selector_count) + 1
        } else {
            *old(selector_count) as int
        },
{
    match source {
        VmAirCompositionInputSource::SampledValueWord { item_index, word_index } => {
            validate_secure_coordinate(
                VmAirCompositionInputKind::SampledValue,
                item_index,
                word_index,
                profile.sampled_value_count(),
            )?;
            Ok((item_index, word_index))
        },
        VmAirCompositionInputSource::ClaimedSumWord { item_index, word_index } => {
            validate_secure_coordinate(
                VmAirCompositionInputKind::ClaimedSum,
                item_index,
                word_index,
                profile.claimed_sum_count(),
            )?;
            Ok((item_index, word_index))
        },
        VmAirCompositionInputSource::RelationChallengeWord { challenge, word_index } => {
            if challenge >= profile.relation_challenge_count() {
                return Err(VmAirCompositionInputError::ChallengeIndexOutOfRange { challenge });
            }
            if word_index >= RELATION_CHALLENGE_WORD_COUNT {
                return Err(VmAirCompositionInputError::ChallengeWordOutOfRange { word_index });
            }
            Ok((challenge, word_index))
        },
        VmAirCompositionInputSource::CompositionRandomnessWord { word_index } => {
            validate_randomness_word(VerifierRandomnessKind::CompositionRandomness, word_index)?;
            Ok((0, word_index))
        },
        VmAirCompositionInputSource::OodsPointWord { word_index } => {
            validate_randomness_word(VerifierRandomnessKind::OodsPoint, word_index)?;
            Ok((0, word_index))
        },
        VmAirCompositionInputSource::SegmentSelector => {
            if *selector_count == usize::MAX {
                return Err(VmAirCompositionInputError::RowCountOverflow);
            }
            *selector_count = *selector_count + 1;
            Ok((0, 0))
        },
    }
}

/// Inputs the VM composition circuit has for a profile: four words per
/// sampled value and claimed sum, eight per relation challenge, four each
/// for composition randomness and the out-of-domain point, and the selector.
pub open spec fn spec_expected_input_count(profile: VmAirCompositionProfile) -> nat {
    SECURE_VALUE_WORD_COUNT as nat * profile.spec_sampled_value_count() as nat
        + SECURE_VALUE_WORD_COUNT as nat * profile.spec_claimed_sum_count() as nat
        + RELATION_CHALLENGE_WORD_COUNT as nat * profile.spec_relation_challenge_count() as nat + 2
        * SECURE_VALUE_WORD_COUNT as nat + 1
}

/// The input count of a profile, when it fits `usize`.
pub fn expected_input_count(profile: &VmAirCompositionProfile) -> (result: Result<
    usize,
    VmAirCompositionInputError,
>)
    ensures
        result == if spec_expected_input_count(*profile) > usize::MAX {
            Err::<usize, VmAirCompositionInputError>(VmAirCompositionInputError::RowCountOverflow)
        } else {
            Ok(spec_expected_input_count(*profile) as usize)
        },
{
    let overflow = VmAirCompositionInputError::RowCountOverflow;
    let sampled = match (profile.sampled_value_count() as usize).checked_mul(4) {
        Some(count) => count,
        None => return Err(overflow),
    };
    let claimed = match (profile.claimed_sum_count() as usize).checked_mul(4) {
        Some(count) => count,
        None => return Err(overflow),
    };
    let challenges = match (profile.relation_challenge_count() as usize).checked_mul(8) {
        Some(count) => count,
        None => return Err(overflow),
    };
    let total = match sampled.checked_add(claimed) {
        Some(count) => count,
        None => return Err(overflow),
    };
    let total = match total.checked_add(challenges) {
        Some(count) => count,
        None => return Err(overflow),
    };
    let total = match total.checked_add(8) {
        Some(count) => count,
        None => return Err(overflow),
    };
    match total.checked_add(1) {
        Some(count) => Ok(count),
        None => Err(overflow),
    }
}

/// A node index as a canonical node id, or why it is not one.
pub open spec fn spec_checked_node_id(node_id: usize) -> Result<u32, VmAirCompositionInputError> {
    if node_id > u32::MAX {
        Err(VmAirCompositionInputError::NodeIndexOutOfRange { node_id })
    } else if node_id >= M31_MODULUS {
        Err(VmAirCompositionInputError::NodeIdNotCanonical { node_id: node_id as u32 })
    } else {
        Ok(node_id as u32)
    }
}

/// Converts a node index to a canonical node id.
pub fn checked_node_id(node_id: usize) -> (result: Result<u32, VmAirCompositionInputError>)
    ensures
        result == spec_checked_node_id(node_id),
{
    if node_id > u32::MAX as usize {
        return Err(VmAirCompositionInputError::NodeIndexOutOfRange { node_id });
    }
    let value = node_id as u32;
    if value >= M31_MODULUS {
        return Err(VmAirCompositionInputError::NodeIdNotCanonical { node_id: value });
    }
    Ok(value)
}

/// Fixed composition circuit and all verifier-owned input coordinates.
#[derive(Clone, Debug)]
pub struct VmAirCompositionCircuit {
    profile: VmAirCompositionProfile,
    circuit: ConstraintCircuit,
    input_bindings: Vec<VmAirCompositionInputBinding>,
}

impl VmAirCompositionCircuit {
    pub closed spec fn spec_profile(&self) -> VmAirCompositionProfile {
        self.profile
    }

    pub closed spec fn spec_circuit(&self) -> ConstraintCircuit {
        self.circuit
    }

    pub closed spec fn spec_input_bindings(&self) -> Seq<VmAirCompositionInputBinding> {
        self.input_bindings@
    }

    /// A compiled circuit with the profile it was compiled for and the
    /// verifier relation of each of its inputs.
    pub fn new(
        profile: VmAirCompositionProfile,
        circuit: ConstraintCircuit,
        input_bindings: Vec<VmAirCompositionInputBinding>,
    ) -> (result: Self)
        ensures
            result.spec_profile() == profile,
            result.spec_circuit() == circuit,
            result.spec_input_bindings() == input_bindings@,
    {
        VmAirCompositionCircuit { profile, circuit, input_bindings }
    }

    pub fn profile(&self) -> (profile: &VmAirCompositionProfile)
        ensures
            *profile == self.spec_profile(),
    {
        &self.profile
    }

    pub fn circuit(&self) -> (circuit: &ConstraintCircuit)
        ensures
            *circuit == self.spec_circuit(),
    {
        &self.circuit
    }

    pub fn input_bindings(&self) -> (bindings: &[VmAirCompositionInputBinding])
        ensures
            bindings@ == self.spec_input_bindings(),
    {
        self.input_bindings.as_slice()
    }

    /// The value of the circuit's output: the composition equality it
    /// constrains, zero exactly when the AIR value matches the claimed value.
    pub fn constrained_equality(&self) -> (value: [u32; 4])
        requires
            has_output(self.spec_circuit()),
        ensures
            value == output_value(self.spec_circuit()),
    {
        self.circuit.nodes[self.circuit.outputs[0]].value
    }

    /// One when the circuit's constrained equality is not zero, else zero.
    pub fn nonzero_output_count(&self) -> (count: usize)
        requires
            has_output(self.spec_circuit()),
        ensures
            count == spec_nonzero_output_count(self.spec_circuit()),
    {
        nonzero_output_count(&self.circuit)
    }
}

/// Universal modes in which one fixed circuit anchor is active.
#[derive(Clone, Copy, Debug, PartialEq, Eq, Structural)]
pub struct CircuitAnchorMode {
    pub segment: bool,
    pub binary: bool,
    pub empty: bool,
}

impl CircuitAnchorMode {
    /// Active in every mode.
    pub open spec fn spec_all() -> Self {
        CircuitAnchorMode { segment: true, binary: true, empty: true }
    }

    /// Active in segment mode only.
    pub open spec fn spec_segment() -> Self {
        CircuitAnchorMode { segment: true, binary: false, empty: false }
    }

    /// Active in binary mode only.
    pub open spec fn spec_binary() -> Self {
        CircuitAnchorMode { segment: false, binary: true, empty: false }
    }

    pub fn all() -> (mode: Self)
        ensures
            mode == Self::spec_all(),
    {
        CircuitAnchorMode { segment: true, binary: true, empty: true }
    }

    pub fn segment_only() -> (mode: Self)
        ensures
            mode == Self::spec_segment(),
    {
        CircuitAnchorMode { segment: true, binary: false, empty: false }
    }

    pub fn binary_only() -> (mode: Self)
        ensures
            mode == Self::spec_binary(),
    {
        CircuitAnchorMode { segment: false, binary: true, empty: false }
    }
}

/// The verifier value that supplies one table input: a VM composition
/// input, or an input of a recursion child's composition circuit in the
/// child's verifier and statement scope.
#[derive(Clone, Copy, Debug, PartialEq, Eq, Structural)]
pub enum CompositionInputSource {
    Vm(VmAirCompositionInputSource),
    Recursion { verifier_id: u32, statement_scope: u32, source: RecursionAirCompositionInputSource },
}

/// Whether a row anchors a circuit constant or output, or neither.
#[derive(Clone, Copy, Debug, PartialEq, Eq, Structural)]
pub enum AnchorKind {
    Unanchored,
    Constant,
    Output,
}

/// One preprocessed row: an input with its source, or a circuit anchor.
#[derive(Clone, Copy, Debug)]
pub struct InputRow {
    pub source: Option<CompositionInputSource>,
    pub anchor: AnchorKind,
    pub anchor_mode: CircuitAnchorMode,
    pub circuit_id: u32,
    pub node_id: u32,
    pub use_count: u32,
    pub source_index_0: u32,
    pub source_index_1: u32,
    pub fixed_value: [u32; 4],
}

/// Whether binding `k` repeats the source of an earlier binding.
pub open spec fn source_repeated(bindings: Seq<VmAirCompositionInputBinding>, k: int) -> bool {
    exists|j: int| 0 <= j < k && bindings[j].source == bindings[k].source
}

/// The input rows of the first `n` bindings and how many of them are the
/// segment selector, or the first error met.
pub open spec fn spec_vm_input_scan(
    profile: VmAirCompositionProfile,
    nodes: Seq<CircuitNode>,
    bindings: Seq<VmAirCompositionInputBinding>,
    circuit_id: u32,
    n: nat,
) -> Result<(Seq<InputRow>, nat), VmAirCompositionInputError>
    decreases n,
{
    if n == 0 {
        Ok((Seq::empty(), 0))
    } else {
        match spec_vm_input_scan(profile, nodes, bindings, circuit_id, (n - 1) as nat) {
            Err(error) => Err(error),
            Ok((rows, selectors)) => {
                let k = n - 1;
                let binding = bindings[k];
                let node_id = binding.node_id;
                if source_repeated(bindings, k) {
                    Err(VmAirCompositionInputError::DuplicateInputSource { source: binding.source })
                } else if node_id >= M31_MODULUS {
                    Err(VmAirCompositionInputError::NodeIdNotCanonical { node_id })
                } else if node_id >= nodes.len() {
                    Err(VmAirCompositionInputError::NodeMissing { node_id })
                } else if nodes[node_id as int].op != NodeOp::Input {
                    Err(VmAirCompositionInputError::BindingTargetsNonInput { node_id })
                } else if nodes[node_id as int].use_count >= M31_MODULUS {
                    Err(
                        VmAirCompositionInputError::UseCountNotCanonical {
                            node_id,
                            use_count: nodes[node_id as int].use_count,
                        },
                    )
                } else {
                    match spec_source_indices(binding.source, profile) {
                        Err(error) => Err(error),
                        Ok((index_0, index_1)) => Ok(
                            (
                                rows.push(
                                    InputRow {
                                        source: Some(CompositionInputSource::Vm(binding.source)),
                                        anchor: AnchorKind::Unanchored,
                                        anchor_mode: CircuitAnchorMode::spec_segment(),
                                        circuit_id,
                                        node_id,
                                        use_count: nodes[node_id as int].use_count,
                                        source_index_0: index_0,
                                        source_index_1: index_1,
                                        fixed_value: [0u32, 0u32, 0u32, 0u32],
                                    },
                                ),
                                if binding.source is SegmentSelector {
                                    selectors + 1
                                } else {
                                    selectors
                                },
                            ),
                        ),
                    }
                }
            },
        }
    }
}

/// The segment-mode input rows of the VM circuit, or why its bindings do not
/// own exactly the circuit's expected inputs.
pub open spec fn spec_vm_input_rows(reference: VmAirCompositionCircuit, circuit_id: u32) -> Result<
    Seq<InputRow>,
    VmAirCompositionInputError,
> {
    let bindings = reference.spec_input_bindings();
    let profile = reference.spec_profile();
    if circuit_id >= M31_MODULUS {
        Err(VmAirCompositionInputError::CircuitIdNotCanonical { circuit_id })
    } else {
        match spec_vm_input_scan(
            profile,
            reference.spec_circuit().nodes@,
            bindings,
            circuit_id,
            bindings.len(),
        ) {
            Err(error) => Err(error),
            Ok((rows, selectors)) => if selectors != 1 {
                Err(VmAirCompositionInputError::SelectorCountMismatch { actual: selectors as usize })
            } else if spec_expected_input_count(profile) > usize::MAX {
                Err(VmAirCompositionInputError::RowCountOverflow)
            } else if rows.len() != spec_expected_input_count(profile) {
                Err(
                    VmAirCompositionInputError::InputCountMismatch {
                        expected: spec_expected_input_count(profile) as usize,
                        actual: rows.len() as usize,
                    },
                )
            } else {
                Ok(rows)
            },
        }
    }
}

proof fn lemma_vm_input_scan_error_sticks(
    profile: VmAirCompositionProfile,
    nodes: Seq<CircuitNode>,
    bindings: Seq<VmAirCompositionInputBinding>,
    circuit_id: u32,
    n: nat,
    m: nat,
)
    requires
        n <= m,
        spec_vm_input_scan(profile, nodes, bindings, circuit_id, n) is Err,
    ensures
        spec_vm_input_scan(profile, nodes, bindings, circuit_id, m) == spec_vm_input_scan(
            profile,
            nodes,
            bindings,
            circuit_id,
            n,
        ),
    decreases m - n,
{
    if m > n {
        lemma_vm_input_scan_error_sticks(profile, nodes, bindings, circuit_id, n, (m - 1) as nat);
    }
}

proof fn lemma_vm_input_scan_counts(
    profile: VmAirCompositionProfile,
    nodes: Seq<CircuitNode>,
    bindings: Seq<VmAirCompositionInputBinding>,
    circuit_id: u32,
    n: nat,
)
    requires
        spec_vm_input_scan(profile, nodes, bindings, circuit_id, n) is Ok,
    ensures
        spec_vm_input_scan(profile, nodes, bindings, circuit_id, n)->Ok_0.0.len() == n,
        spec_vm_input_scan(profile, nodes, bindings, circuit_id, n)->Ok_0.1 <= n,
    decreases n,
{
    if n > 0 {
        lemma_vm_input_scan_counts(profile, nodes, bindings, circuit_id, (n - 1) as nat);
    }
}

/// Whether an earlier binding has the same source as binding `k`.
fn source_seen(bindings: &[VmAirCompositionInputBinding], k: usize) -> (seen: bool)
    requires
        k < bindings@.len(),
    ensures
        seen == source_repeated(bindings@, k as int),
{
    let mut j: usize = 0;
    while j < k
        invariant
            j <= k < bindings@.len(),
            forall|i: int| 0 <= i < j ==> bindings@[i].source != bindings@[k as int].source,
        decreases k - j,
    {
        if bindings[j].source == bindings[k].source {
            return true;
        }
        j = j + 1;
    }
    false
}

/// The segment-mode input rows of the VM composition circuit.
#[verifier::loop_isolation(false)]
pub fn vm_input_rows(reference: &VmAirCompositionCircuit, circuit_id: u32) -> (result: Result<
    Vec<InputRow>,
    VmAirCompositionInputError,
>)
    ensures
        match spec_vm_input_rows(*reference, circuit_id) {
            Ok(rows) => result matches Ok(v) && v@ == rows,
            Err(error) => result == Err::<Vec<InputRow>, _>(error),
        },
{
    if circuit_id >= M31_MODULUS {
        return Err(VmAirCompositionInputError::CircuitIdNotCanonical { circuit_id });
    }
    let profile = reference.profile();
    let nodes = &reference.circuit().nodes;
    let bindings = reference.input_bindings();
    let ghost node_seq = reference.spec_circuit().nodes@;
    let mut rows: Vec<InputRow> = Vec::new();
    let mut selector_count: usize = 0;
    let n = bindings.len();
    let mut k: usize = 0;
    while k < n
        invariant
            k <= n,
            n == bindings@.len(),
            bindings@ == reference.spec_input_bindings(),
            *profile == reference.spec_profile(),
            nodes@ == node_seq,
            node_seq == reference.spec_circuit().nodes@,
            spec_vm_input_scan(*profile, node_seq, bindings@, circuit_id, k as nat) == Ok::<
                _,
                VmAirCompositionInputError,
            >((rows@, selector_count as nat)),
        decreases n - k,
    {
        proof {
            lemma_vm_input_scan_counts(*profile, node_seq, bindings@, circuit_id, k as nat);
        }
        let binding = bindings[k];
        if source_seen(bindings, k) {
            proof {
                lemma_vm_input_scan_error_sticks(*profile, node_seq, bindings@, circuit_id, (k + 1) as nat, n as nat);
            }
            return Err(VmAirCompositionInputError::DuplicateInputSource { source: binding.source });
        }
        let node_id = binding.node_id;
        if node_id >= M31_MODULUS {
            proof {
                lemma_vm_input_scan_error_sticks(*profile, node_seq, bindings@, circuit_id, (k + 1) as nat, n as nat);
            }
            return Err(VmAirCompositionInputError::NodeIdNotCanonical { node_id });
        }
        let index = node_id as usize;
        if index >= nodes.len() {
            proof {
                lemma_vm_input_scan_error_sticks(*profile, node_seq, bindings@, circuit_id, (k + 1) as nat, n as nat);
            }
            return Err(VmAirCompositionInputError::NodeMissing { node_id });
        }
        let node = nodes[index];
        if node.op != NodeOp::Input {
            proof {
                lemma_vm_input_scan_error_sticks(*profile, node_seq, bindings@, circuit_id, (k + 1) as nat, n as nat);
            }
            return Err(VmAirCompositionInputError::BindingTargetsNonInput { node_id });
        }
        if node.use_count >= M31_MODULUS {
            proof {
                lemma_vm_input_scan_error_sticks(*profile, node_seq, bindings@, circuit_id, (k + 1) as nat, n as nat);
            }
            return Err(
                VmAirCompositionInputError::UseCountNotCanonical { node_id, use_count: node.use_count },
            );
        }
        let (source_index_0, source_index_1) = match validate_source(
            binding.source,
            profile,
            &mut selector_count,
        ) {
            Ok(indices) => indices,
            Err(error) => {
                proof {
                    lemma_vm_input_scan_error_sticks(*profile, node_seq, bindings@, circuit_id, (k + 1) as nat, n as nat);
                }
                return Err(error);
            },
        };
        rows.push(
            InputRow {
                source: Some(CompositionInputSource::Vm(binding.source)),
                anchor: AnchorKind::Unanchored,
                anchor_mode: CircuitAnchorMode::segment_only(),
                circuit_id,
                node_id,
                use_count: node.use_count,
                source_index_0,
                source_index_1,
                fixed_value: [0u32, 0u32, 0u32, 0u32],
            },
        );
        k = k + 1;
    }
    if selector_count != 1 {
        return Err(VmAirCompositionInputError::SelectorCountMismatch { actual: selector_count });
    }
    let expected = expected_input_count(profile)?;
    if rows.len() != expected {
        return Err(VmAirCompositionInputError::InputCountMismatch { expected, actual: rows.len() });
    }
    Ok(rows)
}

/// One fixed circuit whose constants and zero outputs are closed inside the
/// universal AIR instead of supplied as verifier terms.
#[derive(Clone, Copy)]
pub struct CircuitAnchorLane<'a> {
    pub circuit_id: u32,
    pub circuit: &'a ConstraintCircuit,
    pub active_in: CircuitAnchorMode,
}

/// The anchor row of one node.
pub open spec fn anchor_row(
    circuit_id: u32,
    mode: CircuitAnchorMode,
    kind: AnchorKind,
    node_id: u32,
    use_count: u32,
    fixed_value: [u32; 4],
) -> InputRow {
    InputRow {
        source: None,
        anchor: kind,
        anchor_mode: mode,
        circuit_id,
        node_id,
        use_count,
        source_index_0: 0,
        source_index_1: 0,
        fixed_value,
    }
}

/// The constant rows of the first `n` nodes of a circuit.
pub open spec fn spec_constant_rows(
    nodes: Seq<CircuitNode>,
    circuit_id: u32,
    mode: CircuitAnchorMode,
    n: nat,
) -> Result<Seq<InputRow>, VmAirCompositionInputError>
    decreases n,
{
    if n == 0 {
        Ok(Seq::empty())
    } else {
        match spec_constant_rows(nodes, circuit_id, mode, (n - 1) as nat) {
            Err(error) => Err(error),
            Ok(rows) => match spec_checked_node_id((n - 1) as usize) {
                Err(error) => Err(error),
                Ok(node_id) => {
                    let node = nodes[n - 1];
                    if node.op == NodeOp::Const {
                        Ok(
                            rows.push(
                                anchor_row(
                                    circuit_id,
                                    mode,
                                    AnchorKind::Constant,
                                    node_id,
                                    node.use_count,
                                    node.value,
                                ),
                            ),
                        )
                    } else {
                        Ok(rows)
                    }
                },
            },
        }
    }
}

/// The output rows of the first `n` outputs of a circuit.
pub open spec fn spec_output_rows(
    outputs: Seq<usize>,
    circuit_id: u32,
    mode: CircuitAnchorMode,
    n: nat,
) -> Result<Seq<InputRow>, VmAirCompositionInputError>
    decreases n,
{
    if n == 0 {
        Ok(Seq::empty())
    } else {
        match spec_output_rows(outputs, circuit_id, mode, (n - 1) as nat) {
            Err(error) => Err(error),
            Ok(rows) => match spec_checked_node_id(outputs[n - 1]) {
                Err(error) => Err(error),
                Ok(node_id) => Ok(
                    rows.push(
                        anchor_row(
                            circuit_id,
                            mode,
                            AnchorKind::Output,
                            node_id,
                            0,
                            [0u32, 0u32, 0u32, 0u32],
                        ),
                    ),
                ),
            },
        }
    }
}

/// The anchor rows of one circuit, or why it cannot be anchored next to the
/// circuits already anchored.
pub open spec fn spec_anchor_rows(
    circuit_id: u32,
    circuit: ConstraintCircuit,
    mode: CircuitAnchorMode,
    anchored: Seq<u32>,
) -> Result<Seq<InputRow>, VmAirCompositionInputError> {
    if circuit_id >= M31_MODULUS {
        Err(VmAirCompositionInputError::CircuitIdNotCanonical { circuit_id })
    } else if anchored.contains(circuit_id) {
        Err(VmAirCompositionInputError::DuplicateCircuitId { circuit_id })
    } else {
        match spec_constant_rows(circuit.nodes@, circuit_id, mode, circuit.nodes@.len()) {
            Err(error) => Err(error),
            Ok(constants) => match spec_output_rows(
                circuit.outputs@,
                circuit_id,
                mode,
                circuit.outputs@.len(),
            ) {
                Err(error) => Err(error),
                Ok(outputs) => Ok(constants + outputs),
            },
        }
    }
}

proof fn lemma_constant_rows_error_sticks(
    nodes: Seq<CircuitNode>,
    circuit_id: u32,
    mode: CircuitAnchorMode,
    n: nat,
    m: nat,
)
    requires
        n <= m,
        spec_constant_rows(nodes, circuit_id, mode, n) is Err,
    ensures
        spec_constant_rows(nodes, circuit_id, mode, m) == spec_constant_rows(nodes, circuit_id, mode, n),
    decreases m - n,
{
    if m > n {
        lemma_constant_rows_error_sticks(nodes, circuit_id, mode, n, (m - 1) as nat);
    }
}

proof fn lemma_output_rows_error_sticks(
    outputs: Seq<usize>,
    circuit_id: u32,
    mode: CircuitAnchorMode,
    n: nat,
    m: nat,
)
    requires
        n <= m,
        spec_output_rows(outputs, circuit_id, mode, n) is Err,
    ensures
        spec_output_rows(outputs, circuit_id, mode, m) == spec_output_rows(outputs, circuit_id, mode, n),
    decreases m - n,
{
    if m > n {
        lemma_output_rows_error_sticks(outputs, circuit_id, mode, n, (m - 1) as nat);
    }
}

/// Appends the anchor rows of one circuit and records its id.
#[verifier::loop_isolation(false)]
pub fn append_anchor_rows(
    rows: &mut Vec<InputRow>,
    anchor: CircuitAnchorLane,
    circuit_ids: &mut Vec<u32>,
) -> (result: Result<(), VmAirCompositionInputError>)
    ensures
        match spec_anchor_rows(anchor.circuit_id, *anchor.circuit, anchor.active_in, old(circuit_ids)@) {
            Ok(added) => result is Ok && final(rows)@ == old(rows)@ + added && final(circuit_ids)@
                == old(circuit_ids)@.push(anchor.circuit_id),
            Err(error) => result == Err::<(), _>(error),
        },
{
    let circuit_id = anchor.circuit_id;
    if circuit_id >= M31_MODULUS {
        return Err(VmAirCompositionInputError::CircuitIdNotCanonical { circuit_id });
    }
    let mut i: usize = 0;
    while i < circuit_ids.len()
        invariant
            i <= circuit_ids@.len(),
            circuit_ids@ == old(circuit_ids)@,
            rows@ == old(rows)@,
            forall|j: int| 0 <= j < i ==> circuit_ids@[j] != circuit_id,
        decreases circuit_ids@.len() - i,
    {
        if circuit_ids[i] == circuit_id {
            proof {
                assert(circuit_ids@[i as int] == circuit_id);
            }
            return Err(VmAirCompositionInputError::DuplicateCircuitId { circuit_id });
        }
        i = i + 1;
    }
    proof {
        assert(!circuit_ids@.contains(circuit_id));
    }
    circuit_ids.push(circuit_id);
    let ghost start = rows@;
    let nodes = &anchor.circuit.nodes;
    let mode = anchor.active_in;
    let mut k: usize = 0;
    while k < nodes.len()
        invariant
            k <= nodes@.len(),
            spec_constant_rows(nodes@, circuit_id, mode, k as nat) matches Ok(added) && rows@ == start
                + added,
        decreases nodes@.len() - k,
    {
        let node_id = match checked_node_id(k) {
            Ok(node_id) => node_id,
            Err(error) => {
                proof {
                    lemma_constant_rows_error_sticks(nodes@, circuit_id, mode, (k + 1) as nat, nodes@.len());
                }
                return Err(error);
            },
        };
        let node = nodes[k];
        if node.op == NodeOp::Const {
            rows.push(
                InputRow {
                    source: None,
                    anchor: AnchorKind::Constant,
                    anchor_mode: mode,
                    circuit_id,
                    node_id,
                    use_count: node.use_count,
                    source_index_0: 0,
                    source_index_1: 0,
                    fixed_value: node.value,
                },
            );
        }
        proof {
            assert(rows@ =~= start + spec_constant_rows(nodes@, circuit_id, mode, (k + 1) as nat)->Ok_0);
        }
        k = k + 1;
    }
    let ghost middle = rows@;
    let outputs = &anchor.circuit.outputs;
    let mut o: usize = 0;
    while o < outputs.len()
        invariant
            o <= outputs@.len(),
            spec_output_rows(outputs@, circuit_id, mode, o as nat) matches Ok(added) && rows@ == middle
                + added,
        decreases outputs@.len() - o,
    {
        let node_id = match checked_node_id(outputs[o]) {
            Ok(node_id) => node_id,
            Err(error) => {
                proof {
                    lemma_output_rows_error_sticks(outputs@, circuit_id, mode, (o + 1) as nat, outputs@.len());
                }
                return Err(error);
            },
        };
        rows.push(
            InputRow {
                source: None,
                anchor: AnchorKind::Output,
                anchor_mode: mode,
                circuit_id,
                node_id,
                use_count: 0,
                source_index_0: 0,
                source_index_1: 0,
                fixed_value: [0u32, 0u32, 0u32, 0u32],
            },
        );
        proof {
            assert(rows@ =~= middle + spec_output_rows(outputs@, circuit_id, mode, (o + 1) as nat)->Ok_0);
        }
        o = o + 1;
    }
    proof {
        assert(rows@ =~= start + (spec_constant_rows(nodes@, circuit_id, mode, nodes@.len())->Ok_0
            + spec_output_rows(outputs@, circuit_id, mode, outputs@.len())->Ok_0));
    }
    Ok(())
}

/// An anchor lane as plain values: circuit id, circuit and active modes.
pub type AnchorLaneView = (u32, ConstraintCircuit, CircuitAnchorMode);

/// The plain values of a sequence of anchor lanes.
pub open spec fn lane_views(lanes: Seq<CircuitAnchorLane>) -> Seq<AnchorLaneView> {
    lanes.map_values(|lane: CircuitAnchorLane| (lane.circuit_id, *lane.circuit, lane.active_in))
}

/// The anchor rows of the first `n` lanes and their circuit ids, or the
/// first error met.
pub open spec fn spec_anchor_scan(lanes: Seq<AnchorLaneView>, n: nat) -> Result<
    (Seq<InputRow>, Seq<u32>),
    VmAirCompositionInputError,
>
    decreases n,
{
    if n == 0 {
        Ok((Seq::empty(), Seq::empty()))
    } else {
        match spec_anchor_scan(lanes, (n - 1) as nat) {
            Err(error) => Err(error),
            Ok((rows, ids)) => {
                let (circuit_id, circuit, mode) = lanes[n - 1];
                match spec_anchor_rows(circuit_id, circuit, mode, ids) {
                    Err(error) => Err(error),
                    Ok(added) => Ok((rows + added, ids.push(circuit_id))),
                }
            },
        }
    }
}

proof fn lemma_anchor_scan_error_sticks(lanes: Seq<AnchorLaneView>, n: nat, m: nat)
    requires
        n <= m,
        spec_anchor_scan(lanes, n) is Err,
    ensures
        spec_anchor_scan(lanes, m) == spec_anchor_scan(lanes, n),
    decreases m - n,
{
    if m > n {
        lemma_anchor_scan_error_sticks(lanes, n, (m - 1) as nat);
    }
}

/// All rows of the input table, the number of input rows and the number of
/// VM input rows: the VM inputs, then each recursion lane's inputs, then
/// the VM circuit's own anchors in segment mode, then each further
/// circuit's anchors.
pub open spec fn spec_input_table(
    reference: VmAirCompositionCircuit,
    circuit_id: u32,
    recursion: Seq<RecursionLaneView>,
    bounds: RecursionInputBounds,
    anchors: Seq<AnchorLaneView>,
) -> Result<(Seq<InputRow>, nat, nat), VmAirCompositionInputError> {
    match spec_vm_input_rows(reference, circuit_id) {
        Err(error) => Err(error),
        Ok(vm_inputs) => match spec_recursion_lane_rows(recursion, bounds, recursion.len()) {
            Err(error) => Err(error),
            Ok(child_inputs) => {
                let lanes = seq![(circuit_id, reference.spec_circuit(), CircuitAnchorMode::spec_segment())]
                    + anchors;
                match spec_anchor_scan(lanes, lanes.len()) {
                    Err(error) => Err(error),
                    Ok((anchored, _)) => Ok(
                        (
                            vm_inputs + child_inputs + anchored,
                            vm_inputs.len() + child_inputs.len(),
                            vm_inputs.len(),
                        ),
                    ),
                }
            },
        },
    }
}

/// The bounds that a table without recursion lanes never reads.
pub open spec fn no_recursion_bounds() -> RecursionInputBounds {
    RecursionInputBounds { statement_word_count: 0, relation_count: 0 }
}

/// Verifier-owned input and anchor layout of the fixed composition circuits.
#[derive(Debug)]
pub struct VmAirCompositionInputPreprocessed {
    log_size: u32,
    rows: Vec<InputRow>,
    input_count: usize,
    vm_input_count: usize,
}

/// Rows of the largest trace domain.
pub const MAX_TABLE_ROWS: usize = 0x4000_0000;

impl VmAirCompositionInputPreprocessed {
    /// The input rows head the table, and the table fits the largest domain.
    #[verifier::type_invariant]
    closed spec fn counts_fit(self) -> bool {
        &&& self.vm_input_count <= self.input_count
        &&& self.input_count <= self.rows@.len()
        &&& self.rows@.len() <= MAX_TABLE_ROWS
        &&& self.log_size <= MAX_LOG_SIZE
        &&& self.rows@.len() <= pow2(self.log_size as nat)
    }

    pub closed spec fn spec_log_size(&self) -> u32 {
        self.log_size
    }

    pub closed spec fn spec_rows(&self) -> Seq<InputRow> {
        self.rows@
    }

    pub closed spec fn spec_input_count(&self) -> usize {
        self.input_count
    }

    pub closed spec fn spec_vm_input_count(&self) -> usize {
        self.vm_input_count
    }

    /// Owns the VM composition inputs and anchors the VM circuit itself.
    pub fn new(reference: &VmAirCompositionCircuit, circuit_id: u32) -> (result: Result<
        Self,
        VmAirCompositionInputError,
    >)
        ensures
            spec_input_table_result(result, *reference, circuit_id, Seq::empty(), no_recursion_bounds(), Seq::empty()),
    {
        let no_anchors: Vec<CircuitAnchorLane> = Vec::new();
        proof {
            assert(lane_views(no_anchors@) =~= Seq::<AnchorLaneView>::empty());
        }
        Self::new_with_anchors(reference, circuit_id, no_anchors.as_slice())
    }

    /// Owns the VM composition inputs plus every fixed circuit anchor in one
    /// table. The VM circuit is always anchored in segment mode; callers
    /// provide the remaining circuits.
    pub fn new_with_anchors(
        reference: &VmAirCompositionCircuit,
        circuit_id: u32,
        additional_anchors: &[CircuitAnchorLane],
    ) -> (result: Result<Self, VmAirCompositionInputError>)
        ensures
            spec_input_table_result(
                result,
                *reference,
                circuit_id,
                Seq::empty(),
                no_recursion_bounds(),
                lane_views(additional_anchors@),
            ),
    {
        let no_lanes: Vec<RecursionCompositionInputLane> = Vec::new();
        proof {
            assert(recursion_lane_views(no_lanes@) =~= Seq::<RecursionLaneView>::empty());
        }
        Self::new_with_anchors_and_recursion_inputs(
            reference,
            circuit_id,
            no_lanes.as_slice(),
            RecursionInputBounds { statement_word_count: 0, relation_count: 0 },
            additional_anchors,
        )
    }

    /// Adds the recursion children's input lanes to the same table that owns
    /// the VM composition inputs and every circuit anchor. Child sources are
    /// checked against the protocol's statement width and relation count.
    #[verifier::loop_isolation(false)]
    pub fn new_with_anchors_and_recursion_inputs(
        reference: &VmAirCompositionCircuit,
        circuit_id: u32,
        recursion_lanes: &[RecursionCompositionInputLane],
        bounds: RecursionInputBounds,
        additional_anchors: &[CircuitAnchorLane],
    ) -> (result: Result<Self, VmAirCompositionInputError>)
        ensures
            spec_input_table_result(
                result,
                *reference,
                circuit_id,
                recursion_lane_views(recursion_lanes@),
                bounds,
                lane_views(additional_anchors@),
            ),
    {
        let mut rows = vm_input_rows(reference, circuit_id)?;
        let vm_input_count = rows.len();
        let ghost vm_inputs = rows@;
        let ghost views = recursion_lane_views(recursion_lanes@);
        let mut r: usize = 0;
        while r < recursion_lanes.len()
            invariant
                r <= recursion_lanes@.len(),
                views == recursion_lane_views(recursion_lanes@),
                vm_input_count == vm_inputs.len(),
                spec_recursion_lane_rows(views, bounds, r as nat) matches Ok(child_inputs) && rows@ == vm_inputs
                    + child_inputs,
            decreases recursion_lanes@.len() - r,
        {
            let lane = recursion_lanes[r];
            assert(views[r as int] == recursion_lane_view(lane));
            let mut added = match recursion_input_rows(lane, bounds) {
                Ok(added) => added,
                Err(error) => {
                    proof {
                        lemma_recursion_lane_rows_error_sticks(views, bounds, (r + 1) as nat, views.len());
                    }
                    return Err(error);
                },
            };
            let ghost before = rows@;
            rows.append(&mut added);
            proof {
                let child_before = spec_recursion_lane_rows(views, bounds, r as nat)->Ok_0;
                assert(rows@ =~= vm_inputs + (child_before + spec_recursion_rows(views[r as int], bounds)->Ok_0));
            }
            r = r + 1;
        }
        let input_count = rows.len();
        let ghost inputs = rows@;
        let primary = CircuitAnchorLane {
            circuit_id,
            circuit: reference.circuit(),
            active_in: CircuitAnchorMode::segment_only(),
        };
        let ghost lanes = seq![(circuit_id, reference.spec_circuit(), CircuitAnchorMode::spec_segment())]
            + lane_views(additional_anchors@);
        let mut circuit_ids: Vec<u32> = Vec::new();
        match append_anchor_rows(&mut rows, primary, &mut circuit_ids) {
            Ok(()) => {},
            Err(error) => {
                proof {
                    assert(spec_anchor_scan(lanes, 1) is Err);
                    lemma_anchor_scan_error_sticks(lanes, 1, lanes.len());
                }
                return Err(error);
            },
        }
        proof {
            let added = spec_anchor_rows(
                circuit_id,
                reference.spec_circuit(),
                CircuitAnchorMode::spec_segment(),
                Seq::empty(),
            )->Ok_0;
            assert(rows@.subrange(inputs.len() as int, rows@.len() as int) =~= added);
            assert(Seq::<InputRow>::empty() + added =~= added);
            assert(Seq::<u32>::empty().push(circuit_id) =~= circuit_ids@);
            assert(spec_anchor_scan(lanes, 0) == Ok::<_, VmAirCompositionInputError>(
                (Seq::<InputRow>::empty(), Seq::<u32>::empty()),
            ));
            assert(lanes[0] == (circuit_id, reference.spec_circuit(), CircuitAnchorMode::spec_segment()));
            assert(spec_anchor_scan(lanes, 1) == Ok::<_, VmAirCompositionInputError>(
                (rows@.subrange(inputs.len() as int, rows@.len() as int), circuit_ids@),
            ));
        }
        let mut a: usize = 0;
        while a < additional_anchors.len()
            invariant
                a <= additional_anchors@.len(),
                lanes.len() == additional_anchors@.len() + 1,
                lanes == seq![(circuit_id, reference.spec_circuit(), CircuitAnchorMode::spec_segment())]
                    + lane_views(additional_anchors@),
                rows@.len() >= inputs.len(),
                rows@.subrange(0, inputs.len() as int) == inputs,
                spec_anchor_scan(lanes, (a + 1) as nat) == Ok::<_, VmAirCompositionInputError>(
                    (rows@.subrange(inputs.len() as int, rows@.len() as int), circuit_ids@),
                ),
            decreases additional_anchors@.len() - a,
        {
            let ghost before = rows@;
            let ghost ids_before = circuit_ids@;
            let lane = additional_anchors[a];
            assert(lane_views(additional_anchors@)[a as int] == (lane.circuit_id, *lane.circuit, lane.active_in));
            assert(lanes[a + 1] == (lane.circuit_id, *lane.circuit, lane.active_in));
            match append_anchor_rows(&mut rows, lane, &mut circuit_ids) {
                Ok(()) => {},
                Err(error) => {
                    proof {
                        lemma_anchor_scan_error_sticks(lanes, (a + 2) as nat, lanes.len());
                    }
                    return Err(error);
                },
            }
            proof {
                let added = spec_anchor_rows(
                    lane.circuit_id,
                    *lane.circuit,
                    lane.active_in,
                    ids_before,
                )->Ok_0;
                assert(rows@.subrange(0, inputs.len() as int) =~= before.subrange(0, inputs.len() as int));
                assert(rows@.subrange(inputs.len() as int, rows@.len() as int) =~= before.subrange(
                    inputs.len() as int,
                    before.len() as int,
                ) + added);
            }
            a = a + 1;
        }
        proof {
            assert(rows@ =~= inputs + rows@.subrange(inputs.len() as int, rows@.len() as int));
        }
        let log_size = match padded_log_size(rows.len(), MAX_LOG_SIZE) {
            Ok(log_size) => log_size,
            Err(PaddedSizeError::RowCountOverflow) => {
                return Err(VmAirCompositionInputError::RowCountOverflow);
            },
            Err(PaddedSizeError::LogSizeOutOfRange { log_size }) => {
                return Err(VmAirCompositionInputError::LogSizeOutOfRange { log_size });
            },
        };
        proof {
            vstd::arithmetic::power2::lemma2_to64();
            if log_size < 30 {
                vstd::arithmetic::power2::lemma_pow2_strictly_increases(log_size as nat, 30);
            }
        }
        Ok(VmAirCompositionInputPreprocessed { log_size, rows, input_count, vm_input_count })
    }

    /// The log size of the table's domain, which holds every row.
    pub fn log_size(&self) -> (log_size: u32)
        ensures
            log_size == self.spec_log_size(),
            log_size <= MAX_LOG_SIZE,
            self.spec_rows().len() <= pow2(log_size as nat),
    {
        proof {
            use_type_invariant(self);
        }
        self.log_size
    }

    /// The number of input rows, which head the table; the whole table fits
    /// the largest trace domain.
    pub fn input_count(&self) -> (count: usize)
        ensures
            count == self.spec_input_count(),
            count <= self.spec_rows().len() <= MAX_TABLE_ROWS,
    {
        proof {
            use_type_invariant(self);
        }
        self.input_count
    }

    /// The number of rows owned by the VM circuit's inputs.
    pub fn vm_input_count(&self) -> (count: usize)
        ensures
            count == self.spec_vm_input_count(),
            count <= self.spec_input_count(),
    {
        proof {
            use_type_invariant(self);
        }
        self.vm_input_count
    }

    /// The table's rows: inputs first, then anchors.
    pub fn rows(&self) -> (rows: &[InputRow])
        ensures
            rows@ == self.spec_rows(),
    {
        self.rows.as_slice()
    }
}

/// What building the input table returns for given circuits.
pub open spec fn spec_input_table_result(
    result: Result<VmAirCompositionInputPreprocessed, VmAirCompositionInputError>,
    reference: VmAirCompositionCircuit,
    circuit_id: u32,
    recursion: Seq<RecursionLaneView>,
    bounds: RecursionInputBounds,
    anchors: Seq<AnchorLaneView>,
) -> bool {
    match spec_input_table(reference, circuit_id, recursion, bounds, anchors) {
        Err(error) => result == Err::<VmAirCompositionInputPreprocessed, _>(error),
        Ok((rows, input_count, vm_input_count)) => match spec_padded_log_size(rows.len(), MAX_LOG_SIZE) {
            Ok(log_size) => result matches Ok(pre) && {
                &&& pre.spec_rows() == rows
                &&& pre.spec_log_size() == log_size
                &&& pre.spec_input_count() == input_count
                &&& pre.spec_vm_input_count() == vm_input_count
            },
            Err(PaddedSizeError::RowCountOverflow) => result == Err::<
                VmAirCompositionInputPreprocessed,
                _,
            >(VmAirCompositionInputError::RowCountOverflow),
            Err(PaddedSizeError::LogSizeOutOfRange { log_size }) => result == Err::<
                VmAirCompositionInputPreprocessed,
                _,
            >(VmAirCompositionInputError::LogSizeOutOfRange { log_size }),
        },
    }
}

/// The input rows own the circuit's inputs: row `i` is binding `i`, on an
/// input node, carrying that node's use count, with an in-range source.
pub open spec fn rows_own_inputs(
    rows: Seq<InputRow>,
    profile: VmAirCompositionProfile,
    nodes: Seq<CircuitNode>,
    bindings: Seq<VmAirCompositionInputBinding>,
) -> bool {
    &&& forall|i: int|
        0 <= i < rows.len() ==> {
            let row = #[trigger] rows[i];
            &&& row.source == Some(CompositionInputSource::Vm(bindings[i].source))
            &&& row.node_id == bindings[i].node_id
            &&& row.node_id < nodes.len()
            &&& nodes[row.node_id as int].op == NodeOp::Input
            &&& row.use_count == nodes[row.node_id as int].use_count
            &&& spec_source_indices(bindings[i].source, profile) == Ok::<_, VmAirCompositionInputError>(
                (row.source_index_0, row.source_index_1),
            )
        }
    &&& forall|i: int, j: int| 0 <= i < j < rows.len() ==> rows[i].source != rows[j].source
}

proof fn lemma_vm_input_scan_owns(
    profile: VmAirCompositionProfile,
    nodes: Seq<CircuitNode>,
    bindings: Seq<VmAirCompositionInputBinding>,
    circuit_id: u32,
    n: nat,
)
    requires
        n <= bindings.len(),
        spec_vm_input_scan(profile, nodes, bindings, circuit_id, n) is Ok,
    ensures
        rows_own_inputs(
            spec_vm_input_scan(profile, nodes, bindings, circuit_id, n)->Ok_0.0,
            profile,
            nodes,
            bindings,
        ),
    decreases n,
{
    if n > 0 {
        let m = (n - 1) as nat;
        lemma_vm_input_scan_owns(profile, nodes, bindings, circuit_id, m);
        lemma_vm_input_scan_counts(profile, nodes, bindings, circuit_id, m);
        let before = spec_vm_input_scan(profile, nodes, bindings, circuit_id, m)->Ok_0.0;
        let after = spec_vm_input_scan(profile, nodes, bindings, circuit_id, n)->Ok_0.0;
        assert forall|i: int, j: int| 0 <= i < j < after.len() implies after[i].source != after[j].source by {
            if j < m {
                assert(after[i] == before[i]);
                assert(after[j] == before[j]);
            } else {
                assert(after[i] == before[i]);
                assert(!source_repeated(bindings, m as int));
                assert(before[i].source == Some(CompositionInputSource::Vm(bindings[i].source)));
            }
        }
        assert forall|i: int| 0 <= i < after.len() implies {
            let row = #[trigger] after[i];
            &&& row.source == Some(CompositionInputSource::Vm(bindings[i].source))
            &&& row.node_id == bindings[i].node_id
            &&& row.node_id < nodes.len()
            &&& nodes[row.node_id as int].op == NodeOp::Input
            &&& row.use_count == nodes[row.node_id as int].use_count
            &&& spec_source_indices(bindings[i].source, profile) == Ok::<_, VmAirCompositionInputError>(
                (row.source_index_0, row.source_index_1),
            )
        } by {
            if i < m {
                assert(after[i] == before[i]);
            }
        }
    }
}

/// Every accepted VM input table owns exactly the circuit's inputs: one row
/// per binding, in order, each on an input node with that node's use count
/// and a source in range for the profile; no source is owned twice; and the
/// row count is the profile's expected input count.
pub proof fn lemma_vm_input_rows_own_inputs(reference: VmAirCompositionCircuit, circuit_id: u32)
    requires
        spec_vm_input_rows(reference, circuit_id) is Ok,
    ensures
        ({
            let rows = spec_vm_input_rows(reference, circuit_id)->Ok_0;
            &&& rows_own_inputs(
                rows,
                reference.spec_profile(),
                reference.spec_circuit().nodes@,
                reference.spec_input_bindings(),
            )
            &&& rows.len() == reference.spec_input_bindings().len()
            &&& rows.len() == spec_expected_input_count(reference.spec_profile())
        }),
{
    let bindings = reference.spec_input_bindings();
    lemma_vm_input_scan_owns(
        reference.spec_profile(),
        reference.spec_circuit().nodes@,
        bindings,
        circuit_id,
        bindings.len(),
    );
    lemma_vm_input_scan_counts(
        reference.spec_profile(),
        reference.spec_circuit().nodes@,
        bindings,
        circuit_id,
        bindings.len(),
    );
}

} // verus!
