//! Ownership of the VM public-LogUp circuit's inputs.
//!
//! Verifier preprocessing assigns every circuit input to one transcript-bound
//! claim word, range-checked claim byte, relation-challenge word, claimed-sum
//! limb, or the public segment selector. Each source is consumed once and
//! each circuit wire is emitted with its exact static use count. Input values
//! are materialized only when the witness circuit has the reference layout,
//! every input is a base-field value, and inactive modes carry zeros.
use crate::circuit::{
    CircuitNode, ConstraintCircuit, NodeOp, has_output, nonzero_output_count,
    spec_nonzero_output_count,
};
use crate::domain::{MAX_LOG_SIZE, PaddedSizeError, domain_size, padded_log_size, spec_padded_log_size};
use vstd::arithmetic::power2::pow2;
use crate::kernel::ProofKind;
use crate::m31::M31_MODULUS;
use crate::public_claim::{
    VmPublicClaimShape, VmPublicClaimWordKind, WordKindView, canonical_vm_public_claim_word_kinds,
    claim_word_kinds, kind_views,
};
use vstd::prelude::*;

verus! {

/// Limbs of one secure-field value.
pub const QM31_LIMBS: u32 = 4;

/// Words of one relation challenge.
pub const CHALLENGE_WORDS: u32 = 8;

/// Exact verifier value that owns one public-LogUp circuit input.
#[derive(Clone, Copy, Debug, PartialEq, Eq, Structural)]
pub enum VmPublicLogupInputSource {
    ClaimWord { index: u32 },
    ClaimByte { word_index: u32, byte_index: u32 },
    RelationChallengeWord { challenge: u32, word_index: u32 },
    ClaimedSumWord { item_index: u32, limb_index: u32 },
    SegmentSelector,
}

/// Circuit node and the verifier value that supplies it.
#[derive(Clone, Copy, Debug, PartialEq, Eq, Structural)]
pub struct VmPublicLogupInputBinding {
    pub node_id: u32,
    pub source: VmPublicLogupInputSource,
}

/// The fixed public-LogUp circuit of one claim shape, with its claimed-sum
/// and public-term counts and the source of each of its inputs.
#[derive(Clone, Debug)]
pub struct VmPublicLogupCircuit {
    shape: VmPublicClaimShape,
    claimed_sum_count: u32,
    public_term_count: u32,
    circuit: ConstraintCircuit,
    input_bindings: Vec<VmPublicLogupInputBinding>,
}

impl VmPublicLogupCircuit {
    pub closed spec fn spec_shape(&self) -> VmPublicClaimShape {
        self.shape
    }

    pub closed spec fn spec_claimed_sum_count(&self) -> u32 {
        self.claimed_sum_count
    }

    pub closed spec fn spec_public_term_count(&self) -> u32 {
        self.public_term_count
    }

    pub closed spec fn spec_circuit(&self) -> ConstraintCircuit {
        self.circuit
    }

    pub closed spec fn spec_input_bindings(&self) -> Seq<VmPublicLogupInputBinding> {
        self.input_bindings@
    }

    /// A recorded circuit with its shape, counts and input sources.
    pub fn new(
        shape: VmPublicClaimShape,
        claimed_sum_count: u32,
        public_term_count: u32,
        circuit: ConstraintCircuit,
        input_bindings: Vec<VmPublicLogupInputBinding>,
    ) -> (result: Self)
        ensures
            result.spec_shape() == shape,
            result.spec_claimed_sum_count() == claimed_sum_count,
            result.spec_public_term_count() == public_term_count,
            result.spec_circuit() == circuit,
            result.spec_input_bindings() == input_bindings@,
    {
        VmPublicLogupCircuit { shape, claimed_sum_count, public_term_count, circuit, input_bindings }
    }

    pub fn shape(&self) -> (shape: VmPublicClaimShape)
        ensures
            shape == self.spec_shape(),
    {
        self.shape
    }

    pub fn claimed_sum_count(&self) -> (count: u32)
        ensures
            count == self.spec_claimed_sum_count(),
    {
        self.claimed_sum_count
    }

    pub fn public_term_count(&self) -> (count: u32)
        ensures
            count == self.spec_public_term_count(),
    {
        self.public_term_count
    }

    pub fn circuit(&self) -> (circuit: &ConstraintCircuit)
        ensures
            *circuit == self.spec_circuit(),
    {
        &self.circuit
    }

    pub fn input_bindings(&self) -> (bindings: &[VmPublicLogupInputBinding])
        ensures
            bindings@ == self.spec_input_bindings(),
    {
        self.input_bindings.as_slice()
    }

    /// One when the circuit's global sum is not zero, else zero.
    pub fn nonzero_output_count(&self) -> (count: usize)
        requires
            has_output(self.spec_circuit()),
        ensures
            count == spec_nonzero_output_count(self.spec_circuit()),
    {
        nonzero_output_count(&self.circuit)
    }
}

/// Invalid public-LogUp input layout or witness value.
#[derive(Clone, Copy, Debug, PartialEq, Eq, Structural)]
pub enum VmPublicLogupInputError {
    CircuitIdNotCanonical { circuit_id: u32 },
    RowCountOverflow,
    LogSizeOutOfRange { log_size: u32 },
    NodeIdDoesNotFitUsize { node_id: u32 },
    NodeMissing { node_id: u32 },
    BindingTargetsNonInput { node_id: u32 },
    UseCountNotCanonical { node_id: u32, use_count: u32 },
    DuplicateInputSource { source: VmPublicLogupInputSource },
    ClaimIndexDoesNotFitUsize { index: u32 },
    ClaimIndexOutOfRange { index: usize, claim_word_count: usize },
    ByteSourceIsNotU16 { word_index: u32 },
    ByteIndexOutOfRange { byte_index: u32 },
    UnexpectedChallenge { challenge: u32 },
    ChallengeWordOutOfRange { word_index: u32 },
    ClaimedSumIndexOutOfRange { item_index: u32 },
    ClaimedSumLimbOutOfRange { limb_index: u32 },
    SelectorCountMismatch { actual: usize },
    InputCountMismatch { expected: usize, actual: usize },
    InputLayoutMismatch,
    InputCoordinateMismatch { node_id: u32 },
    InputIsNotBaseField { node_id: u32 },
    InactiveInputIsNonZero { node_id: u32 },
}

/// The challenges the public-LogUp circuit reads.
pub open spec fn is_logup_challenge(challenge: u32) -> bool {
    challenge == 0 || challenge == 1 || challenge == 3
}

/// Why a claim index names no claim word, if it does not.
pub open spec fn claim_index_error(kinds: Seq<WordKindView>, index: u32) -> Option<VmPublicLogupInputError> {
    if index >= kinds.len() {
        Some(
            VmPublicLogupInputError::ClaimIndexOutOfRange {
                index: index as usize,
                claim_word_count: kinds.len() as usize,
            },
        )
    } else {
        None
    }
}

/// The two source-index columns of an input, or why its source is out of
/// range for the claim classes and claimed-sum count.
pub open spec fn spec_logup_source_indices(
    source: VmPublicLogupInputSource,
    kinds: Seq<WordKindView>,
    claimed_sum_count: u32,
) -> Result<(u32, u32), VmPublicLogupInputError> {
    match source {
        VmPublicLogupInputSource::ClaimWord { index } => match claim_index_error(kinds, index) {
            Some(error) => Err(error),
            None => Ok((index, 0)),
        },
        VmPublicLogupInputSource::ClaimByte { word_index, byte_index } => match claim_index_error(
            kinds,
            word_index,
        ) {
            Some(error) => Err(error),
            None => if kinds[word_index as int] != WordKindView::U16 {
                Err(VmPublicLogupInputError::ByteSourceIsNotU16 { word_index })
            } else if byte_index >= 2 {
                Err(VmPublicLogupInputError::ByteIndexOutOfRange { byte_index })
            } else {
                Ok((word_index, byte_index))
            },
        },
        VmPublicLogupInputSource::RelationChallengeWord { challenge, word_index } => if !is_logup_challenge(
            challenge,
        ) {
            Err(VmPublicLogupInputError::UnexpectedChallenge { challenge })
        } else if word_index >= CHALLENGE_WORDS {
            Err(VmPublicLogupInputError::ChallengeWordOutOfRange { word_index })
        } else {
            Ok((challenge, word_index))
        },
        VmPublicLogupInputSource::ClaimedSumWord { item_index, limb_index } => if item_index
            >= claimed_sum_count {
            Err(VmPublicLogupInputError::ClaimedSumIndexOutOfRange { item_index })
        } else if limb_index >= QM31_LIMBS {
            Err(VmPublicLogupInputError::ClaimedSumLimbOutOfRange { limb_index })
        } else {
            Ok((item_index, limb_index))
        },
        VmPublicLogupInputSource::SegmentSelector => Ok((0, 0)),
    }
}

fn require_claim_index(kinds: &[VmPublicClaimWordKind], index: u32) -> (result: Result<
    usize,
    VmPublicLogupInputError,
>)
    ensures
        match claim_index_error(kind_views(kinds@), index) {
            Some(error) => result == Err::<usize, _>(error),
            None => result == Ok::<usize, VmPublicLogupInputError>(index as usize),
        },
{
    let index = index as usize;
    if index >= kinds.len() {
        return Err(VmPublicLogupInputError::ClaimIndexOutOfRange { index, claim_word_count: kinds.len() });
    }
    Ok(index)
}

/// Checks one input source and returns its two source-index columns;
/// counts segment selectors.
fn validate_source(
    source: VmPublicLogupInputSource,
    kinds: &[VmPublicClaimWordKind],
    claimed_sum_count: u32,
    selector_count: &mut usize,
) -> (result: Result<(u32, u32), VmPublicLogupInputError>)
    ensures
        *old(selector_count) == usize::MAX && source is SegmentSelector ==> result == Err::<
            (u32, u32),
            _,
        >(VmPublicLogupInputError::RowCountOverflow),
        !(*old(selector_count) == usize::MAX && source is SegmentSelector) ==> result
            == spec_logup_source_indices(source, kind_views(kinds@), claimed_sum_count),
        *final(selector_count) == if source is SegmentSelector && result is Ok {
            *old(selector_count) + 1
        } else {
            *old(selector_count) as int
        },
{
    match source {
        VmPublicLogupInputSource::ClaimWord { index } => {
            require_claim_index(kinds, index)?;
            Ok((index, 0))
        },
        VmPublicLogupInputSource::ClaimByte { word_index, byte_index } => {
            let index = require_claim_index(kinds, word_index)?;
            if kinds[index] != VmPublicClaimWordKind::U16 {
                proof {
                    assert(kind_views(kinds@)[index as int] == kinds@[index as int]@);
                }
                return Err(VmPublicLogupInputError::ByteSourceIsNotU16 { word_index });
            }
            if byte_index >= 2 {
                return Err(VmPublicLogupInputError::ByteIndexOutOfRange { byte_index });
            }
            Ok((word_index, byte_index))
        },
        VmPublicLogupInputSource::RelationChallengeWord { challenge, word_index } => {
            if !(challenge == 0 || challenge == 1 || challenge == 3) {
                return Err(VmPublicLogupInputError::UnexpectedChallenge { challenge });
            }
            if word_index >= CHALLENGE_WORDS {
                return Err(VmPublicLogupInputError::ChallengeWordOutOfRange { word_index });
            }
            Ok((challenge, word_index))
        },
        VmPublicLogupInputSource::ClaimedSumWord { item_index, limb_index } => {
            if item_index >= claimed_sum_count {
                return Err(VmPublicLogupInputError::ClaimedSumIndexOutOfRange { item_index });
            }
            if limb_index >= QM31_LIMBS {
                return Err(VmPublicLogupInputError::ClaimedSumLimbOutOfRange { limb_index });
            }
            Ok((item_index, limb_index))
        },
        VmPublicLogupInputSource::SegmentSelector => {
            if *selector_count == usize::MAX {
                return Err(VmPublicLogupInputError::RowCountOverflow);
            }
            *selector_count = *selector_count + 1;
            Ok((0, 0))
        },
    }
}

/// The number of 16-bit claim words.
pub open spec fn u16_count(kinds: Seq<WordKindView>) -> nat
    decreases kinds.len(),
{
    if kinds.len() == 0 {
        0
    } else {
        u16_count(kinds.drop_last()) + if kinds.last() == WordKindView::U16 {
            1nat
        } else {
            0nat
        }
    }
}

proof fn lemma_u16_count_bound(kinds: Seq<WordKindView>)
    ensures
        u16_count(kinds) <= kinds.len(),
    decreases kinds.len(),
{
    if kinds.len() > 0 {
        lemma_u16_count_bound(kinds.drop_last());
    }
}

/// Inputs the public-LogUp circuit has: every claim word, two bytes per
/// 16-bit claim word, three relation challenges, four limbs per claimed sum,
/// and the selector.
pub open spec fn spec_logup_input_count(kinds: Seq<WordKindView>, claimed_sum_count: u32) -> nat {
    kinds.len() + 2 * u16_count(kinds) + 3 * CHALLENGE_WORDS as nat + QM31_LIMBS as nat * claimed_sum_count as nat
        + 1
}

/// The input count, when it and its parts fit `usize`.
pub open spec fn spec_expected_logup_input_count(kinds: Seq<WordKindView>, claimed_sum_count: u32) -> Result<
    usize,
    VmPublicLogupInputError,
> {
    if 2 * u16_count(kinds) > usize::MAX || QM31_LIMBS * claimed_sum_count > usize::MAX
        || spec_logup_input_count(kinds, claimed_sum_count) > usize::MAX {
        Err(VmPublicLogupInputError::RowCountOverflow)
    } else {
        Ok(spec_logup_input_count(kinds, claimed_sum_count) as usize)
    }
}

fn count_u16_words(kinds: &[VmPublicClaimWordKind]) -> (count: usize)
    ensures
        count == u16_count(kind_views(kinds@)),
{
    let ghost views = kind_views(kinds@);
    let mut count: usize = 0;
    let mut i: usize = 0;
    proof {
        assert(views.take(0) =~= Seq::<WordKindView>::empty());
    }
    while i < kinds.len()
        invariant
            i <= kinds@.len(),
            views == kind_views(kinds@),
            count == u16_count(views.take(i as int)),
        decreases kinds@.len() - i,
    {
        proof {
            assert(views.take(i as int + 1).drop_last() =~= views.take(i as int));
            assert(views[i as int] == kinds@[i as int]@);
            lemma_u16_count_bound(views.take(i as int));
        }
        if kinds[i] == VmPublicClaimWordKind::U16 {
            count = count + 1;
        }
        i = i + 1;
    }
    proof {
        assert(views.take(kinds@.len() as int) =~= views);
    }
    count
}

fn expected_input_count(kinds: &[VmPublicClaimWordKind], claimed_sum_count: u32) -> (result: Result<
    usize,
    VmPublicLogupInputError,
>)
    ensures
        result == spec_expected_logup_input_count(kind_views(kinds@), claimed_sum_count),
{
    let overflow = VmPublicLogupInputError::RowCountOverflow;
    let byte_inputs = match count_u16_words(kinds).checked_mul(2) {
        Some(count) => count,
        None => return Err(overflow),
    };
    let claimed_sum_inputs = match (claimed_sum_count as usize).checked_mul(QM31_LIMBS as usize) {
        Some(count) => count,
        None => return Err(overflow),
    };
    let total = match kinds.len().checked_add(byte_inputs) {
        Some(count) => count,
        None => return Err(overflow),
    };
    let total = match total.checked_add(3 * CHALLENGE_WORDS as usize) {
        Some(count) => count,
        None => return Err(overflow),
    };
    let total = match total.checked_add(claimed_sum_inputs) {
        Some(count) => count,
        None => return Err(overflow),
    };
    match total.checked_add(1) {
        Some(count) => Ok(count),
        None => Err(overflow),
    }
}

/// One preprocessed row: an input, its source and wire coordinates.
#[derive(Clone, Copy, Debug, PartialEq, Eq, Structural)]
pub struct LogupInputRow {
    pub source: VmPublicLogupInputSource,
    pub circuit_id: u32,
    pub node_id: u32,
    pub use_count: u32,
    pub source_index_0: u32,
    pub source_index_1: u32,
}

/// Whether binding `k` repeats the source of an earlier binding.
pub open spec fn logup_source_repeated(bindings: Seq<VmPublicLogupInputBinding>, k: int) -> bool {
    exists|j: int| 0 <= j < k && bindings[j].source == bindings[k].source
}

/// The input rows of the first `n` bindings and how many of them are the
/// segment selector, or the first error met.
pub open spec fn spec_logup_input_scan(
    kinds: Seq<WordKindView>,
    claimed_sum_count: u32,
    nodes: Seq<CircuitNode>,
    bindings: Seq<VmPublicLogupInputBinding>,
    circuit_id: u32,
    n: nat,
) -> Result<(Seq<LogupInputRow>, nat), VmPublicLogupInputError>
    decreases n,
{
    if n == 0 {
        Ok((Seq::empty(), 0))
    } else {
        match spec_logup_input_scan(kinds, claimed_sum_count, nodes, bindings, circuit_id, (n - 1) as nat) {
            Err(error) => Err(error),
            Ok((rows, selectors)) => {
                let k = n - 1;
                let binding = bindings[k];
                let node_id = binding.node_id;
                if logup_source_repeated(bindings, k) {
                    Err(VmPublicLogupInputError::DuplicateInputSource { source: binding.source })
                } else if node_id >= nodes.len() {
                    Err(VmPublicLogupInputError::NodeMissing { node_id })
                } else if nodes[node_id as int].op != NodeOp::Input {
                    Err(VmPublicLogupInputError::BindingTargetsNonInput { node_id })
                } else if nodes[node_id as int].use_count >= M31_MODULUS {
                    Err(
                        VmPublicLogupInputError::UseCountNotCanonical {
                            node_id,
                            use_count: nodes[node_id as int].use_count,
                        },
                    )
                } else {
                    match spec_logup_source_indices(binding.source, kinds, claimed_sum_count) {
                        Err(error) => Err(error),
                        Ok((index_0, index_1)) => Ok(
                            (
                                rows.push(
                                    LogupInputRow {
                                        source: binding.source,
                                        circuit_id,
                                        node_id,
                                        use_count: nodes[node_id as int].use_count,
                                        source_index_0: index_0,
                                        source_index_1: index_1,
                                    },
                                ),
                                if binding.source is SegmentSelector {
                                    selectors + 1
                                } else {
                                    selectors
                                },
                            ),
                        ),
                    }
                }
            },
        }
    }
}

/// The input rows of a reference circuit under `circuit_id`, or why it has
/// no canonical input layout.
pub open spec fn spec_logup_input_rows(reference: VmPublicLogupCircuit, circuit_id: u32) -> Result<
    Seq<LogupInputRow>,
    VmPublicLogupInputError,
> {
    let kinds = claim_word_kinds(reference.spec_shape());
    let bindings = reference.spec_input_bindings();
    let claimed = reference.spec_claimed_sum_count();
    if circuit_id >= M31_MODULUS {
        Err(VmPublicLogupInputError::CircuitIdNotCanonical { circuit_id })
    } else {
        match spec_logup_input_scan(
            kinds,
            claimed,
            reference.spec_circuit().nodes@,
            bindings,
            circuit_id,
            bindings.len(),
        ) {
            Err(error) => Err(error),
            Ok((rows, selectors)) => if selectors != 1 {
                Err(VmPublicLogupInputError::SelectorCountMismatch { actual: selectors as usize })
            } else {
                match spec_expected_logup_input_count(kinds, claimed) {
                    Err(error) => Err(error),
                    Ok(expected) => if rows.len() != expected {
                        Err(
                            VmPublicLogupInputError::InputCountMismatch {
                                expected,
                                actual: rows.len() as usize,
                            },
                        )
                    } else {
                        Ok(rows)
                    },
                }
            },
        }
    }
}

proof fn lemma_logup_input_scan_error_sticks(
    kinds: Seq<WordKindView>,
    claimed_sum_count: u32,
    nodes: Seq<CircuitNode>,
    bindings: Seq<VmPublicLogupInputBinding>,
    circuit_id: u32,
    n: nat,
    m: nat,
)
    requires
        n <= m,
        spec_logup_input_scan(kinds, claimed_sum_count, nodes, bindings, circuit_id, n) is Err,
    ensures
        spec_logup_input_scan(kinds, claimed_sum_count, nodes, bindings, circuit_id, m)
            == spec_logup_input_scan(kinds, claimed_sum_count, nodes, bindings, circuit_id, n),
    decreases m - n,
{
    if m > n {
        lemma_logup_input_scan_error_sticks(kinds, claimed_sum_count, nodes, bindings, circuit_id, n, (m - 1) as nat);
    }
}

proof fn lemma_logup_input_scan_counts(
    kinds: Seq<WordKindView>,
    claimed_sum_count: u32,
    nodes: Seq<CircuitNode>,
    bindings: Seq<VmPublicLogupInputBinding>,
    circuit_id: u32,
    n: nat,
)
    requires
        spec_logup_input_scan(kinds, claimed_sum_count, nodes, bindings, circuit_id, n) is Ok,
    ensures
        spec_logup_input_scan(kinds, claimed_sum_count, nodes, bindings, circuit_id, n)->Ok_0.0.len() == n,
        spec_logup_input_scan(kinds, claimed_sum_count, nodes, bindings, circuit_id, n)->Ok_0.1 <= n,
    decreases n,
{
    if n > 0 {
        lemma_logup_input_scan_counts(kinds, claimed_sum_count, nodes, bindings, circuit_id, (n - 1) as nat);
    }
}

fn logup_source_seen(bindings: &[VmPublicLogupInputBinding], k: usize) -> (seen: bool)
    requires
        k < bindings@.len(),
    ensures
        seen == logup_source_repeated(bindings@, k as int),
{
    let mut j: usize = 0;
    while j < k
        invariant
            j <= k < bindings@.len(),
            forall|i: int| 0 <= i < j ==> bindings@[i].source != bindings@[k as int].source,
        decreases k - j,
    {
        if bindings[j].source == bindings[k].source {
            return true;
        }
        j = j + 1;
    }
    false
}

/// The input rows of a reference circuit under `circuit_id`.
#[verifier::loop_isolation(false)]
fn logup_input_rows(reference: &VmPublicLogupCircuit, circuit_id: u32) -> (result: Result<
    Vec<LogupInputRow>,
    VmPublicLogupInputError,
>)
    ensures
        match spec_logup_input_rows(*reference, circuit_id) {
            Ok(rows) => result matches Ok(v) && v@ == rows,
            Err(error) => result == Err::<Vec<LogupInputRow>, _>(error),
        },
{
    if circuit_id >= M31_MODULUS {
        return Err(VmPublicLogupInputError::CircuitIdNotCanonical { circuit_id });
    }
    let claim_kinds = canonical_vm_public_claim_word_kinds(reference.shape());
    let ghost kinds = kind_views(claim_kinds@);
    let claimed = reference.claimed_sum_count();
    let nodes = &reference.circuit().nodes;
    let bindings = reference.input_bindings();
    let ghost node_seq = reference.spec_circuit().nodes@;
    let mut rows: Vec<LogupInputRow> = Vec::new();
    let mut selector_count: usize = 0;
    let n = bindings.len();
    let mut k: usize = 0;
    while k < n
        invariant
            k <= n,
            n == bindings@.len(),
            bindings@ == reference.spec_input_bindings(),
            kinds == claim_word_kinds(reference.spec_shape()),
            claimed == reference.spec_claimed_sum_count(),
            nodes@ == node_seq,
            node_seq == reference.spec_circuit().nodes@,
            spec_logup_input_scan(kinds, claimed, node_seq, bindings@, circuit_id, k as nat) == Ok::<
                _,
                VmPublicLogupInputError,
            >((rows@, selector_count as nat)),
        decreases n - k,
    {
        proof {
            lemma_logup_input_scan_counts(kinds, claimed, node_seq, bindings@, circuit_id, k as nat);
        }
        let binding = bindings[k];
        if logup_source_seen(bindings, k) {
            proof {
                lemma_logup_input_scan_error_sticks(kinds, claimed, node_seq, bindings@, circuit_id, (k + 1) as nat, n as nat);
            }
            return Err(VmPublicLogupInputError::DuplicateInputSource { source: binding.source });
        }
        let node_id = binding.node_id;
        let index = node_id as usize;
        if index >= nodes.len() {
            proof {
                lemma_logup_input_scan_error_sticks(kinds, claimed, node_seq, bindings@, circuit_id, (k + 1) as nat, n as nat);
            }
            return Err(VmPublicLogupInputError::NodeMissing { node_id });
        }
        let node = nodes[index];
        if node.op != NodeOp::Input {
            proof {
                lemma_logup_input_scan_error_sticks(kinds, claimed, node_seq, bindings@, circuit_id, (k + 1) as nat, n as nat);
            }
            return Err(VmPublicLogupInputError::BindingTargetsNonInput { node_id });
        }
        if node.use_count >= M31_MODULUS {
            proof {
                lemma_logup_input_scan_error_sticks(kinds, claimed, node_seq, bindings@, circuit_id, (k + 1) as nat, n as nat);
            }
            return Err(VmPublicLogupInputError::UseCountNotCanonical { node_id, use_count: node.use_count });
        }
        let (source_index_0, source_index_1) = match validate_source(
            binding.source,
            claim_kinds.as_slice(),
            claimed,
            &mut selector_count,
        ) {
            Ok(indices) => indices,
            Err(error) => {
                proof {
                    lemma_logup_input_scan_error_sticks(kinds, claimed, node_seq, bindings@, circuit_id, (k + 1) as nat, n as nat);
                }
                return Err(error);
            },
        };
        rows.push(
            LogupInputRow {
                source: binding.source,
                circuit_id,
                node_id,
                use_count: node.use_count,
                source_index_0,
                source_index_1,
            },
        );
        k = k + 1;
    }
    if selector_count != 1 {
        return Err(VmPublicLogupInputError::SelectorCountMismatch { actual: selector_count });
    }
    let expected = expected_input_count(claim_kinds.as_slice(), claimed)?;
    if rows.len() != expected {
        return Err(VmPublicLogupInputError::InputCountMismatch { expected, actual: rows.len() });
    }
    Ok(rows)
}

/// Verifier-owned input-node layout for one fixed public-LogUp circuit.
#[derive(Debug)]
pub struct VmPublicLogupInputPreprocessed {
    log_size: u32,
    rows: Vec<LogupInputRow>,
}

impl VmPublicLogupInputPreprocessed {
    /// The rows fit the table's domain, which fits the largest domain.
    #[verifier::type_invariant]
    closed spec fn rows_fit(self) -> bool {
        &&& self.log_size <= MAX_LOG_SIZE
        &&& self.rows@.len() <= pow2(self.log_size as nat)
    }

    pub closed spec fn spec_log_size(&self) -> u32 {
        self.log_size
    }

    pub closed spec fn spec_rows(&self) -> Seq<LogupInputRow> {
        self.rows@
    }

    /// Owns every input of the reference circuit under `circuit_id`: one row
    /// per binding, in order, padded to a power-of-two domain.
    pub fn new(reference: &VmPublicLogupCircuit, circuit_id: u32) -> (result: Result<
        Self,
        VmPublicLogupInputError,
    >)
        ensures
            match spec_logup_input_rows(*reference, circuit_id) {
                Err(error) => result == Err::<Self, _>(error),
                Ok(rows) => match spec_padded_log_size(rows.len(), MAX_LOG_SIZE) {
                    Ok(log_size) => result matches Ok(pre) && pre.spec_rows() == rows
                        && pre.spec_log_size() == log_size,
                    Err(PaddedSizeError::RowCountOverflow) => result == Err::<Self, _>(
                        VmPublicLogupInputError::RowCountOverflow,
                    ),
                    Err(PaddedSizeError::LogSizeOutOfRange { log_size }) => result == Err::<Self, _>(
                        VmPublicLogupInputError::LogSizeOutOfRange { log_size },
                    ),
                },
            },
    {
        let rows = logup_input_rows(reference, circuit_id)?;
        let log_size = match padded_log_size(rows.len(), MAX_LOG_SIZE) {
            Ok(log_size) => log_size,
            Err(PaddedSizeError::RowCountOverflow) => {
                return Err(VmPublicLogupInputError::RowCountOverflow);
            },
            Err(PaddedSizeError::LogSizeOutOfRange { log_size }) => {
                return Err(VmPublicLogupInputError::LogSizeOutOfRange { log_size });
            },
        };
        Ok(VmPublicLogupInputPreprocessed { log_size, rows })
    }

    /// The log size of the table's domain, which holds every row.
    pub fn log_size(&self) -> (log_size: u32)
        ensures
            log_size == self.spec_log_size(),
            log_size <= MAX_LOG_SIZE,
            self.spec_rows().len() <= pow2(log_size as nat),
    {
        proof {
            use_type_invariant(self);
        }
        self.log_size
    }

    pub fn input_count(&self) -> (count: usize)
        ensures
            count == self.spec_rows().len(),
    {
        self.rows.len()
    }

    /// The table's rows, one per circuit input.
    pub fn rows(&self) -> (rows: &[LogupInputRow])
        ensures
            rows@ == self.spec_rows(),
    {
        self.rows.as_slice()
    }
}

/// The value one witness input carries in the selected mode, or why it is
/// not a base-field value of that mode: the selector is one exactly in an
/// active segment, and every other input is zero outside one.
pub open spec fn witness_input_value(
    source: VmPublicLogupInputSource,
    node_id: u32,
    value: [u32; 4],
    active: bool,
) -> Result<u32, VmPublicLogupInputError> {
    let expected: u32 = if source is SegmentSelector {
        if active {
            1
        } else {
            0
        }
    } else if active {
        value@[0]
    } else {
        0
    };
    if value@[1] != 0 || value@[2] != 0 || value@[3] != 0 {
        Err(VmPublicLogupInputError::InputIsNotBaseField { node_id })
    } else if value@[0] != expected {
        Err(VmPublicLogupInputError::InactiveInputIsNonZero { node_id })
    } else {
        Ok(expected)
    }
}

/// The values of the first `n` inputs that were materialized, and the
/// error that stopped materialization, if any.
pub open spec fn spec_push_scan(
    rows: Seq<LogupInputRow>,
    bindings: Seq<VmPublicLogupInputBinding>,
    nodes: Seq<CircuitNode>,
    active: bool,
    n: nat,
) -> (Seq<u32>, Option<VmPublicLogupInputError>)
    decreases n,
{
    if n == 0 {
        (Seq::empty(), None)
    } else {
        let (values, error) = spec_push_scan(rows, bindings, nodes, active, (n - 1) as nat);
        if error is Some {
            (values, error)
        } else {
            let row = rows[n - 1];
            let binding = bindings[n - 1];
            let node_id = binding.node_id;
            if row.node_id != node_id || row.source != binding.source {
                (values, Some(VmPublicLogupInputError::InputCoordinateMismatch { node_id }))
            } else if node_id >= nodes.len() {
                (values, Some(VmPublicLogupInputError::NodeMissing { node_id }))
            } else if nodes[node_id as int].op != NodeOp::Input {
                (values, Some(VmPublicLogupInputError::BindingTargetsNonInput { node_id }))
            } else {
                match witness_input_value(binding.source, node_id, nodes[node_id as int].value, active) {
                    Err(error) => (values, Some(error)),
                    Ok(value) => (values.push(value), None),
                }
            }
        }
    }
}

/// What materializing a witness's inputs pushes, and the error it stops
/// at, if any.
pub open spec fn spec_push_outcome(
    preprocessed: VmPublicLogupInputPreprocessed,
    reference: VmPublicLogupCircuit,
    witness: VmPublicLogupCircuit,
    proof_kind: ProofKind,
) -> (Seq<u32>, Option<VmPublicLogupInputError>) {
    let rows = preprocessed.spec_rows();
    let bindings = witness.spec_input_bindings();
    if reference.spec_shape() != witness.spec_shape() || reference.spec_claimed_sum_count()
        != witness.spec_claimed_sum_count() || reference.spec_input_bindings() != bindings {
        (Seq::empty(), Some(VmPublicLogupInputError::InputLayoutMismatch))
    } else if bindings.len() != rows.len() {
        (
            Seq::empty(),
            Some(
                VmPublicLogupInputError::InputCountMismatch {
                    expected: rows.len() as usize,
                    actual: bindings.len() as usize,
                },
            ),
        )
    } else {
        spec_push_scan(
            rows,
            bindings,
            witness.spec_circuit().nodes@,
            proof_kind == ProofKind::SegmentLeaf,
            rows.len(),
        )
    }
}

fn same_logup_bindings(a: &[VmPublicLogupInputBinding], b: &[VmPublicLogupInputBinding]) -> (equal: bool)
    ensures
        equal == (a@ == b@),
{
    if a.len() != b.len() {
        return false;
    }
    let mut i: usize = 0;
    while i < a.len()
        invariant
            i <= a@.len(),
            a@.len() == b@.len(),
            forall|j: int| 0 <= j < i ==> a@[j] == b@[j],
        decreases a@.len() - i,
    {
        if a[i] != b[i] {
            return false;
        }
        i = i + 1;
    }
    proof {
        assert(a@ =~= b@);
    }
    true
}

proof fn lemma_push_scan_error_sticks(
    rows: Seq<LogupInputRow>,
    bindings: Seq<VmPublicLogupInputBinding>,
    nodes: Seq<CircuitNode>,
    active: bool,
    n: nat,
    m: nat,
)
    requires
        n <= m,
        spec_push_scan(rows, bindings, nodes, active, n).1 is Some,
    ensures
        spec_push_scan(rows, bindings, nodes, active, m) == spec_push_scan(rows, bindings, nodes, active, n),
    decreases m - n,
{
    if m > n {
        lemma_push_scan_error_sticks(rows, bindings, nodes, active, n, (m - 1) as nat);
    }
}

/// Materializes the witness's input values into the input table's value
/// column, after checking that the witness has the reference input layout,
/// that each input matches its preprocessed row, and that each value is a
/// base-field value of the selected mode. Values are pushed in row order
/// until the first failing input.
#[verifier::loop_isolation(false)]
pub fn push_vm_public_logup_inputs(
    table: &mut Vec<u32>,
    preprocessed: &VmPublicLogupInputPreprocessed,
    reference: &VmPublicLogupCircuit,
    witness: &VmPublicLogupCircuit,
    proof_kind: ProofKind,
) -> (result: Result<(), VmPublicLogupInputError>)
    ensures
        ({
            let (values, error) = spec_push_outcome(*preprocessed, *reference, *witness, proof_kind);
            &&& final(table)@ == old(table)@ + values
            &&& match error {
                Some(error) => result == Err::<(), _>(error),
                None => result is Ok,
            }
        }),
{
    if reference.shape() != witness.shape() || reference.claimed_sum_count() != witness.claimed_sum_count()
        || !same_logup_bindings(reference.input_bindings(), witness.input_bindings()) {
        proof {
            assert(table@ =~= old(table)@ + Seq::<u32>::empty());
        }
        return Err(VmPublicLogupInputError::InputLayoutMismatch);
    }
    let rows = preprocessed.rows();
    let bindings = witness.input_bindings();
    if bindings.len() != rows.len() {
        proof {
            assert(table@ =~= old(table)@ + Seq::<u32>::empty());
        }
        return Err(VmPublicLogupInputError::InputCountMismatch { expected: rows.len(), actual: bindings.len() });
    }
    let nodes = &witness.circuit().nodes;
    let ghost node_seq = witness.spec_circuit().nodes@;
    let active = proof_kind == ProofKind::SegmentLeaf;
    let ghost start = table@;
    let n = rows.len();
    let mut k: usize = 0;
    proof {
        assert(table@ =~= start + Seq::<u32>::empty());
    }
    while k < n
        invariant
            k <= n,
            n == rows@.len(),
            rows@.len() == bindings@.len(),
            rows@ == preprocessed.spec_rows(),
            bindings@ == witness.spec_input_bindings(),
            nodes@ == node_seq,
            node_seq == witness.spec_circuit().nodes@,
            active == (proof_kind == ProofKind::SegmentLeaf),
            spec_push_scan(rows@, bindings@, node_seq, active, k as nat).1 is None,
            table@ == start + spec_push_scan(rows@, bindings@, node_seq, active, k as nat).0,
        decreases n - k,
    {
        let row = rows[k];
        let binding = bindings[k];
        let node_id = binding.node_id;
        if row.node_id != node_id || row.source != binding.source {
            proof {
                lemma_push_scan_error_sticks(rows@, bindings@, node_seq, active, (k + 1) as nat, n as nat);
            }
            return Err(VmPublicLogupInputError::InputCoordinateMismatch { node_id });
        }
        let index = node_id as usize;
        if index >= nodes.len() {
            proof {
                lemma_push_scan_error_sticks(rows@, bindings@, node_seq, active, (k + 1) as nat, n as nat);
            }
            return Err(VmPublicLogupInputError::NodeMissing { node_id });
        }
        let node = nodes[index];
        if node.op != NodeOp::Input {
            proof {
                lemma_push_scan_error_sticks(rows@, bindings@, node_seq, active, (k + 1) as nat, n as nat);
            }
            return Err(VmPublicLogupInputError::BindingTargetsNonInput { node_id });
        }
        let value = node.value;
        if value[1] != 0 || value[2] != 0 || value[3] != 0 {
            proof {
                lemma_push_scan_error_sticks(rows@, bindings@, node_seq, active, (k + 1) as nat, n as nat);
            }
            return Err(VmPublicLogupInputError::InputIsNotBaseField { node_id });
        }
        let expected: u32 = if binding.source == VmPublicLogupInputSource::SegmentSelector {
            if active {
                1
            } else {
                0
            }
        } else if active {
            value[0]
        } else {
            0
        };
        if value[0] != expected {
            proof {
                lemma_push_scan_error_sticks(rows@, bindings@, node_seq, active, (k + 1) as nat, n as nat);
            }
            return Err(VmPublicLogupInputError::InactiveInputIsNonZero { node_id });
        }
        table.push(expected);
        k = k + 1;
    }
    Ok(())
}

/// The input rows own the circuit's inputs: row `i` is binding `i`, under
/// the circuit id, on an input node, carrying that node's use count, with a
/// source in range; and no source is owned twice.
pub open spec fn logup_rows_own_inputs(
    rows: Seq<LogupInputRow>,
    kinds: Seq<WordKindView>,
    claimed_sum_count: u32,
    nodes: Seq<CircuitNode>,
    bindings: Seq<VmPublicLogupInputBinding>,
    circuit_id: u32,
) -> bool {
    &&& forall|i: int|
        0 <= i < rows.len() ==> {
            let row = #[trigger] rows[i];
            &&& row.source == bindings[i].source
            &&& row.node_id == bindings[i].node_id
            &&& row.circuit_id == circuit_id
            &&& row.node_id < nodes.len()
            &&& nodes[row.node_id as int].op == NodeOp::Input
            &&& row.use_count == nodes[row.node_id as int].use_count
            &&& row.use_count < M31_MODULUS
            &&& spec_logup_source_indices(bindings[i].source, kinds, claimed_sum_count) == Ok::<
                _,
                VmPublicLogupInputError,
            >((row.source_index_0, row.source_index_1))
        }
    &&& forall|i: int, j: int| 0 <= i < j < rows.len() ==> rows[i].source != rows[j].source
}

/// The number of rows whose source is the segment selector.
pub open spec fn selector_rows(rows: Seq<LogupInputRow>) -> nat
    decreases rows.len(),
{
    if rows.len() == 0 {
        0
    } else {
        selector_rows(rows.drop_last()) + if rows.last().source is SegmentSelector {
            1nat
        } else {
            0nat
        }
    }
}

proof fn lemma_logup_input_scan_owns(
    kinds: Seq<WordKindView>,
    claimed_sum_count: u32,
    nodes: Seq<CircuitNode>,
    bindings: Seq<VmPublicLogupInputBinding>,
    circuit_id: u32,
    n: nat,
)
    requires
        n <= bindings.len(),
        spec_logup_input_scan(kinds, claimed_sum_count, nodes, bindings, circuit_id, n) is Ok,
    ensures
        ({
            let (rows, selectors) = spec_logup_input_scan(kinds, claimed_sum_count, nodes, bindings, circuit_id, n)->Ok_0;
            &&& logup_rows_own_inputs(rows, kinds, claimed_sum_count, nodes, bindings, circuit_id)
            &&& selectors == selector_rows(rows)
        }),
    decreases n,
{
    if n > 0 {
        let m = (n - 1) as nat;
        lemma_logup_input_scan_owns(kinds, claimed_sum_count, nodes, bindings, circuit_id, m);
        lemma_logup_input_scan_counts(kinds, claimed_sum_count, nodes, bindings, circuit_id, m);
        let before = spec_logup_input_scan(kinds, claimed_sum_count, nodes, bindings, circuit_id, m)->Ok_0.0;
        let after = spec_logup_input_scan(kinds, claimed_sum_count, nodes, bindings, circuit_id, n)->Ok_0.0;
        assert(after.drop_last() =~= before);
        assert forall|i: int, j: int| 0 <= i < j < after.len() implies after[i].source != after[j].source by {
            assert(after[i] == before[i] || i == m);
            if j < m {
                assert(after[j] == before[j]);
            } else {
                assert(after[i] == before[i]);
                assert(!logup_source_repeated(bindings, m as int));
                assert(before[i].source == bindings[i].source);
            }
        }
        assert forall|i: int| 0 <= i < after.len() implies {
            let row = #[trigger] after[i];
            &&& row.source == bindings[i].source
            &&& row.node_id == bindings[i].node_id
            &&& row.circuit_id == circuit_id
            &&& row.node_id < nodes.len()
            &&& nodes[row.node_id as int].op == NodeOp::Input
            &&& row.use_count == nodes[row.node_id as int].use_count
            &&& row.use_count < M31_MODULUS
            &&& spec_logup_source_indices(bindings[i].source, kinds, claimed_sum_count) == Ok::<
                _,
                VmPublicLogupInputError,
            >((row.source_index_0, row.source_index_1))
        } by {
            if i < m {
                assert(after[i] == before[i]);
            }
        }
    }
}

/// Every accepted public-LogUp input layout owns exactly the circuit's
/// inputs: one row per binding, in order, each on an input node with that
/// node's canonical use count and an in-range source; no source is owned
/// twice; exactly one row is the segment selector; and the row count is the
/// count the claim shape and claimed sums call for.
pub proof fn lemma_logup_input_rows_own_inputs(reference: VmPublicLogupCircuit, circuit_id: u32)
    requires
        spec_logup_input_rows(reference, circuit_id) is Ok,
    ensures
        ({
            let rows = spec_logup_input_rows(reference, circuit_id)->Ok_0;
            let kinds = claim_word_kinds(reference.spec_shape());
            let claimed = reference.spec_claimed_sum_count();
            &&& logup_rows_own_inputs(
                rows,
                kinds,
                claimed,
                reference.spec_circuit().nodes@,
                reference.spec_input_bindings(),
                circuit_id,
            )
            &&& selector_rows(rows) == 1
            &&& rows.len() == reference.spec_input_bindings().len()
            &&& rows.len() == spec_logup_input_count(kinds, claimed)
        }),
{
    let bindings = reference.spec_input_bindings();
    let kinds = claim_word_kinds(reference.spec_shape());
    let claimed = reference.spec_claimed_sum_count();
    let nodes = reference.spec_circuit().nodes@;
    lemma_logup_input_scan_owns(kinds, claimed, nodes, bindings, circuit_id, bindings.len());
    lemma_logup_input_scan_counts(kinds, claimed, nodes, bindings, circuit_id, bindings.len());
}

proof fn lemma_push_scan_values(
    rows: Seq<LogupInputRow>,
    bindings: Seq<VmPublicLogupInputBinding>,
    nodes: Seq<CircuitNode>,
    active: bool,
    n: nat,
)
    requires
        n <= rows.len(),
        n <= bindings.len(),
        spec_push_scan(rows, bindings, nodes, active, n).1 is None,
    ensures
        ({
            let values = spec_push_scan(rows, bindings, nodes, active, n).0;
            &&& values.len() == n
            &&& forall|i: int|
                0 <= i < n ==> {
                    let binding = #[trigger] bindings[i];
                    &&& rows[i].node_id == binding.node_id
                    &&& rows[i].source == binding.source
                    &&& binding.node_id < nodes.len()
                    &&& values[i] == nodes[binding.node_id as int].value@[0]
                    &&& binding.source is SegmentSelector ==> values[i] == (if active {
                        1u32
                    } else {
                        0u32
                    })
                    &&& !active ==> !(binding.source is SegmentSelector) ==> values[i] == 0
                }
        }),
    decreases n,
{
    if n > 0 {
        lemma_push_scan_values(rows, bindings, nodes, active, (n - 1) as nat);
    }
}

/// Every materialization that succeeds pushes one value per input row, in
/// row order: the input's recorded base-field value, which is one for the
/// selector and zero for every other input outside an active segment, and
/// zero for the selector inside none.
pub proof fn lemma_push_values_follow_the_mode(
    preprocessed: VmPublicLogupInputPreprocessed,
    reference: VmPublicLogupCircuit,
    witness: VmPublicLogupCircuit,
    proof_kind: ProofKind,
)
    requires
        spec_push_outcome(preprocessed, reference, witness, proof_kind).1 is None,
    ensures
        ({
            let values = spec_push_outcome(preprocessed, reference, witness, proof_kind).0;
            let bindings = witness.spec_input_bindings();
            let nodes = witness.spec_circuit().nodes@;
            let active = proof_kind == ProofKind::SegmentLeaf;
            &&& values.len() == preprocessed.spec_rows().len()
            &&& bindings == reference.spec_input_bindings()
            &&& forall|i: int|
                0 <= i < values.len() ==> {
                    let binding = #[trigger] bindings[i];
                    &&& binding.node_id < nodes.len()
                    &&& values[i] == nodes[binding.node_id as int].value@[0]
                    &&& binding.source is SegmentSelector ==> values[i] == (if active {
                        1u32
                    } else {
                        0u32
                    })
                    &&& !active ==> !(binding.source is SegmentSelector) ==> values[i] == 0
                }
        }),
{
    let rows = preprocessed.spec_rows();
    let bindings = witness.spec_input_bindings();
    let nodes = witness.spec_circuit().nodes@;
    let active = proof_kind == ProofKind::SegmentLeaf;
    lemma_push_scan_values(rows, bindings, nodes, active, rows.len());
}

/// Preprocessed columns of the public-LogUp input table.
pub const LOGUP_INPUT_COLUMN_COUNT: usize = 11;

/// One when a condition holds, else zero.
pub open spec fn indicator(condition: bool) -> u32 {
    if condition {
        1
    } else {
        0
    }
}

/// The value of one row in preprocessed column `column`, in the table's
/// column order: row mask; claim-word, claim-byte, challenge, claimed-sum
/// and selector masks; circuit id; node id; use count; the two source
/// indices.
pub open spec fn logup_column_value(row: LogupInputRow, column: nat) -> u32 {
    if column == 0 {
        1
    } else if column == 1 {
        indicator(row.source is ClaimWord)
    } else if column == 2 {
        indicator(row.source is ClaimByte)
    } else if column == 3 {
        indicator(row.source is RelationChallengeWord)
    } else if column == 4 {
        indicator(row.source is ClaimedSumWord)
    } else if column == 5 {
        indicator(row.source is SegmentSelector)
    } else if column == 6 {
        row.circuit_id
    } else if column == 7 {
        row.node_id
    } else if column == 8 {
        row.use_count
    } else if column == 9 {
        row.source_index_0
    } else if column == 10 {
        row.source_index_1
    } else {
        0
    }
}

fn logup_row_value(row: LogupInputRow, column: usize) -> (value: u32)
    requires
        column < LOGUP_INPUT_COLUMN_COUNT,
    ensures
        value == logup_column_value(row, column as nat),
{
    let mask = match column {
        1 => matches!(row.source, VmPublicLogupInputSource::ClaimWord { .. }),
        2 => matches!(row.source, VmPublicLogupInputSource::ClaimByte { .. }),
        3 => matches!(row.source, VmPublicLogupInputSource::RelationChallengeWord { .. }),
        4 => matches!(row.source, VmPublicLogupInputSource::ClaimedSumWord { .. }),
        _ => matches!(row.source, VmPublicLogupInputSource::SegmentSelector),
    };
    match column {
        0 => 1,
        6 => row.circuit_id,
        7 => row.node_id,
        8 => row.use_count,
        9 => row.source_index_0,
        10 => row.source_index_1,
        _ => if mask {
            1
        } else {
            0
        },
    }
}

impl VmPublicLogupInputPreprocessed {
    /// The values of every preprocessed column over the padded domain: row
    /// `i` of column `c` is the value of table row `i` in column `c`, and
    /// zero past the table's end.
    pub fn column_values(&self) -> (columns: Vec<Vec<u32>>)
        ensures
            columns@.len() == LOGUP_INPUT_COLUMN_COUNT,
            forall|c: int|
                0 <= c < LOGUP_INPUT_COLUMN_COUNT ==> {
                    let column = #[trigger] columns@[c]@;
                    &&& column.len() == pow2(self.spec_log_size() as nat)
                    &&& forall|i: int|
                        0 <= i < column.len() ==> #[trigger] column[i] == if i < self.spec_rows().len() {
                            logup_column_value(self.spec_rows()[i], c as nat)
                        } else {
                            0
                        }
                },
    {
        let size = domain_size(self.log_size());
        let rows = self.rows();
        let mut columns: Vec<Vec<u32>> = Vec::new();
        let mut c: usize = 0;
        while c < LOGUP_INPUT_COLUMN_COUNT
            invariant
                c <= LOGUP_INPUT_COLUMN_COUNT,
                columns@.len() == c,
                rows@ == self.spec_rows(),
                size == pow2(self.spec_log_size() as nat),
                rows@.len() <= size,
                forall|d: int|
                    0 <= d < c ==> {
                        let column = #[trigger] columns@[d]@;
                        &&& column.len() == size
                        &&& forall|i: int|
                            0 <= i < column.len() ==> #[trigger] column[i] == if i < rows@.len() {
                                logup_column_value(rows@[i], d as nat)
                            } else {
                                0
                            }
                    },
            decreases LOGUP_INPUT_COLUMN_COUNT - c,
        {
            let mut column: Vec<u32> = Vec::new();
            let mut i: usize = 0;
            while i < size
                invariant
                    i <= size,
                    column@.len() == i,
                    c < LOGUP_INPUT_COLUMN_COUNT,
                    forall|j: int|
                        0 <= j < i ==> #[trigger] column@[j] == if j < rows@.len() {
                            logup_column_value(rows@[j], c as nat)
                        } else {
                            0
                        },
                decreases size - i,
            {
                if i < rows.len() {
                    column.push(logup_row_value(rows[i], c));
                } else {
                    column.push(0);
                }
                i = i + 1;
            }
            columns.push(column);
            c = c + 1;
        }
        columns
    }
}

} // verus!
