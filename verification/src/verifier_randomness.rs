//! Trusted non-relation randomness draws of every verifier lane.
//!
//! Each draw step of a verifier plan becomes one preprocessed row that fixes
//! the semantic kind of the drawn words, the first item they index and how
//! many of the eight drawn words are live. Relation challenges are drawn by a
//! table of their own and have no row here.
use crate::domain::{MAX_LOG_SIZE, PaddedSizeError, domain_size, padded_log_size};
use vstd::arithmetic::power2::pow2;
use crate::kernel::{
    LEFT_RECURSION_VERIFIER_ID, RIGHT_RECURSION_VERIFIER_ID, SEGMENT_VERIFIER_ID,
    StepEncoding, VerifierControlPlan, VerifierSchema, VerifierStep, spec_encode,
};
use crate::composition_control::VerifierLane;
use crate::transcript_program::{TranscriptEffect, spec_transcript_effect};
use vstd::prelude::*;

verus! {

/// Words produced by one transcript draw.
pub const DRAW_WORDS: u32 = 8;

/// Words of one secure-field value.
pub const SECURE_FIELD_WORDS: u32 = 4;

/// Non-interchangeable semantic classes of verifier transcript draws.
#[derive(Clone, Copy, Debug, PartialEq, Eq, Structural)]
pub enum VerifierRandomnessKind {
    CompositionRandomness,
    OodsPoint,
    DeepRandomness,
    FriAlpha,
    RawQuery,
}

/// The column value of each kind: one to five, in declaration order.
pub open spec fn spec_kind_value(kind: VerifierRandomnessKind) -> u32 {
    match kind {
        VerifierRandomnessKind::CompositionRandomness => 1,
        VerifierRandomnessKind::OodsPoint => 2,
        VerifierRandomnessKind::DeepRandomness => 3,
        VerifierRandomnessKind::FriAlpha => 4,
        VerifierRandomnessKind::RawQuery => 5,
    }
}

impl VerifierRandomnessKind {
    pub fn as_u32(self) -> (value: u32)
        ensures
            value == spec_kind_value(self),
    {
        match self {
            VerifierRandomnessKind::CompositionRandomness => 1,
            VerifierRandomnessKind::OodsPoint => 2,
            VerifierRandomnessKind::DeepRandomness => 3,
            VerifierRandomnessKind::FriAlpha => 4,
            VerifierRandomnessKind::RawQuery => 5,
        }
    }
}

/// What one draw means: its kind, the first item it indexes, whether each
/// live word is its own item, and how many of the drawn words are live.
#[derive(Clone, Copy, Debug, PartialEq, Eq, Structural)]
pub struct DrawDescriptor {
    pub kind: VerifierRandomnessKind,
    pub item_base: u32,
    pub query_items: bool,
    pub word_count: u32,
}

/// Invalid trusted randomness layout.
#[derive(Clone, Copy, Debug, PartialEq, Eq, Structural)]
pub enum VerifierRandomnessError {
    SchemaMismatch { lane: VerifierLane, expected: VerifierSchema, actual: VerifierSchema },
    RowCountOverflow,
    LogSizeOutOfRange { log_size: u32 },
    SequenceOutOfRange { sequence: usize },
    DrawCountOverflow,
    VerifierRandomnessMissing { schema: VerifierSchema },
    QueryBlockWidthOutOfRange { query_count: u32 },
    QueryIndexOverflow,
    UnknownVerifierId { verifier_id: u32 },
    OperationMissing { verifier_id: u32, sequence: u32 },
    OperationMismatch { verifier_id: u32, sequence: u32, expected: VerifierStep, actual: VerifierStep },
    DrawMissing { verifier_id: u32, sequence: u32 },
}

/// A secure-field draw: four live words forming one item.
pub open spec fn secure_descriptor(kind: VerifierRandomnessKind, item_base: u32) -> DrawDescriptor {
    DrawDescriptor { kind, item_base, query_items: false, word_count: SECURE_FIELD_WORDS }
}

/// The descriptor of a step's draw, `None` for a step that draws nothing
/// here, or the error for a malformed query block.
pub open spec fn spec_draw_descriptor(step: VerifierStep) -> Result<
    Option<DrawDescriptor>,
    VerifierRandomnessError,
> {
    match step {
        VerifierStep::DrawCompositionRandomness => Ok(
            Some(secure_descriptor(VerifierRandomnessKind::CompositionRandomness, 0)),
        ),
        VerifierStep::DrawOodsPoint => Ok(Some(secure_descriptor(VerifierRandomnessKind::OodsPoint, 0))),
        VerifierStep::DrawDeepRandomness => Ok(
            Some(secure_descriptor(VerifierRandomnessKind::DeepRandomness, 0)),
        ),
        VerifierStep::DrawFriAlpha { layer } => Ok(
            Some(secure_descriptor(VerifierRandomnessKind::FriAlpha, layer)),
        ),
        VerifierStep::DrawQueryBlock { block, first_query, query_count } => if query_count == 0
            || query_count > DRAW_WORDS {
            Err(VerifierRandomnessError::QueryBlockWidthOutOfRange { query_count })
        } else if first_query + query_count > u32::MAX {
            Err(VerifierRandomnessError::QueryIndexOverflow)
        } else {
            Ok(
                Some(
                    DrawDescriptor {
                        kind: VerifierRandomnessKind::RawQuery,
                        item_base: first_query,
                        query_items: true,
                        word_count: query_count,
                    },
                ),
            )
        },
        _ => Ok(None),
    }
}

/// Classifies the randomness drawn by one verifier step.
pub fn draw_descriptor(step: VerifierStep) -> (result: Result<
    Option<DrawDescriptor>,
    VerifierRandomnessError,
>)
    ensures
        result == spec_draw_descriptor(step),
        result matches Ok(Some(d)) ==> 1 <= d.word_count <= DRAW_WORDS && (d.query_items ==> d.item_base
            + d.word_count <= u32::MAX),
{
    match step {
        VerifierStep::DrawCompositionRandomness => Ok(
            Some(
                DrawDescriptor {
                    kind: VerifierRandomnessKind::CompositionRandomness,
                    item_base: 0,
                    query_items: false,
                    word_count: SECURE_FIELD_WORDS,
                },
            ),
        ),
        VerifierStep::DrawOodsPoint => Ok(
            Some(
                DrawDescriptor {
                    kind: VerifierRandomnessKind::OodsPoint,
                    item_base: 0,
                    query_items: false,
                    word_count: SECURE_FIELD_WORDS,
                },
            ),
        ),
        VerifierStep::DrawDeepRandomness => Ok(
            Some(
                DrawDescriptor {
                    kind: VerifierRandomnessKind::DeepRandomness,
                    item_base: 0,
                    query_items: false,
                    word_count: SECURE_FIELD_WORDS,
                },
            ),
        ),
        VerifierStep::DrawFriAlpha { layer } => Ok(
            Some(
                DrawDescriptor {
                    kind: VerifierRandomnessKind::FriAlpha,
                    item_base: layer,
                    query_items: false,
                    word_count: SECURE_FIELD_WORDS,
                },
            ),
        ),
        VerifierStep::DrawQueryBlock { block, first_query, query_count } => {
            if query_count == 0 || query_count > DRAW_WORDS {
                return Err(VerifierRandomnessError::QueryBlockWidthOutOfRange { query_count });
            }
            if first_query.checked_add(query_count).is_none() {
                return Err(VerifierRandomnessError::QueryIndexOverflow);
            }
            Ok(
                Some(
                    DrawDescriptor {
                        kind: VerifierRandomnessKind::RawQuery,
                        item_base: first_query,
                        query_items: true,
                        word_count: query_count,
                    },
                ),
            )
        },
        _ => Ok(None),
    }
}

/// One trusted draw row: its lane, the step's plan position and encoding,
/// and what the draw means.
#[derive(Clone, Copy, Debug, PartialEq, Eq, Structural)]
pub struct RandomnessRow {
    pub segment_mask: u32,
    pub binary_mask: u32,
    pub verifier_id: u32,
    pub sequence: u32,
    pub step: VerifierStep,
    pub encoding: StepEncoding,
    pub descriptor: DrawDescriptor,
}

/// The rows of the draw steps among the first `n` steps of a plan, or the
/// first error met.
pub open spec fn spec_draw_scan(
    steps: Seq<VerifierStep>,
    n: nat,
    verifier_id: u32,
    segment_mask: u32,
    binary_mask: u32,
) -> Result<Seq<RandomnessRow>, VerifierRandomnessError>
    decreases n,
{
    if n == 0 {
        Ok(Seq::empty())
    } else {
        match spec_draw_scan(steps, (n - 1) as nat, verifier_id, segment_mask, binary_mask) {
            Err(error) => Err(error),
            Ok(rows) => match spec_draw_descriptor(steps[n - 1]) {
                Err(error) => Err(error),
                Ok(None) => Ok(rows),
                Ok(Some(descriptor)) => if n - 1 > u32::MAX {
                    Err(VerifierRandomnessError::SequenceOutOfRange { sequence: (n - 1) as usize })
                } else if rows.len() + 1 > u32::MAX {
                    Err(VerifierRandomnessError::DrawCountOverflow)
                } else {
                    Ok(
                        rows.push(
                            RandomnessRow {
                                segment_mask,
                                binary_mask,
                                verifier_id,
                                sequence: (n - 1) as u32,
                                step: steps[n - 1],
                                encoding: spec_encode(steps[n - 1]),
                                descriptor,
                            },
                        ),
                    )
                },
            },
        }
    }
}

/// The draw rows of a whole plan; a plan without any draw is an error.
pub open spec fn spec_plan_rows(
    plan: VerifierControlPlan,
    verifier_id: u32,
    segment_mask: u32,
    binary_mask: u32,
) -> Result<Seq<RandomnessRow>, VerifierRandomnessError> {
    match spec_draw_scan(plan.steps@, plan.steps@.len(), verifier_id, segment_mask, binary_mask) {
        Err(error) => Err(error),
        Ok(rows) => if rows.len() == 0 {
            Err(VerifierRandomnessError::VerifierRandomnessMissing { schema: plan.schema })
        } else {
            Ok(rows)
        },
    }
}

proof fn lemma_draw_scan_error_sticks(
    steps: Seq<VerifierStep>,
    n: nat,
    m: nat,
    verifier_id: u32,
    segment_mask: u32,
    binary_mask: u32,
)
    requires
        n <= m,
        spec_draw_scan(steps, n, verifier_id, segment_mask, binary_mask) is Err,
    ensures
        spec_draw_scan(steps, m, verifier_id, segment_mask, binary_mask) == spec_draw_scan(
            steps,
            n,
            verifier_id,
            segment_mask,
            binary_mask,
        ),
    decreases m - n,
{
    if m > n {
        lemma_draw_scan_error_sticks(steps, n, (m - 1) as nat, verifier_id, segment_mask, binary_mask);
    }
}

/// Appends the draw rows of one plan and returns how many it appended.
pub fn append_plan_rows(
    rows: &mut Vec<RandomnessRow>,
    plan: &VerifierControlPlan,
    verifier_id: u32,
    segment_mask: u32,
    binary_mask: u32,
) -> (result: Result<u32, VerifierRandomnessError>)
    ensures
        match spec_plan_rows(*plan, verifier_id, segment_mask, binary_mask) {
            Ok(added) => result == Ok::<u32, VerifierRandomnessError>(added.len() as u32)
                && final(rows)@ == old(rows)@ + added,
            Err(error) => result == Err::<u32, _>(error),
        },
{
    let ghost start = rows@;
    let n = plan.steps.len();
    let mut draw_count: u32 = 0;
    let mut i: usize = 0;
    while i < n
        invariant
            i <= n,
            n == plan.steps@.len(),
            spec_draw_scan(plan.steps@, i as nat, verifier_id, segment_mask, binary_mask) matches Ok(
                added,
            ) && rows@ == start + added && draw_count == added.len(),
        decreases n - i,
    {
        let step = plan.steps[i];
        let ghost added = spec_draw_scan(plan.steps@, i as nat, verifier_id, segment_mask, binary_mask)->Ok_0;
        let descriptor = match draw_descriptor(step) {
            Ok(Some(descriptor)) => descriptor,
            Ok(None) => {
                i = i + 1;
                continue;
            },
            Err(error) => {
                proof {
                    lemma_draw_scan_error_sticks(
                        plan.steps@,
                        (i + 1) as nat,
                        n as nat,
                        verifier_id,
                        segment_mask,
                        binary_mask,
                    );
                }
                return Err(error);
            },
        };
        if i > u32::MAX as usize {
            proof {
                lemma_draw_scan_error_sticks(
                    plan.steps@,
                    (i + 1) as nat,
                    n as nat,
                    verifier_id,
                    segment_mask,
                    binary_mask,
                );
            }
            return Err(VerifierRandomnessError::SequenceOutOfRange { sequence: i });
        }
        if draw_count == u32::MAX {
            proof {
                lemma_draw_scan_error_sticks(
                    plan.steps@,
                    (i + 1) as nat,
                    n as nat,
                    verifier_id,
                    segment_mask,
                    binary_mask,
                );
            }
            return Err(VerifierRandomnessError::DrawCountOverflow);
        }
        let encoding = step.encode();
        rows.push(
            RandomnessRow {
                segment_mask,
                binary_mask,
                verifier_id,
                sequence: i as u32,
                step,
                encoding,
                descriptor,
            },
        );
        proof {
            assert(rows@ =~= start + spec_draw_scan(
                plan.steps@,
                (i + 1) as nat,
                verifier_id,
                segment_mask,
                binary_mask,
            )->Ok_0);
        }
        draw_count = draw_count + 1;
        i = i + 1;
    }
    if draw_count == 0 {
        return Err(VerifierRandomnessError::VerifierRandomnessMissing { schema: plan.schema() });
    }
    Ok(draw_count)
}

/// The rows of all three lanes, with the VM and recursion draw counts.
pub open spec fn spec_randomness_rows(vm: VerifierControlPlan, recursion: VerifierControlPlan) -> Result<
    (Seq<RandomnessRow>, u32, u32),
    VerifierRandomnessError,
> {
    if vm.schema != VerifierSchema::Vm {
        Err(
            VerifierRandomnessError::SchemaMismatch {
                lane: VerifierLane::Segment,
                expected: VerifierSchema::Vm,
                actual: vm.schema,
            },
        )
    } else if recursion.schema != VerifierSchema::Recursion {
        Err(
            VerifierRandomnessError::SchemaMismatch {
                lane: VerifierLane::Binary,
                expected: VerifierSchema::Recursion,
                actual: recursion.schema,
            },
        )
    } else {
        match spec_plan_rows(vm, SEGMENT_VERIFIER_ID, 1, 0) {
            Err(error) => Err(error),
            Ok(segment) => match spec_plan_rows(recursion, LEFT_RECURSION_VERIFIER_ID, 0, 1) {
                Err(error) => Err(error),
                Ok(left) => match spec_plan_rows(recursion, RIGHT_RECURSION_VERIFIER_ID, 0, 1) {
                    Err(error) => Err(error),
                    Ok(right) => Ok((segment + left + right, segment.len() as u32, left.len() as u32)),
                },
            },
        }
    }
}

/// Trusted non-relation draw operations for all three verifier lanes.
#[derive(Debug)]
pub struct VerifierRandomnessPreprocessed {
    log_size: u32,
    rows: Vec<RandomnessRow>,
    vm_draw_count: u32,
    recursion_draw_count: u32,
}

impl VerifierRandomnessPreprocessed {
    /// The rows fit the table's domain, which fits the largest domain.
    #[verifier::type_invariant]
    closed spec fn rows_fit(self) -> bool {
        &&& self.log_size <= MAX_LOG_SIZE
        &&& self.rows@.len() <= pow2(self.log_size as nat)
    }

    pub closed spec fn spec_rows(&self) -> Seq<RandomnessRow> {
        self.rows@
    }

    pub closed spec fn spec_log_size(&self) -> u32 {
        self.log_size
    }

    pub closed spec fn spec_draw_counts(&self) -> (u32, u32) {
        (self.vm_draw_count, self.recursion_draw_count)
    }

    /// Builds the draw rows of the segment lane from the VM plan and of both
    /// binary lanes from the recursion plan, padded to a power-of-two domain.
    pub fn new(vm: &VerifierControlPlan, recursion: &VerifierControlPlan) -> (result: Result<
        Self,
        VerifierRandomnessError,
    >)
        ensures
            match spec_randomness_rows(*vm, *recursion) {
                Err(error) => result == Err::<Self, _>(error),
                Ok((rows, vm_draws, recursion_draws)) => match crate::domain::spec_padded_log_size(
                    rows.len(),
                    MAX_LOG_SIZE,
                ) {
                    Ok(log_size) => result matches Ok(pre) && {
                        &&& pre.spec_rows() == rows
                        &&& pre.spec_log_size() == log_size
                        &&& pre.spec_draw_counts() == (vm_draws, recursion_draws)
                    },
                    Err(PaddedSizeError::RowCountOverflow) => result == Err::<Self, _>(
                        VerifierRandomnessError::RowCountOverflow,
                    ),
                    Err(PaddedSizeError::LogSizeOutOfRange { log_size }) => result == Err::<Self, _>(
                        VerifierRandomnessError::LogSizeOutOfRange { log_size },
                    ),
                },
            },
    {
        if vm.schema() != VerifierSchema::Vm {
            return Err(
                VerifierRandomnessError::SchemaMismatch {
                    lane: VerifierLane::Segment,
                    expected: VerifierSchema::Vm,
                    actual: vm.schema(),
                },
            );
        }
        if recursion.schema() != VerifierSchema::Recursion {
            return Err(
                VerifierRandomnessError::SchemaMismatch {
                    lane: VerifierLane::Binary,
                    expected: VerifierSchema::Recursion,
                    actual: recursion.schema(),
                },
            );
        }
        let mut rows: Vec<RandomnessRow> = Vec::new();
        let vm_draw_count = append_plan_rows(&mut rows, vm, SEGMENT_VERIFIER_ID, 1, 0)?;
        let recursion_draw_count = append_plan_rows(
            &mut rows,
            recursion,
            LEFT_RECURSION_VERIFIER_ID,
            0,
            1,
        )?;
        append_plan_rows(&mut rows, recursion, RIGHT_RECURSION_VERIFIER_ID, 0, 1)?;
        let log_size = match padded_log_size(rows.len(), MAX_LOG_SIZE) {
            Ok(log_size) => log_size,
            Err(PaddedSizeError::RowCountOverflow) => {
                return Err(VerifierRandomnessError::RowCountOverflow);
            },
            Err(PaddedSizeError::LogSizeOutOfRange { log_size }) => {
                return Err(VerifierRandomnessError::LogSizeOutOfRange { log_size });
            },
        };
        Ok(VerifierRandomnessPreprocessed { log_size, rows, vm_draw_count, recursion_draw_count })
    }

    /// The log size of the table's domain, which holds every row.
    pub fn log_size(&self) -> (log_size: u32)
        ensures
            log_size == self.spec_log_size(),
            log_size <= MAX_LOG_SIZE,
            self.spec_rows().len() <= pow2(log_size as nat),
    {
        proof {
            use_type_invariant(self);
        }
        self.log_size
    }

    pub fn vm_draw_count(&self) -> (count: u32)
        ensures
            count == self.spec_draw_counts().0,
    {
        self.vm_draw_count
    }

    pub fn recursion_draw_count(&self) -> (count: u32)
        ensures
            count == self.spec_draw_counts().1,
    {
        self.recursion_draw_count
    }

    /// The trusted rows, segment lane first, then the left and right lanes.
    pub fn rows(&self) -> (rows: &[RandomnessRow])
        ensures
            rows@ == self.spec_rows(),
    {
        self.rows.as_slice()
    }
}

/// The rows of a scan are exactly the draw steps of the scanned prefix, in
/// plan order, each on its lane and with the descriptor of its own step.
pub open spec fn rows_are_draws(
    steps: Seq<VerifierStep>,
    n: nat,
    rows: Seq<RandomnessRow>,
    verifier_id: u32,
) -> bool {
    &&& forall|i: int|
        0 <= i < rows.len() ==> {
            let row = #[trigger] rows[i];
            &&& row.sequence < n
            &&& row.verifier_id == verifier_id
            &&& row.step == steps[row.sequence as int]
            &&& row.encoding == spec_encode(row.step)
            &&& spec_draw_descriptor(row.step) == Ok::<_, VerifierRandomnessError>(
                Some(row.descriptor),
            )
        }
    &&& forall|i: int, j: int| 0 <= i < j < rows.len() ==> rows[i].sequence < rows[j].sequence
    &&& forall|s: int|
        0 <= s < n && (spec_draw_descriptor(steps[s]) is Ok && spec_draw_descriptor(steps[s])->Ok_0 is Some) ==> exists|i: int|
            0 <= i < rows.len() && (#[trigger] rows[i]).sequence == s
}

proof fn lemma_draw_scan_rows(
    steps: Seq<VerifierStep>,
    n: nat,
    verifier_id: u32,
    segment_mask: u32,
    binary_mask: u32,
)
    requires
        n <= steps.len(),
        spec_draw_scan(steps, n, verifier_id, segment_mask, binary_mask) is Ok,
    ensures
        rows_are_draws(
            steps,
            n,
            spec_draw_scan(steps, n, verifier_id, segment_mask, binary_mask)->Ok_0,
            verifier_id,
        ),
    decreases n,
{
    if n > 0 {
        let m = (n - 1) as nat;
        lemma_draw_scan_rows(steps, m, verifier_id, segment_mask, binary_mask);
        let before = spec_draw_scan(steps, m, verifier_id, segment_mask, binary_mask)->Ok_0;
        let after = spec_draw_scan(steps, n, verifier_id, segment_mask, binary_mask)->Ok_0;
        assert forall|s: int|
            0 <= s < n && (spec_draw_descriptor(steps[s]) is Ok && spec_draw_descriptor(steps[s])->Ok_0 is Some) implies exists|i: int|
                0 <= i < after.len() && (#[trigger] after[i]).sequence == s by {
            if s < m {
                let i = choose|i: int| 0 <= i < before.len() && (#[trigger] before[i]).sequence == s;
                assert(after[i] == before[i]);
            } else {
                assert(after[before.len() as int].sequence == s);
            }
        }
        assert forall|i: int, j: int| 0 <= i < j < after.len() implies after[i].sequence
            < after[j].sequence by {
            if j == before.len() {
                assert(after[i] == before[i]);
            } else {
                assert(after[i] == before[i]);
                assert(after[j] == before[j]);
            }
        }
        assert forall|i: int| 0 <= i < after.len() implies {
            let row = #[trigger] after[i];
            &&& row.sequence < n
            &&& row.verifier_id == verifier_id
            &&& row.step == steps[row.sequence as int]
            &&& row.encoding == spec_encode(row.step)
            &&& spec_draw_descriptor(row.step) == Ok::<_, VerifierRandomnessError>(
                Some(row.descriptor),
            )
        } by {
            if i < before.len() {
                assert(after[i] == before[i]);
            }
        }
    }
}

/// Every lane's rows are exactly the draw steps of its plan, in plan order:
/// each row sits at its step's position, on its lane, with its own step's
/// descriptor, and no draw step of the plan is left without a row.
pub proof fn lemma_plan_rows_are_draws(
    plan: VerifierControlPlan,
    verifier_id: u32,
    segment_mask: u32,
    binary_mask: u32,
)
    requires
        spec_plan_rows(plan, verifier_id, segment_mask, binary_mask) is Ok,
    ensures
        rows_are_draws(
            plan.steps@,
            plan.steps@.len(),
            spec_plan_rows(plan, verifier_id, segment_mask, binary_mask)->Ok_0,
            verifier_id,
        ),
{
    lemma_draw_scan_rows(plan.steps@, plan.steps@.len(), verifier_id, segment_mask, binary_mask);
}

/// Both binary lanes read the recursion plan alike: the right lane's rows are
/// the left lane's rows with the right verifier id.
pub proof fn lemma_binary_lanes_agree(plan: VerifierControlPlan, n: nat)
    requires
        spec_draw_scan(plan.steps@, n, LEFT_RECURSION_VERIFIER_ID, 0, 1) is Ok,
    ensures
        spec_draw_scan(plan.steps@, n, RIGHT_RECURSION_VERIFIER_ID, 0, 1) matches Ok(right) && {
            let left = spec_draw_scan(plan.steps@, n, LEFT_RECURSION_VERIFIER_ID, 0, 1)->Ok_0;
            &&& right.len() == left.len()
            &&& forall|i: int|
                0 <= i < left.len() ==> #[trigger] right[i] == RandomnessRow {
                    verifier_id: RIGHT_RECURSION_VERIFIER_ID,
                    ..left[i]
                }
        },
    decreases n,
{
    if n > 0 {
        lemma_binary_lanes_agree(plan, (n - 1) as nat);
        let left0 = spec_draw_scan(plan.steps@, (n - 1) as nat, LEFT_RECURSION_VERIFIER_ID, 0, 1)->Ok_0;
        let right0 = spec_draw_scan(plan.steps@, (n - 1) as nat, RIGHT_RECURSION_VERIFIER_ID, 0, 1)->Ok_0;
        let left = spec_draw_scan(plan.steps@, n, LEFT_RECURSION_VERIFIER_ID, 0, 1)->Ok_0;
        let right = spec_draw_scan(plan.steps@, n, RIGHT_RECURSION_VERIFIER_ID, 0, 1)->Ok_0;
        assert forall|i: int| 0 <= i < left.len() implies #[trigger] right[i] == RandomnessRow {
            verifier_id: RIGHT_RECURSION_VERIFIER_ID,
            ..left[i]
        } by {
            if i < left0.len() {
                assert(left[i] == left0[i]);
                assert(right[i] == right0[i]);
            }
        }
    }
}

/// How many of the first `n` steps draw randomness this table classifies.
pub open spec fn randomness_step_count(steps: Seq<VerifierStep>, n: nat) -> nat
    decreases n,
{
    if n == 0 {
        0
    } else {
        randomness_step_count(steps, (n - 1) as nat) + if spec_draw_descriptor(steps[n - 1]) matches Ok(Some(_)) {
            1nat
        } else {
            0nat
        }
    }
}

/// How many of the first `n` steps draw a relation challenge.
pub open spec fn challenge_step_count(steps: Seq<VerifierStep>, n: nat) -> nat
    decreases n,
{
    if n == 0 {
        0
    } else {
        challenge_step_count(steps, (n - 1) as nat) + if steps[n - 1] is DrawRelationChallenge {
            1nat
        } else {
            0nat
        }
    }
}

/// How many of the first `n` steps draw from the transcript.
pub open spec fn transcript_draw_count(steps: Seq<VerifierStep>, n: nat) -> nat
    decreases n,
{
    if n == 0 {
        0
    } else {
        transcript_draw_count(steps, (n - 1) as nat) + if spec_transcript_effect(steps[n - 1]) == Some(
            TranscriptEffect::Draw,
        ) {
            1nat
        } else {
            0nat
        }
    }
}

proof fn lemma_draw_scan_counts(
    steps: Seq<VerifierStep>,
    n: nat,
    verifier_id: u32,
    segment_mask: u32,
    binary_mask: u32,
)
    requires
        n <= steps.len(),
        spec_draw_scan(steps, n, verifier_id, segment_mask, binary_mask) is Ok,
    ensures
        spec_draw_scan(steps, n, verifier_id, segment_mask, binary_mask)->Ok_0.len() == randomness_step_count(
            steps,
            n,
        ),
        randomness_step_count(steps, n) + challenge_step_count(steps, n) == transcript_draw_count(steps, n),
        randomness_step_count(steps, n) <= u32::MAX,
    decreases n,
{
    if n > 0 {
        let m = (n - 1) as nat;
        lemma_draw_scan_counts(steps, m, verifier_id, segment_mask, binary_mask);
    }
}

/// The table's row and draw counts, for every pair of plans it accepts:
/// each lane has one row per draw step of its plan that this table
/// classifies, at least one; both binary lanes read the recursion plan, so
/// the rows number the VM draws plus twice the recursion draws; and in each
/// plan these draws and the relation-challenge draws together are exactly
/// the steps that draw from the transcript.
pub proof fn lemma_randomness_row_counts(vm: VerifierControlPlan, recursion: VerifierControlPlan)
    requires
        spec_randomness_rows(vm, recursion) is Ok,
    ensures
        ({
            let (rows, vm_draws, recursion_draws) = spec_randomness_rows(vm, recursion)->Ok_0;
            &&& vm_draws == randomness_step_count(vm.steps@, vm.steps@.len())
            &&& recursion_draws == randomness_step_count(recursion.steps@, recursion.steps@.len())
            &&& vm_draws >= 1
            &&& recursion_draws >= 1
            &&& rows.len() == vm_draws + 2 * recursion_draws
            &&& vm_draws + challenge_step_count(vm.steps@, vm.steps@.len()) == transcript_draw_count(
                vm.steps@,
                vm.steps@.len(),
            )
            &&& recursion_draws + challenge_step_count(recursion.steps@, recursion.steps@.len())
                == transcript_draw_count(recursion.steps@, recursion.steps@.len())
        }),
{
    let vs = vm.steps@;
    let rs = recursion.steps@;
    lemma_draw_scan_counts(vs, vs.len(), SEGMENT_VERIFIER_ID, 1, 0);
    lemma_draw_scan_counts(rs, rs.len(), LEFT_RECURSION_VERIFIER_ID, 0, 1);
    lemma_binary_lanes_agree(recursion, rs.len());
    let segment = spec_draw_scan(vs, vs.len(), SEGMENT_VERIFIER_ID, 1, 0)->Ok_0;
    let left = spec_draw_scan(rs, rs.len(), LEFT_RECURSION_VERIFIER_ID, 0, 1)->Ok_0;
    let right = spec_draw_scan(rs, rs.len(), RIGHT_RECURSION_VERIFIER_ID, 0, 1)->Ok_0;
    assert(spec_plan_rows(vm, SEGMENT_VERIFIER_ID, 1, 0) == Ok::<_, VerifierRandomnessError>(segment));
    assert(spec_plan_rows(recursion, LEFT_RECURSION_VERIFIER_ID, 0, 1) == Ok::<_, VerifierRandomnessError>(left));
    assert(spec_plan_rows(recursion, RIGHT_RECURSION_VERIFIER_ID, 0, 1) == Ok::<_, VerifierRandomnessError>(right));
    assert(right.len() == left.len());
}

/// Preprocessed columns of the randomness table.
pub const RANDOMNESS_COLUMN_COUNT: usize = 21;

/// One when a condition holds, else zero.
pub open spec fn indicator(condition: bool) -> u32 {
    if condition {
        1
    } else {
        0
    }
}

/// The value of one row in preprocessed column `column`, in the table's
/// column order: row mask; segment and binary masks; verifier id; control
/// sequence, tag and four arguments; kind; item base; query-items mask; one
/// mask per draw word that the draw uses.
pub open spec fn randomness_column_value(row: RandomnessRow, column: nat) -> u32 {
    if column == 0 {
        1
    } else if column == 1 {
        row.segment_mask
    } else if column == 2 {
        row.binary_mask
    } else if column == 3 {
        row.verifier_id
    } else if column == 4 {
        row.sequence
    } else if column == 5 {
        row.encoding.tag
    } else if column == 6 {
        row.encoding.arg_0
    } else if column == 7 {
        row.encoding.arg_1
    } else if column == 8 {
        row.encoding.arg_2
    } else if column == 9 {
        row.encoding.arg_3
    } else if column == 10 {
        spec_kind_value(row.descriptor.kind)
    } else if column == 11 {
        row.descriptor.item_base
    } else if column == 12 {
        indicator(row.descriptor.query_items)
    } else if column < RANDOMNESS_COLUMN_COUNT {
        indicator(column - 13 < row.descriptor.word_count)
    } else {
        0
    }
}

fn randomness_row_value(row: &RandomnessRow, column: usize) -> (value: u32)
    requires
        column < RANDOMNESS_COLUMN_COUNT,
    ensures
        value == randomness_column_value(*row, column as nat),
{
    match column {
        0 => 1,
        1 => row.segment_mask,
        2 => row.binary_mask,
        3 => row.verifier_id,
        4 => row.sequence,
        5 => row.encoding.tag,
        6 => row.encoding.arg_0,
        7 => row.encoding.arg_1,
        8 => row.encoding.arg_2,
        9 => row.encoding.arg_3,
        10 => row.descriptor.kind.as_u32(),
        11 => row.descriptor.item_base,
        12 => if row.descriptor.query_items {
            1
        } else {
            0
        },
        _ => if ((column - 13) as u32) < row.descriptor.word_count {
            1
        } else {
            0
        },
    }
}

impl VerifierRandomnessPreprocessed {
    /// The values of every preprocessed column over the padded domain: row
    /// `i` of column `c` is the value of table row `i` in column `c`, and
    /// zero past the table's end.
    pub fn column_values(&self) -> (columns: Vec<Vec<u32>>)
        ensures
            columns@.len() == RANDOMNESS_COLUMN_COUNT,
            forall|c: int|
                0 <= c < RANDOMNESS_COLUMN_COUNT ==> {
                    let column = #[trigger] columns@[c]@;
                    &&& column.len() == pow2(self.spec_log_size() as nat)
                    &&& forall|i: int|
                        0 <= i < column.len() ==> #[trigger] column[i] == if i < self.spec_rows().len() {
                            randomness_column_value(self.spec_rows()[i], c as nat)
                        } else {
                            0
                        }
                },
    {
        let size = domain_size(self.log_size());
        let rows = self.rows();
        let mut columns: Vec<Vec<u32>> = Vec::new();
        let mut c: usize = 0;
        while c < RANDOMNESS_COLUMN_COUNT
            invariant
                c <= RANDOMNESS_COLUMN_COUNT,
                columns@.len() == c,
                rows@ == self.spec_rows(),
                size == pow2(self.spec_log_size() as nat),
                rows@.len() <= size,
                forall|d: int|
                    0 <= d < c ==> {
                        let column = #[trigger] columns@[d]@;
                        &&& column.len() == size
                        &&& forall|i: int|
                            0 <= i < column.len() ==> #[trigger] column[i] == if i < rows@.len() {
                                randomness_column_value(rows@[i], d as nat)
                            } else {
                                0
                            }
                    },
            decreases RANDOMNESS_COLUMN_COUNT - c,
        {
            let mut column: Vec<u32> = Vec::new();
            let mut i: usize = 0;
            while i < size
                invariant
                    i <= size,
                    column@.len() == i,
                    c < RANDOMNESS_COLUMN_COUNT,
                    forall|j: int|
                        0 <= j < i ==> #[trigger] column@[j] == if j < rows@.len() {
                            randomness_column_value(rows@[j], c as nat)
                        } else {
                            0
                        },
                decreases size - i,
            {
                if i < rows.len() {
                    column.push(randomness_row_value(&rows[i], c));
                } else {
                    column.push(0);
                }
                i = i + 1;
            }
            columns.push(column);
            c = c + 1;
        }
        columns
    }
}

} // verus!
