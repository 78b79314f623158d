//! Control steps consumed by universal AIR-composition verification.
//!
//! Preprocessing extracts, from each trusted verifier plan, the contiguous
//! slice of AIR-evaluation instructions and the composition assertion that
//! immediately follows it. The plan's fixed profile supplies both counts, so
//! proof values can neither shorten the AIR program nor move the boundary of
//! the sampled values. The segment lane comes from the VM plan; the two binary
//! lanes both come from the recursion plan.
use crate::composition_profile::VmAirCompositionProfile;
use crate::domain::{MAX_LOG_SIZE, PaddedSizeError, domain_size, padded_log_size, padded_log_size_ok};
use vstd::arithmetic::power2::pow2;
use crate::kernel::{
    LEFT_RECURSION_VERIFIER_ID, RIGHT_RECURSION_VERIFIER_ID, SEGMENT_VERIFIER_ID,
    VerifierControlPlan, VerifierSchema, VerifierStep, spec_encode,
};
use vstd::prelude::*;

verus! {

/// Which lane of the universal verifier a schema check is about.
#[derive(Clone, Copy, Debug, PartialEq, Eq, Structural)]
pub enum VerifierLane {
    Segment,
    Binary,
}

/// Invalid AIR-composition control slice.
#[derive(Clone, Copy, Debug, PartialEq, Eq, Structural)]
pub enum VmAirCompositionControlError {
    SchemaMismatch { lane: VerifierLane, expected: VerifierSchema, actual: VerifierSchema },
    RowCountOverflow,
    LogSizeOutOfRange { log_size: u32 },
    SequenceOutOfRange { sequence: usize },
    NonCanonicalInstructionIndex { expected: u32, actual: u32 },
    NonContiguousInstruction { previous: usize, actual: usize },
    InstructionCountOverflow,
    InstructionCountMismatch { expected: u32, actual: u32 },
    InstructionAfterCompositionAssertion { instruction: u32 },
    DuplicateCompositionAssertion,
    CompositionAssertionNotAdjacent { previous: usize, actual: usize },
    CompositionAssertionMissing,
    SampledValueCountMismatch { expected: u32, actual: u32 },
}

/// One preprocessed control row: the lane, the step's plan position, and the
/// step's encoding.
#[derive(Clone, Copy, Debug, PartialEq, Eq, Structural)]
pub struct ControlRow {
    pub segment_mask: u32,
    pub verifier_id: u32,
    pub sequence: u32,
    pub tag: u32,
    pub arg_0: u32,
    pub arg_1: u32,
    pub arg_2: u32,
    pub arg_3: u32,
}

/// The row for one step, or the error when its position does not fit `u32`.
pub open spec fn spec_encoded_row(sequence: usize, step: VerifierStep, verifier_id: u32) -> Result<
    ControlRow,
    VmAirCompositionControlError,
> {
    if sequence > u32::MAX {
        Err(VmAirCompositionControlError::SequenceOutOfRange { sequence })
    } else {
        let encoded = spec_encode(step);
        Ok(
            ControlRow {
                segment_mask: if verifier_id == SEGMENT_VERIFIER_ID {
                    1
                } else {
                    0
                },
                verifier_id,
                sequence: sequence as u32,
                tag: encoded.tag,
                arg_0: encoded.arg_0,
                arg_1: encoded.arg_1,
                arg_2: encoded.arg_2,
                arg_3: encoded.arg_3,
            },
        )
    }
}

/// Scan state: rows so far, the next expected instruction index, the position
/// of the last instruction, and the position of the composition assertion.
pub type ControlScan = (Seq<ControlRow>, u32, Option<usize>, Option<usize>);

/// One step of the scan over a plan. Steps other than AIR instructions and
/// the composition assertion leave the state unchanged.
pub open spec fn control_scan_step(
    state: ControlScan,
    sequence: usize,
    step: VerifierStep,
    air_instruction_count: u32,
    sampled_value_count: u32,
    verifier_id: u32,
) -> Result<ControlScan, VmAirCompositionControlError> {
    let (rows, expected, previous, assertion) = state;
    match step {
        VerifierStep::EvaluateAirInstruction { instruction } => {
            if assertion is Some {
                Err(VmAirCompositionControlError::InstructionAfterCompositionAssertion { instruction })
            } else if instruction != expected {
                Err(
                    VmAirCompositionControlError::NonCanonicalInstructionIndex {
                        expected,
                        actual: instruction,
                    },
                )
            } else if previous is Some && sequence != previous->0 + 1 {
                Err(
                    VmAirCompositionControlError::NonContiguousInstruction {
                        previous: previous->0,
                        actual: sequence,
                    },
                )
            } else {
                match spec_encoded_row(sequence, step, verifier_id) {
                    Err(error) => Err(error),
                    Ok(row) => if expected == u32::MAX {
                        Err(VmAirCompositionControlError::InstructionCountOverflow)
                    } else {
                        Ok((rows.push(row), (expected + 1) as u32, Some(sequence), assertion))
                    },
                }
            }
        },
        VerifierStep::AssertComposition { sampled_value_count: actual } => {
            if assertion is Some {
                Err(VmAirCompositionControlError::DuplicateCompositionAssertion)
            } else if expected != air_instruction_count {
                Err(
                    VmAirCompositionControlError::InstructionCountMismatch {
                        expected: air_instruction_count,
                        actual: expected,
                    },
                )
            } else if actual != sampled_value_count {
                Err(
                    VmAirCompositionControlError::SampledValueCountMismatch {
                        expected: sampled_value_count,
                        actual,
                    },
                )
            } else if previous is Some && sequence != previous->0 + 1 {
                Err(
                    VmAirCompositionControlError::CompositionAssertionNotAdjacent {
                        previous: previous->0,
                        actual: sequence,
                    },
                )
            } else {
                match spec_encoded_row(sequence, step, verifier_id) {
                    Err(error) => Err(error),
                    Ok(row) => Ok((rows.push(row), expected, previous, Some(sequence))),
                }
            }
        },
        _ => Ok(state),
    }
}

/// The scan state after the first `n` steps, or the first error.
pub open spec fn control_scan(
    steps: Seq<VerifierStep>,
    n: nat,
    air_instruction_count: u32,
    sampled_value_count: u32,
    verifier_id: u32,
) -> Result<ControlScan, VmAirCompositionControlError>
    decreases n,
{
    if n == 0 {
        Ok((Seq::empty(), 0u32, None, None))
    } else {
        match control_scan(
            steps,
            (n - 1) as nat,
            air_instruction_count,
            sampled_value_count,
            verifier_id,
        ) {
            Err(error) => Err(error),
            Ok(state) => control_scan_step(
                state,
                (n - 1) as usize,
                steps[n - 1],
                air_instruction_count,
                sampled_value_count,
                verifier_id,
            ),
        }
    }
}

/// The rows of one lane: the result of scanning the whole plan, provided it
/// met every instruction and the assertion.
pub open spec fn spec_validated_rows(
    steps: Seq<VerifierStep>,
    air_instruction_count: u32,
    sampled_value_count: u32,
    verifier_id: u32,
) -> Result<Seq<ControlRow>, VmAirCompositionControlError> {
    match control_scan(
        steps,
        steps.len(),
        air_instruction_count,
        sampled_value_count,
        verifier_id,
    ) {
        Err(error) => Err(error),
        Ok((rows, expected, _, assertion)) => if expected != air_instruction_count {
            Err(
                VmAirCompositionControlError::InstructionCountMismatch {
                    expected: air_instruction_count,
                    actual: expected,
                },
            )
        } else if assertion is None {
            Err(VmAirCompositionControlError::CompositionAssertionMissing)
        } else {
            Ok(rows)
        },
    }
}

/// A scan that fails on a prefix fails, with the same error, on the whole plan.
pub proof fn lemma_control_scan_error_sticks(
    steps: Seq<VerifierStep>,
    n: nat,
    air_instruction_count: u32,
    sampled_value_count: u32,
    verifier_id: u32,
)
    requires
        n <= steps.len(),
    ensures
        control_scan(steps, n, air_instruction_count, sampled_value_count, verifier_id) is Err
            ==> spec_validated_rows(steps, air_instruction_count, sampled_value_count, verifier_id)
            == Err::<Seq<ControlRow>, VmAirCompositionControlError>(
            control_scan(steps, n, air_instruction_count, sampled_value_count, verifier_id)->Err_0,
        ),
    decreases steps.len() - n,
{
    if n < steps.len() {
        lemma_control_scan_error_sticks(
            steps,
            n + 1,
            air_instruction_count,
            sampled_value_count,
            verifier_id,
        );
    }
}

/// Encodes one control step as a preprocessed row.
pub fn encoded_row(sequence: usize, step: VerifierStep, verifier_id: u32) -> (result: Result<
    ControlRow,
    VmAirCompositionControlError,
>)
    ensures
        result == spec_encoded_row(sequence, step, verifier_id),
{
    if sequence > u32::MAX as usize {
        return Err(VmAirCompositionControlError::SequenceOutOfRange { sequence });
    }
    let encoded = step.encode();
    Ok(
        ControlRow {
            segment_mask: if verifier_id == SEGMENT_VERIFIER_ID {
                1
            } else {
                0
            },
            verifier_id,
            sequence: sequence as u32,
            tag: encoded.tag,
            arg_0: encoded.arg_0,
            arg_1: encoded.arg_1,
            arg_2: encoded.arg_2,
            arg_3: encoded.arg_3,
        },
    )
}

/// Extracts one lane's contiguous AIR-instruction slice and the composition
/// assertion that closes it.
pub fn validated_rows(
    steps: &[VerifierStep],
    air_instruction_count: u32,
    sampled_value_count: u32,
    verifier_id: u32,
) -> (result: Result<Vec<ControlRow>, VmAirCompositionControlError>)
    ensures
        match spec_validated_rows(
            steps@,
            air_instruction_count,
            sampled_value_count,
            verifier_id,
        ) {
            Ok(rows) => result matches Ok(r) && r@ == rows,
            Err(error) => result == Err::<Vec<ControlRow>, _>(error),
        },
{
    let mut rows: Vec<ControlRow> = Vec::new();
    let mut expected_instruction: u32 = 0;
    let mut previous_instruction_sequence: Option<usize> = None;
    let mut assertion_sequence: Option<usize> = None;
    let mut sequence: usize = 0;
    while sequence < steps.len()
        invariant
            sequence <= steps@.len(),
            control_scan(
                steps@,
                sequence as nat,
                air_instruction_count,
                sampled_value_count,
                verifier_id,
            ) == Ok::<ControlScan, VmAirCompositionControlError>(
                (rows@, expected_instruction, previous_instruction_sequence, assertion_sequence),
            ),
            previous_instruction_sequence matches Some(p) ==> p < sequence,
        decreases steps@.len() - sequence,
    {
        let step = steps[sequence];
        proof {
            lemma_control_scan_error_sticks(
                steps@,
                (sequence + 1) as nat,
                air_instruction_count,
                sampled_value_count,
                verifier_id,
            );
        }
        match step {
            VerifierStep::EvaluateAirInstruction { instruction } => {
                if assertion_sequence.is_some() {
                    return Err(
                        VmAirCompositionControlError::InstructionAfterCompositionAssertion {
                            instruction,
                        },
                    );
                }
                if instruction != expected_instruction {
                    return Err(
                        VmAirCompositionControlError::NonCanonicalInstructionIndex {
                            expected: expected_instruction,
                            actual: instruction,
                        },
                    );
                }
                if let Some(previous) = previous_instruction_sequence {
                    if sequence != previous + 1 {
                        return Err(
                            VmAirCompositionControlError::NonContiguousInstruction {
                                previous,
                                actual: sequence,
                            },
                        );
                    }
                }
                let row = encoded_row(sequence, step, verifier_id)?;
                rows.push(row);
                previous_instruction_sequence = Some(sequence);
                if expected_instruction == u32::MAX {
                    return Err(VmAirCompositionControlError::InstructionCountOverflow);
                }
                expected_instruction = expected_instruction + 1;
            },
            VerifierStep::AssertComposition { sampled_value_count: actual } => {
                if assertion_sequence.is_some() {
                    return Err(VmAirCompositionControlError::DuplicateCompositionAssertion);
                }
                if expected_instruction != air_instruction_count {
                    return Err(
                        VmAirCompositionControlError::InstructionCountMismatch {
                            expected: air_instruction_count,
                            actual: expected_instruction,
                        },
                    );
                }
                if actual != sampled_value_count {
                    return Err(
                        VmAirCompositionControlError::SampledValueCountMismatch {
                            expected: sampled_value_count,
                            actual,
                        },
                    );
                }
                if let Some(previous) = previous_instruction_sequence {
                    if sequence != previous + 1 {
                        return Err(
                            VmAirCompositionControlError::CompositionAssertionNotAdjacent {
                                previous,
                                actual: sequence,
                            },
                        );
                    }
                }
                let row = encoded_row(sequence, step, verifier_id)?;
                rows.push(row);
                assertion_sequence = Some(sequence);
            },
            _ => {},
        }
        sequence = sequence + 1;
    }
    proof {
        assert(steps@.len() == sequence);
    }
    if expected_instruction != air_instruction_count {
        return Err(
            VmAirCompositionControlError::InstructionCountMismatch {
                expected: air_instruction_count,
                actual: expected_instruction,
            },
        );
    }
    if assertion_sequence.is_none() {
        return Err(VmAirCompositionControlError::CompositionAssertionMissing);
    }
    Ok(rows)
}

/// What a successful scan state records about the plan prefix it scanned.
pub open spec fn control_scan_inv(
    state: ControlScan,
    steps: Seq<VerifierStep>,
    sampled_value_count: u32,
    verifier_id: u32,
) -> bool {
    let (rows, expected, previous, assertion) = state;
    &&& rows.len() == if assertion is Some {
        expected + 1
    } else {
        expected as int
    }
    &&& forall|i: int|
        0 <= i < rows.len() ==> {
            &&& rows[i].sequence < steps.len()
            &&& spec_encoded_row(
                rows[i].sequence as usize,
                steps[rows[i].sequence as int],
                verifier_id,
            ) == Ok::<ControlRow, VmAirCompositionControlError>(rows[i])
        }
    &&& forall|i: int|
        0 <= i < expected ==> steps[#[trigger] rows[i].sequence as int]
            == VerifierStep::EvaluateAirInstruction { instruction: i as u32 }
    &&& forall|i: int|
        0 <= i && i + 1 < rows.len() ==> #[trigger] rows[i + 1].sequence == rows[i].sequence + 1
    &&& (previous is None <==> expected == 0)
    &&& previous matches Some(p) ==> p == rows[expected - 1].sequence
    &&& assertion matches Some(a) ==> {
        &&& a == rows[expected as int].sequence
        &&& steps[a as int] == VerifierStep::AssertComposition { sampled_value_count }
    }
}

proof fn lemma_control_scan_inv(
    steps: Seq<VerifierStep>,
    n: nat,
    air_instruction_count: u32,
    sampled_value_count: u32,
    verifier_id: u32,
)
    requires
        n <= steps.len() <= usize::MAX,
        control_scan(steps, n, air_instruction_count, sampled_value_count, verifier_id) is Ok,
    ensures
        control_scan_inv(
            control_scan(steps, n, air_instruction_count, sampled_value_count, verifier_id)->Ok_0,
            steps,
            sampled_value_count,
            verifier_id,
        ),
        forall|i: int|
            0 <= i < control_scan(
                steps,
                n,
                air_instruction_count,
                sampled_value_count,
                verifier_id,
            )->Ok_0.0.len() ==> #[trigger] control_scan(
                steps,
                n,
                air_instruction_count,
                sampled_value_count,
                verifier_id,
            )->Ok_0.0[i].sequence < n,
    decreases n,
{
    if n > 0 {
        let m = (n - 1) as nat;
        lemma_control_scan_inv(steps, m, air_instruction_count, sampled_value_count, verifier_id);
        let prev = control_scan(steps, m, air_instruction_count, sampled_value_count, verifier_id)->Ok_0;
        let next = control_scan(steps, n, air_instruction_count, sampled_value_count, verifier_id)->Ok_0;
        let (rows, expected, previous, assertion) = prev;
        let step = steps[m as int];
        assert(next == control_scan_step(
            prev,
            m as usize,
            step,
            air_instruction_count,
            sampled_value_count,
            verifier_id,
        )->Ok_0);
        match step {
            VerifierStep::EvaluateAirInstruction { instruction } => {
                let row = spec_encoded_row(m as usize, step, verifier_id)->Ok_0;
                assert(next.0 == rows.push(row));
                assert(row.sequence == m);
                assert forall|i: int| 0 <= i < next.0.len() implies {
                    &&& next.0[i].sequence < steps.len()
                    &&& spec_encoded_row(
                        next.0[i].sequence as usize,
                        steps[next.0[i].sequence as int],
                        verifier_id,
                    ) == Ok::<ControlRow, VmAirCompositionControlError>(next.0[i])
                } by {
                    if i < rows.len() {
                        assert(next.0[i] == rows[i]);
                    }
                }
                assert forall|i: int| 0 <= i < next.1 implies steps[#[trigger] next.0[i].sequence as int]
                    == VerifierStep::EvaluateAirInstruction { instruction: i as u32 } by {
                    if i < expected {
                        assert(next.0[i] == rows[i]);
                    }
                }
                assert forall|i: int| 0 <= i && i + 1 < next.0.len() implies #[trigger] next.0[i + 1].sequence
                    == next.0[i].sequence + 1 by {
                    if i + 1 < rows.len() {
                        assert(next.0[i] == rows[i]);
                        assert(next.0[i + 1] == rows[i + 1]);
                    } else {
                        assert(next.0[i] == rows[i]);
                    }
                }
            },
            VerifierStep::AssertComposition { sampled_value_count: actual } => {
                let row = spec_encoded_row(m as usize, step, verifier_id)->Ok_0;
                assert(next.0 == rows.push(row));
                assert(row.sequence == m);
                assert forall|i: int| 0 <= i < next.0.len() implies {
                    &&& next.0[i].sequence < steps.len()
                    &&& spec_encoded_row(
                        next.0[i].sequence as usize,
                        steps[next.0[i].sequence as int],
                        verifier_id,
                    ) == Ok::<ControlRow, VmAirCompositionControlError>(next.0[i])
                } by {
                    if i < rows.len() {
                        assert(next.0[i] == rows[i]);
                    }
                }
                assert forall|i: int| 0 <= i < next.1 implies steps[#[trigger] next.0[i].sequence as int]
                    == VerifierStep::EvaluateAirInstruction { instruction: i as u32 } by {
                    assert(next.0[i] == rows[i]);
                }
                assert forall|i: int| 0 <= i && i + 1 < next.0.len() implies #[trigger] next.0[i + 1].sequence
                    == next.0[i].sequence + 1 by {
                    if i + 1 < rows.len() {
                        assert(next.0[i] == rows[i]);
                        assert(next.0[i + 1] == rows[i + 1]);
                    } else {
                        assert(next.0[i] == rows[i]);
                    }
                }
            },
            _ => {},
        }
    }
}

/// A lane's rows are exactly the plan's AIR instructions `0..n` at consecutive
/// plan positions, followed at the next position by the composition
/// assertion carrying the profile's sampled-value count; each row encodes its
/// step at its position.
pub proof fn lemma_validated_rows_shape(
    steps: Seq<VerifierStep>,
    air_instruction_count: u32,
    sampled_value_count: u32,
    verifier_id: u32,
)
    requires
        steps.len() <= usize::MAX,
        spec_validated_rows(steps, air_instruction_count, sampled_value_count, verifier_id) is Ok,
    ensures
        ({
            let rows = spec_validated_rows(
                steps,
                air_instruction_count,
                sampled_value_count,
                verifier_id,
            )->Ok_0;
            &&& rows.len() == air_instruction_count + 1
            &&& forall|i: int|
                0 <= i < air_instruction_count ==> steps[#[trigger] rows[i].sequence as int]
                    == VerifierStep::EvaluateAirInstruction { instruction: i as u32 }
            &&& steps[rows[air_instruction_count as int].sequence as int]
                == VerifierStep::AssertComposition { sampled_value_count }
            &&& forall|i: int|
                0 <= i < air_instruction_count ==> #[trigger] rows[i + 1].sequence
                    == rows[i].sequence + 1
            &&& forall|i: int|
                0 <= i < rows.len() ==> rows[i].sequence < steps.len() && spec_encoded_row(
                    rows[i].sequence as usize,
                    steps[rows[i].sequence as int],
                    verifier_id,
                ) == Ok::<ControlRow, VmAirCompositionControlError>(#[trigger] rows[i])
        }),
{
    lemma_control_scan_inv(
        steps,
        steps.len(),
        air_instruction_count,
        sampled_value_count,
        verifier_id,
    );
}

/// Trusted universal AIR-composition control rows for fixed circuit profiles.
#[derive(Debug)]
pub struct VmAirCompositionControlPreprocessed {
    log_size: u32,
    rows: Vec<ControlRow>,
    vm_air_instruction_count: u32,
    vm_sampled_value_count: u32,
    recursion_air_instruction_count: u32,
    recursion_sampled_value_count: u32,
}

/// The rows of all three lanes, segment first, or the first error met.
pub open spec fn spec_control_rows(
    vm_plan: VerifierControlPlan,
    vm_air_instruction_count: u32,
    vm_sampled_value_count: u32,
    recursion_plan: VerifierControlPlan,
    recursion_air_instruction_count: u32,
    recursion_sampled_value_count: u32,
) -> Result<Seq<ControlRow>, VmAirCompositionControlError> {
    if vm_plan.schema != VerifierSchema::Vm {
        Err(
            VmAirCompositionControlError::SchemaMismatch {
                lane: VerifierLane::Segment,
                expected: VerifierSchema::Vm,
                actual: vm_plan.schema,
            },
        )
    } else if recursion_plan.schema != VerifierSchema::Recursion {
        Err(
            VmAirCompositionControlError::SchemaMismatch {
                lane: VerifierLane::Binary,
                expected: VerifierSchema::Recursion,
                actual: recursion_plan.schema,
            },
        )
    } else {
        match spec_validated_rows(
            vm_plan.steps@,
            vm_air_instruction_count,
            vm_sampled_value_count,
            SEGMENT_VERIFIER_ID,
        ) {
            Err(error) => Err(error),
            Ok(segment) => match spec_validated_rows(
                recursion_plan.steps@,
                recursion_air_instruction_count,
                recursion_sampled_value_count,
                LEFT_RECURSION_VERIFIER_ID,
            ) {
                Err(error) => Err(error),
                Ok(left) => match spec_validated_rows(
                    recursion_plan.steps@,
                    recursion_air_instruction_count,
                    recursion_sampled_value_count,
                    RIGHT_RECURSION_VERIFIER_ID,
                ) {
                    Err(error) => Err(error),
                    Ok(right) => Ok(segment + left + right),
                },
            },
        }
    }
}

impl VmAirCompositionControlPreprocessed {
    /// The rows fit the table's domain.
    #[verifier::type_invariant]
    closed spec fn rows_fit(self) -> bool {
        &&& self.log_size <= MAX_LOG_SIZE
        &&& self.rows@.len() <= pow2(self.log_size as nat)
    }

    pub closed spec fn spec_rows(&self) -> Seq<ControlRow> {
        self.rows@
    }

    pub closed spec fn spec_log_size(&self) -> u32 {
        self.log_size
    }

    pub closed spec fn spec_counts(&self) -> (u32, u32, u32, u32) {
        (
            self.vm_air_instruction_count,
            self.vm_sampled_value_count,
            self.recursion_air_instruction_count,
            self.recursion_sampled_value_count,
        )
    }

    /// Builds the control rows of the segment lane from the VM plan and of both
    /// binary lanes from the recursion plan, padded to a power-of-two domain.
    pub fn new(
        vm_plan: &VerifierControlPlan,
        vm_profile: &VmAirCompositionProfile,
        recursion_plan: &VerifierControlPlan,
        recursion_air_instruction_count: u32,
        recursion_sampled_value_count: u32,
    ) -> (result: Result<Self, VmAirCompositionControlError>)
        ensures
            match spec_control_rows(
                *vm_plan,
                vm_profile.spec_air_instruction_count(),
                vm_profile.spec_sampled_value_count(),
                *recursion_plan,
                recursion_air_instruction_count,
                recursion_sampled_value_count,
            ) {
                Err(error) => result == Err::<Self, _>(error),
                Ok(rows) => {
                    let padded = crate::domain::spec_padded_log_size(rows.len(), MAX_LOG_SIZE);
                    match padded {
                        Ok(log_size) => result matches Ok(pre) && {
                            &&& pre.spec_rows() == rows
                            &&& pre.spec_log_size() == log_size
                            &&& pre.spec_counts() == (
                                vm_profile.spec_air_instruction_count(),
                                vm_profile.spec_sampled_value_count(),
                                recursion_air_instruction_count,
                                recursion_sampled_value_count,
                            )
                        },
                        Err(PaddedSizeError::RowCountOverflow) => result == Err::<Self, _>(
                            VmAirCompositionControlError::RowCountOverflow,
                        ),
                        Err(PaddedSizeError::LogSizeOutOfRange { log_size }) => result == Err::<
                            Self,
                            _,
                        >(VmAirCompositionControlError::LogSizeOutOfRange { log_size }),
                    }
                },
            },
    {
        if vm_plan.schema() != VerifierSchema::Vm {
            return Err(
                VmAirCompositionControlError::SchemaMismatch {
                    lane: VerifierLane::Segment,
                    expected: VerifierSchema::Vm,
                    actual: vm_plan.schema(),
                },
            );
        }
        if recursion_plan.schema() != VerifierSchema::Recursion {
            return Err(
                VmAirCompositionControlError::SchemaMismatch {
                    lane: VerifierLane::Binary,
                    expected: VerifierSchema::Recursion,
                    actual: recursion_plan.schema(),
                },
            );
        }
        let vm_air_instruction_count = vm_profile.air_instruction_count();
        let vm_sampled_value_count = vm_profile.sampled_value_count();
        let mut rows = validated_rows(
            vm_plan.steps(),
            vm_air_instruction_count,
            vm_sampled_value_count,
            SEGMENT_VERIFIER_ID,
        )?;
        let mut left = validated_rows(
            recursion_plan.steps(),
            recursion_air_instruction_count,
            recursion_sampled_value_count,
            LEFT_RECURSION_VERIFIER_ID,
        )?;
        let mut right = validated_rows(
            recursion_plan.steps(),
            recursion_air_instruction_count,
            recursion_sampled_value_count,
            RIGHT_RECURSION_VERIFIER_ID,
        )?;
        rows.append(&mut left);
        rows.append(&mut right);
        let log_size = match padded_log_size(rows.len(), MAX_LOG_SIZE) {
            Ok(log_size) => log_size,
            Err(PaddedSizeError::RowCountOverflow) => {
                return Err(VmAirCompositionControlError::RowCountOverflow);
            },
            Err(PaddedSizeError::LogSizeOutOfRange { log_size }) => {
                return Err(VmAirCompositionControlError::LogSizeOutOfRange { log_size });
            },
        };
        Ok(VmAirCompositionControlPreprocessed {
            log_size,
            rows,
            vm_air_instruction_count,
            vm_sampled_value_count,
            recursion_air_instruction_count,
            recursion_sampled_value_count,
        })
    }

    /// The log size of the table's domain, which holds every row.
    pub fn log_size(&self) -> (log_size: u32)
        ensures
            log_size == self.spec_log_size(),
            log_size <= MAX_LOG_SIZE,
            self.spec_rows().len() <= pow2(log_size as nat),
    {
        proof {
            use_type_invariant(self);
        }
        self.log_size
    }

    pub fn vm_air_instruction_count(&self) -> (count: u32)
        ensures
            count == self.spec_counts().0,
    {
        self.vm_air_instruction_count
    }

    pub fn vm_sampled_value_count(&self) -> (count: u32)
        ensures
            count == self.spec_counts().1,
    {
        self.vm_sampled_value_count
    }

    pub fn recursion_air_instruction_count(&self) -> (count: u32)
        ensures
            count == self.spec_counts().2,
    {
        self.recursion_air_instruction_count
    }

    pub fn recursion_sampled_value_count(&self) -> (count: u32)
        ensures
            count == self.spec_counts().3,
    {
        self.recursion_sampled_value_count
    }

    pub fn row_count(&self) -> (count: usize)
        ensures
            count == self.spec_rows().len(),
    {
        self.rows.len()
    }

    /// The trusted control rows: segment lane, then both binary lanes.
    pub fn rows(&self) -> (rows: &[ControlRow])
        ensures
            rows@ == self.spec_rows(),
    {
        &self.rows
    }

    /// The values of every preprocessed column over the padded domain: row
    /// `i` of column `c` is the value of control row `i` in column `c`, and
    /// zero past the table's end.
    pub fn column_values(&self) -> (columns: Vec<Vec<u32>>)
        ensures
            columns@.len() == CONTROL_COLUMN_COUNT,
            forall|c: int|
                0 <= c < CONTROL_COLUMN_COUNT ==> {
                    let column = #[trigger] columns@[c]@;
                    &&& column.len() == pow2(self.spec_log_size() as nat)
                    &&& forall|i: int|
                        0 <= i < column.len() ==> #[trigger] column[i] == if i < self.spec_rows().len() {
                            control_column_value(self.spec_rows()[i], c as nat)
                        } else {
                            0
                        }
                },
    {
        let size = domain_size(self.log_size());
        let rows = self.rows();
        let mut columns: Vec<Vec<u32>> = Vec::new();
        let mut c: usize = 0;
        while c < CONTROL_COLUMN_COUNT
            invariant
                c <= CONTROL_COLUMN_COUNT,
                columns@.len() == c,
                rows@ == self.spec_rows(),
                size == pow2(self.spec_log_size() as nat),
                rows@.len() <= size,
                forall|d: int|
                    0 <= d < c ==> {
                        let column = #[trigger] columns@[d]@;
                        &&& column.len() == size
                        &&& forall|i: int|
                            0 <= i < column.len() ==> #[trigger] column[i] == if i < rows@.len() {
                                control_column_value(rows@[i], d as nat)
                            } else {
                                0
                            }
                    },
            decreases CONTROL_COLUMN_COUNT - c,
        {
            let mut column: Vec<u32> = Vec::new();
            let mut i: usize = 0;
            while i < size
                invariant
                    i <= size,
                    column@.len() == i,
                    c < CONTROL_COLUMN_COUNT,
                    forall|j: int|
                        0 <= j < i ==> #[trigger] column@[j] == if j < rows@.len() {
                            control_column_value(rows@[j], c as nat)
                        } else {
                            0
                        },
                decreases size - i,
            {
                if i < rows.len() {
                    column.push(control_row_value(&rows[i], c));
                } else {
                    column.push(0);
                }
                i = i + 1;
            }
            columns.push(column);
            c = c + 1;
        }
        columns
    }
}

/// Preprocessed columns of the control table.
pub const CONTROL_COLUMN_COUNT: usize = 9;

/// The value of one row in preprocessed column `column`, in the table's
/// column order: row mask; segment mask; verifier id; control sequence; tag;
/// four arguments.
pub open spec fn control_column_value(row: ControlRow, column: nat) -> u32 {
    if column == 0 {
        1
    } else if column == 1 {
        row.segment_mask
    } else if column == 2 {
        row.verifier_id
    } else if column == 3 {
        row.sequence
    } else if column == 4 {
        row.tag
    } else if column == 5 {
        row.arg_0
    } else if column == 6 {
        row.arg_1
    } else if column == 7 {
        row.arg_2
    } else if column == 8 {
        row.arg_3
    } else {
        0
    }
}

fn control_row_value(row: &ControlRow, column: usize) -> (value: u32)
    requires
        column < CONTROL_COLUMN_COUNT,
    ensures
        value == control_column_value(*row, column as nat),
{
    match column {
        0 => 1,
        1 => row.segment_mask,
        2 => row.verifier_id,
        3 => row.sequence,
        4 => row.tag,
        5 => row.arg_0,
        6 => row.arg_1,
        7 => row.arg_2,
        _ => row.arg_3,
    }
}

} // verus!
