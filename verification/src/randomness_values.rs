//! Materialization of the trusted draws into the randomness table.
//!
//! Each trusted draw row reads the draw of its own verifier lane's recorded
//! transcript: the operation at the row's plan position, which must be the
//! row's step and must have drawn. A lane without a transcript in the
//! proof's mode contributes an inactive row of zeros.
use crate::kernel::{LEFT_RECURSION_VERIFIER_ID, RIGHT_RECURSION_VERIFIER_ID, SEGMENT_VERIFIER_ID};
use crate::m31::word_values;
use crate::transcript_binding::{RecordedTranscript, UniversalTranscriptWitness};
use crate::transcript_program::TranscriptOperationTrace;
use crate::verifier_randomness::{RandomnessRow, VerifierRandomnessError, VerifierRandomnessPreprocessed};
use vstd::prelude::*;

verus! {

/// One materialized randomness row: whether its lane is active, and the
/// eight words its operation drew (zero for an inactive lane).
#[derive(Clone, Copy, Debug)]
pub struct RandomnessValues {
    pub active: bool,
    pub words: [u32; 8],
}

/// The operations of each lane's transcript: segment, left and right.
pub type OperationLanes = (
    Option<Seq<TranscriptOperationTrace>>,
    Option<Seq<TranscriptOperationTrace>>,
    Option<Seq<TranscriptOperationTrace>>,
);

/// The transcripts a witness supplies to each lane.
pub open spec fn witness_lanes(witness: UniversalTranscriptWitness) -> OperationLanes {
    match witness {
        UniversalTranscriptWitness::Segment(execution) => (Some(execution.operations@), None, None),
        UniversalTranscriptWitness::Binary { left, right } => (None, Some(left.operations@), Some(right.operations@)),
        UniversalTranscriptWitness::Empty => (None, None, None),
    }
}

/// The first of the first `n` operations at plan position `sequence`.
pub open spec fn first_at(operations: Seq<TranscriptOperationTrace>, sequence: u32, n: nat) -> Option<nat>
    decreases n,
{
    if n == 0 {
        None
    } else {
        match first_at(operations, sequence, (n - 1) as nat) {
            Some(i) => Some(i),
            None => if operations[n - 1].sequence == sequence {
                Some((n - 1) as nat)
            } else {
                None
            },
        }
    }
}

/// The words a row's operation drew, or why the transcript does not hold it.
pub open spec fn spec_operation_draw(operations: Seq<TranscriptOperationTrace>, row: RandomnessRow) -> Result<
    Seq<u32>,
    VerifierRandomnessError,
> {
    match first_at(operations, row.sequence, operations.len()) {
        None => Err(VerifierRandomnessError::OperationMissing { verifier_id: row.verifier_id, sequence: row.sequence }),
        Some(i) => {
            let operation = operations[i as int];
            if operation.step != row.step {
                Err(
                    VerifierRandomnessError::OperationMismatch {
                        verifier_id: row.verifier_id,
                        sequence: row.sequence,
                        expected: row.step,
                        actual: operation.step,
                    },
                )
            } else {
                match operation.draw {
                    None => Err(
                        VerifierRandomnessError::DrawMissing { verifier_id: row.verifier_id, sequence: row.sequence },
                    ),
                    Some(words) => Ok(word_values(words@)),
                }
            }
        },
    }
}

/// Eight zero words.
pub open spec fn zero_draw() -> Seq<u32> {
    Seq::new(8, |i: int| 0u32)
}

/// The values of one row: its lane's activity and draw, or the error.
pub open spec fn spec_row_values(row: RandomnessRow, lanes: OperationLanes) -> Result<
    (bool, Seq<u32>),
    VerifierRandomnessError,
> {
    let lane = if row.verifier_id == SEGMENT_VERIFIER_ID {
        Some(lanes.0)
    } else if row.verifier_id == LEFT_RECURSION_VERIFIER_ID {
        Some(lanes.1)
    } else if row.verifier_id == RIGHT_RECURSION_VERIFIER_ID {
        Some(lanes.2)
    } else {
        None
    };
    match lane {
        None => Err(VerifierRandomnessError::UnknownVerifierId { verifier_id: row.verifier_id }),
        Some(None) => Ok((false, zero_draw())),
        Some(Some(operations)) => match spec_operation_draw(operations, row) {
            Err(error) => Err(error),
            Ok(words) => Ok((true, words)),
        },
    }
}

/// The values of the first `n` rows, and the error that stopped them.
pub open spec fn spec_randomness_values(rows: Seq<RandomnessRow>, lanes: OperationLanes, n: nat) -> (
    Seq<(bool, Seq<u32>)>,
    Option<VerifierRandomnessError>,
)
    decreases n,
{
    if n == 0 {
        (Seq::empty(), None)
    } else {
        let (values, error) = spec_randomness_values(rows, lanes, (n - 1) as nat);
        if error is Some {
            (values, error)
        } else {
            match spec_row_values(rows[n - 1], lanes) {
                Err(error) => (values, Some(error)),
                Ok(row_values) => (values.push(row_values), None),
            }
        }
    }
}

/// The plain values of table rows.
pub open spec fn value_views(table: Seq<RandomnessValues>) -> Seq<(bool, Seq<u32>)> {
    table.map_values(|row: RandomnessValues| (row.active, row.words@))
}

proof fn lemma_first_at_sticks(operations: Seq<TranscriptOperationTrace>, sequence: u32, n: nat, m: nat)
    requires
        n <= m,
        first_at(operations, sequence, n) is Some,
    ensures
        first_at(operations, sequence, m) == first_at(operations, sequence, n),
    decreases m - n,
{
    if m > n {
        lemma_first_at_sticks(operations, sequence, n, (m - 1) as nat);
    }
}

proof fn lemma_first_at_bound(operations: Seq<TranscriptOperationTrace>, sequence: u32, n: nat)
    ensures
        first_at(operations, sequence, n) matches Some(i) ==> i < n && operations[i as int].sequence == sequence,
    decreases n,
{
    if n > 0 {
        lemma_first_at_bound(operations, sequence, (n - 1) as nat);
    }
}

/// The words a row's operation drew.
fn operation_draw(execution: &RecordedTranscript, row: &RandomnessRow) -> (result: Result<
    [u32; 8],
    VerifierRandomnessError,
>)
    ensures
        match spec_operation_draw(execution.operations@, *row) {
            Ok(words) => result matches Ok(w) && w@ == words,
            Err(error) => result == Err::<[u32; 8], _>(error),
        },
{
    let operations = execution.operations.as_slice();
    let mut i: usize = 0;
    while i < operations.len()
        invariant
            i <= operations@.len(),
            operations@ == execution.operations@,
            first_at(operations@, row.sequence, i as nat) is None,
        decreases operations@.len() - i,
    {
        if operations[i].sequence == row.sequence {
            proof {
                lemma_first_at_sticks(operations@, row.sequence, (i + 1) as nat, operations@.len());
            }
            let operation = &operations[i];
            if operation.step != row.step {
                return Err(
                    VerifierRandomnessError::OperationMismatch {
                        verifier_id: row.verifier_id,
                        sequence: row.sequence,
                        expected: row.step,
                        actual: operation.step,
                    },
                );
            }
            return match operation.draw {
                None => Err(VerifierRandomnessError::DrawMissing { verifier_id: row.verifier_id, sequence: row.sequence }),
                Some(words) => {
                    let values = [
                        words[0].as_u32(),
                        words[1].as_u32(),
                        words[2].as_u32(),
                        words[3].as_u32(),
                        words[4].as_u32(),
                        words[5].as_u32(),
                        words[6].as_u32(),
                        words[7].as_u32(),
                    ];
                    proof {
                        assert(values@ =~= word_values(words@));
                    }
                    Ok(values)
                },
            };
        }
        i = i + 1;
    }
    Err(VerifierRandomnessError::OperationMissing { verifier_id: row.verifier_id, sequence: row.sequence })
}

proof fn lemma_values_error_sticks(rows: Seq<RandomnessRow>, lanes: OperationLanes, n: nat, m: nat)
    requires
        n <= m,
        spec_randomness_values(rows, lanes, n).1 is Some,
    ensures
        spec_randomness_values(rows, lanes, m) == spec_randomness_values(rows, lanes, n),
    decreases m - n,
{
    if m > n {
        lemma_values_error_sticks(rows, lanes, n, (m - 1) as nat);
    }
}

/// Materializes the trusted draws of the selected verifier lanes, one table
/// row per trusted draw row in order: an active row with the eight words its
/// lane's operation drew, or an inactive row of zeros for a lane without a
/// transcript in the proof's mode. Rows are pushed until the first row whose
/// verifier is unknown or whose operation is missing, mismatched or drew
/// nothing.
#[verifier::loop_isolation(false)]
pub fn push_verifier_randomness(
    table: &mut Vec<RandomnessValues>,
    preprocessed: &VerifierRandomnessPreprocessed,
    witness: UniversalTranscriptWitness,
) -> (result: Result<(), VerifierRandomnessError>)
    ensures
        ({
            let (values, error) = spec_randomness_values(
                preprocessed.spec_rows(),
                witness_lanes(witness),
                preprocessed.spec_rows().len(),
            );
            &&& value_views(final(table)@) == value_views(old(table)@) + values
            &&& match error {
                Some(error) => result == Err::<(), _>(error),
                None => result is Ok,
            }
        }),
{
    let (segment, left, right) = match witness {
        UniversalTranscriptWitness::Segment(execution) => (Some(execution), None, None),
        UniversalTranscriptWitness::Binary { left, right } => (None, Some(left), Some(right)),
        UniversalTranscriptWitness::Empty => (None, None, None),
    };
    let ghost lanes = witness_lanes(witness);
    let rows = preprocessed.rows();
    let ghost start = value_views(table@);
    let n = rows.len();
    let mut k: usize = 0;
    proof {
        assert(value_views(table@) =~= start + Seq::<(bool, Seq<u32>)>::empty());
    }
    while k < n
        invariant
            k <= n,
            n == rows@.len(),
            rows@ == preprocessed.spec_rows(),
            spec_randomness_values(rows@, lanes, k as nat).1 is None,
            value_views(table@) == start + spec_randomness_values(rows@, lanes, k as nat).0,
        decreases n - k,
    {
        let row = &rows[k];
        let execution = if row.verifier_id == SEGMENT_VERIFIER_ID {
            segment
        } else if row.verifier_id == LEFT_RECURSION_VERIFIER_ID {
            left
        } else if row.verifier_id == RIGHT_RECURSION_VERIFIER_ID {
            right
        } else {
            proof {
                lemma_values_error_sticks(rows@, lanes, (k + 1) as nat, n as nat);
            }
            return Err(VerifierRandomnessError::UnknownVerifierId { verifier_id: row.verifier_id });
        };
        let values = match execution {
            Some(execution) => {
                let words = match operation_draw(execution, row) {
                    Ok(words) => words,
                    Err(error) => {
                        proof {
                            lemma_values_error_sticks(rows@, lanes, (k + 1) as nat, n as nat);
                        }
                        return Err(error);
                    },
                };
                RandomnessValues { active: true, words }
            },
            None => {
                let values = RandomnessValues { active: false, words: [0u32; 8] };
                proof {
                    assert(values.words@ =~= zero_draw());
                }
                values
            },
        };
        let ghost before = table@;
        table.push(values);
        proof {
            assert(value_views(table@) =~= value_views(before).push((values.active, values.words@)));
        }
        k = k + 1;
    }
    Ok(())
}

} // verus!
