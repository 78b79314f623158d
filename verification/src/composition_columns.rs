//! Preprocessed column values of the composition input table.
//!
//! Each table row becomes one value in each of the table's preprocessed
//! columns: source masks, circuit coordinates, anchor masks and use counts,
//! fixed values and the lane's verifier scope. Rows past the table's end, up
//! to the padded domain, are zero in every column.
use crate::composition_input::{
    AnchorKind, CompositionInputSource, InputRow, RecursionAirCompositionInputSource,
    VmAirCompositionInputPreprocessed, VmAirCompositionInputSource,
};
use crate::domain::domain_size;
use crate::kernel::SEGMENT_VERIFIER_ID;
use vstd::arithmetic::power2::pow2;
use vstd::prelude::*;

verus! {

/// Preprocessed columns of the composition input table.
pub const INPUT_COLUMN_COUNT: usize = 31;

/// One when a condition holds, else zero.
pub open spec fn indicator(condition: bool) -> u32 {
    if condition {
        1
    } else {
        0
    }
}

/// The verifier relation class of an input row's source, shared by VM and
/// recursion inputs: sampled value, claimed sum, relation challenge,
/// composition randomness, out-of-domain point.
pub open spec fn source_class(source: Option<CompositionInputSource>, class: nat) -> bool {
    match source {
        Some(CompositionInputSource::Vm(vm)) => match vm {
            VmAirCompositionInputSource::SampledValueWord { .. } => class == 1,
            VmAirCompositionInputSource::ClaimedSumWord { .. } => class == 2,
            VmAirCompositionInputSource::RelationChallengeWord { .. } => class == 3,
            VmAirCompositionInputSource::CompositionRandomnessWord { .. } => class == 4,
            VmAirCompositionInputSource::OodsPointWord { .. } => class == 5,
            VmAirCompositionInputSource::SegmentSelector => false,
        },
        Some(CompositionInputSource::Recursion { source: child, .. }) => match child {
            RecursionAirCompositionInputSource::SampledValueWord { .. } => class == 1,
            RecursionAirCompositionInputSource::ClaimedSumWord { .. } => class == 2,
            RecursionAirCompositionInputSource::RelationChallengeWord { .. } => class == 3,
            RecursionAirCompositionInputSource::CompositionRandomnessWord { .. } => class == 4,
            RecursionAirCompositionInputSource::OodsPointWord { .. } => class == 5,
            _ => false,
        },
        None => false,
    }
}

/// The value of one row in preprocessed column `column`, in the table's
/// column order: row mask; sampled-value, claimed-sum, challenge,
/// composition-randomness, out-of-domain-point and segment-selector masks;
/// circuit id, node id, use count and the two source indices; anchor mask;
/// constant uses in segment, binary and empty mode; output masks in the same
/// modes; the four fixed-value limbs; VM-input and recursion-input masks;
/// parent binary-selector, child-kind-selector and statement-word masks;
/// verifier id; statement scope; recursion claimed-sum mask.
pub open spec fn input_column_value(row: InputRow, column: nat) -> u32 {
    let source = row.source;
    let mode = row.anchor_mode;
    if column == 0 {
        1
    } else if 1 <= column <= 5 {
        indicator(source_class(source, column))
    } else if column == 6 {
        indicator(source == Some(CompositionInputSource::Vm(VmAirCompositionInputSource::SegmentSelector)))
    } else if column == 7 {
        row.circuit_id
    } else if column == 8 {
        row.node_id
    } else if column == 9 {
        row.use_count
    } else if column == 10 {
        row.source_index_0
    } else if column == 11 {
        row.source_index_1
    } else if column == 12 {
        indicator(row.anchor != AnchorKind::Unanchored)
    } else if column == 13 {
        if row.anchor == AnchorKind::Constant && mode.segment {
            row.use_count
        } else {
            0
        }
    } else if column == 14 {
        if row.anchor == AnchorKind::Constant && mode.binary {
            row.use_count
        } else {
            0
        }
    } else if column == 15 {
        if row.anchor == AnchorKind::Constant && mode.empty {
            row.use_count
        } else {
            0
        }
    } else if column == 16 {
        indicator(row.anchor == AnchorKind::Output && mode.segment)
    } else if column == 17 {
        indicator(row.anchor == AnchorKind::Output && mode.binary)
    } else if column == 18 {
        indicator(row.anchor == AnchorKind::Output && mode.empty)
    } else if 19 <= column <= 22 {
        row.fixed_value@[column - 19]
    } else if column == 23 {
        indicator(source matches Some(CompositionInputSource::Vm(_)))
    } else if column == 24 {
        indicator(source matches Some(CompositionInputSource::Recursion { .. }))
    } else if column == 25 {
        indicator(
            source matches Some(
                CompositionInputSource::Recursion {
                    source: RecursionAirCompositionInputSource::ParentBinarySelector,
                    ..
                },
            ),
        )
    } else if column == 26 {
        indicator(
            source matches Some(
                CompositionInputSource::Recursion {
                    source: RecursionAirCompositionInputSource::ChildKindSelector { .. },
                    ..
                },
            ),
        )
    } else if column == 27 {
        indicator(
            source matches Some(
                CompositionInputSource::Recursion {
                    source: RecursionAirCompositionInputSource::StatementWord { .. },
                    ..
                },
            ),
        )
    } else if column == 28 {
        match source {
            Some(CompositionInputSource::Recursion { verifier_id, .. }) => verifier_id,
            Some(CompositionInputSource::Vm(_)) => SEGMENT_VERIFIER_ID,
            None => 0,
        }
    } else if column == 29 {
        match source {
            Some(CompositionInputSource::Recursion { statement_scope, .. }) => statement_scope,
            _ => 0,
        }
    } else if column == 30 {
        indicator(
            source matches Some(
                CompositionInputSource::Recursion {
                    source: RecursionAirCompositionInputSource::ClaimedSumWord { .. },
                    ..
                },
            ),
        )
    } else {
        0
    }
}

/// The shared relation class of a source, as `source_class` numbers it, or
/// zero for a selector, a statement word or an anchor.
fn class_of(source: Option<CompositionInputSource>) -> (class: usize)
    ensures
        1 <= class <= 5 ==> source_class(source, class as nat),
        forall|c: nat| 1 <= c <= 5 && c != class ==> !source_class(source, c),
{
    match source {
        Some(CompositionInputSource::Vm(vm)) => match vm {
            VmAirCompositionInputSource::SampledValueWord { .. } => 1,
            VmAirCompositionInputSource::ClaimedSumWord { .. } => 2,
            VmAirCompositionInputSource::RelationChallengeWord { .. } => 3,
            VmAirCompositionInputSource::CompositionRandomnessWord { .. } => 4,
            VmAirCompositionInputSource::OodsPointWord { .. } => 5,
            VmAirCompositionInputSource::SegmentSelector => 0,
        },
        Some(CompositionInputSource::Recursion { source: child, .. }) => match child {
            RecursionAirCompositionInputSource::SampledValueWord { .. } => 1,
            RecursionAirCompositionInputSource::ClaimedSumWord { .. } => 2,
            RecursionAirCompositionInputSource::RelationChallengeWord { .. } => 3,
            RecursionAirCompositionInputSource::CompositionRandomnessWord { .. } => 4,
            RecursionAirCompositionInputSource::OodsPointWord { .. } => 5,
            _ => 0,
        },
        None => 0,
    }
}

fn flag(condition: bool) -> (value: u32)
    ensures
        value == indicator(condition),
{
    if condition {
        1
    } else {
        0
    }
}

fn row_value(row: InputRow, column: usize) -> (value: u32)
    requires
        column < INPUT_COLUMN_COUNT,
    ensures
        value == input_column_value(row, column as nat),
{
    let source = row.source;
    let mode = row.anchor_mode;
    if 1 <= column && column <= 5 {
        return flag(class_of(source) == column);
    }
    match column {
        0 => 1,
        6 => flag(
            matches!(source, Some(CompositionInputSource::Vm(VmAirCompositionInputSource::SegmentSelector))),
        ),
        7 => row.circuit_id,
        8 => row.node_id,
        9 => row.use_count,
        10 => row.source_index_0,
        11 => row.source_index_1,
        12 => flag(row.anchor != AnchorKind::Unanchored),
        13 => if row.anchor == AnchorKind::Constant && mode.segment {
            row.use_count
        } else {
            0
        },
        14 => if row.anchor == AnchorKind::Constant && mode.binary {
            row.use_count
        } else {
            0
        },
        15 => if row.anchor == AnchorKind::Constant && mode.empty {
            row.use_count
        } else {
            0
        },
        16 => flag(row.anchor == AnchorKind::Output && mode.segment),
        17 => flag(row.anchor == AnchorKind::Output && mode.binary),
        18 => flag(row.anchor == AnchorKind::Output && mode.empty),
        19 => row.fixed_value[0],
        20 => row.fixed_value[1],
        21 => row.fixed_value[2],
        22 => row.fixed_value[3],
        23 => flag(matches!(source, Some(CompositionInputSource::Vm(_)))),
        24 => flag(matches!(source, Some(CompositionInputSource::Recursion { .. }))),
        25 => flag(
            matches!(
                source,
                Some(
                    CompositionInputSource::Recursion {
                        source: RecursionAirCompositionInputSource::ParentBinarySelector,
                        ..
                    },
                )
            ),
        ),
        26 => flag(
            matches!(
                source,
                Some(
                    CompositionInputSource::Recursion {
                        source: RecursionAirCompositionInputSource::ChildKindSelector { .. },
                        ..
                    },
                )
            ),
        ),
        27 => flag(
            matches!(
                source,
                Some(
                    CompositionInputSource::Recursion {
                        source: RecursionAirCompositionInputSource::StatementWord { .. },
                        ..
                    },
                )
            ),
        ),
        28 => match source {
            Some(CompositionInputSource::Recursion { verifier_id, .. }) => verifier_id,
            Some(CompositionInputSource::Vm(_)) => SEGMENT_VERIFIER_ID,
            None => 0,
        },
        29 => match source {
            Some(CompositionInputSource::Recursion { statement_scope, .. }) => statement_scope,
            _ => 0,
        },
        _ => flag(
            matches!(
                source,
                Some(
                    CompositionInputSource::Recursion {
                        source: RecursionAirCompositionInputSource::ClaimedSumWord { .. },
                        ..
                    },
                )
            ),
        ),
    }
}

impl VmAirCompositionInputPreprocessed {
    /// The values of every preprocessed column over the padded domain: row
    /// `i` of column `c` is the value of table row `i` in column `c`, and
    /// zero past the table's end.
    pub fn column_values(&self) -> (columns: Vec<Vec<u32>>)
        ensures
            columns@.len() == INPUT_COLUMN_COUNT,
            forall|c: int|
                0 <= c < INPUT_COLUMN_COUNT ==> {
                    let column = #[trigger] columns@[c]@;
                    &&& column.len() == pow2(self.spec_log_size() as nat)
                    &&& forall|i: int|
                        0 <= i < column.len() ==> #[trigger] column[i] == if i < self.spec_rows().len() {
                            input_column_value(self.spec_rows()[i], c as nat)
                        } else {
                            0
                        }
                },
    {
        let size = domain_size(self.log_size());
        let rows = self.rows();
        let mut columns: Vec<Vec<u32>> = Vec::new();
        let mut c: usize = 0;
        while c < INPUT_COLUMN_COUNT
            invariant
                c <= INPUT_COLUMN_COUNT,
                columns@.len() == c,
                rows@ == self.spec_rows(),
                size == pow2(self.spec_log_size() as nat),
                rows@.len() <= size,
                forall|d: int|
                    0 <= d < c ==> {
                        let column = #[trigger] columns@[d]@;
                        &&& column.len() == size
                        &&& forall|i: int|
                            0 <= i < column.len() ==> #[trigger] column[i] == if i < rows@.len() {
                                input_column_value(rows@[i], d as nat)
                            } else {
                                0
                            }
                    },
            decreases INPUT_COLUMN_COUNT - c,
        {
            let mut column: Vec<u32> = Vec::new();
            let mut i: usize = 0;
            while i < size
                invariant
                    i <= size,
                    column@.len() == i,
                    c < INPUT_COLUMN_COUNT,
                    forall|j: int|
                        0 <= j < i ==> #[trigger] column@[j] == if j < rows@.len() {
                            input_column_value(rows@[j], c as nat)
                        } else {
                            0
                        },
                decreases size - i,
            {
                if i < rows.len() {
                    column.push(row_value(rows[i], c));
                } else {
                    column.push(0);
                }
                i = i + 1;
            }
            columns.push(column);
            c = c + 1;
        }
        columns
    }
}

} // verus!
