//! Fixed sponge schedule of the VM public-claim hash.
//!
//! The claim shape fixes the number of claim words, so it fixes every absorbed
//! chunk: claim words in order, one terminating word, then zeros up to a whole
//! number of eight-word chunks. Preprocessing reads the schedule from the
//! shape alone, so no proof value can reorder, drop or repeat a claim word.
use crate::domain::{MAX_LOG_SIZE, PaddedSizeError, domain_size, padded_log_size, spec_padded_log_size};
use vstd::arithmetic::power2::pow2;
use crate::public_claim::{VmPublicClaimError, VmPublicClaimShape};
use vstd::prelude::*;

verus! {

/// Words absorbed per sponge step.
pub const RATE: usize = 8;

/// Where one absorbed word comes from.
#[derive(Clone, Copy, Debug, PartialEq, Eq, Structural)]
pub enum ChunkSource {
    ClaimWord(u32),
    Constant(u32),
}

/// One sponge step: its position, whether it opens or closes the hash, and
/// the sources of the eight words it absorbs.
#[derive(Clone, Debug)]
pub struct HashScheduleRow {
    pub step: u32,
    pub first: bool,
    pub last: bool,
    pub chunks: Vec<ChunkSource>,
}

/// Row fields: step, first flag, last flag and chunk sources.
pub type HashRowView = (u32, bool, bool, Seq<ChunkSource>);

impl View for HashScheduleRow {
    type V = HashRowView;

    open spec fn view(&self) -> HashRowView {
        (self.step, self.first, self.last, self.chunks@)
    }
}

/// Invalid trusted hash schedule or claim witness.
#[derive(Clone, Copy, Debug, PartialEq, Eq, Structural)]
pub enum VmPublicClaimHashError {
    Claim(VmPublicClaimError),
    RowCountOverflow,
    WordIndexOutOfRange { index: usize },
    StepOutOfRange { step: usize },
    LogSizeOutOfRange { log_size: u32 },
    SegmentClaimMissing,
    InactiveClaimProvided,
    DigestMismatch,
}

/// Sponge steps needed for `word_count` words and the terminating word.
pub open spec fn spec_step_count(word_count: nat) -> nat {
    (word_count + 1 + 7) / 8
}

/// The source of the word absorbed at stream position `index`.
pub open spec fn spec_chunk_source(word_count: nat, index: nat) -> ChunkSource {
    if index < word_count {
        ChunkSource::ClaimWord(index as u32)
    } else if index == word_count {
        ChunkSource::Constant(1)
    } else {
        ChunkSource::Constant(0)
    }
}

/// Sponge step `step` of a hash over `word_count` words.
pub open spec fn spec_hash_row(word_count: nat, step: nat) -> HashRowView {
    (
        step as u32,
        step == 0,
        step + 1 == spec_step_count(word_count),
        Seq::new(8, |k: int| spec_chunk_source(word_count, 8 * step + k as nat)),
    )
}

/// Fixed sponge schedule derived from the trusted claim shape.
#[derive(Debug)]
pub struct VmPublicClaimHashPreprocessed {
    shape: VmPublicClaimShape,
    log_size: u32,
    rows: Vec<HashScheduleRow>,
}

impl VmPublicClaimHashPreprocessed {
    /// The rows fit the table's domain, and each absorbs one full chunk.
    #[verifier::type_invariant]
    closed spec fn rows_fit(self) -> bool {
        &&& self.log_size <= MAX_LOG_SIZE
        &&& self.rows@.len() <= pow2(self.log_size as nat)
        &&& forall|s: int| 0 <= s < self.rows@.len() ==> (#[trigger] self.rows@[s]).chunks@.len() == RATE
    }

    pub closed spec fn spec_shape(&self) -> VmPublicClaimShape {
        self.shape
    }

    pub closed spec fn spec_log_size(&self) -> u32 {
        self.log_size
    }

    pub closed spec fn spec_rows(&self) -> Seq<HashRowView> {
        self.rows@.map_values(|row: HashScheduleRow| row@)
    }

    /// The schedule of a shape: one row per sponge step, padded to a
    /// power-of-two domain.
    pub fn new(shape: VmPublicClaimShape) -> (result: Result<Self, VmPublicClaimHashError>)
        ensures
            result matches Ok(pre) && {
                let n = shape.spec_word_count();
                &&& pre.spec_shape() == shape
                &&& spec_padded_log_size(spec_step_count(n), MAX_LOG_SIZE) == Ok::<
                    u32,
                    PaddedSizeError,
                >(pre.spec_log_size())
                &&& pre.spec_rows().len() == spec_step_count(n)
                &&& forall|s: int|
                    0 <= s < spec_step_count(n) ==> #[trigger] pre.spec_rows()[s] == spec_hash_row(
                        n,
                        s as nat,
                    )
            },
    {
        let word_count = shape.claim_word_count();
        proof {
            use_type_invariant(&shape);
            shape.lemma_word_count_canonical();
        }
        let row_count = (word_count + 1 + 7) / RATE;
        let mut rows: Vec<HashScheduleRow> = Vec::new();
        let mut step: usize = 0;
        while step < row_count
            invariant
                word_count == shape.spec_word_count(),
                word_count <= 0x7fff_ffff,
                row_count == spec_step_count(word_count as nat),
                step <= row_count,
                rows@.len() == step,
                forall|s: int|
                    0 <= s < step ==> #[trigger] rows@[s]@ == spec_hash_row(word_count as nat, s as nat),
            decreases row_count - step,
        {
            let mut chunks: Vec<ChunkSource> = Vec::new();
            let mut slot: usize = 0;
            while slot < RATE
                invariant
                    word_count <= 0x7fff_ffff,
                    step < row_count,
                    row_count == spec_step_count(word_count as nat),
                    slot <= RATE,
                    chunks@ == Seq::new(
                        slot as nat,
                        |k: int| spec_chunk_source(word_count as nat, (8 * step + k) as nat),
                    ),
                decreases RATE - slot,
            {
                let index = step * RATE + slot;
                let source = if index < word_count {
                    ChunkSource::ClaimWord(index as u32)
                } else if index == word_count {
                    ChunkSource::Constant(1)
                } else {
                    ChunkSource::Constant(0)
                };
                chunks.push(source);
                proof {
                    assert(chunks@ =~= Seq::new(
                        (slot + 1) as nat,
                        |k: int| spec_chunk_source(word_count as nat, (8 * step + k) as nat),
                    ));
                }
                slot = slot + 1;
            }
            rows.push(
                HashScheduleRow {
                    step: step as u32,
                    first: step == 0,
                    last: step + 1 == row_count,
                    chunks,
                },
            );
            proof {
                assert(rows@.last()@ =~= spec_hash_row(word_count as nat, step as nat));
            }
            step = step + 1;
        }
        let log_size = match padded_log_size(rows.len(), MAX_LOG_SIZE) {
            Ok(log_size) => log_size,
            Err(PaddedSizeError::RowCountOverflow) => {
                proof {
                    padded_rows_fit(row_count);
                }
                return Err(VmPublicClaimHashError::RowCountOverflow);
            },
            Err(PaddedSizeError::LogSizeOutOfRange { log_size }) => {
                proof {
                    padded_rows_fit(row_count);
                }
                return Err(VmPublicClaimHashError::LogSizeOutOfRange { log_size });
            },
        };
        proof {
            assert forall|s: int| 0 <= s < rows@.len() implies (#[trigger] rows@[s]).chunks@.len() == RATE by {
                assert(rows@[s]@ == spec_hash_row(word_count as nat, s as nat));
            }
        }
        let pre = VmPublicClaimHashPreprocessed { shape, log_size, rows };
        proof {
            assert forall|s: int| 0 <= s < spec_step_count(word_count as nat) implies #[trigger] pre.spec_rows()[s]
                == spec_hash_row(word_count as nat, s as nat) by {
                assert(pre.spec_rows()[s] == pre.rows@[s]@);
            }
        }
        Ok(pre)
    }

    pub fn shape(&self) -> (shape: VmPublicClaimShape)
        ensures
            shape == self.spec_shape(),
    {
        self.shape
    }

    /// The log size of the table's domain, which holds every row.
    pub fn log_size(&self) -> (log_size: u32)
        ensures
            log_size == self.spec_log_size(),
            log_size <= MAX_LOG_SIZE,
            self.spec_rows().len() <= pow2(log_size as nat),
    {
        proof {
            use_type_invariant(self);
        }
        self.log_size
    }

    pub fn step_count(&self) -> (count: usize)
        ensures
            count == self.spec_rows().len(),
    {
        self.rows.len()
    }

    /// The trusted sponge steps, in order, each absorbing one full chunk.
    pub fn rows(&self) -> (rows: &[HashScheduleRow])
        ensures
            rows@.map_values(|row: HashScheduleRow| row@) == self.spec_rows(),
            forall|s: int| 0 <= s < rows@.len() ==> (#[trigger] rows@[s]).chunks@.len() == RATE,
    {
        proof {
            use_type_invariant(self);
        }
        self.rows.as_slice()
    }
}

/// A schedule of at most `2^28 + 1` steps fits the largest domain.
proof fn padded_rows_fit(row_count: usize)
    requires
        row_count <= 0x1000_0001,
    ensures
        spec_padded_log_size(row_count as nat, MAX_LOG_SIZE) is Ok,
{
    vstd::arithmetic::power2::lemma2_to64();
    crate::domain::lemma_padded_log_size_at_most(row_count as nat, 29);
}

/// Every claim word is absorbed exactly once, in order: word `i` sits in
/// step `i / 8` at slot `i % 8`, and no other slot of the schedule reads it.
pub proof fn lemma_claim_word_position(word_count: nat, step: nat, slot: nat, index: nat)
    requires
        slot < 8,
        word_count <= u32::MAX,
    ensures
        (spec_chunk_source(word_count, 8 * step + slot) == ChunkSource::ClaimWord(index as u32)
            && index < word_count) <==> (index < word_count && step == index / 8 && slot == index
            % 8),
{
    if index < word_count && step == index / 8 && slot == index % 8 {
        assert(8 * step + slot == index);
    }
}

/// Preprocessed columns of the claim-hash table: four row columns, then
/// three per absorbed word.
pub const HASH_COLUMN_COUNT: usize = 28;

/// One when a condition holds, else zero.
pub open spec fn indicator(condition: bool) -> u32 {
    if condition {
        1
    } else {
        0
    }
}

/// The value of one row in preprocessed column `column`, in the table's
/// column order: row mask; step; first and last masks; then for each
/// absorbed word its claim-word mask, its claim index when it is a claim
/// word, and its constant when it is one.
pub open spec fn hash_column_value(row: HashRowView, column: nat) -> u32 {
    if column == 0 {
        1
    } else if column == 1 {
        row.0
    } else if column == 2 {
        indicator(row.1)
    } else if column == 3 {
        indicator(row.2)
    } else if column < HASH_COLUMN_COUNT {
        let part = (column - 4) % 3;
        match row.3[(column - 4) / 3] {
            ChunkSource::ClaimWord(index) => if part == 0 {
                1
            } else if part == 1 {
                index
            } else {
                0
            },
            ChunkSource::Constant(value) => if part == 2 {
                value
            } else {
                0
            },
        }
    } else {
        0
    }
}

fn hash_row_value(row: &HashScheduleRow, column: usize) -> (value: u32)
    requires
        column < HASH_COLUMN_COUNT,
        row.chunks@.len() == RATE,
    ensures
        value == hash_column_value(row@, column as nat),
{
    match column {
        0 => 1,
        1 => row.step,
        2 => if row.first {
            1
        } else {
            0
        },
        3 => if row.last {
            1
        } else {
            0
        },
        _ => {
            let part = (column - 4) % 3;
            match row.chunks[(column - 4) / 3] {
                ChunkSource::ClaimWord(index) => if part == 0 {
                    1
                } else if part == 1 {
                    index
                } else {
                    0
                },
                ChunkSource::Constant(value) => if part == 2 {
                    value
                } else {
                    0
                },
            }
        },
    }
}

impl VmPublicClaimHashPreprocessed {
    /// The values of every preprocessed column over the padded domain: row
    /// `i` of column `c` is the value of schedule step `i` in column `c`,
    /// and zero past the schedule's end.
    pub fn column_values(&self) -> (columns: Vec<Vec<u32>>)
        ensures
            columns@.len() == HASH_COLUMN_COUNT,
            forall|c: int|
                0 <= c < HASH_COLUMN_COUNT ==> {
                    let column = #[trigger] columns@[c]@;
                    &&& column.len() == pow2(self.spec_log_size() as nat)
                    &&& forall|i: int|
                        0 <= i < column.len() ==> #[trigger] column[i] == if i < self.spec_rows().len() {
                            hash_column_value(self.spec_rows()[i], c as nat)
                        } else {
                            0
                        }
                },
    {
        let size = domain_size(self.log_size());
        let rows = self.rows();
        let ghost views = self.spec_rows();
        let mut columns: Vec<Vec<u32>> = Vec::new();
        let mut c: usize = 0;
        while c < HASH_COLUMN_COUNT
            invariant
                c <= HASH_COLUMN_COUNT,
                columns@.len() == c,
                rows@.map_values(|row: HashScheduleRow| row@) == views,
                views == self.spec_rows(),
                forall|s: int| 0 <= s < rows@.len() ==> (#[trigger] rows@[s]).chunks@.len() == RATE,
                size == pow2(self.spec_log_size() as nat),
                rows@.len() <= size,
                forall|d: int|
                    0 <= d < c ==> {
                        let column = #[trigger] columns@[d]@;
                        &&& column.len() == size
                        &&& forall|i: int|
                            0 <= i < column.len() ==> #[trigger] column[i] == if i < rows@.len() {
                                hash_column_value(views[i], d as nat)
                            } else {
                                0
                            }
                    },
            decreases HASH_COLUMN_COUNT - c,
        {
            let mut column: Vec<u32> = Vec::new();
            let mut i: usize = 0;
            while i < size
                invariant
                    i <= size,
                    column@.len() == i,
                    c < HASH_COLUMN_COUNT,
                    rows@.map_values(|row: HashScheduleRow| row@) == views,
                    forall|s: int| 0 <= s < rows@.len() ==> (#[trigger] rows@[s]).chunks@.len() == RATE,
                    forall|j: int|
                        0 <= j < i ==> #[trigger] column@[j] == if j < rows@.len() {
                            hash_column_value(views[j], c as nat)
                        } else {
                            0
                        },
                decreases size - i,
            {
                if i < rows.len() {
                    assert(views[i as int] == rows@[i as int]@);
                    column.push(hash_row_value(&rows[i], c));
                } else {
                    column.push(0);
                }
                i = i + 1;
            }
            columns.push(column);
            c = c + 1;
        }
        columns
    }
}

} // verus!
