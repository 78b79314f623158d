//! The sponge that hashes each trace opening along the fixed leaf schedule.
//!
//! Rows of a lane that the proof kind does not use are recorded as zeros.
//! Each active row starts from the previous row's state, or from the leaf
//! domain state on an opening's first row, adds its eight words into the
//! rate modulo the field prime and is permuted. The last row of an opening
//! also fixes the query's leaf position and yields the opening's digest.
//!
//! The permutation and the query-route evaluation belong to the caller: the
//! sponge asks for each in turn and records what it is handed back.
use crate::kernel::{LEFT_RECURSION_VERIFIER_ID, RIGHT_RECURSION_VERIFIER_ID, SEGMENT_VERIFIER_ID};
use crate::m31::{M31_MODULUS, M31Word};
use crate::trace_leaf::{LeafChunk, TraceLeafRow, TraceMerklePreprocessed};
use crate::trace_merkle::{TraceLeafClaim, TraceMerkleError, ValidatedProfile};
use vstd::prelude::*;

verus! {

/// Words of the permutation state.
pub const LEAF_STATE_WORDS: usize = 16;

/// Values one leaf row records: its activity flag and position, the state
/// before absorbing, the eight absorbed words and the permuted state.
pub const LEAF_ROW_WIDTH: usize = 42;

/// The queried values and raw queries of one verifier's trace openings.
#[derive(Clone, Copy)]
pub struct TraceOpeningSet<'a> {
    pub queried_values: &'a [M31Word],
    pub raw_queries: &'a [M31Word],
}

/// Trace-opening witnesses selected by the universal proof kind.
#[derive(Clone, Copy)]
pub enum UniversalTraceOpeningWitness<'a> {
    Segment(TraceOpeningSet<'a>),
    Binary { left: TraceOpeningSet<'a>, right: TraceOpeningSet<'a> },
    Empty,
}

/// The count error of one opening set against its checked profile.
pub open spec fn opening_count_error(
    verifier_id: u32,
    profile: ValidatedProfile,
    opening: TraceOpeningSet<'_>,
) -> Option<TraceMerkleError> {
    if opening.queried_values@.len() != profile.queried_value_count {
        Some(
            TraceMerkleError::QueriedValueCountMismatchForWitness {
                verifier_id,
                expected: profile.queried_value_count,
                actual: opening.queried_values@.len() as usize,
            },
        )
    } else if opening.raw_queries@.len() != profile.query_count {
        Some(
            TraceMerkleError::RawQueryCountMismatch {
                verifier_id,
                expected: profile.query_count,
                actual: opening.raw_queries@.len() as usize,
            },
        )
    } else {
        None
    }
}

/// The first count error of the witness's opening sets.
pub open spec fn witness_error(
    preprocessed: TraceMerklePreprocessed,
    witness: UniversalTraceOpeningWitness<'_>,
) -> Option<TraceMerkleError> {
    match witness {
        UniversalTraceOpeningWitness::Segment(opening) => opening_count_error(
            SEGMENT_VERIFIER_ID,
            preprocessed.spec_vm_profile(),
            opening,
        ),
        UniversalTraceOpeningWitness::Binary { left, right } => match opening_count_error(
            LEFT_RECURSION_VERIFIER_ID,
            preprocessed.spec_recursion_profile(),
            left,
        ) {
            Some(error) => Some(error),
            None => opening_count_error(RIGHT_RECURSION_VERIFIER_ID, preprocessed.spec_recursion_profile(), right),
        },
        UniversalTraceOpeningWitness::Empty => None,
    }
}

/// The opening set a verifier's rows read under the witness: none when the
/// proof kind leaves that verifier's lane unused.
pub open spec fn selected_opening<'a>(
    witness: UniversalTraceOpeningWitness<'a>,
    verifier_id: u32,
) -> Result<Option<TraceOpeningSet<'a>>, TraceMerkleError> {
    if verifier_id == SEGMENT_VERIFIER_ID {
        match witness {
            UniversalTraceOpeningWitness::Segment(opening) => Ok(Some(opening)),
            _ => Ok(None),
        }
    } else if verifier_id == LEFT_RECURSION_VERIFIER_ID {
        match witness {
            UniversalTraceOpeningWitness::Binary { left, .. } => Ok(Some(left)),
            _ => Ok(None),
        }
    } else if verifier_id == RIGHT_RECURSION_VERIFIER_ID {
        match witness {
            UniversalTraceOpeningWitness::Binary { right, .. } => Ok(Some(right)),
            _ => Ok(None),
        }
    } else {
        Err(TraceMerkleError::UnknownVerifierId { verifier_id })
    }
}

/// Whether the row belongs to a lane that the witness leaves unused.
pub open spec fn row_inactive(witness: UniversalTraceOpeningWitness<'_>, row: TraceLeafRow) -> bool {
    selected_opening(witness, row.verifier_id) matches Ok(None)
}

/// The first row at or after `r` that is not in an unused lane, or the row
/// count when there is none.
pub open spec fn first_active_row(
    rows: Seq<TraceLeafRow>,
    witness: UniversalTraceOpeningWitness<'_>,
    r: nat,
) -> nat
    decreases rows.len() - r,
{
    if r < rows.len() && row_inactive(witness, rows[r as int]) {
        first_active_row(rows, witness, r + 1)
    } else {
        r
    }
}

/// The word one chunk source absorbs from an opening.
pub open spec fn chunk_word(
    opening: TraceOpeningSet<'_>,
    verifier_id: u32,
    chunk: LeafChunk,
) -> Result<u32, TraceMerkleError> {
    match chunk {
        LeafChunk::Value { flat_index, .. } => if flat_index < opening.queried_values@.len() {
            Ok(opening.queried_values@[flat_index as int]@)
        } else {
            Err(TraceMerkleError::QueriedValueMissing { verifier_id, index: flat_index })
        },
        LeafChunk::Constant(value) => Ok(value),
    }
}

/// The words of the first `n` chunks of a row, or the first chunk's error.
pub open spec fn chunk_words(opening: TraceOpeningSet<'_>, row: TraceLeafRow, n: nat) -> Result<
    Seq<u32>,
    TraceMerkleError,
>
    decreases n,
{
    if n == 0 {
        Ok(Seq::empty())
    } else {
        match chunk_words(opening, row, (n - 1) as nat) {
            Err(error) => Err(error),
            Ok(words) => match chunk_word(opening, row.verifier_id, row.chunks@[n - 1]) {
                Err(error) => Err(error),
                Ok(word) => Ok(words.push(word)),
            },
        }
    }
}

/// The state every opening's sponge starts from: zeros with the leaf
/// domain tag in the last word.
pub open spec fn leaf_start_state() -> Seq<u32> {
    Seq::new(16, |j: int| if j == 15 { 1u32 } else { 0u32 })
}

/// The permutation input after absorbing: each rate word plus its chunk
/// modulo the field prime, the capacity unchanged.
pub open spec fn absorbed_state(previous: Seq<u32>, chunks: Seq<u32>) -> Seq<u32> {
    Seq::new(
        16,
        |j: int|
            if j < 8 {
                ((previous[j] + chunks[j]) % (M31_MODULUS as int)) as u32
            } else {
                previous[j]
            },
    )
}

/// An active row whose permutation the sponge is waiting for.
#[derive(Clone, Copy)]
pub struct PendingLeaf {
    pub row: TraceLeafRow,
    pub position: u32,
    pub routed: bool,
    pub previous: [u32; 16],
    pub chunks: [u32; 8],
}

/// What the sponge asks of its caller next.
pub enum TraceLeafRequest {
    /// The leaf position and offset of the trace-tree route of `raw_query`.
    Route { verifier_id: u32, tree: u32, query: u32, raw_query: u32 },
    /// The permutation of `input`.
    Permute { input: [u32; 16] },
    /// Every row is recorded.
    Done,
}

/// The leaf sponge between two rows, or in the middle of one.
pub struct TraceLeafSponge {
    next_row: usize,
    state: [u32; 16],
    pending: Option<PendingLeaf>,
    claims: Vec<TraceLeafClaim>,
}

/// The values one active row records.
pub open spec fn active_row_values(pending: PendingLeaf, output: Seq<u32>) -> Seq<u32> {
    seq![1u32, pending.position] + pending.previous@ + pending.chunks@ + output
}

/// The claim the last row of an opening yields.
pub open spec fn leaf_claim(pending: PendingLeaf, output: Seq<u32>) -> TraceLeafClaim {
    TraceLeafClaim {
        verifier_id: pending.row.verifier_id,
        tree: pending.row.tree,
        query: pending.row.query,
        tree_id: pending.row.tree_id,
        height: pending.row.tree_height,
        position: pending.position,
        digest: [output[0], output[1], output[2], output[3], output[4], output[5], output[6], output[7]],
    }
}

impl TraceLeafSponge {
    /// A pending row always has a successor index.
    #[verifier::type_invariant]
    closed spec fn pending_row_fits(self) -> bool {
        self.pending is Some ==> self.next_row < usize::MAX
    }

    /// The index of the next row to record, or of the pending row.
    pub closed spec fn spec_next_row(&self) -> nat {
        self.next_row as nat
    }

    /// The state the next row starts from when it is not an opening's first.
    pub closed spec fn spec_state(&self) -> Seq<u32> {
        self.state@
    }

    /// The row waiting for its route or its permutation.
    pub closed spec fn spec_pending(&self) -> Option<PendingLeaf> {
        self.pending
    }

    /// The claims of the openings completed so far.
    pub closed spec fn spec_claims(&self) -> Seq<TraceLeafClaim> {
        self.claims@
    }

    /// Checks each opening set's counts against its profile and starts at
    /// the first row.
    pub fn new(preprocessed: &TraceMerklePreprocessed, witness: UniversalTraceOpeningWitness<'_>) -> (result:
        Result<Self, TraceMerkleError>)
        ensures
            match witness_error(*preprocessed, witness) {
                Some(error) => result == Err::<Self, _>(error),
                None => result matches Ok(sponge) && sponge.spec_next_row() == 0 && sponge.spec_state()
                    == Seq::new(16, |j: int| 0u32) && sponge.spec_pending() is None
                    && sponge.spec_claims().len() == 0,
            },
    {
        let vm = preprocessed.vm_profile();
        let recursion = preprocessed.recursion_profile();
        match witness {
            UniversalTraceOpeningWitness::Segment(opening) => {
                check_opening(SEGMENT_VERIFIER_ID, vm, opening)?;
            },
            UniversalTraceOpeningWitness::Binary { left, right } => {
                check_opening(LEFT_RECURSION_VERIFIER_ID, recursion, left)?;
                check_opening(RIGHT_RECURSION_VERIFIER_ID, recursion, right)?;
            },
            UniversalTraceOpeningWitness::Empty => {},
        }
        let sponge = TraceLeafSponge { next_row: 0, state: [0u32; 16], pending: None, claims: Vec::new() };
        proof {
            assert(sponge.state@ =~= Seq::new(16, |j: int| 0u32));
        }
        Ok(sponge)
    }

    /// Records the unused lanes' rows from the next row on as zero rows and
    /// asks for the work of the first active row: its route when it ends an
    /// opening, else its permutation. `Done` once every row is recorded.
    pub fn next_request(
        &mut self,
        table: &mut Vec<u32>,
        preprocessed: &TraceMerklePreprocessed,
        witness: UniversalTraceOpeningWitness<'_>,
    ) -> (result: Result<TraceLeafRequest, TraceMerkleError>)
        requires
            old(self).spec_pending() is None,
        ensures
            ({
                let rows = preprocessed.spec_rows();
                let start = old(self).spec_next_row();
                let active = first_active_row(rows, witness, start);
                &&& final(table)@ == old(table)@ + Seq::new(((active - start) * 42) as nat, |i: int| 0u32)
                &&& final(self).spec_next_row() == active
                &&& final(self).spec_state() == old(self).spec_state()
                &&& final(self).spec_claims() == old(self).spec_claims()
                &&& if active < rows.len() {
                    row_request_outcome(
                        rows[active as int],
                        witness,
                        old(self).spec_state(),
                        result,
                        final(self).spec_pending(),
                    )
                } else {
                    result matches Ok(TraceLeafRequest::Done) && final(self).spec_pending() is None
                }
            }),
    {
        let rows = preprocessed.rows();
        let ghost start = self.next_row as nat;
        let ghost before = table@;
        let mut r = self.next_row;
        while r < rows.len()
            invariant
                start <= r,
                r == start || r <= rows@.len(),
                first_active_row(rows@, witness, r as nat) == first_active_row(rows@, witness, start),
                table@ == before + Seq::new(((r - start) * 42) as nat, |i: int| 0u32),
                rows@ == preprocessed.spec_rows(),
            ensures
                first_active_row(rows@, witness, start) == r,
                table@ == before + Seq::new(((r - start) * 42) as nat, |i: int| 0u32),
            decreases rows.len() - r,
        {
            let selected = select_opening(witness, rows[r].verifier_id);
            if !(selected matches Ok(None)) {
                break;
            }
            proof {
                lemma_first_active_skip(rows@, witness, r as nat);
            }
            push_zero_row(table);
            proof {
                assert(table@ =~= before + Seq::new(((r + 1 - start) * 42) as nat, |i: int| 0u32));
            }
            r = r + 1;
        }
        self.next_row = r;
        if r >= rows.len() {
            return Ok(TraceLeafRequest::Done);
        }
        let row = rows[r];
        let opening = match select_opening(witness, row.verifier_id) {
            Err(error) => {
                return Err(error);
            },
            Ok(None) => {
                return Ok(TraceLeafRequest::Done);
            },
            Ok(Some(opening)) => opening,
        };
        let chunks = gather_chunks(opening, &row)?;
        let previous = if row.first {
            leaf_start()
        } else {
            self.state
        };
        if !row.last {
            let input = absorb(&previous, &chunks);
            self.pending = Some(PendingLeaf { row, position: 0, routed: true, previous, chunks });
            return Ok(TraceLeafRequest::Permute { input });
        }
        let query = row.query as usize;
        if query >= opening.raw_queries.len() {
            return Err(TraceMerkleError::RawQueryMissing { verifier_id: row.verifier_id, query: row.query });
        }
        let raw_query = opening.raw_queries[query].as_u32();
        self.pending = Some(PendingLeaf { row, position: 0, routed: false, previous, chunks });
        Ok(TraceLeafRequest::Route { verifier_id: row.verifier_id, tree: row.tree, query: row.query, raw_query })
    }

    /// Takes the route of the pending row's raw query. A nonzero offset is
    /// refused, as a trace leaf sits at the start of its query's position;
    /// else the row's position is fixed and its permutation is asked for.
    pub fn route_evaluated(&mut self, position: u32, offset: u32) -> (result: Result<[u32; 16], TraceMerkleError>)
        requires
            old(self).spec_pending() matches Some(p) && !p.routed,
        ensures
            ({
                let p = old(self).spec_pending()->Some_0;
                &&& final(self).spec_next_row() == old(self).spec_next_row()
                &&& final(self).spec_state() == old(self).spec_state()
                &&& final(self).spec_claims() == old(self).spec_claims()
                &&& if offset != 0 {
                    &&& result == Err::<[u32; 16], _>(
                        TraceMerkleError::TraceOffsetNotZero {
                            verifier_id: p.row.verifier_id,
                            tree: p.row.tree,
                            query: p.row.query,
                            offset,
                        },
                    )
                    &&& final(self).spec_pending() == Some(p)
                } else {
                    &&& result matches Ok(input) && input@ == absorbed_state(p.previous@, p.chunks@)
                    &&& final(self).spec_pending() == Some(
                        (PendingLeaf { row: p.row, position, routed: true, previous: p.previous, chunks: p.chunks }),
                    )
                }
            }),
    {
        proof {
            use_type_invariant(&*self);
        }
        let pending = self.pending.unwrap();
        if offset != 0 {
            return Err(
                TraceMerkleError::TraceOffsetNotZero {
                    verifier_id: pending.row.verifier_id,
                    tree: pending.row.tree,
                    query: pending.row.query,
                    offset,
                },
            );
        }
        let input = absorb(&pending.previous, &pending.chunks);
        self.pending = Some(
            PendingLeaf {
                row: pending.row,
                position,
                routed: true,
                previous: pending.previous,
                chunks: pending.chunks,
            },
        );
        Ok(input)
    }

    /// Records the pending row with its permutation output, which becomes
    /// the sponge state; an opening's last row also yields its claim, whose
    /// digest is the output's rate.
    pub fn permuted(&mut self, table: &mut Vec<u32>, output: [u32; 16])
        requires
            old(self).spec_pending() matches Some(p) && p.routed,
        ensures
            ({
                let p = old(self).spec_pending()->Some_0;
                &&& final(table)@ == old(table)@ + active_row_values(p, output@)
                &&& final(self).spec_state() == output@
                &&& final(self).spec_pending() is None
                &&& final(self).spec_next_row() == old(self).spec_next_row() + 1
                &&& final(self).spec_claims() == if p.row.last {
                    old(self).spec_claims().push(leaf_claim(p, output@))
                } else {
                    old(self).spec_claims()
                }
            }),
    {
        proof {
            use_type_invariant(&*self);
        }
        let pending = self.pending.unwrap();
        let ghost before = table@;
        table.push(1);
        table.push(pending.position);
        let mut j: usize = 0;
        while j < 16
            invariant
                j <= 16,
                table@ == before + seq![1u32, pending.position] + pending.previous@.subrange(0, j as int),
            decreases 16 - j,
        {
            table.push(pending.previous[j]);
            proof {
                assert(pending.previous@.subrange(0, j + 1) =~= pending.previous@.subrange(0, j as int).push(
                    pending.previous@[j as int],
                ));
            }
            j = j + 1;
        }
        let mut k: usize = 0;
        while k < 8
            invariant
                k <= 8,
                table@ == before + seq![1u32, pending.position] + pending.previous@ + pending.chunks@.subrange(
                    0,
                    k as int,
                ),
            decreases 8 - k,
        {
            proof {
                assert(pending.previous@.subrange(0, 16) =~= pending.previous@);
            }
            table.push(pending.chunks[k]);
            proof {
                assert(pending.chunks@.subrange(0, k + 1) =~= pending.chunks@.subrange(0, k as int).push(
                    pending.chunks@[k as int],
                ));
            }
            k = k + 1;
        }
        let mut m: usize = 0;
        while m < 16
            invariant
                m <= 16,
                table@ == before + seq![1u32, pending.position] + pending.previous@ + pending.chunks@
                    + output@.subrange(0, m as int),
            decreases 16 - m,
        {
            proof {
                assert(pending.chunks@.subrange(0, 8) =~= pending.chunks@);
            }
            table.push(output[m]);
            proof {
                assert(output@.subrange(0, m + 1) =~= output@.subrange(0, m as int).push(output@[m as int]));
            }
            m = m + 1;
        }
        proof {
            assert(output@.subrange(0, 16) =~= output@);
            assert(pending.chunks@.subrange(0, 8) =~= pending.chunks@);
        }
        let mut claims = Vec::new();
        std::mem::swap(&mut claims, &mut self.claims);
        if pending.row.last {
            claims.push(
                TraceLeafClaim {
                    verifier_id: pending.row.verifier_id,
                    tree: pending.row.tree,
                    query: pending.row.query,
                    tree_id: pending.row.tree_id,
                    height: pending.row.tree_height,
                    position: pending.position,
                    digest: [
                        output[0],
                        output[1],
                        output[2],
                        output[3],
                        output[4],
                        output[5],
                        output[6],
                        output[7],
                    ],
                },
            );
        }
        self.claims = claims;
        self.state = output;
        self.pending = None;
        self.next_row = self.next_row + 1;
    }

    /// The claims of every completed opening, in row order.
    pub fn into_claims(self) -> (claims: Vec<TraceLeafClaim>)
        ensures
            claims@ == self.spec_claims(),
    {
        self.claims
    }
}

/// The opening set a verifier's rows read under the witness.
fn select_opening<'a>(witness: UniversalTraceOpeningWitness<'a>, verifier_id: u32) -> (result: Result<
    Option<TraceOpeningSet<'a>>,
    TraceMerkleError,
>)
    ensures
        result == selected_opening(witness, verifier_id),
{
    if verifier_id == SEGMENT_VERIFIER_ID {
        match witness {
            UniversalTraceOpeningWitness::Segment(opening) => Ok(Some(opening)),
            _ => Ok(None),
        }
    } else if verifier_id == LEFT_RECURSION_VERIFIER_ID {
        match witness {
            UniversalTraceOpeningWitness::Binary { left, .. } => Ok(Some(left)),
            _ => Ok(None),
        }
    } else if verifier_id == RIGHT_RECURSION_VERIFIER_ID {
        match witness {
            UniversalTraceOpeningWitness::Binary { right, .. } => Ok(Some(right)),
            _ => Ok(None),
        }
    } else {
        Err(TraceMerkleError::UnknownVerifierId { verifier_id })
    }
}

/// Pushes one zero row.
fn push_zero_row(table: &mut Vec<u32>)
    ensures
        final(table)@ == old(table)@ + Seq::new(42, |i: int| 0u32),
{
    let ghost before = table@;
    let mut i: usize = 0;
    while i < LEAF_ROW_WIDTH
        invariant
            i <= LEAF_ROW_WIDTH,
            table@ == before + Seq::new(i as nat, |k: int| 0u32),
        decreases LEAF_ROW_WIDTH - i,
    {
        table.push(0);
        proof {
            assert(before + Seq::new((i + 1) as nat, |k: int| 0u32) =~= (before + Seq::new(i as nat, |k: int| 0u32)).push(0u32));
        }
        i = i + 1;
    }
}

/// The words a row's chunk sources absorb from an opening, or the first
/// chunk's error.
fn gather_chunks(opening: TraceOpeningSet<'_>, row: &TraceLeafRow) -> (result: Result<[u32; 8], TraceMerkleError>)
    ensures
        match chunk_words(opening, *row, 8) {
            Err(error) => result == Err::<[u32; 8], _>(error),
            Ok(words) => result matches Ok(chunks) && chunks@ == words,
        },
{
    let mut chunks = [0u32; 8];
    let mut j: usize = 0;
    proof {
        assert(chunks@.subrange(0, 0) =~= Seq::<u32>::empty());
    }
    while j < 8
        invariant
            j <= 8,
            chunk_words(opening, *row, j as nat) == Ok::<Seq<u32>, TraceMerkleError>(chunks@.subrange(0, j as int)),
        decreases 8 - j,
    {
        let word = match row.chunks[j] {
            LeafChunk::Value { flat_index, .. } => {
                if flat_index >= opening.queried_values.len() {
                    proof {
                        lemma_chunk_error_sticks(opening, *row, (j + 1) as nat, 8);
                    }
                    return Err(TraceMerkleError::QueriedValueMissing { verifier_id: row.verifier_id, index: flat_index });
                }
                opening.queried_values[flat_index].as_u32()
            },
            LeafChunk::Constant(value) => value,
        };
        let ghost old_chunks = chunks@;
        chunks[j] = word;
        proof {
            assert(chunks@.subrange(0, j + 1) =~= old_chunks.subrange(0, j as int).push(word));
        }
        j = j + 1;
    }
    proof {
        assert(chunks@.subrange(0, 8) =~= chunks@);
    }
    Ok(chunks)
}

/// The leaf domain start state.
fn leaf_start() -> (state: [u32; 16])
    ensures
        state@ == leaf_start_state(),
{
    let mut state = [0u32; 16];
    state[15] = 1;
    proof {
        assert(state@ =~= leaf_start_state());
    }
    state
}

/// Adds the chunks into the rate modulo the field prime.
fn absorb(previous: &[u32; 16], chunks: &[u32; 8]) -> (input: [u32; 16])
    ensures
        input@ == absorbed_state(previous@, chunks@),
{
    let mut input = *previous;
    let mut j: usize = 0;
    while j < 8
        invariant
            j <= 8,
            input@.len() == 16,
            forall|k: int| 0 <= k < j ==> input@[k] == ((previous@[k] + chunks@[k]) % (M31_MODULUS as int)) as u32,
            forall|k: int| j <= k < 16 ==> input@[k] == previous@[k],
        decreases 8 - j,
    {
        let sum: u64 = previous[j] as u64 + chunks[j] as u64;
        input[j] = (sum % (M31_MODULUS as u64)) as u32;
        j = j + 1;
    }
    proof {
        assert(input@ =~= absorbed_state(previous@, chunks@));
    }
    input
}

/// What asking for an active row's work yields: the route request of an
/// opening's last row, the permutation request of any other, or the first
/// error of the row's opening, chunks and raw query; and the row left
/// pending.
pub open spec fn row_request_outcome(
    row: TraceLeafRow,
    witness: UniversalTraceOpeningWitness<'_>,
    state: Seq<u32>,
    result: Result<TraceLeafRequest, TraceMerkleError>,
    pending: Option<PendingLeaf>,
) -> bool {
    match selected_opening(witness, row.verifier_id) {
        Err(error) => result == Err::<TraceLeafRequest, _>(error) && pending is None,
        Ok(None) => result matches Ok(TraceLeafRequest::Done) && pending is None,
        Ok(Some(opening)) => match chunk_words(opening, row, 8) {
            Err(error) => result == Err::<TraceLeafRequest, _>(error) && pending is None,
            Ok(chunks) => {
                let previous = if row.first {
                    leaf_start_state()
                } else {
                    state
                };
                if !row.last {
                    &&& result matches Ok(TraceLeafRequest::Permute { input }) && input@ == absorbed_state(
                        previous,
                        chunks,
                    )
                    &&& pending matches Some(p) && p.row == row && p.routed && p.position == 0
                        && p.previous@ == previous && p.chunks@ == chunks
                } else if row.query < opening.raw_queries@.len() {
                    &&& result == Ok::<_, TraceMerkleError>(
                        TraceLeafRequest::Route {
                            verifier_id: row.verifier_id,
                            tree: row.tree,
                            query: row.query,
                            raw_query: opening.raw_queries@[row.query as int]@,
                        },
                    )
                    &&& pending matches Some(p) && p.row == row && !p.routed && p.position == 0
                        && p.previous@ == previous && p.chunks@ == chunks
                } else {
                    &&& result == Err::<TraceLeafRequest, _>(
                        TraceMerkleError::RawQueryMissing { verifier_id: row.verifier_id, query: row.query },
                    )
                    &&& pending is None
                }
            },
        },
    }
}

/// Once a chunk fails, every longer prefix fails with the same error.
proof fn lemma_chunk_error_sticks(opening: TraceOpeningSet<'_>, row: TraceLeafRow, n: nat, m: nat)
    requires
        n <= m,
        chunk_words(opening, row, n) is Err,
    ensures
        chunk_words(opening, row, m) == chunk_words(opening, row, n),
    decreases m - n,
{
    if n < m {
        lemma_chunk_error_sticks(opening, row, n, (m - 1) as nat);
    }
}

/// Skipping an unused lane's row leaves the next active row unchanged.
proof fn lemma_first_active_skip(
    rows: Seq<TraceLeafRow>,
    witness: UniversalTraceOpeningWitness<'_>,
    r: nat,
)
    requires
        r < rows.len(),
        row_inactive(witness, rows[r as int]),
    ensures
        first_active_row(rows, witness, r) == first_active_row(rows, witness, r + 1),
{
}

/// Checks one opening set's counts against its profile.
fn check_opening(verifier_id: u32, profile: ValidatedProfile, opening: TraceOpeningSet<'_>) -> (result: Result<
    (),
    TraceMerkleError,
>)
    ensures
        match opening_count_error(verifier_id, profile, opening) {
            Some(error) => result == Err::<(), _>(error),
            None => result is Ok,
        },
{
    if opening.queried_values.len() != profile.queried_value_count {
        return Err(
            TraceMerkleError::QueriedValueCountMismatchForWitness {
                verifier_id,
                expected: profile.queried_value_count,
                actual: opening.queried_values.len(),
            },
        );
    }
    if opening.raw_queries.len() != profile.query_count {
        return Err(
            TraceMerkleError::RawQueryCountMismatch {
                verifier_id,
                expected: profile.query_count,
                actual: opening.raw_queries.len(),
            },
        );
    }
    Ok(())
}

} // verus!
