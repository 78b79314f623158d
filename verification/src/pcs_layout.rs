//! Exact PCS column and query layout of recursion VM proofs.
//!
//! The VM AIR program fixes every committed column, its commitment tree and
//! its degree. A layout is built only when the proof manifest's flat table
//! list, tree heights, sampled-value count, claimed-sum count, queried-value
//! count and lifting bound all agree with that program. The layout is then
//! the sole map from (tree, column, query) to a flat wire slot, so a proof
//! cannot reinterpret one slot as a different tree or column.
use crate::m31::M31Word;
use vstd::prelude::*;

verus! {

/// The PCS parameters a layout depends on.
#[derive(Clone, Copy, Debug, PartialEq, Eq, Structural)]
pub struct PcsConfig {
    pub log_blowup_factor: u32,
    pub n_queries: usize,
    pub lifting_log_size: Option<u32>,
}

/// The committed geometry of the VM AIR program.
#[derive(Clone, Debug)]
pub struct VmProgramGeometry {
    /// Components whose interaction claims a sum.
    pub component_count: usize,
    /// Column log sizes, tree by tree.
    pub column_log_sizes: Vec<Vec<u32>>,
    /// Values sampled out of domain.
    pub sample_count: usize,
    pub max_log_degree_bound: u32,
}

/// The proof manifest's geometry, once checked against the PCS parameters.
#[derive(Clone, Debug)]
pub struct PcsManifestShape {
    pub claimed_sum_count: M31Word,
    pub sampled_value_count: M31Word,
    pub queried_value_count: M31Word,
    /// One log size per committed column, tree-major.
    pub table_log_sizes: Vec<M31Word>,
    pub tree_heights: Vec<M31Word>,
    /// The lifting domain the checked shape commits to.
    pub lifting_log_size: u32,
}

/// Which manifest count disagrees with the program.
#[derive(Clone, Copy, Debug, PartialEq, Eq, Structural)]
pub enum LayoutCount {
    ClaimedSums,
    SampledValues,
    QueriedValues,
}

/// Which computation left the machine range.
#[derive(Clone, Copy, Debug, PartialEq, Eq, Structural)]
pub enum LayoutArithmetic {
    VmColumnCount,
    QueriedValueCount,
    TreeColumnOffsets,
    ExtendedColumnLogSize,
    EffectiveMaximumDegree,
    QueriedValueIndex,
}

/// VM AIR program and manifest geometry disagree.
#[derive(Clone, Copy, Debug, PartialEq, Eq, Structural)]
pub enum VmPcsLayoutError {
    TreeCountMismatch { expected: usize, actual: usize },
    ColumnCountMismatch { expected: usize, actual: usize },
    TableLogSizeMismatch { table: usize, expected: u32, actual: u32 },
    TreeHeightMismatch { tree: usize, expected: u32, actual: u32 },
    CountDoesNotFitUsize { field: LayoutCount, actual: u32 },
    CountMismatch { field: LayoutCount, expected: usize, actual: usize },
    EmptyCommitmentTree { tree: usize },
    TreeExceedsLiftingDomain { tree: usize, natural: u32, lifting: u32 },
    MaxLogDegreeBoundMismatch { expected: u32, actual: u32 },
    TreeIndexOutOfRange { tree: usize },
    ColumnIndexOutOfRange { tree: usize, column: usize, column_count: usize },
    QueryIndexOutOfRange { query: usize, query_count: usize },
    ArithmeticOverflow { field: LayoutArithmetic },
}

/// Columns of the trees before tree `t`.
pub open spec fn column_offset(sizes: Seq<Seq<u32>>, t: nat) -> nat
    decreases t,
{
    if t == 0 {
        0
    } else {
        column_offset(sizes, (t - 1) as nat) + sizes[t - 1].len()
    }
}

/// Columns of all trees.
pub open spec fn total_columns(sizes: Seq<Seq<u32>>) -> nat {
    column_offset(sizes, sizes.len())
}

/// Offsets only grow.
pub proof fn lemma_column_offset_monotonic(sizes: Seq<Seq<u32>>, s: nat, t: nat)
    requires
        s <= t,
    ensures
        column_offset(sizes, s) <= column_offset(sizes, t),
    decreases t - s,
{
    if s < t {
        lemma_column_offset_monotonic(sizes, s, (t - 1) as nat);
    }
}

/// Checks one manifest count against the program.
pub fn validate_count(field: LayoutCount, expected: usize, actual: M31Word) -> (result: Result<
    (),
    VmPcsLayoutError,
>)
    ensures
        result == if expected == actual@ {
            Ok::<(), VmPcsLayoutError>(())
        } else {
            Err(VmPcsLayoutError::CountMismatch { field, expected, actual: actual@ as usize })
        },
{
    let actual = actual.as_u32() as usize;
    if expected == actual {
        Ok(())
    } else {
        Err(VmPcsLayoutError::CountMismatch { field, expected, actual })
    }
}

/// The column offset of every tree, and the total column count last.
pub fn tree_column_offsets(column_log_sizes: &[Vec<u32>]) -> (result: Result<
    Vec<usize>,
    VmPcsLayoutError,
>)
    ensures
        match result {
            Ok(offsets) => {
                &&& total_columns(column_log_sizes@.map_values(|c: Vec<u32>| c@)) <= usize::MAX
                &&& offsets@.len() == column_log_sizes@.len() + 1
                &&& forall|t: int|
                    0 <= t <= column_log_sizes@.len() ==> #[trigger] offsets@[t] == column_offset(
                        column_log_sizes@.map_values(|c: Vec<u32>| c@),
                        t as nat,
                    )
            },
            Err(error) => error == VmPcsLayoutError::ArithmeticOverflow {
                field: LayoutArithmetic::TreeColumnOffsets,
            } && total_columns(column_log_sizes@.map_values(|c: Vec<u32>| c@)) > usize::MAX,
        },
{
    let ghost sizes = column_log_sizes@.map_values(|c: Vec<u32>| c@);
    let mut offsets: Vec<usize> = Vec::new();
    offsets.push(0);
    let mut total: usize = 0;
    let mut t: usize = 0;
    while t < column_log_sizes.len()
        invariant
            t <= column_log_sizes@.len(),
            sizes == column_log_sizes@.map_values(|c: Vec<u32>| c@),
            total == column_offset(sizes, t as nat),
            offsets@.len() == t + 1,
            forall|s: int| 0 <= s <= t ==> #[trigger] offsets@[s] == column_offset(sizes, s as nat),
        decreases column_log_sizes@.len() - t,
    {
        let len = column_log_sizes[t].len();
        assert(sizes[t as int] == column_log_sizes@[t as int]@);
        if total > usize::MAX - len {
            proof {
                lemma_column_offset_monotonic(sizes, (t + 1) as nat, sizes.len());
            }
            return Err(VmPcsLayoutError::ArithmeticOverflow { field: LayoutArithmetic::TreeColumnOffsets });
        }
        total = total + len;
        offsets.push(total);
        t = t + 1;
    }
    Ok(offsets)
}

/// The largest value of a nonempty sequence.
pub open spec fn seq_max(s: Seq<u32>) -> u32
    decreases s.len(),
{
    if s.len() <= 1 {
        s[0]
    } else {
        let rest = seq_max(s.drop_last());
        if rest < s.last() {
            s.last()
        } else {
            rest
        }
    }
}

/// The committed height of one tree: its largest column extended by the
/// blowup, raised to the lifting domain when there is one.
pub open spec fn spec_tree_height(columns: Seq<u32>, tree: nat, config: PcsConfig) -> Result<
    u32,
    VmPcsLayoutError,
> {
    if columns.len() == 0 {
        Err(VmPcsLayoutError::EmptyCommitmentTree { tree: tree as usize })
    } else if seq_max(columns) + config.log_blowup_factor > u32::MAX {
        Err(VmPcsLayoutError::ArithmeticOverflow { field: LayoutArithmetic::ExtendedColumnLogSize })
    } else {
        let natural = (seq_max(columns) + config.log_blowup_factor) as u32;
        match config.lifting_log_size {
            Some(lifting) => if natural > lifting {
                Err(VmPcsLayoutError::TreeExceedsLiftingDomain { tree: tree as usize, natural, lifting })
            } else {
                Ok(lifting)
            },
            None => Ok(natural),
        }
    }
}

/// The heights of the first `n` trees, or the first error met.
pub open spec fn spec_tree_heights(sizes: Seq<Seq<u32>>, config: PcsConfig, n: nat) -> Result<
    Seq<u32>,
    VmPcsLayoutError,
>
    decreases n,
{
    if n == 0 {
        Ok(Seq::empty())
    } else {
        match spec_tree_heights(sizes, config, (n - 1) as nat) {
            Err(error) => Err(error),
            Ok(heights) => match spec_tree_height(sizes[n - 1], (n - 1) as nat, config) {
                Err(error) => Err(error),
                Ok(height) => Ok(heights.push(height)),
            },
        }
    }
}

proof fn lemma_tree_heights_error_sticks(sizes: Seq<Seq<u32>>, config: PcsConfig, n: nat, m: nat)
    requires
        n <= m,
        spec_tree_heights(sizes, config, n) is Err,
    ensures
        spec_tree_heights(sizes, config, m) == spec_tree_heights(sizes, config, n),
    decreases m - n,
{
    if m > n {
        lemma_tree_heights_error_sticks(sizes, config, n, (m - 1) as nat);
    }
}

/// The largest value of a nonempty sequence bounds every element and is
/// one of them.
pub proof fn lemma_seq_max_is_largest(s: Seq<u32>)
    requires
        s.len() > 0,
    ensures
        forall|i: int| 0 <= i < s.len() ==> s[i] <= seq_max(s),
        exists|j: int| 0 <= j < s.len() && seq_max(s) == s[j],
    decreases s.len(),
{
    if s.len() > 1 {
        let rest = s.drop_last();
        lemma_seq_max_is_largest(rest);
        assert forall|i: int| 0 <= i < s.len() implies s[i] <= seq_max(s) by {
            if i < s.len() - 1 {
                assert(s[i] == rest[i]);
            }
        }
        if seq_max(rest) < s.last() {
            assert(seq_max(s) == s[s.len() - 1]);
        } else {
            let j = choose|j: int| 0 <= j < rest.len() && seq_max(rest) == rest[j];
            assert(seq_max(s) == s[j]);
        }
    } else {
        assert(seq_max(s) == s[0]);
    }
}

/// A committed height for a tree's columns: every column extended by the
/// blowup fits under it; without a lifting domain it is the largest such
/// extended column, and with one it is the lifting domain.
pub open spec fn covers_columns(columns: Seq<u32>, height: u32, config: PcsConfig) -> bool {
    &&& columns.len() > 0
    &&& forall|i: int| 0 <= i < columns.len() ==> #[trigger] columns[i] + config.log_blowup_factor <= height
    &&& config.lifting_log_size is None ==> exists|j: int|
        0 <= j < columns.len() && height == #[trigger] columns[j] + config.log_blowup_factor
    &&& config.lifting_log_size matches Some(lifting) ==> height == lifting
}

/// Every committed tree height covers each of the tree's columns extended
/// by the blowup; without a lifting domain it is exactly the largest such
/// extended column, and with one it is the lifting domain.
pub proof fn lemma_tree_heights_cover_columns(sizes: Seq<Seq<u32>>, config: PcsConfig, n: nat)
    requires
        spec_tree_heights(sizes, config, n) is Ok,
    ensures
        spec_tree_heights(sizes, config, n)->Ok_0.len() == n,
        forall|t: int|
            0 <= t < n ==> covers_columns(sizes[t], #[trigger] spec_tree_heights(sizes, config, n)->Ok_0[t], config),
    decreases n,
{
    if n > 0 {
        let m = (n - 1) as nat;
        assert(spec_tree_heights(sizes, config, m) is Ok) by {
            if spec_tree_heights(sizes, config, m) is Err {
                lemma_tree_heights_error_sticks(sizes, config, m, n);
            }
        }
        lemma_tree_heights_cover_columns(sizes, config, m);
        let earlier = spec_tree_heights(sizes, config, m)->Ok_0;
        let heights = spec_tree_heights(sizes, config, n)->Ok_0;
        let columns = sizes[m as int];
        lemma_seq_max_is_largest(columns);
        let height = spec_tree_height(columns, m, config)->Ok_0;
        assert(heights == earlier.push(height));
        assert(covers_columns(columns, height, config)) by {
            if config.lifting_log_size is None {
                let j = choose|j: int| 0 <= j < columns.len() && seq_max(columns) == columns[j];
                assert(height == columns[j] + config.log_blowup_factor);
            }
        }
        assert forall|t: int| 0 <= t < n implies covers_columns(sizes[t], #[trigger] heights[t], config) by {
            if t < m {
                assert(heights[t] == earlier[t]);
            }
        }
    }
}

/// The largest column log size of one tree.
pub(crate) fn max_log_size(columns: &Vec<u32>) -> (largest: u32)
    requires
        columns@.len() > 0,
    ensures
        largest == seq_max(columns@),
        forall|i: int| 0 <= i < columns@.len() ==> columns@[i] <= largest,
        exists|j: int| 0 <= j < columns@.len() && largest == columns@[j],
{
    let mut largest = columns[0];
    let mut i: usize = 1;
    proof {
        assert(columns@.take(1).drop_last() =~= Seq::<u32>::empty());
        assert(seq_max(columns@.take(1)) == columns@[0]);
    }
    while i < columns.len()
        invariant
            1 <= i <= columns@.len(),
            largest == seq_max(columns@.take(i as int)),
        decreases columns@.len() - i,
    {
        proof {
            assert(columns@.take(i as int + 1).drop_last() =~= columns@.take(i as int));
        }
        if largest < columns[i] {
            largest = columns[i];
        }
        i = i + 1;
    }
    proof {
        assert(columns@.take(columns@.len() as int) =~= columns@);
        lemma_seq_max_is_largest(columns@);
    }
    largest
}

/// The committed height of every tree.
pub fn expected_tree_heights(column_log_sizes: &[Vec<u32>], config: PcsConfig) -> (result: Result<
    Vec<u32>,
    VmPcsLayoutError,
>)
    ensures
        match spec_tree_heights(
            column_log_sizes@.map_values(|c: Vec<u32>| c@),
            config,
            column_log_sizes@.len(),
        ) {
            Ok(heights) => result matches Ok(v) && v@ == heights,
            Err(error) => result == Err::<Vec<u32>, _>(error),
        },
        result matches Ok(v) ==> v@.len() == column_log_sizes@.len() && forall|t: int|
            0 <= t < v@.len() ==> covers_columns(column_log_sizes@[t]@, #[trigger] v@[t], config),
{
    let ghost sizes = column_log_sizes@.map_values(|c: Vec<u32>| c@);
    let mut heights: Vec<u32> = Vec::new();
    let mut t: usize = 0;
    while t < column_log_sizes.len()
        invariant
            t <= column_log_sizes@.len(),
            sizes == column_log_sizes@.map_values(|c: Vec<u32>| c@),
            spec_tree_heights(sizes, config, t as nat) == Ok::<Seq<u32>, VmPcsLayoutError>(heights@),
        decreases column_log_sizes@.len() - t,
    {
        let columns = &column_log_sizes[t];
        assert(sizes[t as int] == columns@);
        if columns.len() == 0 {
            proof {
                lemma_tree_heights_error_sticks(sizes, config, (t + 1) as nat, sizes.len());
            }
            return Err(VmPcsLayoutError::EmptyCommitmentTree { tree: t });
        }
        let largest = max_log_size(columns);
        if largest > u32::MAX - config.log_blowup_factor {
            proof {
                lemma_tree_heights_error_sticks(sizes, config, (t + 1) as nat, sizes.len());
            }
            return Err(VmPcsLayoutError::ArithmeticOverflow { field: LayoutArithmetic::ExtendedColumnLogSize });
        }
        let natural = largest + config.log_blowup_factor;
        let height = match config.lifting_log_size {
            Some(lifting) => {
                if natural > lifting {
                    proof {
                        lemma_tree_heights_error_sticks(sizes, config, (t + 1) as nat, sizes.len());
                    }
                    return Err(
                        VmPcsLayoutError::TreeExceedsLiftingDomain { tree: t, natural, lifting },
                    );
                }
                lifting
            },
            None => natural,
        };
        heights.push(height);
        t = t + 1;
    }
    proof {
        lemma_tree_heights_cover_columns(sizes, config, sizes.len());
        assert forall|t: int| 0 <= t < heights@.len() implies covers_columns(
            column_log_sizes@[t]@,
            #[trigger] heights@[t],
            config,
        ) by {
            assert(sizes[t] == column_log_sizes@[t]@);
        }
    }
    Ok(heights)
}

/// The column log sizes of the first `t` trees, tree-major.
pub open spec fn flat_log_sizes(sizes: Seq<Seq<u32>>, t: nat) -> Seq<u32>
    decreases t,
{
    if t == 0 {
        Seq::empty()
    } else {
        flat_log_sizes(sizes, (t - 1) as nat) + sizes[t - 1]
    }
}

pub(crate) proof fn lemma_flat_len(sizes: Seq<Seq<u32>>, t: nat)
    ensures
        flat_log_sizes(sizes, t).len() == column_offset(sizes, t),
    decreases t,
{
    if t > 0 {
        lemma_flat_len(sizes, (t - 1) as nat);
    }
}

/// The first of the first `n` positions where two sequences differ.
pub open spec fn first_mismatch(expected: Seq<u32>, actual: Seq<u32>, n: nat) -> Option<nat>
    decreases n,
{
    if n == 0 {
        None
    } else {
        match first_mismatch(expected, actual, (n - 1) as nat) {
            Some(i) => Some(i),
            None => if expected[n - 1] != actual[n - 1] {
                Some((n - 1) as nat)
            } else {
                None
            },
        }
    }
}

proof fn lemma_first_mismatch_bound(expected: Seq<u32>, actual: Seq<u32>, n: nat)
    ensures
        first_mismatch(expected, actual, n) matches Some(i) ==> i < n,
    decreases n,
{
    if n > 0 {
        lemma_first_mismatch_bound(expected, actual, (n - 1) as nat);
    }
}

pub(crate) proof fn lemma_first_mismatch_sticks(expected: Seq<u32>, actual: Seq<u32>, n: nat, m: nat)
    requires
        n <= m,
        first_mismatch(expected, actual, n) is Some,
    ensures
        first_mismatch(expected, actual, m) == first_mismatch(expected, actual, n),
    decreases m - n,
{
    if m > n {
        lemma_first_mismatch_sticks(expected, actual, n, (m - 1) as nat);
    }
}

/// The index of the first position where two sequences differ, if any.
pub(crate) fn find_mismatch(expected: &[u32], actual: &[M31Word]) -> (result: Option<usize>)
    requires
        expected@.len() <= actual@.len(),
    ensures
        match first_mismatch(expected@, crate::m31::word_values(actual@), expected@.len()) {
            Some(i) => i < expected@.len() && result == Some(i as usize),
            None => result is None,
        },
{
    let ghost values = crate::m31::word_values(actual@);
    let mut i: usize = 0;
    while i < expected.len()
        invariant
            i <= expected@.len() <= actual@.len(),
            values == crate::m31::word_values(actual@),
            first_mismatch(expected@, values, i as nat) is None,
        decreases expected@.len() - i,
    {
        if expected[i] != actual[i].as_u32() {
            proof {
                lemma_first_mismatch_sticks(expected@, values, (i + 1) as nat, expected@.len());
            }
            proof {
                lemma_first_mismatch_bound(expected@, values, expected@.len());
            }
            return Some(i);
        }
        i = i + 1;
    }
    proof {
        lemma_first_mismatch_bound(expected@, values, expected@.len());
    }
    None
}

/// Every column log size of the program, tree-major.
pub(crate) fn flatten_log_sizes(column_log_sizes: &[Vec<u32>]) -> (flat: Vec<u32>)
    ensures
        flat@ == flat_log_sizes(
            column_log_sizes@.map_values(|c: Vec<u32>| c@),
            column_log_sizes@.len(),
        ),
{
    let ghost sizes = column_log_sizes@.map_values(|c: Vec<u32>| c@);
    let mut flat: Vec<u32> = Vec::new();
    let mut t: usize = 0;
    while t < column_log_sizes.len()
        invariant
            t <= column_log_sizes@.len(),
            sizes == column_log_sizes@.map_values(|c: Vec<u32>| c@),
            flat@ == flat_log_sizes(sizes, t as nat),
        decreases column_log_sizes@.len() - t,
    {
        let columns = &column_log_sizes[t];
        assert(sizes[t as int] == columns@);
        let ghost start = flat@;
        let mut c: usize = 0;
        while c < columns.len()
            invariant
                c <= columns@.len(),
                flat@ == start + columns@.take(c as int),
            decreases columns@.len() - c,
        {
            flat.push(columns[c]);
            proof {
                assert(columns@.take(c as int + 1) =~= columns@.take(c as int).push(columns@[c as int]));
                assert(flat@ =~= start + columns@.take(c as int + 1));
            }
            c = c + 1;
        }
        proof {
            assert(columns@.take(columns@.len() as int) =~= columns@);
        }
        t = t + 1;
    }
    flat
}

/// The total column count, when it fits `usize`.
fn checked_column_total(column_log_sizes: &[Vec<u32>]) -> (result: Option<usize>)
    ensures
        match result {
            Some(total) => total == total_columns(column_log_sizes@.map_values(|c: Vec<u32>| c@)),
            None => total_columns(column_log_sizes@.map_values(|c: Vec<u32>| c@)) > usize::MAX,
        },
{
    let ghost sizes = column_log_sizes@.map_values(|c: Vec<u32>| c@);
    let mut total: usize = 0;
    let mut t: usize = 0;
    while t < column_log_sizes.len()
        invariant
            t <= column_log_sizes@.len(),
            sizes == column_log_sizes@.map_values(|c: Vec<u32>| c@),
            total == column_offset(sizes, t as nat),
        decreases column_log_sizes@.len() - t,
    {
        assert(sizes[t as int] == column_log_sizes@[t as int]@);
        let len = column_log_sizes[t].len();
        if total > usize::MAX - len {
            proof {
                lemma_column_offset_monotonic(sizes, (t + 1) as nat, sizes.len());
            }
            return None;
        }
        total = total + len;
        t = t + 1;
    }
    Some(total)
}

/// The layout fixed by a program, PCS parameters and manifest shape, or the
/// first disagreement among them.
pub open spec fn spec_pcs_layout(
    program: VmProgramGeometry,
    config: PcsConfig,
    shape: PcsManifestShape,
) -> Result<Seq<u32>, VmPcsLayoutError> {
    let sizes = program.column_log_sizes@.map_values(|c: Vec<u32>| c@);
    let total = total_columns(sizes);
    if program.component_count != shape.claimed_sum_count@ {
        Err(
            VmPcsLayoutError::CountMismatch {
                field: LayoutCount::ClaimedSums,
                expected: program.component_count,
                actual: shape.claimed_sum_count@ as usize,
            },
        )
    } else if program.sample_count != shape.sampled_value_count@ {
        Err(
            VmPcsLayoutError::CountMismatch {
                field: LayoutCount::SampledValues,
                expected: program.sample_count,
                actual: shape.sampled_value_count@ as usize,
            },
        )
    } else if total > usize::MAX {
        Err(VmPcsLayoutError::ArithmeticOverflow { field: LayoutArithmetic::VmColumnCount })
    } else if total * config.n_queries > usize::MAX {
        Err(VmPcsLayoutError::ArithmeticOverflow { field: LayoutArithmetic::QueriedValueCount })
    } else if total * config.n_queries != shape.queried_value_count@ {
        Err(
            VmPcsLayoutError::CountMismatch {
                field: LayoutCount::QueriedValues,
                expected: (total * config.n_queries) as usize,
                actual: shape.queried_value_count@ as usize,
            },
        )
    } else if sizes.len() != shape.tree_heights@.len() {
        Err(
            VmPcsLayoutError::TreeCountMismatch {
                expected: sizes.len() as usize,
                actual: shape.tree_heights@.len() as usize,
            },
        )
    } else if total != shape.table_log_sizes@.len() {
        Err(
            VmPcsLayoutError::ColumnCountMismatch {
                expected: total as usize,
                actual: shape.table_log_sizes@.len() as usize,
            },
        )
    } else {
        let flat = flat_log_sizes(sizes, sizes.len());
        let tables = crate::m31::word_values(shape.table_log_sizes@);
        match first_mismatch(flat, tables, total) {
            Some(table) => Err(
                VmPcsLayoutError::TableLogSizeMismatch {
                    table: table as usize,
                    expected: flat[table as int],
                    actual: tables[table as int],
                },
            ),
            None => match spec_tree_heights(sizes, config, sizes.len()) {
                Err(error) => Err(error),
                Ok(heights) => {
                    let manifest = crate::m31::word_values(shape.tree_heights@);
                    match first_mismatch(heights, manifest, heights.len()) {
                        Some(tree) => Err(
                            VmPcsLayoutError::TreeHeightMismatch {
                                tree: tree as usize,
                                expected: heights[tree as int],
                                actual: manifest[tree as int],
                            },
                        ),
                        None => if shape.lifting_log_size < config.log_blowup_factor {
                            Err(
                                VmPcsLayoutError::ArithmeticOverflow {
                                    field: LayoutArithmetic::EffectiveMaximumDegree,
                                },
                            )
                        } else if (shape.lifting_log_size - config.log_blowup_factor)
                            != program.max_log_degree_bound {
                            Err(
                                VmPcsLayoutError::MaxLogDegreeBoundMismatch {
                                    expected: (shape.lifting_log_size
                                        - config.log_blowup_factor) as u32,
                                    actual: program.max_log_degree_bound,
                                },
                            )
                        } else {
                            Ok(heights)
                        },
                    }
                },
            },
        }
    }
}

proof fn lemma_tree_heights_len(sizes: Seq<Seq<u32>>, config: PcsConfig, n: nat)
    requires
        spec_tree_heights(sizes, config, n) is Ok,
    ensures
        spec_tree_heights(sizes, config, n)->Ok_0.len() == n,
    decreases n,
{
    if n > 0 {
        lemma_tree_heights_len(sizes, config, (n - 1) as nat);
    }
}

/// Checked tree-major, column-major, query-major VM PCS geometry.
#[derive(Debug)]
pub struct VmPcsLayout {
    column_log_sizes: Vec<Vec<u32>>,
    tree_column_offsets: Vec<usize>,
    tree_heights: Vec<u32>,
    lifting_log_size: u32,
    n_queries: usize,
}

impl VmPcsLayout {
    #[verifier::type_invariant]
    spec fn offsets_match(self) -> bool {
        let sizes = self.column_log_sizes@.map_values(|c: Vec<u32>| c@);
        &&& total_columns(sizes) <= usize::MAX
        &&& self.tree_column_offsets@.len() == sizes.len() + 1
        &&& forall|t: int|
            0 <= t <= sizes.len() ==> #[trigger] self.tree_column_offsets@[t] == column_offset(
                sizes,
                t as nat,
            )
    }

    /// Column log sizes, tree by tree.
    pub closed spec fn spec_sizes(&self) -> Seq<Seq<u32>> {
        self.column_log_sizes@.map_values(|c: Vec<u32>| c@)
    }

    pub closed spec fn spec_tree_heights(&self) -> Seq<u32> {
        self.tree_heights@
    }

    pub closed spec fn spec_lifting_log_size(&self) -> u32 {
        self.lifting_log_size
    }

    pub closed spec fn spec_n_queries(&self) -> usize {
        self.n_queries
    }

    /// Checks the manifest against the program and the PCS parameters, and
    /// builds the layout both agree on.
    pub fn new(program: VmProgramGeometry, config: PcsConfig, shape: &PcsManifestShape) -> (result:
        Result<Self, VmPcsLayoutError>)
        ensures
            match spec_pcs_layout(program, config, *shape) {
                Ok(heights) => result matches Ok(layout) && {
                    &&& layout.spec_sizes() == program.column_log_sizes@.map_values(
                        |c: Vec<u32>| c@,
                    )
                    &&& layout.spec_tree_heights() == heights
                    &&& layout.spec_lifting_log_size() == shape.lifting_log_size
                    &&& layout.spec_n_queries() == config.n_queries
                },
                Err(error) => result == Err::<Self, _>(error),
            },
    {
        let ghost sizes = program.column_log_sizes@.map_values(|c: Vec<u32>| c@);
        validate_count(LayoutCount::ClaimedSums, program.component_count, shape.claimed_sum_count)?;
        validate_count(LayoutCount::SampledValues, program.sample_count, shape.sampled_value_count)?;
        let total = match checked_column_total(program.column_log_sizes.as_slice()) {
            Some(total) => total,
            None => {
                return Err(VmPcsLayoutError::ArithmeticOverflow { field: LayoutArithmetic::VmColumnCount });
            },
        };
        let expected_queried_values = match total.checked_mul(config.n_queries) {
            Some(count) => count,
            None => {
                return Err(
                    VmPcsLayoutError::ArithmeticOverflow { field: LayoutArithmetic::QueriedValueCount },
                );
            },
        };
        validate_count(LayoutCount::QueriedValues, expected_queried_values, shape.queried_value_count)?;
        if program.column_log_sizes.len() != shape.tree_heights.len() {
            return Err(
                VmPcsLayoutError::TreeCountMismatch {
                    expected: program.column_log_sizes.len(),
                    actual: shape.tree_heights.len(),
                },
            );
        }
        let tree_column_offsets = tree_column_offsets(program.column_log_sizes.as_slice())?;
        let column_count = tree_column_offsets[tree_column_offsets.len() - 1];
        if column_count != shape.table_log_sizes.len() {
            return Err(
                VmPcsLayoutError::ColumnCountMismatch {
                    expected: column_count,
                    actual: shape.table_log_sizes.len(),
                },
            );
        }
        let flat = flatten_log_sizes(program.column_log_sizes.as_slice());
        proof {
            lemma_flat_len(sizes, sizes.len());
        }
        if let Some(table) = find_mismatch(flat.as_slice(), shape.table_log_sizes.as_slice()) {
            assert(crate::m31::word_values(shape.table_log_sizes@)[table as int]
                == shape.table_log_sizes@[table as int]@);
            return Err(
                VmPcsLayoutError::TableLogSizeMismatch {
                    table,
                    expected: flat[table],
                    actual: shape.table_log_sizes[table].as_u32(),
                },
            );
        }
        let tree_heights = expected_tree_heights(program.column_log_sizes.as_slice(), config)?;
        proof {
            lemma_tree_heights_len(sizes, config, sizes.len());
        }
        if let Some(tree) = find_mismatch(tree_heights.as_slice(), shape.tree_heights.as_slice()) {
            assert(crate::m31::word_values(shape.tree_heights@)[tree as int]
                == shape.tree_heights@[tree as int]@);
            return Err(
                VmPcsLayoutError::TreeHeightMismatch {
                    tree,
                    expected: tree_heights[tree],
                    actual: shape.tree_heights[tree].as_u32(),
                },
            );
        }
        if shape.lifting_log_size < config.log_blowup_factor {
            return Err(
                VmPcsLayoutError::ArithmeticOverflow { field: LayoutArithmetic::EffectiveMaximumDegree },
            );
        }
        let expected = shape.lifting_log_size - config.log_blowup_factor;
        if expected != program.max_log_degree_bound {
            return Err(
                VmPcsLayoutError::MaxLogDegreeBoundMismatch {
                    expected,
                    actual: program.max_log_degree_bound,
                },
            );
        }
        Ok(
            VmPcsLayout {
                column_log_sizes: program.column_log_sizes,
                tree_column_offsets,
                tree_heights,
                lifting_log_size: shape.lifting_log_size,
                n_queries: config.n_queries,
            },
        )
    }

    pub fn column_log_sizes(&self) -> (sizes: &[Vec<u32>])
        ensures
            sizes@.map_values(|c: Vec<u32>| c@) == self.spec_sizes(),
    {
        self.column_log_sizes.as_slice()
    }

    pub fn tree_heights(&self) -> (heights: &[u32])
        ensures
            heights@ == self.spec_tree_heights(),
    {
        self.tree_heights.as_slice()
    }

    pub fn lifting_log_size(&self) -> (log_size: u32)
        ensures
            log_size == self.spec_lifting_log_size(),
    {
        self.lifting_log_size
    }

    pub fn n_queries(&self) -> (count: usize)
        ensures
            count == self.spec_n_queries(),
    {
        self.n_queries
    }

    /// Columns of all trees.
    pub fn total_column_count(&self) -> (count: usize)
        ensures
            count == total_columns(self.spec_sizes()),
    {
        proof {
            use_type_invariant(self);
        }
        self.tree_column_offsets[self.tree_column_offsets.len() - 1]
    }

    /// Queried values of all columns.
    pub fn queried_value_count(&self) -> (result: Result<usize, VmPcsLayoutError>)
        ensures
            result == if total_columns(self.spec_sizes()) * self.spec_n_queries() <= usize::MAX {
                Ok::<usize, VmPcsLayoutError>(
                    (total_columns(self.spec_sizes()) * self.spec_n_queries()) as usize,
                )
            } else {
                Err(VmPcsLayoutError::ArithmeticOverflow { field: LayoutArithmetic::QueriedValueCount })
            },
    {
        match self.total_column_count().checked_mul(self.n_queries) {
            Some(count) => Ok(count),
            None => Err(VmPcsLayoutError::ArithmeticOverflow { field: LayoutArithmetic::QueriedValueCount }),
        }
    }

    /// The canonical flat wire index of one authenticated trace value.
    pub fn queried_value_index(&self, tree: usize, column: usize, query: usize) -> (result: Result<
        usize,
        VmPcsLayoutError,
    >)
        ensures
            result == spec_queried_value_index(
                self.spec_sizes(),
                self.spec_n_queries(),
                tree,
                column,
                query,
            ),
    {
        proof {
            use_type_invariant(self);
        }
        if tree >= self.column_log_sizes.len() {
            return Err(VmPcsLayoutError::TreeIndexOutOfRange { tree });
        }
        let column_count = self.column_log_sizes[tree].len();
        assert(self.spec_sizes()[tree as int] == self.column_log_sizes@[tree as int]@);
        if column >= column_count {
            return Err(VmPcsLayoutError::ColumnIndexOutOfRange { tree, column, column_count });
        }
        if query >= self.n_queries {
            return Err(VmPcsLayoutError::QueryIndexOutOfRange { query, query_count: self.n_queries });
        }
        let overflow = VmPcsLayoutError::ArithmeticOverflow { field: LayoutArithmetic::QueriedValueIndex };
        let flat_column = match self.tree_column_offsets[tree].checked_add(column) {
            Some(value) => value,
            None => {
                proof {
                    let a = column_offset(self.spec_sizes(), tree as nat) + column;
                    let n = self.n_queries as int;
                    assert(a * n >= a) by (nonlinear_arith)
                        requires
                            a >= 0,
                            n >= 1,
                    ;
                }
                return Err(overflow);
            },
        };
        let base = match flat_column.checked_mul(self.n_queries) {
            Some(value) => value,
            None => return Err(overflow),
        };
        match base.checked_add(query) {
            Some(value) => Ok(value),
            None => Err(overflow),
        }
    }
}

/// The flat wire index of a (tree, column, query) triple: tree-major, then
/// column-major, then query-major; or why the triple has none.
pub open spec fn spec_queried_value_index(
    sizes: Seq<Seq<u32>>,
    n_queries: usize,
    tree: usize,
    column: usize,
    query: usize,
) -> Result<usize, VmPcsLayoutError> {
    if tree >= sizes.len() {
        Err(VmPcsLayoutError::TreeIndexOutOfRange { tree })
    } else if column >= sizes[tree as int].len() {
        Err(
            VmPcsLayoutError::ColumnIndexOutOfRange {
                tree,
                column,
                column_count: sizes[tree as int].len() as usize,
            },
        )
    } else if query >= n_queries {
        Err(VmPcsLayoutError::QueryIndexOutOfRange { query, query_count: n_queries })
    } else if (column_offset(sizes, tree as nat) + column) * n_queries + query > usize::MAX {
        Err(VmPcsLayoutError::ArithmeticOverflow { field: LayoutArithmetic::QueriedValueIndex })
    } else {
        Ok(((column_offset(sizes, tree as nat) + column) * n_queries + query) as usize)
    }
}

proof fn lemma_flat_column_bound(sizes: Seq<Seq<u32>>, tree: nat, column: nat)
    requires
        tree < sizes.len(),
        column < sizes[tree as int].len(),
    ensures
        column_offset(sizes, tree) + column < column_offset(sizes, tree + 1),
        column_offset(sizes, tree + 1) <= total_columns(sizes),
{
    lemma_column_offset_monotonic(sizes, tree + 1, sizes.len());
}

proof fn lemma_row_major(a1: int, q1: int, a2: int, q2: int, n: int)
    requires
        0 <= a1 < a2,
        0 <= q1 < n,
        0 <= q2 < n,
    ensures
        a1 * n + q1 < a2 * n + q2,
{
    assert(a1 * n + q1 < a2 * n + q2) by (nonlinear_arith)
        requires
            0 <= a1 < a2,
            0 <= q1 < n,
            0 <= q2 < n,
    ;
}

/// Queried values are laid out tree-major, then column-major, then
/// query-major, without overlap: distinct (tree, column, query) triples get
/// distinct flat slots.
pub proof fn lemma_queried_value_index_injective(
    sizes: Seq<Seq<u32>>,
    n_queries: usize,
    tree_a: usize,
    column_a: usize,
    query_a: usize,
    tree_b: usize,
    column_b: usize,
    query_b: usize,
)
    requires
        spec_queried_value_index(sizes, n_queries, tree_a, column_a, query_a) is Ok,
        spec_queried_value_index(sizes, n_queries, tree_b, column_b, query_b) is Ok,
        (tree_a, column_a, query_a) != (tree_b, column_b, query_b),
    ensures
        spec_queried_value_index(sizes, n_queries, tree_a, column_a, query_a)
            != spec_queried_value_index(sizes, n_queries, tree_b, column_b, query_b),
{
    let a = column_offset(sizes, tree_a as nat) + column_a;
    let b = column_offset(sizes, tree_b as nat) + column_b;
    lemma_flat_column_bound(sizes, tree_a as nat, column_a as nat);
    lemma_flat_column_bound(sizes, tree_b as nat, column_b as nat);
    if tree_a < tree_b {
        lemma_column_offset_monotonic(sizes, tree_a as nat + 1, tree_b as nat);
    } else if tree_b < tree_a {
        lemma_column_offset_monotonic(sizes, tree_b as nat + 1, tree_a as nat);
    }
    if a < b {
        lemma_row_major(a, query_a as int, b, query_b as int, n_queries as int);
    } else if b < a {
        lemma_row_major(b, query_b as int, a, query_a as int, n_queries as int);
    }
}

/// Every flat slot lies below the queried-value count.
pub proof fn lemma_queried_value_index_bound(
    sizes: Seq<Seq<u32>>,
    n_queries: usize,
    tree: usize,
    column: usize,
    query: usize,
)
    requires
        spec_queried_value_index(sizes, n_queries, tree, column, query) is Ok,
    ensures
        spec_queried_value_index(sizes, n_queries, tree, column, query)->Ok_0 < total_columns(sizes)
            * n_queries,
{
    lemma_flat_column_bound(sizes, tree as nat, column as nat);
    let a = column_offset(sizes, tree as nat) + column;
    lemma_row_major(a, query as int, total_columns(sizes) as int, 0, n_queries as int);
}

} // verus!
