//! Flat order of out-of-domain sampled values.
//!
//! The prover samples each committed column at a list of points, tree by tree
//! and column by column. Verification consumes those values as one flat list,
//! so each (tree, column, point) coordinate needs one flat index and each flat
//! index one coordinate. This module builds both maps and checks that every
//! component reads preprocessed columns of its own size.
use vstd::prelude::*;

verus! {

/// One value in the tree-major, column-major, point-major sample order.
#[derive(Clone, Copy, Debug, PartialEq, Eq, Structural)]
pub struct SampleCoordinate {
    pub tree: usize,
    pub column: usize,
    pub point: usize,
}

/// Invalid fixed sample layout or preprocessed-column assignment.
#[derive(Clone, Copy, Debug, PartialEq, Eq, Structural)]
pub enum VmAirProgramError {
    PreprocessedColumnOutOfRange { component: usize, column: usize },
    PreprocessedLogSizeMismatch { component: usize, column: usize, expected: u32, actual: u32 },
    SampleCoordinateOutOfRange { tree: usize, column: usize, point: usize },
}

/// Whether `a` comes before `b` in tree-major, column-major, point-major order.
pub open spec fn coordinate_before(a: SampleCoordinate, b: SampleCoordinate) -> bool {
    ||| a.tree < b.tree
    ||| a.tree == b.tree && a.column < b.column
    ||| a.tree == b.tree && a.column == b.column && a.point < b.point
}

/// The number of points of each column, tree by tree.
pub open spec fn point_counts<T>(samples: Seq<Vec<Vec<T>>>) -> Seq<Seq<nat>> {
    samples.map_values(|tree: Vec<Vec<T>>| tree@.map_values(|column: Vec<T>| column@.len()))
}

/// Whether a coordinate names a sampled value.
pub open spec fn coordinate_valid(counts: Seq<Seq<nat>>, c: SampleCoordinate) -> bool {
    &&& c.tree < counts.len()
    &&& c.column < counts[c.tree as int].len()
    &&& c.point < counts[c.tree as int][c.column as int]
}

/// The flat index map has the shape of the samples.
pub open spec fn indices_shaped(indices: Seq<Seq<Seq<usize>>>, counts: Seq<Seq<nat>>) -> bool {
    &&& indices.len() == counts.len()
    &&& forall|t: int| 0 <= t < counts.len() ==> (#[trigger] indices[t]).len() == counts[t].len()
    &&& forall|t: int, c: int|
        0 <= t < counts.len() && 0 <= c < counts[t].len() ==> (#[trigger] indices[t][c]).len()
            == counts[t][c]
}

/// The coordinate list and the index map are inverse bijections, and the
/// list is in sample order.
pub open spec fn sample_layout_inverse(
    coordinates: Seq<SampleCoordinate>,
    indices: Seq<Seq<Seq<usize>>>,
    counts: Seq<Seq<nat>>,
) -> bool {
    &&& indices_shaped(indices, counts)
    &&& forall|t: usize, c: usize, p: usize|
        coordinate_valid(counts, SampleCoordinate { tree: t, column: c, point: p }) ==> {
            let k = #[trigger] indices[t as int][c as int][p as int];
            &&& k < coordinates.len()
            &&& coordinates[k as int] == SampleCoordinate { tree: t, column: c, point: p }
        }
    &&& forall|k: int|
        0 <= k < coordinates.len() ==> {
            let c = #[trigger] coordinates[k];
            &&& coordinate_valid(counts, c)
            &&& indices[c.tree as int][c.column as int][c.point as int] == k
        }
    &&& forall|k: int, j: int|
        0 <= k < j < coordinates.len() ==> coordinate_before(coordinates[k], coordinates[j])
}

/// The plain values of a nested index map.
pub open spec fn index_view(indices: Seq<Vec<Vec<usize>>>) -> Seq<Seq<Seq<usize>>> {
    indices.map_values(|tree: Vec<Vec<usize>>| tree@.map_values(|column: Vec<usize>| column@))
}

/// The empty layout is a layout.
proof fn lemma_layout_empty()
    ensures
        sample_layout_inverse(Seq::empty(), Seq::empty(), Seq::empty()),
{
}

/// Opening a new tree keeps the layout.
proof fn lemma_layout_open_tree(
    coordinates: Seq<SampleCoordinate>,
    indices: Seq<Seq<Seq<usize>>>,
    counts: Seq<Seq<nat>>,
)
    requires
        sample_layout_inverse(coordinates, indices, counts),
    ensures
        sample_layout_inverse(coordinates, indices.push(Seq::empty()), counts.push(Seq::empty())),
{
    let indices2 = indices.push(Seq::empty());
    let counts2 = counts.push(Seq::<nat>::empty());
    assert forall|t: int, c: int| 0 <= t < counts2.len() && 0 <= c < counts2[t].len() implies (
    #[trigger] indices2[t][c]).len() == counts2[t][c] by {
        assert(t < counts.len());
    }
    assert forall|t: usize, c: usize, p: usize|
        coordinate_valid(counts2, SampleCoordinate { tree: t, column: c, point: p }) implies {
            let k = #[trigger] indices2[t as int][c as int][p as int];
            &&& k < coordinates.len()
            &&& coordinates[k as int] == SampleCoordinate { tree: t, column: c, point: p }
        } by {
        assert(t < counts.len());
        assert(indices2[t as int] == indices[t as int]);
        assert(coordinate_valid(counts, SampleCoordinate { tree: t, column: c, point: p }));
    }
    assert forall|k: int| 0 <= k < coordinates.len() implies {
        let c = #[trigger] coordinates[k];
        &&& coordinate_valid(counts2, c)
        &&& indices2[c.tree as int][c.column as int][c.point as int] == k
    } by {
        let c = coordinates[k];
        assert(coordinate_valid(counts, c));
        assert(indices2[c.tree as int] == indices[c.tree as int]);
    }
}

/// Opening a new column in the last tree keeps the layout.
proof fn lemma_layout_open_column(
    coordinates: Seq<SampleCoordinate>,
    indices: Seq<Seq<Seq<usize>>>,
    counts: Seq<Seq<nat>>,
)
    requires
        sample_layout_inverse(coordinates, indices, counts),
        counts.len() > 0,
    ensures
        ({
            let t = counts.len() - 1;
            sample_layout_inverse(
                coordinates,
                indices.update(t, indices[t].push(Seq::empty())),
                counts.update(t, counts[t].push(0)),
            )
        }),
{
    let last = counts.len() - 1;
    let indices2 = indices.update(last, indices[last].push(Seq::empty()));
    let counts2 = counts.update(last, counts[last].push(0));
    assert forall|t: int| 0 <= t < counts2.len() implies (#[trigger] indices2[t]).len() == counts2[t].len() by {
        assert(indices[t].len() == counts[t].len());
    }
    assert forall|t: int, c: int| 0 <= t < counts2.len() && 0 <= c < counts2[t].len() implies (
    #[trigger] indices2[t][c]).len() == counts2[t][c] by {
        if t == last && c == counts[last].len() {
        } else {
            assert(indices[t][c].len() == counts[t][c]);
        }
    }
    assert forall|t: usize, c: usize, p: usize|
        coordinate_valid(counts2, SampleCoordinate { tree: t, column: c, point: p }) implies {
            let k = #[trigger] indices2[t as int][c as int][p as int];
            &&& k < coordinates.len()
            &&& coordinates[k as int] == SampleCoordinate { tree: t, column: c, point: p }
        } by {
        assert(!(t == last && c == counts[last].len()));
        assert(indices2[t as int][c as int] == indices[t as int][c as int]);
        assert(coordinate_valid(counts, SampleCoordinate { tree: t, column: c, point: p }));
    }
    assert forall|k: int| 0 <= k < coordinates.len() implies {
        let c = #[trigger] coordinates[k];
        &&& coordinate_valid(counts2, c)
        &&& indices2[c.tree as int][c.column as int][c.point as int] == k
    } by {
        let c = coordinates[k];
        assert(coordinate_valid(counts, c));
        assert(indices2[c.tree as int][c.column as int] == indices[c.tree as int][c.column as int]);
    }
}

/// Appending the next point of the last column of the last tree keeps the
/// layout.
proof fn lemma_layout_push_point(
    coordinates: Seq<SampleCoordinate>,
    indices: Seq<Seq<Seq<usize>>>,
    counts: Seq<Seq<nat>>,
)
    requires
        sample_layout_inverse(coordinates, indices, counts),
        counts.len() > 0,
        counts.last().len() > 0,
        counts.len() - 1 <= usize::MAX,
        counts.last().len() - 1 <= usize::MAX,
        counts.last().last() <= usize::MAX,
        coordinates.len() <= usize::MAX,
    ensures
        ({
            let t = counts.len() - 1;
            let c = counts[t].len() - 1;
            let p = counts[t][c];
            sample_layout_inverse(
                coordinates.push(SampleCoordinate { tree: t as usize, column: c as usize, point: p as usize }),
                indices.update(t, indices[t].update(c, indices[t][c].push(coordinates.len() as usize))),
                counts.update(t, counts[t].update(c, p + 1)),
            )
        }),
{
    let lt = counts.len() - 1;
    let lc = counts[lt].len() - 1;
    let lp = counts[lt][lc];
    let fresh = SampleCoordinate { tree: lt as usize, column: lc as usize, point: lp as usize };
    let coordinates2 = coordinates.push(fresh);
    let indices2 = indices.update(lt, indices[lt].update(lc, indices[lt][lc].push(coordinates.len() as usize)));
    let counts2 = counts.update(lt, counts[lt].update(lc, lp + 1));
    assert forall|t: int| 0 <= t < counts2.len() implies (#[trigger] indices2[t]).len() == counts2[t].len() by {
        assert(indices[t].len() == counts[t].len());
    }
    assert forall|t: int, c: int| 0 <= t < counts2.len() && 0 <= c < counts2[t].len() implies (
    #[trigger] indices2[t][c]).len() == counts2[t][c] by {
        assert(indices[t][c].len() == counts[t][c]);
    }
    assert forall|t: usize, c: usize, p: usize|
        coordinate_valid(counts2, SampleCoordinate { tree: t, column: c, point: p }) implies {
            let k = #[trigger] indices2[t as int][c as int][p as int];
            &&& k < coordinates2.len()
            &&& coordinates2[k as int] == SampleCoordinate { tree: t, column: c, point: p }
        } by {
        if t == lt && c == lc && p == lp {
            assert(indices2[t as int][c as int][p as int] == coordinates.len());
        } else {
            assert(indices[t as int][c as int].len() == counts[t as int][c as int]);
            assert(indices2[t as int][c as int][p as int] == indices[t as int][c as int][p as int]);
            assert(coordinate_valid(counts, SampleCoordinate { tree: t, column: c, point: p }));
        }
    }
    assert forall|k: int| 0 <= k < coordinates2.len() implies {
        let c = #[trigger] coordinates2[k];
        &&& coordinate_valid(counts2, c)
        &&& indices2[c.tree as int][c.column as int][c.point as int] == k
    } by {
        if k < coordinates.len() {
            let c = coordinates[k];
            assert(coordinates2[k] == c);
            assert(coordinate_valid(counts, c));
            assert(indices[c.tree as int][c.column as int].len() == counts[c.tree as int][c.column as int]);
            assert(indices2[c.tree as int][c.column as int][c.point as int] == indices[c.tree as int][c.column as int][c.point as int]);
        } else {
            assert(indices[lt][lc].len() == counts[lt][lc]);
        }
    }
    assert forall|k: int, j: int| 0 <= k < j < coordinates2.len() implies coordinate_before(
        coordinates2[k],
        coordinates2[j],
    ) by {
        if j == coordinates.len() {
            let c = coordinates[k];
            assert(coordinate_valid(counts, c));
        }
    }
}

/// Indexes every sampled value: the coordinate list in sample order, and the
/// map from each (tree, column, point) to its position in that list.
pub fn index_sample_layout<T>(sample_points: &[Vec<Vec<T>>]) -> (result: (
    Vec<SampleCoordinate>,
    Vec<Vec<Vec<usize>>>,
))
    ensures
        sample_layout_inverse(result.0@, index_view(result.1@), point_counts(sample_points@)),
{
    let ghost counts = point_counts(sample_points@);
    let mut coordinates: Vec<SampleCoordinate> = Vec::new();
    let mut indices: Vec<Vec<Vec<usize>>> = Vec::new();
    proof {
        lemma_layout_empty();
        assert(index_view(indices@) =~= Seq::<Seq<Seq<usize>>>::empty());
        assert(counts.take(0) =~= Seq::<Seq<nat>>::empty());
    }
    let tree_count = sample_points.len();
    let mut tree: usize = 0;
    while tree < tree_count
        invariant
            tree <= tree_count,
            tree_count == sample_points@.len(),
            counts == point_counts(sample_points@),
            indices@.len() == tree,
            sample_layout_inverse(coordinates@, index_view(indices@), counts.take(tree as int)),
        decreases tree_count - tree,
    {
        let columns = &sample_points[tree];
        let ghost tree_counts = counts[tree as int];
        assert(tree_counts == columns@.map_values(|column: Vec<T>| column@.len()));
        let mut tree_indices: Vec<Vec<usize>> = Vec::new();
        proof {
            lemma_layout_open_tree(coordinates@, index_view(indices@), counts.take(tree as int));
            assert(tree_indices@.map_values(|column: Vec<usize>| column@) =~= Seq::<Seq<usize>>::empty());
            assert(tree_counts.take(0) =~= Seq::<nat>::empty());
        }
        let column_count = columns.len();
        let mut column: usize = 0;
        while column < column_count
            invariant
                tree < tree_count,
                tree_count == sample_points@.len(),
                counts == point_counts(sample_points@),
                tree_counts == counts[tree as int],
                tree_counts == columns@.map_values(|column: Vec<T>| column@.len()),
                column <= column_count,
                column_count == columns@.len(),
                indices@.len() == tree,
                tree_indices@.len() == column,
                sample_layout_inverse(
                    coordinates@,
                    index_view(indices@).push(tree_indices@.map_values(|c: Vec<usize>| c@)),
                    counts.take(tree as int).push(tree_counts.take(column as int)),
                ),
            decreases column_count - column,
        {
            let point_count = columns[column].len();
            assert(tree_counts[column as int] == point_count);
            let mut column_indices: Vec<usize> = Vec::new();
            proof {
                let iv = index_view(indices@).push(tree_indices@.map_values(|c: Vec<usize>| c@));
                let cv = counts.take(tree as int).push(tree_counts.take(column as int));
                lemma_layout_open_column(coordinates@, iv, cv);
                assert(iv.update(iv.len() - 1, iv[iv.len() - 1].push(Seq::empty())) =~~= index_view(
                    indices@,
                ).push(tree_indices@.map_values(|c: Vec<usize>| c@).push(column_indices@)));
                assert(cv.update(cv.len() - 1, cv[cv.len() - 1].push(0)) =~~= counts.take(
                    tree as int,
                ).push(tree_counts.take(column as int).push(0)));
            }
            let mut point: usize = 0;
            while point < point_count
                invariant
                    tree < tree_count,
                    tree_count == sample_points@.len(),
                    counts == point_counts(sample_points@),
                    tree_counts == counts[tree as int],
                    column_count == tree_counts.len(),
                    column < column_count,
                    point <= point_count,
                    indices@.len() == tree,
                    tree_indices@.len() == column,
                    column_indices@.len() == point,
                    sample_layout_inverse(
                        coordinates@,
                        index_view(indices@).push(
                            tree_indices@.map_values(|c: Vec<usize>| c@).push(column_indices@),
                        ),
                        counts.take(tree as int).push(tree_counts.take(column as int).push(point as nat)),
                    ),
                decreases point_count - point,
            {
                let index = coordinates.len();
                proof {
                    let iv = index_view(indices@).push(
                        tree_indices@.map_values(|c: Vec<usize>| c@).push(column_indices@),
                    );
                    let cv = counts.take(tree as int).push(tree_counts.take(column as int).push(point as nat));
                    lemma_layout_push_point(coordinates@, iv, cv);
                    assert(iv.update(
                        iv.len() - 1,
                        iv[iv.len() - 1].update(
                            iv[iv.len() - 1].len() - 1,
                            iv[iv.len() - 1][iv[iv.len() - 1].len() - 1].push(index),
                        ),
                    ) =~~= index_view(indices@).push(
                        tree_indices@.map_values(|c: Vec<usize>| c@).push(column_indices@.push(index)),
                    ));
                    assert(cv.update(
                        cv.len() - 1,
                        cv[cv.len() - 1].update(cv[cv.len() - 1].len() - 1, (point + 1) as nat),
                    ) =~~= counts.take(tree as int).push(
                        tree_counts.take(column as int).push((point + 1) as nat),
                    ));
                }
                column_indices.push(index);
                coordinates.push(SampleCoordinate { tree, column, point });
                point = point + 1;
            }
            let ghost before = tree_indices@;
            tree_indices.push(column_indices);
            proof {
                assert(tree_indices@.map_values(|c: Vec<usize>| c@) =~= before.map_values(
                    |c: Vec<usize>| c@,
                ).push(tree_indices@.last()@));
                assert(tree_counts.take(column as int).push(point_count as nat) =~= tree_counts.take(
                    column as int + 1,
                ));
            }
            column = column + 1;
        }
        let ghost before = indices@;
        indices.push(tree_indices);
        proof {
            assert(index_view(indices@) =~= index_view(before).push(
                indices@.last()@.map_values(|c: Vec<usize>| c@),
            ));
            assert(tree_counts.take(column_count as int) =~= tree_counts);
            assert(counts.take(tree as int).push(tree_counts) =~= counts.take(tree as int + 1));
        }
        tree = tree + 1;
    }
    proof {
        assert(counts.take(tree_count as int) =~= counts);
    }
    (coordinates, indices)
}

/// The flat index of one sampled value.
pub fn sampled_index(sampled_indices: &[Vec<Vec<usize>>], tree: usize, column: usize, point: usize) -> (result:
    Result<usize, VmAirProgramError>)
    ensures
        ({
            let indices = index_view(sampled_indices@);
            if tree < indices.len() && column < indices[tree as int].len() && point
                < indices[tree as int][column as int].len() {
                result == Ok::<usize, VmAirProgramError>(indices[tree as int][column as int][point as int])
            } else {
                result == Err::<usize, _>(
                    VmAirProgramError::SampleCoordinateOutOfRange { tree, column, point },
                )
            }
        }),
{
    let error = VmAirProgramError::SampleCoordinateOutOfRange { tree, column, point };
    if tree >= sampled_indices.len() {
        return Err(error);
    }
    let columns = &sampled_indices[tree];
    if column >= columns.len() {
        return Err(error);
    }
    let points = &columns[column];
    if point >= points.len() {
        return Err(error);
    }
    Ok(points[point])
}

/// The preprocessed columns one component reads, and the component's size.
#[derive(Clone, Debug)]
pub struct ComponentPreprocessedUse {
    pub log_size: u32,
    pub preprocessed_columns: Vec<usize>,
}

/// The error of the first of the first `n` columns a component reads that
/// is missing or of another size.
pub open spec fn column_use_error(
    component: nat,
    log_size: u32,
    columns: Seq<usize>,
    sizes: Seq<u32>,
    n: nat,
) -> Option<VmAirProgramError>
    decreases n,
{
    if n == 0 {
        None
    } else {
        match column_use_error(component, log_size, columns, sizes, (n - 1) as nat) {
            Some(error) => Some(error),
            None => {
                let column = columns[n - 1];
                if column >= sizes.len() {
                    Some(
                        VmAirProgramError::PreprocessedColumnOutOfRange {
                            component: component as usize,
                            column,
                        },
                    )
                } else if log_size != sizes[column as int] {
                    Some(
                        VmAirProgramError::PreprocessedLogSizeMismatch {
                            component: component as usize,
                            column,
                            expected: sizes[column as int],
                            actual: log_size,
                        },
                    )
                } else {
                    None
                }
            },
        }
    }
}

/// The error of the first of the first `n` components that has one.
pub open spec fn component_use_error(
    components: Seq<ComponentPreprocessedUse>,
    sizes: Seq<u32>,
    n: nat,
) -> Option<VmAirProgramError>
    decreases n,
{
    if n == 0 {
        None
    } else {
        match component_use_error(components, sizes, (n - 1) as nat) {
            Some(error) => Some(error),
            None => {
                let c = components[n - 1];
                column_use_error(
                    (n - 1) as nat,
                    c.log_size,
                    c.preprocessed_columns@,
                    sizes,
                    c.preprocessed_columns@.len(),
                )
            },
        }
    }
}

proof fn lemma_column_use_error_sticks(
    component: nat,
    log_size: u32,
    columns: Seq<usize>,
    sizes: Seq<u32>,
    n: nat,
    m: nat,
)
    requires
        n <= m,
        column_use_error(component, log_size, columns, sizes, n) is Some,
    ensures
        column_use_error(component, log_size, columns, sizes, m) == column_use_error(
            component,
            log_size,
            columns,
            sizes,
            n,
        ),
    decreases m - n,
{
    if m > n {
        lemma_column_use_error_sticks(component, log_size, columns, sizes, n, (m - 1) as nat);
    }
}

proof fn lemma_component_use_error_sticks(
    components: Seq<ComponentPreprocessedUse>,
    sizes: Seq<u32>,
    n: nat,
    m: nat,
)
    requires
        n <= m,
        component_use_error(components, sizes, n) is Some,
    ensures
        component_use_error(components, sizes, m) == component_use_error(components, sizes, n),
    decreases m - n,
{
    if m > n {
        lemma_component_use_error_sticks(components, sizes, n, (m - 1) as nat);
    }
}

/// Checks that every component reads existing preprocessed columns of its
/// own size.
pub fn validate_preprocessed_log_sizes(
    components: &[ComponentPreprocessedUse],
    preprocessed_log_sizes: &[u32],
) -> (result: Result<(), VmAirProgramError>)
    ensures
        match component_use_error(components@, preprocessed_log_sizes@, components@.len()) {
            Some(error) => result == Err::<(), _>(error),
            None => result is Ok,
        },
{
    let ghost sizes = preprocessed_log_sizes@;
    let mut component: usize = 0;
    while component < components.len()
        invariant
            component <= components@.len(),
            sizes == preprocessed_log_sizes@,
            component_use_error(components@, sizes, component as nat) is None,
        decreases components@.len() - component,
    {
        let program = &components[component];
        let mut i: usize = 0;
        while i < program.preprocessed_columns.len()
            invariant
                i <= program.preprocessed_columns@.len(),
                component < components@.len(),
                program == &components@[component as int],
                sizes == preprocessed_log_sizes@,
                component_use_error(components@, sizes, component as nat) is None,
                column_use_error(
                    component as nat,
                    program.log_size,
                    program.preprocessed_columns@,
                    sizes,
                    i as nat,
                ) is None,
            decreases program.preprocessed_columns@.len() - i,
        {
            let column = program.preprocessed_columns[i];
            if column >= preprocessed_log_sizes.len() {
                proof {
                    lemma_column_use_error_sticks(
                        component as nat,
                        program.log_size,
                        program.preprocessed_columns@,
                        sizes,
                        (i + 1) as nat,
                        program.preprocessed_columns@.len(),
                    );
                    lemma_component_use_error_sticks(
                        components@,
                        sizes,
                        (component + 1) as nat,
                        components@.len(),
                    );
                }
                return Err(VmAirProgramError::PreprocessedColumnOutOfRange { component, column });
            }
            let expected = preprocessed_log_sizes[column];
            if program.log_size != expected {
                proof {
                    lemma_column_use_error_sticks(
                        component as nat,
                        program.log_size,
                        program.preprocessed_columns@,
                        sizes,
                        (i + 1) as nat,
                        program.preprocessed_columns@.len(),
                    );
                    lemma_component_use_error_sticks(
                        components@,
                        sizes,
                        (component + 1) as nat,
                        components@.len(),
                    );
                }
                return Err(
                    VmAirProgramError::PreprocessedLogSizeMismatch {
                        component,
                        column,
                        expected,
                        actual: program.log_size,
                    },
                );
            }
            i = i + 1;
        }
        component = component + 1;
    }
    Ok(())
}

} // verus!
