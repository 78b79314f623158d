//! Authentication of every trace leaf claim against its committed root.
//!
//! Each lane's path witness holds one bottom-up sibling path per leaf claim
//! of that lane, laid out tree-major, and one root per tree. A claim's walk
//! climbs its path one level at a time: the child and the level's sibling
//! are combined into the parent at the next depth, on the side the claim's
//! position bit gives. The walk must end on the tree's committed root.
//!
//! Combining a child with its sibling belongs to the caller: the walk asks
//! for each parent and takes what it is handed back.
use crate::kernel::{LEFT_RECURSION_VERIFIER_ID, RIGHT_RECURSION_VERIFIER_ID, SEGMENT_VERIFIER_ID};
use crate::m31::{M31Word, word_values};
use crate::trace_merkle::{TraceArithmetic, TraceLeafClaim, TraceMerkleError};
use vstd::prelude::*;

verus! {

/// One bottom-up sibling path: the siblings of its levels, of which the
/// first `active_depth` are in use.
#[derive(Clone, Debug)]
pub struct MerklePathWords {
    pub active_depth: u32,
    pub siblings: Vec<[M31Word; 8]>,
}

/// Roots and bottom-up sibling paths for one inner proof.
#[derive(Clone, Copy)]
pub struct TracePathSet<'a> {
    pub roots: &'a [[M31Word; 8]],
    pub paths: &'a [MerklePathWords],
}

/// Path witnesses selected by the universal proof kind.
#[derive(Clone, Copy)]
pub enum UniversalTracePathWitness<'a> {
    Segment(TracePathSet<'a>),
    Binary { left: TracePathSet<'a>, right: TracePathSet<'a> },
    Empty,
}

/// Whether every path of a set holds at least its active levels.
pub open spec fn paths_hold_levels(set: TracePathSet<'_>) -> bool {
    forall|i: int|
        0 <= i < set.paths@.len() ==> (#[trigger] set.paths@[i]).active_depth <= set.paths@[i].siblings@.len()
}

/// Whether every path of the witness holds at least its active levels.
pub open spec fn witness_paths_hold_levels(witness: UniversalTracePathWitness<'_>) -> bool {
    match witness {
        UniversalTracePathWitness::Segment(set) => paths_hold_levels(set),
        UniversalTracePathWitness::Binary { left, right } => paths_hold_levels(left) && paths_hold_levels(right),
        UniversalTracePathWitness::Empty => true,
    }
}

/// How many of the first `n` claims belong to a verifier's lane.
pub open spec fn lane_claim_count(claims: Seq<TraceLeafClaim>, verifier_id: u32, n: nat) -> nat
    decreases n,
{
    if n == 0 {
        0
    } else {
        lane_claim_count(claims, verifier_id, (n - 1) as nat) + if claims[n - 1].verifier_id == verifier_id {
            1nat
        } else {
            0nat
        }
    }
}

/// One past the largest tree among the first `n` claims of a verifier's
/// lane, zero when it has none.
pub open spec fn lane_tree_count(claims: Seq<TraceLeafClaim>, verifier_id: u32, n: nat) -> nat
    decreases n,
{
    if n == 0 {
        0
    } else {
        let earlier = lane_tree_count(claims, verifier_id, (n - 1) as nat);
        if claims[n - 1].verifier_id == verifier_id && claims[n - 1].tree + 1 > earlier {
            (claims[n - 1].tree + 1) as nat
        } else {
            earlier
        }
    }
}

/// A lane's tree count is one past the largest tree its claims reach: every
/// lane claim's tree is below it, and it is zero or one past some lane
/// claim's tree.
pub proof fn lemma_lane_tree_count_is_reach(claims: Seq<TraceLeafClaim>, verifier_id: u32, n: nat)
    requires
        n <= claims.len(),
    ensures
        forall|i: int|
            0 <= i < n && (#[trigger] claims[i]).verifier_id == verifier_id ==> claims[i].tree < lane_tree_count(
                claims,
                verifier_id,
                n,
            ),
        lane_tree_count(claims, verifier_id, n) == 0 || exists|j: int|
            0 <= j < n && (#[trigger] claims[j]).verifier_id == verifier_id && lane_tree_count(claims, verifier_id, n)
                == claims[j].tree + 1,
        lane_tree_count(claims, verifier_id, n) == 0 <==> lane_claim_count(claims, verifier_id, n) == 0,
    decreases n,
{
    if n > 0 {
        lemma_lane_tree_count_is_reach(claims, verifier_id, (n - 1) as nat);
        let m = (n - 1) as nat;
        if lane_tree_count(claims, verifier_id, n) != 0 && lane_tree_count(claims, verifier_id, n)
            != lane_tree_count(claims, verifier_id, m) {
            assert(claims[m as int].verifier_id == verifier_id);
        }
    }
}

/// A lane's path set must hold one path per lane claim and one root per
/// tree the lane's claims reach; the lane's claim count otherwise.
pub open spec fn path_set_outcome(
    verifier_id: u32,
    claims: Seq<TraceLeafClaim>,
    set: TracePathSet<'_>,
) -> Result<usize, TraceMerkleError> {
    let count = lane_claim_count(claims, verifier_id, claims.len());
    let trees = lane_tree_count(claims, verifier_id, claims.len());
    if set.paths@.len() != count {
        Err(
            TraceMerkleError::TracePathCountMismatch {
                verifier_id,
                expected: count as usize,
                actual: set.paths@.len() as usize,
            },
        )
    } else if set.roots@.len() != trees {
        Err(
            TraceMerkleError::TraceRootCountMismatch {
                verifier_id,
                expected: trees as usize,
                actual: set.roots@.len() as usize,
            },
        )
    } else {
        Ok(count as usize)
    }
}

/// The number of claims the witness's path sets account for, or the first
/// path set's error.
pub open spec fn path_witness_outcome(
    claims: Seq<TraceLeafClaim>,
    witness: UniversalTracePathWitness<'_>,
) -> Result<usize, TraceMerkleError> {
    match witness {
        UniversalTracePathWitness::Segment(set) => path_set_outcome(SEGMENT_VERIFIER_ID, claims, set),
        UniversalTracePathWitness::Binary { left, right } => match path_set_outcome(
            LEFT_RECURSION_VERIFIER_ID,
            claims,
            left,
        ) {
            Err(error) => Err(error),
            Ok(left_count) => match path_set_outcome(RIGHT_RECURSION_VERIFIER_ID, claims, right) {
                Err(error) => Err(error),
                Ok(right_count) => if left_count + right_count > usize::MAX {
                    Err(TraceMerkleError::RowCountOverflow)
                } else {
                    Ok((left_count + right_count) as usize)
                },
            },
        },
        UniversalTracePathWitness::Empty => Ok(0),
    }
}

/// Why the witness's path sets do not account for exactly the claims, if
/// they do not.
pub open spec fn path_claims_error(
    claims: Seq<TraceLeafClaim>,
    witness: UniversalTracePathWitness<'_>,
) -> Option<TraceMerkleError> {
    match path_witness_outcome(claims, witness) {
        Err(error) => Some(error),
        Ok(count) => if count != claims.len() {
            Some(TraceMerkleError::LeafClaimCountMismatch { expected: count, actual: claims.len() as usize })
        } else {
            None
        },
    }
}

/// The path set a verifier's claims are walked in under the witness.
pub open spec fn selected_paths<'a>(
    witness: UniversalTracePathWitness<'a>,
    verifier_id: u32,
) -> Result<Option<TracePathSet<'a>>, TraceMerkleError> {
    if verifier_id == SEGMENT_VERIFIER_ID {
        match witness {
            UniversalTracePathWitness::Segment(set) => Ok(Some(set)),
            _ => Ok(None),
        }
    } else if verifier_id == LEFT_RECURSION_VERIFIER_ID {
        match witness {
            UniversalTracePathWitness::Binary { left, .. } => Ok(Some(left)),
            _ => Ok(None),
        }
    } else if verifier_id == RIGHT_RECURSION_VERIFIER_ID {
        match witness {
            UniversalTracePathWitness::Binary { right, .. } => Ok(Some(right)),
            _ => Ok(None),
        }
    } else {
        Err(TraceMerkleError::UnknownVerifierId { verifier_id })
    }
}

/// The path a claim is walked along and its tree's root, if the set has
/// one; or the first error of the claim's lane, path layout, path index and
/// path depth.
pub open spec fn walk_start(
    claim: TraceLeafClaim,
    witness: UniversalTracePathWitness<'_>,
) -> Result<(MerklePathWords, Option<[M31Word; 8]>), TraceMerkleError> {
    match selected_paths(witness, claim.verifier_id) {
        Err(error) => Err(error),
        Ok(None) => Err(TraceMerkleError::ActivePathSetMissing { verifier_id: claim.verifier_id }),
        Ok(Some(set)) => {
            let trees = set.roots@.len();
            let count = set.paths@.len();
            if trees == 0 || count % trees != 0 {
                Err(
                    TraceMerkleError::InvalidPathLayout {
                        verifier_id: claim.verifier_id,
                        roots: trees as usize,
                        paths: count as usize,
                    },
                )
            } else {
                let index = claim.tree * (count / trees) + claim.query;
                if index > usize::MAX {
                    Err(TraceMerkleError::ArithmeticOverflow { field: TraceArithmetic::TracePathIndex })
                } else if index >= count {
                    Err(
                        TraceMerkleError::TracePathMissing {
                            verifier_id: claim.verifier_id,
                            tree: claim.tree,
                            query: claim.query,
                        },
                    )
                } else if set.paths@[index].active_depth != claim.height {
                    Err(
                        TraceMerkleError::TracePathDepthMismatch {
                            verifier_id: claim.verifier_id,
                            tree: claim.tree,
                            query: claim.query,
                            expected: claim.height,
                            actual: set.paths@[index].active_depth,
                        },
                    )
                } else {
                    Ok(
                        (
                            set.paths@[index],
                            if claim.tree < trees {
                                Some(set.roots@[claim.tree as int])
                            } else {
                                None
                            },
                        ),
                    )
                }
            }
        },
    }
}

/// One level of a walk the caller combines: the child at `depth + 1` and
/// its sibling, on side `direction`, into the parent at `depth`, at
/// position `parent_position`, in tree `tree_id`.
#[derive(Clone, Copy, Debug)]
pub struct PathStepRequest {
    pub tree_id: u32,
    pub depth: u32,
    pub parent_position: u32,
    pub child: [u32; 8],
    pub direction: u32,
    pub sibling: [u32; 8],
}

/// One claim's walk up its path.
pub struct PathWalk {
    claim: TraceLeafClaim,
    siblings: Vec<[M31Word; 8]>,
    root: Option<[M31Word; 8]>,
    level: u32,
    child: [u32; 8],
}

/// Counts a lane's claims and the trees they reach.
fn lane_counts(claims: &[TraceLeafClaim], verifier_id: u32) -> (result: (usize, usize))
    requires
        forall|i: int| 0 <= i < claims@.len() ==> (#[trigger] claims@[i]).tree < usize::MAX,
    ensures
        result.0 == lane_claim_count(claims@, verifier_id, claims@.len()),
        result.1 == lane_tree_count(claims@, verifier_id, claims@.len()),
{
    let mut count: usize = 0;
    let mut trees: usize = 0;
    let mut i: usize = 0;
    while i < claims.len()
        invariant
            i <= claims@.len(),
            forall|j: int| 0 <= j < claims@.len() ==> (#[trigger] claims@[j]).tree < usize::MAX,
            count == lane_claim_count(claims@, verifier_id, i as nat),
            count <= i,
            trees == lane_tree_count(claims@, verifier_id, i as nat),
        decreases claims@.len() - i,
    {
        let claim = claims[i];
        if claim.verifier_id == verifier_id {
            count = count + 1;
            let reach = claim.tree as usize + 1;
            if reach > trees {
                trees = reach;
            }
        }
        i = i + 1;
    }
    (count, trees)
}

/// Checks one lane's path set against the lane's claims.
fn check_path_set(verifier_id: u32, claims: &[TraceLeafClaim], set: TracePathSet<'_>) -> (result: Result<
    usize,
    TraceMerkleError,
>)
    requires
        forall|i: int| 0 <= i < claims@.len() ==> (#[trigger] claims@[i]).tree < usize::MAX,
    ensures
        result == path_set_outcome(verifier_id, claims@, set),
{
    let (count, trees) = lane_counts(claims, verifier_id);
    if set.paths.len() != count {
        return Err(
            TraceMerkleError::TracePathCountMismatch { verifier_id, expected: count, actual: set.paths.len() },
        );
    }
    if set.roots.len() != trees {
        return Err(
            TraceMerkleError::TraceRootCountMismatch { verifier_id, expected: trees, actual: set.roots.len() },
        );
    }
    Ok(count)
}

/// Checks that the witness's path sets hold exactly one path per claim of
/// their lanes and one root per tree those claims reach, and that they
/// account for every claim.
pub fn validate_trace_paths(claims: &[TraceLeafClaim], witness: UniversalTracePathWitness<'_>) -> (result: Result<
    (),
    TraceMerkleError,
>)
    requires
        forall|i: int| 0 <= i < claims@.len() ==> (#[trigger] claims@[i]).tree < usize::MAX,
    ensures
        match path_claims_error(claims@, witness) {
            Some(error) => result == Err::<(), _>(error),
            None => result is Ok,
        },
{
    let expected = match witness {
        UniversalTracePathWitness::Segment(set) => check_path_set(SEGMENT_VERIFIER_ID, claims, set)?,
        UniversalTracePathWitness::Binary { left, right } => {
            let left_count = check_path_set(LEFT_RECURSION_VERIFIER_ID, claims, left)?;
            let right_count = check_path_set(RIGHT_RECURSION_VERIFIER_ID, claims, right)?;
            match left_count.checked_add(right_count) {
                Some(total) => total,
                None => {
                    return Err(TraceMerkleError::RowCountOverflow);
                },
            }
        },
        UniversalTracePathWitness::Empty => 0,
    };
    if claims.len() != expected {
        return Err(TraceMerkleError::LeafClaimCountMismatch { expected, actual: claims.len() });
    }
    Ok(())
}

/// The path set a verifier's claims are walked in.
fn select_paths<'a>(witness: UniversalTracePathWitness<'a>, verifier_id: u32) -> (result: Result<
    Option<TracePathSet<'a>>,
    TraceMerkleError,
>)
    ensures
        result == selected_paths(witness, verifier_id),
{
    if verifier_id == SEGMENT_VERIFIER_ID {
        match witness {
            UniversalTracePathWitness::Segment(set) => Ok(Some(set)),
            _ => Ok(None),
        }
    } else if verifier_id == LEFT_RECURSION_VERIFIER_ID {
        match witness {
            UniversalTracePathWitness::Binary { left, .. } => Ok(Some(left)),
            _ => Ok(None),
        }
    } else if verifier_id == RIGHT_RECURSION_VERIFIER_ID {
        match witness {
            UniversalTracePathWitness::Binary { right, .. } => Ok(Some(right)),
            _ => Ok(None),
        }
    } else {
        Err(TraceMerkleError::UnknownVerifierId { verifier_id })
    }
}

impl PathWalk {
    /// A walk stays within its claim's path.
    #[verifier::type_invariant]
    closed spec fn within_path(self) -> bool {
        &&& self.claim.height < 32
        &&& self.level <= self.claim.height
        &&& self.siblings@.len() == self.claim.height
    }

    pub closed spec fn spec_claim(&self) -> TraceLeafClaim {
        self.claim
    }

    /// The siblings of the walk's levels, bottom-up.
    pub closed spec fn spec_siblings(&self) -> Seq<[M31Word; 8]> {
        self.siblings@
    }

    /// The committed root of the claim's tree, if the set has one.
    pub closed spec fn spec_root(&self) -> Option<[M31Word; 8]> {
        self.root
    }

    /// How many levels the walk has climbed.
    pub closed spec fn spec_level(&self) -> u32 {
        self.level
    }

    /// The node the walk has reached.
    pub closed spec fn spec_child(&self) -> Seq<u32> {
        self.child@
    }

    /// Starts a claim's walk at its leaf digest, after checking that its lane
    /// has a path set laid out one path per (tree, query), that the claim's
    /// path exists and that its depth is the claim's height.
    pub fn start(claim: TraceLeafClaim, witness: UniversalTracePathWitness<'_>) -> (result: Result<
        Self,
        TraceMerkleError,
    >)
        requires
            claim.height < 32,
            witness_paths_hold_levels(witness),
        ensures
            match walk_start(claim, witness) {
                Err(error) => result == Err::<Self, _>(error),
                Ok((path, root)) => result matches Ok(walk) && {
                    &&& walk.spec_claim() == claim
                    &&& walk.spec_siblings() == path.siblings@.subrange(0, claim.height as int)
                    &&& walk.spec_root() == root
                    &&& walk.spec_level() == 0
                    &&& walk.spec_child() == claim.digest@
                },
            },
    {
        let set = match select_paths(witness, claim.verifier_id) {
            Err(error) => {
                return Err(error);
            },
            Ok(None) => {
                return Err(TraceMerkleError::ActivePathSetMissing { verifier_id: claim.verifier_id });
            },
            Ok(Some(set)) => set,
        };
        let trees = set.roots.len();
        if trees == 0 || set.paths.len() % trees != 0 {
            return Err(
                TraceMerkleError::InvalidPathLayout {
                    verifier_id: claim.verifier_id,
                    roots: trees,
                    paths: set.paths.len(),
                },
            );
        }
        let query_count = set.paths.len() / trees;
        let index = match (claim.tree as usize).checked_mul(query_count) {
            Some(base) => match base.checked_add(claim.query as usize) {
                Some(index) => index,
                None => {
                    return Err(TraceMerkleError::ArithmeticOverflow { field: TraceArithmetic::TracePathIndex });
                },
            },
            None => {
                proof {
                    assert(claim.tree * query_count + claim.query >= claim.tree * query_count);
                }
                return Err(TraceMerkleError::ArithmeticOverflow { field: TraceArithmetic::TracePathIndex });
            },
        };
        if index >= set.paths.len() {
            return Err(
                TraceMerkleError::TracePathMissing {
                    verifier_id: claim.verifier_id,
                    tree: claim.tree,
                    query: claim.query,
                },
            );
        }
        let path = &set.paths[index];
        if path.active_depth != claim.height {
            return Err(
                TraceMerkleError::TracePathDepthMismatch {
                    verifier_id: claim.verifier_id,
                    tree: claim.tree,
                    query: claim.query,
                    expected: claim.height,
                    actual: path.active_depth,
                },
            );
        }
        proof {
            assert(paths_hold_levels(set));
            assert(set.paths@[index as int].active_depth <= set.paths@[index as int].siblings@.len());
        }
        let mut siblings: Vec<[M31Word; 8]> = Vec::new();
        let mut level: usize = 0;
        while level < claim.height as usize
            invariant
                level <= claim.height,
                claim.height <= path.siblings@.len(),
                siblings@ == path.siblings@.subrange(0, level as int),
            decreases claim.height - level,
        {
            siblings.push(path.siblings[level]);
            proof {
                assert(path.siblings@.subrange(0, level + 1) =~= path.siblings@.subrange(0, level as int).push(
                    path.siblings@[level as int],
                ));
            }
            level = level + 1;
        }
        let root = if (claim.tree as usize) < trees {
            Some(set.roots[claim.tree as usize])
        } else {
            None
        };
        Ok(PathWalk { claim, siblings, root, level: 0, child: claim.digest })
    }

    /// The next level to combine, while the walk is below its root.
    pub fn request(&self) -> (request: Option<PathStepRequest>)
        ensures
            self.spec_level() < self.spec_claim().height ==> (request matches Some(r) && {
                let claim = self.spec_claim();
                let level = self.spec_level();
                &&& r.tree_id == claim.tree_id
                &&& r.depth == claim.height - level - 1
                &&& r.parent_position == claim.position >> ((level + 1) as u32)
                &&& r.direction == (claim.position >> level) & 1
                &&& r.child@ == self.spec_child()
                &&& r.sibling@ == word_values(self.spec_siblings()[level as int]@)
            }),
            self.spec_level() >= self.spec_claim().height ==> request is None,
    {
        proof {
            use_type_invariant(self);
        }
        if self.level >= self.claim.height {
            return None;
        }
        let level = self.level;
        let sibling_words = self.siblings[level as usize];
        let sibling = [
            sibling_words[0].as_u32(),
            sibling_words[1].as_u32(),
            sibling_words[2].as_u32(),
            sibling_words[3].as_u32(),
            sibling_words[4].as_u32(),
            sibling_words[5].as_u32(),
            sibling_words[6].as_u32(),
            sibling_words[7].as_u32(),
        ];
        proof {
            assert(sibling@ =~= word_values(sibling_words@));
        }
        Some(
            PathStepRequest {
                tree_id: self.claim.tree_id,
                depth: self.claim.height - level - 1,
                parent_position: self.claim.position >> (level + 1),
                child: self.child,
                direction: (self.claim.position >> level) & 1,
                sibling,
            },
        )
    }

    /// Climbs one level: the combined parent becomes the walk's node.
    pub fn stepped(&mut self, parent: [u32; 8])
        requires
            old(self).spec_level() < old(self).spec_claim().height,
        ensures
            final(self).spec_level() == old(self).spec_level() + 1,
            final(self).spec_child() == parent@,
            final(self).spec_claim() == old(self).spec_claim(),
            final(self).spec_siblings() == old(self).spec_siblings(),
            final(self).spec_root() == old(self).spec_root(),
    {
        proof {
            use_type_invariant(&*self);
        }
        self.level = self.level + 1;
        self.child = parent;
    }

    /// Once the walk has climbed every level, its node must be the tree's
    /// committed root.
    pub fn finish(&self) -> (result: Result<(), TraceMerkleError>)
        requires
            self.spec_level() == self.spec_claim().height,
        ensures
            match self.spec_root() {
                None => result == Err::<(), _>(
                    TraceMerkleError::TraceRootMissing {
                        verifier_id: self.spec_claim().verifier_id,
                        tree: self.spec_claim().tree,
                    },
                ),
                Some(root) => if word_values(root@) == self.spec_child() {
                    result is Ok
                } else {
                    result == Err::<(), _>(
                        TraceMerkleError::TracePathRootMismatch {
                            verifier_id: self.spec_claim().verifier_id,
                            tree: self.spec_claim().tree,
                            query: self.spec_claim().query,
                        },
                    )
                },
            },
    {
        let root = match self.root {
            None => {
                return Err(
                    TraceMerkleError::TraceRootMissing { verifier_id: self.claim.verifier_id, tree: self.claim.tree },
                );
            },
            Some(root) => root,
        };
        let mut i: usize = 0;
        while i < 8
            invariant
                i <= 8,
                forall|j: int| 0 <= j < i ==> root@[j]@ == self.child@[j],
                self.root == Some(root),
            decreases 8 - i,
        {
            if root[i].as_u32() != self.child[i] {
                proof {
                    assert(word_values(root@)[i as int] == root@[i as int]@);
                    assert(word_values(root@)[i as int] != self.child@[i as int]);
                    assert(word_values(root@) != self.child@);
                }
                return Err(
                    TraceMerkleError::TracePathRootMismatch {
                        verifier_id: self.claim.verifier_id,
                        tree: self.claim.tree,
                        query: self.claim.query,
                    },
                );
            }
            i = i + 1;
        }
        proof {
            assert(word_values(root@) =~= self.child@);
        }
        Ok(())
    }
}

} // verus!
