use recursion::m31::M31Word;
use recursion::trace_merkle::{TraceLeafClaim, TraceMerkleError};
use recursion::trace_path::{
    validate_trace_paths, MerklePathWords, PathStepRequest, PathWalk, TracePathSet, UniversalTracePathWitness,
};

fn word(value: u32) -> M31Word {
    M31Word::try_from_u32(value).unwrap()
}

/// A stand-in for combining a child with its sibling into the parent.
fn combine(request: &PathStepRequest) -> [u32; 8] {
    let (left, right) = if request.direction == 0 {
        (request.child, request.sibling)
    } else {
        (request.sibling, request.child)
    };
    core::array::from_fn(|j| {
        ((left[j] as u64 * 2 + right[(j + 1) % 8] as u64 + request.depth as u64 + request.parent_position as u64)
            % 0x7fff_ffff) as u32
    })
}

fn claim(verifier_id: u32, tree: u32, query: u32, position: u32, seed: u32) -> TraceLeafClaim {
    TraceLeafClaim {
        verifier_id,
        tree,
        query,
        tree_id: 10 + tree,
        height: 2,
        position,
        digest: core::array::from_fn(|j| seed + j as u32),
    }
}

fn path(seed: u32) -> MerklePathWords {
    MerklePathWords {
        active_depth: 2,
        siblings: (0..3).map(|level| (0..8).map(|j| word(seed * 100 + level * 10 + j)).collect::<Vec<_>>())
            .map(|words| [words[0], words[1], words[2], words[3], words[4], words[5], words[6], words[7]])
            .collect(),
    }
}

/// Walks a claim up its path, handing every level to `combine`.
fn walk(claim: TraceLeafClaim, witness: UniversalTracePathWitness<'_>) -> Result<(PathWalk, Vec<PathStepRequest>), TraceMerkleError> {
    let mut walk = PathWalk::start(claim, witness)?;
    let mut requests = Vec::new();
    while let Some(request) = walk.request() {
        walk.stepped(combine(&request));
        requests.push(request);
    }
    Ok((walk, requests))
}

fn root_of(claim: TraceLeafClaim, path: &MerklePathWords) -> [M31Word; 8] {
    let mut child = claim.digest;
    for level in 0..claim.height {
        let sibling = path.siblings[level as usize].map(|w| w.as_u32());
        child = combine(&PathStepRequest {
            tree_id: claim.tree_id,
            depth: claim.height - level - 1,
            parent_position: claim.position >> (level + 1),
            child,
            direction: (claim.position >> level) & 1,
            sibling,
        });
    }
    child.map(word)
}

fn fixture() -> (Vec<TraceLeafClaim>, Vec<MerklePathWords>, Vec<[M31Word; 8]>) {
    // Two trees, two queries each, tree-major.
    let claims = vec![claim(0, 0, 0, 1, 5), claim(0, 0, 1, 2, 6), claim(0, 1, 0, 3, 7), claim(0, 1, 1, 0, 8)];
    let paths: Vec<MerklePathWords> = (1..5).map(path).collect();
    let roots = vec![root_of(claims[0], &paths[0]), root_of(claims[2], &paths[2])];
    (claims, paths, roots)
}

#[test]
fn a_claim_climbs_to_its_committed_root() {
    let (claims, paths, roots) = fixture();
    let witness = UniversalTracePathWitness::Segment(TracePathSet { roots: &roots, paths: &paths });
    assert_eq!(validate_trace_paths(&claims, witness), Ok(()));
    let (walk, requests) = walk(claims[0], witness).unwrap();
    assert_eq!(walk.finish(), Ok(()));
    // Position 1: the leaf is a right child, its parent a left child.
    assert_eq!(requests.len(), 2);
    assert_eq!((requests[0].depth, requests[0].direction, requests[0].parent_position), (1, 1, 0));
    assert_eq!((requests[1].depth, requests[1].direction, requests[1].parent_position), (0, 0, 0));
    assert_eq!(requests[0].child, claims[0].digest);
    assert_eq!(requests[0].sibling, paths[0].siblings[0].map(|w| w.as_u32()));
    assert_eq!(requests[1].child, combine(&requests[0]));
    assert_eq!(requests[0].tree_id, 10);
}

#[test]
fn a_walk_that_misses_the_root_is_refused() {
    let (claims, paths, mut roots) = fixture();
    roots[0][3] = word(99);
    let witness = UniversalTracePathWitness::Segment(TracePathSet { roots: &roots, paths: &paths });
    let (walk, _) = walk(claims[0], witness).unwrap();
    assert_eq!(walk.finish(), Err(TraceMerkleError::TracePathRootMismatch { verifier_id: 0, tree: 0, query: 0 }));
}

#[test]
fn the_last_tree_walk_ends_on_its_own_root() {
    let (claims, paths, roots) = fixture();
    let witness = UniversalTracePathWitness::Segment(TracePathSet { roots: &roots, paths: &paths });
    let (walk, requests) = walk(claims[2], witness).unwrap();
    assert_eq!(walk.finish(), Ok(()));
    assert_eq!(requests[0].tree_id, 11);
    assert_eq!((requests[0].direction, requests[0].parent_position), (1, 1));
}

#[test]
fn path_sets_must_match_the_lane_claims() {
    let (claims, paths, roots) = fixture();
    let witness = UniversalTracePathWitness::Segment(TracePathSet { roots: &roots, paths: &paths[..3] });
    assert_eq!(
        validate_trace_paths(&claims, witness),
        Err(TraceMerkleError::TracePathCountMismatch { verifier_id: 0, expected: 4, actual: 3 })
    );
    let witness = UniversalTracePathWitness::Segment(TracePathSet { roots: &roots[..1], paths: &paths });
    assert_eq!(
        validate_trace_paths(&claims, witness),
        Err(TraceMerkleError::TraceRootCountMismatch { verifier_id: 0, expected: 2, actual: 1 })
    );
    let mut mixed = claims.clone();
    mixed.push(claim(1, 0, 0, 0, 9));
    let witness = UniversalTracePathWitness::Segment(TracePathSet { roots: &roots, paths: &paths });
    assert_eq!(
        validate_trace_paths(&mixed, witness),
        Err(TraceMerkleError::LeafClaimCountMismatch { expected: 4, actual: 5 })
    );
    assert_eq!(
        validate_trace_paths(&claims, UniversalTracePathWitness::Empty),
        Err(TraceMerkleError::LeafClaimCountMismatch { expected: 0, actual: 4 })
    );
}

#[test]
fn a_walk_needs_its_lanes_path_of_the_claims_depth() {
    let (claims, paths, roots) = fixture();
    let set = TracePathSet { roots: &roots, paths: &paths };
    assert_eq!(
        PathWalk::start(claim(1, 0, 0, 0, 1), UniversalTracePathWitness::Segment(set)).err(),
        Some(TraceMerkleError::ActivePathSetMissing { verifier_id: 1 })
    );
    assert_eq!(
        PathWalk::start(claim(7, 0, 0, 0, 1), UniversalTracePathWitness::Segment(set)).err(),
        Some(TraceMerkleError::UnknownVerifierId { verifier_id: 7 })
    );
    let mut deep = claims[0];
    deep.height = 3;
    assert_eq!(
        PathWalk::start(deep, UniversalTracePathWitness::Segment(set)).err(),
        Some(TraceMerkleError::TracePathDepthMismatch { verifier_id: 0, tree: 0, query: 0, expected: 3, actual: 2 })
    );
    assert_eq!(
        PathWalk::start(claim(0, 2, 0, 0, 1), UniversalTracePathWitness::Segment(set)).err(),
        Some(TraceMerkleError::TracePathMissing { verifier_id: 0, tree: 2, query: 0 })
    );
    let odd = TracePathSet { roots: &roots, paths: &paths[..3] };
    assert_eq!(
        PathWalk::start(claims[0], UniversalTracePathWitness::Segment(odd)).err(),
        Some(TraceMerkleError::InvalidPathLayout { verifier_id: 0, roots: 2, paths: 3 })
    );
}
