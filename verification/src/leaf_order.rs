//! The order in which a commitment tree's columns enter its Merkle leaves.
//!
//! Leaf values are hashed in ascending log-size order, and columns of equal
//! log size keep their column order: a stable sort of the column indices by
//! log size. That order is the one permutation of the indices that is
//! strictly increasing in (log size, index).
use vstd::prelude::*;

verus! {

/// Whether column `a` comes before column `b` in leaf order: a smaller log
/// size first, and among equal log sizes the smaller index.
pub open spec fn leaf_before(keys: Seq<u32>, a: int, b: int) -> bool {
    ||| keys[a] < keys[b]
    ||| keys[a] == keys[b] && a < b
}

/// Whether `order` lists column index `c`.
pub open spec fn listed(order: Seq<usize>, c: int) -> bool {
    exists|r: int| 0 <= r < order.len() && #[trigger] order[r] == c
}

/// `order` lists every column index exactly once, in leaf order.
pub open spec fn is_leaf_order(keys: Seq<u32>, order: Seq<usize>) -> bool {
    &&& order.len() == keys.len()
    &&& forall|r: int| 0 <= r < order.len() ==> #[trigger] order[r] < keys.len()
    &&& forall|c: int| 0 <= c < keys.len() ==> #[trigger] listed(order, c)
    &&& forall|r1: int, r2: int|
        0 <= r1 < r2 < order.len() ==> leaf_before(keys, #[trigger] order[r1] as int, #[trigger] order[r2] as int)
}

/// The leaf order of a tree whose columns have log sizes `keys`.
pub open spec fn leaf_order(keys: Seq<u32>) -> Seq<usize> {
    choose|order: Seq<usize>| is_leaf_order(keys, order)
}

proof fn lemma_leaf_order_prefix(keys: Seq<u32>, o1: Seq<usize>, o2: Seq<usize>, r: nat)
    requires
        is_leaf_order(keys, o1),
        is_leaf_order(keys, o2),
        r <= o1.len(),
    ensures
        forall|i: int| 0 <= i < r ==> o1[i] == o2[i],
    decreases r,
{
    if r > 0 {
        let k = (r - 1) as int;
        lemma_leaf_order_prefix(keys, o1, o2, (r - 1) as nat);
        let c1 = o1[k];
        let c2 = o2[k];
        if c1 != c2 {
            assert(o1[k] < keys.len());
            assert(o2[k] < keys.len());
            assert(listed(o2, c1 as int));
            assert(listed(o1, c2 as int));
            let p = choose|p: int| 0 <= p < o2.len() && #[trigger] o2[p] == c1 as int;
            let q = choose|q: int| 0 <= q < o1.len() && #[trigger] o1[q] == c2 as int;
            if p < k {
                assert(o1[p] == o2[p]);
                assert(leaf_before(keys, o1[p] as int, o1[k] as int));
            }
            if q < k {
                assert(o2[q] == o1[q]);
                assert(leaf_before(keys, o2[q] as int, o2[k] as int));
            }
            assert(p > k);
            assert(q > k);
            assert(leaf_before(keys, o2[k] as int, o2[p] as int));
            assert(leaf_before(keys, o1[k] as int, o1[q] as int));
        }
    }
}

/// Leaf order is unique: two orders of the same log sizes are equal.
pub proof fn lemma_leaf_order_unique(keys: Seq<u32>, o1: Seq<usize>, o2: Seq<usize>)
    requires
        is_leaf_order(keys, o1),
        is_leaf_order(keys, o2),
    ensures
        o1 == o2,
{
    lemma_leaf_order_prefix(keys, o1, o2, o1.len());
    assert(o1 =~= o2);
}

/// `order` is the leaf order of the first `i` columns.
pub open spec fn orders_prefix(keys: Seq<u32>, order: Seq<usize>, i: nat) -> bool {
    &&& order.len() == i
    &&& forall|r: int| 0 <= r < order.len() ==> #[trigger] order[r] < i
    &&& forall|c: int| 0 <= c < i ==> #[trigger] listed(order, c)
    &&& forall|r1: int, r2: int|
        0 <= r1 < r2 < order.len() ==> leaf_before(keys, #[trigger] order[r1] as int, #[trigger] order[r2] as int)
}

/// Inserting column `i` before the first listed column of larger log size
/// extends the leaf order of the first `i` columns to the first `i + 1`.
proof fn lemma_insert_step(keys: Seq<u32>, before: Seq<usize>, i: nat, p: nat)
    requires
        i < keys.len() <= usize::MAX,
        orders_prefix(keys, before, i),
        p <= before.len(),
        forall|r: int| 0 <= r < p ==> keys[#[trigger] before[r] as int] <= keys[i as int],
        p < before.len() ==> keys[before[p as int] as int] > keys[i as int],
    ensures
        orders_prefix(keys, before.insert(p as int, i as usize), i + 1),
{
    let key = keys[i as int];
    before.insert_ensures(p as int, i as usize);
    let after = before.insert(p as int, i as usize);
    if p < before.len() {
        assert forall|r: int| p <= r < before.len() implies keys[#[trigger] before[r] as int] > key by {
            if r > p {
                assert(leaf_before(keys, before[p as int] as int, before[r] as int));
            }
        }
    }
    assert forall|r: int| 0 <= r < after.len() implies #[trigger] after[r] < i + 1 by {
        if r < p {
            assert(after[r] == before[r]);
        } else if r > p {
            assert(after[r] == before[r - 1]);
        }
    }
    assert forall|c: int| 0 <= c < i + 1 implies #[trigger] listed(after, c) by {
        if c == i {
            assert(after[p as int] == c);
        } else {
            assert(listed(before, c));
            let r0 = choose|r: int| 0 <= r < before.len() && #[trigger] before[r] == c;
            if r0 < p {
                assert(after[r0] == c);
            } else {
                assert(after[r0 + 1] == c);
            }
        }
    }
    assert forall|r1: int, r2: int| 0 <= r1 < r2 < after.len() implies leaf_before(
        keys,
        #[trigger] after[r1] as int,
        #[trigger] after[r2] as int,
    ) by {
        if r2 < p {
            assert(after[r1] == before[r1] && after[r2] == before[r2]);
        } else if r2 == p {
            assert(after[r1] == before[r1]);
            assert(keys[before[r1] as int] <= key);
        } else if r1 > p {
            assert(after[r1] == before[r1 - 1] && after[r2] == before[r2 - 1]);
        } else if r1 == p {
            assert(after[r2] == before[r2 - 1]);
            assert(keys[before[r2 - 1] as int] > key);
        } else {
            assert(after[r1] == before[r1] && after[r2] == before[r2 - 1]);
        }
    }
}

/// The first position at or after `j` whose listed column has a larger
/// log size than `key`.
pub open spec fn insert_position(keys: Seq<u32>, order: Seq<usize>, key: u32, j: nat) -> nat
    decreases order.len() - j,
{
    if j >= order.len() {
        order.len()
    } else if keys[order[j as int] as int] > key {
        j
    } else {
        insert_position(keys, order, key, j + 1)
    }
}

/// The leaf order of the first `n` columns, built by insertion.
pub open spec fn sorted_prefix(keys: Seq<u32>, n: nat) -> Seq<usize>
    decreases n,
{
    if n == 0 {
        Seq::empty()
    } else {
        let before = sorted_prefix(keys, (n - 1) as nat);
        before.insert(insert_position(keys, before, keys[n - 1], 0) as int, (n - 1) as usize)
    }
}

proof fn lemma_insert_position(keys: Seq<u32>, order: Seq<usize>, key: u32, j: nat)
    requires
        j <= order.len(),
        forall|r: int| 0 <= r < j ==> keys[#[trigger] order[r] as int] <= key,
    ensures
        insert_position(keys, order, key, j) <= order.len(),
        forall|r: int| 0 <= r < insert_position(keys, order, key, j) ==> keys[#[trigger] order[r] as int] <= key,
        insert_position(keys, order, key, j) < order.len() ==> keys[order[insert_position(
            keys,
            order,
            key,
            j,
        ) as int] as int] > key,
    decreases order.len() - j,
{
    if j < order.len() && keys[order[j as int] as int] <= key {
        lemma_insert_position(keys, order, key, j + 1);
    }
}

proof fn lemma_sorted_prefix(keys: Seq<u32>, n: nat)
    requires
        n <= keys.len() <= usize::MAX,
    ensures
        orders_prefix(keys, sorted_prefix(keys, n), n),
    decreases n,
{
    if n > 0 {
        let m = (n - 1) as nat;
        lemma_sorted_prefix(keys, m);
        let before = sorted_prefix(keys, m);
        lemma_insert_position(keys, before, keys[m as int], 0);
        lemma_insert_step(keys, before, m, insert_position(keys, before, keys[m as int], 0));
    }
}

/// Every tree has its leaf order.
pub proof fn lemma_leaf_order_exists(keys: Seq<u32>)
    requires
        keys.len() <= usize::MAX,
    ensures
        is_leaf_order(keys, leaf_order(keys)),
{
    lemma_sorted_prefix(keys, keys.len());
    assert(is_leaf_order(keys, sorted_prefix(keys, keys.len())));
}

/// The stable ascending log-size order of a tree's column indices.
pub fn stable_log_size_order(columns: &[u32]) -> (order: Vec<usize>)
    ensures
        is_leaf_order(columns@, order@),
        order@ == leaf_order(columns@),
{
    let ghost keys = columns@;
    let mut order: Vec<usize> = Vec::new();
    let n = columns.len();
    let mut i: usize = 0;
    while i < n
        invariant
            i <= n,
            n == keys.len(),
            keys == columns@,
            orders_prefix(keys, order@, i as nat),
        decreases n - i,
    {
        let key = columns[i];
        let mut p: usize = 0;
        while p < order.len() && columns[order[p]] <= key
            invariant
                p <= order@.len(),
                order@.len() == i,
                i < n,
                n == keys.len(),
                keys == columns@,
                key == keys[i as int],
                orders_prefix(keys, order@, i as nat),
                forall|r: int| 0 <= r < p ==> keys[#[trigger] order@[r] as int] <= key,
            decreases order@.len() - p,
        {
            p = p + 1;
        }
        proof {
            lemma_insert_step(keys, order@, i as nat, p as nat);
        }
        order.insert(p, i);
        i = i + 1;
    }
    proof {
        assert(is_leaf_order(keys, order@));
        lemma_leaf_order_unique(keys, order@, leaf_order(keys));
    }
    order
}

} // verus!
