//! Reachability in the node table.
//!
//! The file tree is an arena: a map from integer id to node, each node
//! holding the ids of its children.  This module defines which ids are
//! descendants of which, and proves the structural facts that recursive
//! subtree removal rests on: in a well-formed table, child ids strictly
//! exceed their parent's, every child id is present, and no id is the
//! child of two places — so subtrees of distinct children never overlap.

use vstd::prelude::*;

use crate::node::FileTreeNode;

verus! {

/// Every id in the table is below the allocation counter.
pub open spec fn ids_bounded(m: Map<u64, FileTreeNode>, next: u64) -> bool {
    forall|id: u64| #[trigger] m.dom().contains(id) ==> id < next
}

/// Every child id is present in the table and strictly exceeds its
/// parent's id (so the root id zero is nobody's child).
pub open spec fn children_closed(m: Map<u64, FileTreeNode>) -> bool {
    forall|id: u64, i: int|
        m.dom().contains(id) && 0 <= i < m[id].children@.len() ==> m.dom().contains(
            #[trigger] m[id].children@[i],
        ) && m[id].children@[i] > id
}

/// No id is listed as a child twice, whether under one parent or two.
pub open spec fn unique_parents(m: Map<u64, FileTreeNode>) -> bool {
    forall|id1: u64, i1: int, id2: u64, i2: int|
        #![trigger m[id1].children@[i1], m[id2].children@[i2]]
        m.dom().contains(id1) && m.dom().contains(id2) && 0 <= i1 < m[id1].children@.len() && 0
            <= i2 < m[id2].children@.len() && m[id1].children@[i1] == m[id2].children@[i2] ==> id1
            == id2 && i1 == i2
}

/// A structurally well-formed node table.
pub open spec fn table_wf(m: Map<u64, FileTreeNode>, next: u64) -> bool {
    ids_bounded(m, next) && children_closed(m) && unique_parents(m)
}

/// No node of the table lists `target` among its children.
pub open spec fn unreferenced(m: Map<u64, FileTreeNode>, target: u64) -> bool {
    forall|id: u64, i: int|
        m.dom().contains(id) && 0 <= i < m[id].children@.len() ==> (#[trigger] m[id].children@[i])
            != target
}

/// `k` can be reached from `p` by following at most `fuel` child links.
pub open spec fn descn(m: Map<u64, FileTreeNode>, p: u64, k: u64, fuel: nat) -> bool
    decreases fuel,
{
    p == k || (fuel > 0 && m.dom().contains(p) && exists|i: int|
        0 <= i < m[p].children@.len() && descn(m, #[trigger] m[p].children@[i], k, (fuel - 1) as nat))
}

/// `k` lies in the subtree of `p`: it is `p` itself or reachable from it
/// through child links.
pub open spec fn desc(m: Map<u64, FileTreeNode>, p: u64, k: u64) -> bool {
    exists|fuel: nat| descn(m, p, k, fuel)
}

/// `k` lies in the subtree of some id of the batch `cs`.
pub open spec fn reaches_any(m: Map<u64, FileTreeNode>, cs: Seq<u64>, k: u64) -> bool {
    exists|jj: int| 0 <= jj < cs.len() && desc(m, #[trigger] cs[jj], k)
}

/// Nothing is reached from an empty batch.
pub proof fn lemma_reaches_any_empty(m: Map<u64, FileTreeNode>, cs: Seq<u64>, k: u64)
    ensures
        !reaches_any(m, cs.take(0), k),
{
    if reaches_any(m, cs.take(0), k) {
        let jj = choose|jj: int| 0 <= jj < cs.take(0).len() && desc(m, #[trigger] cs.take(0)[jj], k);
    }
}

/// Extending the batch by one id adds exactly that id's subtree.
pub proof fn lemma_reaches_any_take_step(m: Map<u64, FileTreeNode>, cs: Seq<u64>, j: int, k: u64)
    requires
        0 <= j < cs.len(),
    ensures
        reaches_any(m, cs.take(j + 1), k) <==> (reaches_any(m, cs.take(j), k) || desc(
            m,
            cs[j],
            k,
        )),
{
    if reaches_any(m, cs.take(j + 1), k) {
        let jj = choose|jj: int|
            0 <= jj < cs.take(j + 1).len() && desc(m, #[trigger] cs.take(j + 1)[jj], k);
        assert(cs.take(j + 1)[jj] == cs[jj]);
        if jj < j {
            assert(cs.take(j)[jj] == cs[jj]);
            assert(reaches_any(m, cs.take(j), k));
        } else {
            assert(desc(m, cs[j], k));
        }
    }
    if reaches_any(m, cs.take(j), k) {
        let jj = choose|jj: int|
            0 <= jj < cs.take(j).len() && desc(m, #[trigger] cs.take(j)[jj], k);
        assert(cs.take(j + 1)[jj] == cs.take(j)[jj]);
        assert(reaches_any(m, cs.take(j + 1), k));
    }
    if desc(m, cs[j], k) {
        assert(cs.take(j + 1)[j] == cs[j]);
        assert(reaches_any(m, cs.take(j + 1), k));
    }
}

/// Every id is in its own subtree.
pub proof fn lemma_desc_refl(m: Map<u64, FileTreeNode>, p: u64)
    ensures
        desc(m, p, p),
{
    assert(descn(m, p, p, 0));
}

/// The subtree of a node includes the subtrees of its children.
pub proof fn lemma_desc_step(m: Map<u64, FileTreeNode>, p: u64, i: int, k: u64)
    requires
        m.dom().contains(p),
        0 <= i < m[p].children@.len(),
        desc(m, m[p].children@[i], k),
    ensures
        desc(m, p, k),
{
    let f = choose|fuel: nat| descn(m, m[p].children@[i], k, fuel);
    assert(descn(m, p, k, f + 1));
}

/// A strict descendant is reached through some child.
pub proof fn lemma_desc_unfold(m: Map<u64, FileTreeNode>, p: u64, k: u64)
    requires
        desc(m, p, k),
        p != k,
    ensures
        m.dom().contains(p),
        exists|i: int| 0 <= i < m[p].children@.len() && desc(m, #[trigger] m[p].children@[i], k),
{
    let f = choose|fuel: nat| descn(m, p, k, fuel);
    assert(f > 0);
    let i = choose|i: int|
        0 <= i < m[p].children@.len() && descn(m, #[trigger] m[p].children@[i], k, (f - 1) as nat);
    assert(desc(m, m[p].children@[i], k));
}

proof fn lemma_descn_gt(m: Map<u64, FileTreeNode>, p: u64, k: u64, fuel: nat)
    requires
        children_closed(m),
        descn(m, p, k, fuel),
        p != k,
    ensures
        m.dom().contains(k),
        k > p,
    decreases fuel,
{
    let i = choose|i: int|
        0 <= i < m[p].children@.len() && descn(m, #[trigger] m[p].children@[i], k, (fuel - 1) as nat);
    let c = m[p].children@[i];
    if c == k {
    } else {
        lemma_descn_gt(m, c, k, (fuel - 1) as nat);
    }
}

/// In a well-formed table a strict descendant is present and has the
/// larger id.
pub proof fn lemma_desc_gt(m: Map<u64, FileTreeNode>, p: u64, k: u64)
    requires
        children_closed(m),
        desc(m, p, k),
        p != k,
    ensures
        m.dom().contains(k),
        k > p,
{
    let f = choose|fuel: nat| descn(m, p, k, fuel);
    lemma_descn_gt(m, p, k, f);
}

proof fn lemma_descn_frame(
    m1: Map<u64, FileTreeNode>,
    m2: Map<u64, FileTreeNode>,
    p: u64,
    k: u64,
    fuel: nat,
)
    requires
        descn(m1, p, k, fuel),
        forall|x: u64|
            #[trigger] desc(m1, p, x) && m1.dom().contains(x) ==> m2.dom().contains(x) && m2[x]
                == m1[x],
    ensures
        descn(m2, p, k, fuel),
    decreases fuel,
{
    if p == k {
    } else {
        lemma_desc_refl(m1, p);
        let i = choose|i: int|
            0 <= i < m1[p].children@.len() && descn(m1, #[trigger] m1[p].children@[i], k, (fuel
                - 1) as nat);
        let c = m1[p].children@[i];
        assert forall|x: u64| #[trigger] desc(m1, c, x) && m1.dom().contains(x) implies
            m2.dom().contains(x) && m2[x] == m1[x] by {
            lemma_desc_step(m1, p, i, x);
        }
        lemma_descn_frame(m1, m2, c, k, (fuel - 1) as nat);
        assert(m2[p].children@[i] == c);
        assert(descn(m2, p, k, fuel));
    }
}

/// Reachability survives any change that leaves the subtree's own nodes in
/// place and unchanged.
pub proof fn lemma_desc_frame(
    m1: Map<u64, FileTreeNode>,
    m2: Map<u64, FileTreeNode>,
    p: u64,
    k: u64,
)
    requires
        desc(m1, p, k),
        forall|x: u64|
            #[trigger] desc(m1, p, x) && m1.dom().contains(x) ==> m2.dom().contains(x) && m2[x]
                == m1[x],
    ensures
        desc(m2, p, k),
{
    let f = choose|fuel: nat| descn(m1, p, k, fuel);
    lemma_descn_frame(m1, m2, p, k, f);
}

proof fn lemma_descn_last_link(m: Map<u64, FileTreeNode>, p: u64, k: u64, fuel: nat)
    requires
        descn(m, p, k, fuel),
        p != k,
    ensures
        exists|x: u64, i: int|
            #![trigger m[x].children@[i]]
            desc(m, p, x) && m.dom().contains(x) && 0 <= i < m[x].children@.len() && m[x].children@[i]
                == k,
    decreases fuel,
{
    let i = choose|i: int|
        0 <= i < m[p].children@.len() && descn(m, #[trigger] m[p].children@[i], k, (fuel - 1) as nat);
    let c = m[p].children@[i];
    if c == k {
        lemma_desc_refl(m, p);
        assert(desc(m, p, p) && m.dom().contains(p) && 0 <= i < m[p].children@.len()
            && m[p].children@[i] == k);
    } else {
        lemma_descn_last_link(m, c, k, (fuel - 1) as nat);
        let (x, j) = choose|x: u64, j: int|
            #![trigger m[x].children@[j]]
            desc(m, c, x) && m.dom().contains(x) && 0 <= j < m[x].children@.len()
                && m[x].children@[j] == k;
        lemma_desc_step(m, p, i, x);
        assert(desc(m, p, x) && m.dom().contains(x) && 0 <= j < m[x].children@.len()
            && m[x].children@[j] == k);
    }
}

/// A strict descendant hangs off some node of the subtree as a direct
/// child.
pub proof fn lemma_desc_last_link(m: Map<u64, FileTreeNode>, p: u64, k: u64)
    requires
        desc(m, p, k),
        p != k,
    ensures
        exists|x: u64, i: int|
            #![trigger m[x].children@[i]]
            desc(m, p, x) && m.dom().contains(x) && 0 <= i < m[x].children@.len() && m[x].children@[i]
                == k,
{
    let f = choose|fuel: nat| descn(m, p, k, fuel);
    lemma_descn_last_link(m, p, k, f);
}

/// Two nodes whose subtrees share an id are themselves in an ancestor
/// relation: chains of parents never fork upward.
pub proof fn lemma_ancestors_ordered(m: Map<u64, FileTreeNode>, a: u64, b: u64, k: u64)
    requires
        children_closed(m),
        unique_parents(m),
        desc(m, a, k),
        desc(m, b, k),
    ensures
        desc(m, a, b) || desc(m, b, a),
    decreases k,
{
    if a == k || b == k {
    } else {
        lemma_desc_last_link(m, a, k);
        lemma_desc_last_link(m, b, k);
        let (x1, i1) = choose|x: u64, i: int|
            #![trigger m[x].children@[i]]
            desc(m, a, x) && m.dom().contains(x) && 0 <= i < m[x].children@.len()
                && m[x].children@[i] == k;
        let (x2, i2) = choose|x: u64, i: int|
            #![trigger m[x].children@[i]]
            desc(m, b, x) && m.dom().contains(x) && 0 <= i < m[x].children@.len()
                && m[x].children@[i] == k;
        assert(x1 == x2 && i1 == i2);
        assert(k > x1);
        lemma_ancestors_ordered(m, a, b, x1);
    }
}

} // verus!
