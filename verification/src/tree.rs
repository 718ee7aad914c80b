//! Approximate multi-tenant prefix tree.
//!
//! The tree maps character prefixes of previously routed request texts to
//! the set of workers ("tenants") that have processed them. Every stored
//! prefix is kept together with a per-tenant last-access stamp and a
//! node-level last-access stamp; the stamps come from the caller's logical
//! clock, which the router advances on every insertion.
//!
//! A node is stored as its full path from the root, one node per stored
//! prefix; the set of stored paths is closed under taking prefixes, and so
//! is each worker's set of tenanted paths. The root (the empty prefix) is
//! owned by every worker from construction on.

use vstd::prelude::*;
use crate::text::{chars_eq, is_prefix_vec, prefix_vec};

verus! {

/// One stored prefix: its path from the root, the node-level last-access
/// stamp, and one optional last-access stamp per worker (present exactly
/// when that worker is a tenant of this node).
pub struct TreeNode {
    pub path: Vec<char>,
    pub last_access: u64,
    pub tenant_access: Vec<Option<u64>>,
}

/// The approximate prefix tree for a fixed set of `num_workers` workers,
/// identified by their indices `0 .. num_workers`.
pub struct Tree {
    pub nodes: Vec<TreeNode>,
    pub num_workers: usize,
}

impl Tree {
    /// Number of nodes in the tree, the root included.
    pub open spec fn node_count(self) -> nat {
        self.nodes@.len()
    }

    pub open spec fn valid_node(self, i: int) -> bool {
        0 <= i < self.nodes@.len()
    }

    /// Worker `w` is a tenant of the node stored at index `i`.
    pub open spec fn node_is_tenant(self, i: int, w: int) -> bool {
        &&& self.valid_node(i)
        &&& 0 <= w < self.nodes@[i].tenant_access@.len()
        &&& self.nodes@[i].tenant_access@[w] is Some
    }

    /// The node stored at index `i` has at least one tenant.
    pub open spec fn has_tenant(self, i: int) -> bool {
        exists|w: int| #[trigger] self.node_is_tenant(i, w)
    }

    /// The prefix `p` is stored in the tree.
    pub open spec fn has_path(self, p: Seq<char>) -> bool {
        exists|i: int| self.valid_node(i) && self.nodes@[i].path@ == p
    }

    /// The prefix `p` is stored and worker `w` is a tenant of its node.
    pub open spec fn is_tenant(self, p: Seq<char>, w: int) -> bool {
        exists|i: int|
            self.valid_node(i) && self.nodes@[i].path@ == p && self.node_is_tenant(i, w)
    }

    /// Well-formedness: the root is stored at index 0 and owned by every
    /// worker, paths are distinct and closed under taking prefixes, each
    /// worker's tenanted paths are closed under taking prefixes, and every
    /// node besides the root has at least one tenant.
    pub open spec fn wf(self) -> bool {
        &&& 1 <= self.nodes@.len()
        &&& self.nodes@[0].path@.len() == 0
        &&& forall|i: int|
            self.valid_node(i) ==> (#[trigger] self.nodes@[i].tenant_access@.len())
                == self.num_workers
        &&& forall|i: int, j: int|
            self.valid_node(i) && self.valid_node(j) && i != j ==> (#[trigger] self.nodes@[i].path@)
                != (#[trigger] self.nodes@[j].path@)
        &&& forall|i: int|
            self.valid_node(i) && self.nodes@[i].path@.len() > 0 ==> self.has_path(
                (#[trigger] self.nodes@[i].path@).drop_last(),
            )
        &&& forall|i: int, w: int|
            #[trigger] self.node_is_tenant(i, w) && self.nodes@[i].path@.len() > 0
                ==> self.is_tenant(self.nodes@[i].path@.drop_last(), w)
        &&& forall|i: int| 1 <= i < self.nodes@.len() ==> #[trigger] self.has_tenant(i)
        &&& forall|w: int| 0 <= w < self.num_workers ==> self.node_is_tenant(0, w)
    }

    /// A node is a leaf when no other stored path strictly extends its path.
    pub open spec fn is_leaf(self, i: int) -> bool {
        forall|j: int|
            self.valid_node(j) ==> !(self.nodes@[i].path@.len() < (
            #[trigger] self.nodes@[j].path@).len() && self.nodes@[i].path@.is_prefix_of(
                self.nodes@[j].path@,
            ))
    }

    /// A fresh tree holding only the root, with every worker a tenant of it.
    pub fn new(num_workers: usize) -> (r: Tree)
        ensures
            r.wf(),
            r.num_workers == num_workers,
            r.node_count() == 1,
            forall|p: Seq<char>| r.has_path(p) <==> p.len() == 0,
            forall|p: Seq<char>, w: int|
                r.is_tenant(p, w) <==> (p.len() == 0 && 0 <= w < num_workers),
    {
        let mut ta: Vec<Option<u64>> = Vec::new();
        let mut j: usize = 0;
        while j < num_workers
            invariant
                j <= num_workers,
                ta@.len() == j,
                forall|q: int| 0 <= q < j ==> ta@[q] is Some,
            decreases num_workers - j,
        {
            ta.push(Some(0u64));
            j += 1;
        }
        let root = TreeNode { path: Vec::new(), last_access: 0, tenant_access: ta };
        let mut nodes: Vec<TreeNode> = Vec::new();
        nodes.push(root);
        let r = Tree { nodes, num_workers };
        proof {
            assert forall|p: Seq<char>| r.has_path(p) implies p.len() == 0 by {
                let i = choose|i: int| r.valid_node(i) && r.nodes@[i].path@ == p;
                assert(i == 0);
            }
            assert forall|p: Seq<char>| p.len() == 0 implies r.has_path(p) by {
                assert(p =~= r.nodes@[0].path@);
                assert(r.valid_node(0) && r.nodes@[0].path@ == p);
            }
            assert forall|p: Seq<char>, w: int|
                r.is_tenant(p, w) implies (p.len() == 0 && 0 <= w < num_workers) by {
                let i = choose|i: int|
                    r.valid_node(i) && r.nodes@[i].path@ == p && r.node_is_tenant(i, w);
                assert(i == 0);
            }
        }
        r
    }

    /// Splices `text` into the tree for worker `w`, stamping every touched
    /// node with the caller's access stamp `ts`: afterwards every prefix of
    /// `text` is stored, and `w` is a tenant of exactly its previous paths
    /// plus those prefixes. Other workers' tenancies and all other paths
    /// are unchanged, so repeated insertion only refreshes stamps.
    #[verifier::rlimit(100)]
    pub fn insert(&mut self, text: &Vec<char>, w: usize, ts: u64)
        requires
            old(self).wf(),
            w < old(self).num_workers,
        ensures
            final(self).wf(),
            final(self).num_workers == old(self).num_workers,
            forall|p: Seq<char>|
                final(self).has_path(p) <==> (old(self).has_path(p) || p.is_prefix_of(text@)),
            forall|p: Seq<char>, w2: int|
                final(self).is_tenant(p, w2) <==> (old(self).is_tenant(p, w2) || (w2 == w
                    && p.is_prefix_of(text@))),
    {
        let mut cur: Vec<char> = Vec::new();
        proof {
            assert(cur@ =~= text@.subrange(0, 0));
        }
        let ghost start = *self;
        self.insert_prefix(&cur, w, ts);
        proof {
            lemma_insert_step(*old(self), start, *self, text@, w as int, 0);
        }
        let mut k: usize = 0;
        while k < text.len()
            invariant
                self.wf(),
                self.num_workers == old(self).num_workers,
                w < self.num_workers,
                k <= text@.len(),
                cur@ == text@.subrange(0, k as int),
                forall|p: Seq<char>|
                    #![trigger self.has_path(p)]
                    self.has_path(p) <==> (old(self).has_path(p) || (p.is_prefix_of(text@)
                        && p.len() < k + 1)),
                forall|p: Seq<char>, w2: int|
                    #![trigger self.is_tenant(p, w2)]
                    self.is_tenant(p, w2) <==> (old(self).is_tenant(p, w2) || (w2 == w
                        && p.is_prefix_of(text@) && p.len() < k + 1)),
            decreases text@.len() - k,
        {
            let c = text[k];
            cur.push(c);
            proof {
                assert(cur@ =~= text@.subrange(0, k + 1));
                assert(cur@.is_prefix_of(text@));
                assert(cur@.drop_last() =~= text@.subrange(0, k as int));
                assert(cur@.drop_last().is_prefix_of(text@));
                assert(self.is_tenant(cur@.drop_last(), w as int));
            }
            let ghost pre = *self;
            self.insert_prefix(&cur, w, ts);
            proof {
                lemma_insert_step(*old(self), pre, *self, text@, w as int, k + 1);
            }
            k += 1;
        }
        proof {
            assert forall|p: Seq<char>|
                p.is_prefix_of(text@) implies p.len() < text@.len() + 1 by {}
        }
    }

    /// Stores the single prefix `cur` (if absent) and marks worker `w` as a
    /// tenant of its node, refreshing the access stamps with `ts`.
    fn insert_prefix(&mut self, cur: &Vec<char>, w: usize, ts: u64)
        requires
            old(self).wf(),
            w < old(self).num_workers,
            cur@.len() > 0 ==> old(self).is_tenant(cur@.drop_last(), w as int),
        ensures
            final(self).wf(),
            final(self).num_workers == old(self).num_workers,
            forall|p: Seq<char>|
                final(self).has_path(p) <==> (old(self).has_path(p) || p == cur@),
            forall|p: Seq<char>, w2: int|
                final(self).is_tenant(p, w2) <==> (old(self).is_tenant(p, w2) || (p == cur@ && w2
                    == w)),
    {
        let ghost pre = *self;
        match self.find_node(cur) {
            Some(i) => {
                proof {
                    assert(pre.nodes@[i as int].tenant_access@.len() == pre.num_workers);
                }
                self.nodes[i].last_access = ts;
                self.nodes[i].tenant_access[w] = Some(ts);
                proof {
                    lemma_mark_tenant(pre, *self, i as int, w as int);
                    assert(pre.valid_node(i as int) && pre.nodes@[i as int].path@ == cur@);
                    assert(pre.has_path(cur@));
                }
            }
            None => {
                proof {
                    if cur@.len() == 0 {
                        assert(cur@ =~= pre.nodes@[0].path@);
                        assert(pre.valid_node(0) && pre.nodes@[0].path@ == cur@);
                        assert(false);
                    }
                }
                let mut ta: Vec<Option<u64>> = Vec::new();
                let mut j: usize = 0;
                while j < self.num_workers
                    invariant
                        j <= self.num_workers,
                        ta@.len() == j,
                        w < self.num_workers,
                        forall|q: int| 0 <= q < j ==> ((#[trigger] ta@[q]) is Some <==> q == w),
                    decreases self.num_workers - j,
                {
                    if j == w {
                        ta.push(Some(ts));
                    } else {
                        ta.push(None);
                    }
                    j += 1;
                }
                let path = prefix_vec(cur, cur.len());
                proof {
                    assert(path@ =~= cur@);
                }
                let node = TreeNode { path, last_access: ts, tenant_access: ta };
                self.nodes.push(node);
                proof {
                    assert(self.nodes@.last().path@ == cur@);
                    lemma_push_node(pre, *self, w as int);
                }
            }
        }
    }

    /// Number of nodes that worker `w` is a tenant of, over the first `n`
    /// nodes.
    pub open spec fn tenant_count_upto(self, w: int, n: int) -> int
        decreases n,
    {
        if n <= 0 {
            0
        } else {
            self.tenant_count_upto(w, n - 1) + if self.node_is_tenant(n - 1, w) {
                1int
            } else {
                0int
            }
        }
    }

    /// Number of nodes that worker `w` is a tenant of ("owned nodes").
    pub open spec fn tenant_count(self, w: int) -> int {
        self.tenant_count_upto(w, self.nodes@.len() as int)
    }

    /// Longest stored prefix of `text`, with the lowest-numbered tenant of
    /// its node. The returned prefix is never longer than `text`, and the
    /// returned worker is always a tenant of the returned path.
    #[verifier::loop_isolation(false)]
    pub fn prefix_match(&self, text: &Vec<char>) -> (r: (Vec<char>, usize))
        requires
            self.wf(),
            self.num_workers >= 1,
        ensures
            r.0@.is_prefix_of(text@),
            self.has_path(r.0@),
            forall|p: Seq<char>|
                self.has_path(p) && p.is_prefix_of(text@) ==> p.len() <= r.0@.len(),
            r.1 < self.num_workers,
            self.is_tenant(r.0@, r.1 as int),
            forall|w2: int| 0 <= w2 < r.1 ==> !self.is_tenant(r.0@, w2),
    {
        proof {
            assert(self.nodes@[0].path@ =~= self.nodes@[0].path@.subrange(0, 0));
            assert(self.nodes@[0].path@.is_prefix_of(text@));
        }
        let mut best: usize = 0;
        let mut i: usize = 1;
        while i < self.nodes.len()
            invariant
                self.wf(),
                1 <= i <= self.nodes@.len(),
                best < self.nodes@.len(),
                self.nodes@[best as int].path@.is_prefix_of(text@),
                forall|j: int|
                    0 <= j < i && (#[trigger] self.nodes@[j].path@).is_prefix_of(text@)
                        ==> self.nodes@[j].path@.len() <= self.nodes@[best as int].path@.len(),
            decreases self.nodes@.len() - i,
        {
            if self.nodes[i].path.len() > self.nodes[best].path.len() && is_prefix_vec(
                &self.nodes[i].path,
                text,
            ) {
                best = i;
            }
            i += 1;
        }
        let matched = prefix_vec(&self.nodes[best].path, self.nodes[best].path.len());
        proof {
            assert(matched@ =~= self.nodes@[best as int].path@);
            assert(self.valid_node(best as int) && self.nodes@[best as int].path@ == matched@);
            assert(self.has_path(matched@));
            assert forall|p: Seq<char>|
                self.has_path(p) && p.is_prefix_of(text@) implies p.len() <= matched@.len() by {
                let j = choose|j: int| self.valid_node(j) && self.nodes@[j].path@ == p;
                assert(self.nodes@[j].path@.is_prefix_of(text@));
            }
            assert(self.nodes@[best as int].tenant_access@.len() == self.num_workers);
        }
        let mut w: usize = 0;
        while w < self.num_workers
            invariant
                self.wf(),
                best < self.nodes@.len(),
                matched@ == self.nodes@[best as int].path@,
                w <= self.num_workers,
                forall|w2: int| 0 <= w2 < w ==> !self.node_is_tenant(best as int, w2),
            decreases self.num_workers - w,
        {
            if self.nodes[best].tenant_access[w].is_some() {
                proof {
                    assert(self.node_is_tenant(best as int, w as int));
                    assert(self.is_tenant(matched@, w as int));
                    assert forall|w2: int| 0 <= w2 < w implies !self.is_tenant(matched@, w2) by {
                        if self.is_tenant(matched@, w2) {
                            let j = choose|j: int|
                                self.valid_node(j) && self.nodes@[j].path@ == matched@
                                    && self.node_is_tenant(j, w2);
                            assert(j == best as int);
                        }
                    }
                }
                return (matched, w);
            }
            w += 1;
        }
        proof {
            if best == 0 {
                assert(self.node_is_tenant(0, 0));
                assert(false);
            } else {
                assert(self.has_tenant(best as int));
                let w0 = choose|w0: int| #[trigger] self.node_is_tenant(best as int, w0);
                assert(false);
            }
        }
        (matched, 0)
    }

    /// Longest stored prefix of `text` on a path that worker `w` is a
    /// tenant of at every node.
    pub fn prefix_match_tenant(&self, text: &Vec<char>, w: usize) -> (r: Vec<char>)
        requires
            self.wf(),
            w < self.num_workers,
        ensures
            r@.is_prefix_of(text@),
            self.is_tenant(r@, w as int),
            forall|p: Seq<char>|
                self.is_tenant(p, w as int) && p.is_prefix_of(text@) ==> p.len() <= r@.len(),
    {
        proof {
            assert(self.nodes@[0].path@ =~= self.nodes@[0].path@.subrange(0, 0));
            assert(self.nodes@[0].path@.is_prefix_of(text@));
            assert(self.node_is_tenant(0, w as int));
        }
        let mut best: usize = 0;
        let mut i: usize = 1;
        while i < self.nodes.len()
            invariant
                self.wf(),
                w < self.num_workers,
                1 <= i <= self.nodes@.len(),
                best < self.nodes@.len(),
                self.nodes@[best as int].path@.is_prefix_of(text@),
                self.node_is_tenant(best as int, w as int),
                forall|j: int|
                    0 <= j < i && (#[trigger] self.nodes@[j].path@).is_prefix_of(text@)
                        && self.node_is_tenant(j, w as int) ==> self.nodes@[j].path@.len()
                        <= self.nodes@[best as int].path@.len(),
            decreases self.nodes@.len() - i,
        {
            proof {
                assert(self.nodes@[i as int].tenant_access@.len() == self.num_workers);
            }
            if self.nodes[i].path.len() > self.nodes[best].path.len()
                && self.nodes[i].tenant_access[w].is_some() && is_prefix_vec(
                &self.nodes[i].path,
                text,
            ) {
                best = i;
            }
            i += 1;
        }
        let matched = prefix_vec(&self.nodes[best].path, self.nodes[best].path.len());
        proof {
            assert(matched@ =~= self.nodes@[best as int].path@);
            assert(self.node_is_tenant(best as int, w as int) && self.nodes@[best
                as int].path@ == matched@);
            assert(self.is_tenant(matched@, w as int));
            assert forall|p: Seq<char>|
                self.is_tenant(p, w as int) && p.is_prefix_of(text@) implies p.len()
                <= matched@.len() by {
                let j = choose|j: int|
                    self.valid_node(j) && self.nodes@[j].path@ == p && self.node_is_tenant(
                        j,
                        w as int,
                    );
                assert(self.nodes@[j].path@.is_prefix_of(text@));
            }
        }
        matched
    }

    /// Number of nodes owned by worker `w`.
    fn count_tenant_nodes(&self, w: usize) -> (c: usize)
        requires
            self.wf(),
            w < self.num_workers,
        ensures
            c == self.tenant_count(w as int),
    {
        let mut c: usize = 0;
        let mut i: usize = 0;
        while i < self.nodes.len()
            invariant
                self.wf(),
                w < self.num_workers,
                i <= self.nodes@.len(),
                c <= i,
                c == self.tenant_count_upto(w as int, i as int),
            decreases self.nodes@.len() - i,
        {
            proof {
                assert(self.nodes@[i as int].tenant_access@.len() == self.num_workers);
            }
            if self.nodes[i].tenant_access[w].is_some() {
                c += 1;
            }
            i += 1;
        }
        c
    }

    /// The worker owning the fewest nodes; ties go to the lowest-numbered
    /// worker.
    pub fn get_smallest_tenant(&self) -> (r: usize)
        requires
            self.wf(),
            self.num_workers >= 1,
        ensures
            r < self.num_workers,
            forall|w2: int|
                0 <= w2 < self.num_workers ==> #[trigger] self.tenant_count(w2)
                    >= self.tenant_count(r as int),
            forall|w2: int| 0 <= w2 < r ==> #[trigger] self.tenant_count(w2) > self.tenant_count(
                r as int,
            ),
    {
        let mut best: usize = 0;
        let mut best_count = self.count_tenant_nodes(0);
        let mut w: usize = 1;
        while w < self.num_workers
            invariant
                self.wf(),
                1 <= w <= self.num_workers,
                best < w,
                best_count == self.tenant_count(best as int),
                forall|w2: int| 0 <= w2 < w ==> #[trigger] self.tenant_count(w2) >= best_count,
                forall|w2: int| 0 <= w2 < best ==> #[trigger] self.tenant_count(w2) > best_count,
            decreases self.num_workers - w,
        {
            let c = self.count_tenant_nodes(w);
            if c < best_count {
                best = w;
                best_count = c;
            }
            w += 1;
        }
        best
    }

    /// Whether the node at index `i` is a leaf.
    fn is_leaf_at(&self, i: usize) -> (r: bool)
        requires
            i < self.nodes@.len(),
        ensures
            r == self.is_leaf(i as int),
    {
        let mut j: usize = 0;
        while j < self.nodes.len()
            invariant
                i < self.nodes@.len(),
                j <= self.nodes@.len(),
                forall|q: int|
                    0 <= q < j ==> !(self.nodes@[i as int].path@.len() < (
                    #[trigger] self.nodes@[q].path@).len() && self.nodes@[i
                        as int].path@.is_prefix_of(self.nodes@[q].path@)),
            decreases self.nodes@.len() - j,
        {
            if self.nodes[j].path.len() > self.nodes[i].path.len() && is_prefix_vec(
                &self.nodes[i].path,
                &self.nodes[j].path,
            ) {
                return false;
            }
            j += 1;
        }
        true
    }

    /// Removes one least-recently-accessed non-root leaf, if any exists.
    /// Returns false only when the tree is the bare root.
    fn evict_step(&mut self, max_tree_size: usize) -> (removed: bool)
        requires
            old(self).wf(),
            old(self).node_count() > max_tree_size,
        ensures
            final(self).wf(),
            final(self).num_workers == old(self).num_workers,
            forall|p: Seq<char>| #[trigger] final(self).has_path(p) ==> old(self).has_path(p),
            forall|p: Seq<char>, w: int|
                final(self).has_path(p) ==> (#[trigger] final(self).is_tenant(p, w) <==> old(
                    self,
                ).is_tenant(p, w)),
            removed ==> final(self).node_count() == old(self).node_count() - 1,
            !removed ==> ((*final(self)) == (*old(self)) && old(self).node_count() == 1
                && max_tree_size == 0),
    {
        let mut cand: usize = 0;
        let mut i: usize = 1;
        while i < self.nodes.len()
            invariant
                self.wf(),
                1 <= i <= self.nodes@.len(),
                cand < self.nodes@.len(),
                cand == 0 ==> forall|q: int| 1 <= q < i ==> !(#[trigger] self.is_leaf(q)),
                cand >= 1 ==> self.is_leaf(cand as int),
            decreases self.nodes@.len() - i,
        {
            if self.is_leaf_at(i) {
                if cand == 0 || self.nodes[i].last_access < self.nodes[cand].last_access {
                    cand = i;
                }
            }
            i += 1;
        }
        if cand == 0 {
            proof {
                if self.nodes@.len() >= 2 {
                    lemma_exists_leaf(*self);
                    let j = choose|j: int|
                        1 <= j < self.nodes@.len() && #[trigger] self.is_leaf(j);
                    assert(false);
                }
                assert forall|p: Seq<char>| #[trigger]
                    self.has_path(p) implies old(self).has_path(p) by {}
            }
            false
        } else {
            let ghost pre = *self;
            self.nodes.remove(cand);
            proof {
                lemma_remove_node(pre, *self, cand as int);
            }
            true
        }
    }

    /// If the node count exceeds `max_tree_size`, repeatedly removes
    /// least-recently-accessed leaves (never the root, never an interior
    /// node) until the count is within the bound, or only the root is left.
    /// A tree already within the bound is left untouched, so repeated
    /// eviction converges.
    pub fn evict_tenant_data(&mut self, max_tree_size: usize)
        requires
            old(self).wf(),
        ensures
            final(self).wf(),
            final(self).num_workers == old(self).num_workers,
            forall|p: Seq<char>| #[trigger] final(self).has_path(p) ==> old(self).has_path(p),
            forall|p: Seq<char>, w: int|
                final(self).has_path(p) ==> (#[trigger] final(self).is_tenant(p, w) <==> old(
                    self,
                ).is_tenant(p, w)),
            old(self).node_count() <= max_tree_size ==> (*final(self)) == (*old(self)),
            final(self).node_count() <= max_tree_size || (final(self).node_count() == 1
                && max_tree_size == 0),
            old(self).node_count() > max_tree_size ==> final(self).node_count()
                >= max_tree_size,
    {
        let mut done = false;
        while !done && self.nodes.len() > max_tree_size
            invariant
                self.wf(),
                self.num_workers == old(self).num_workers,
                forall|p: Seq<char>| #[trigger] self.has_path(p) ==> old(self).has_path(p),
                forall|p: Seq<char>, w: int|
                    self.has_path(p) ==> (#[trigger] self.is_tenant(p, w) <==> old(
                        self,
                    ).is_tenant(p, w)),
                old(self).node_count() <= max_tree_size ==> *self == *old(self),
                self.node_count() >= max_tree_size || *self == *old(self),
                done ==> (self.node_count() == 1 && max_tree_size == 0),
            decreases
                    (if done {
                        0int
                    } else {
                        1int
                    }),
                    self.nodes@.len(),
        {
            let ghost pre = *self;
            if !self.evict_step(max_tree_size) {
                done = true;
            }
            proof {
                assert forall|p: Seq<char>, w: int|
                    self.has_path(p) implies (#[trigger] self.is_tenant(p, w) <==> old(
                    self,
                ).is_tenant(p, w)) by {
                    assert(pre.has_path(p));
                }
            }
        }
    }

    /// Index of the node storing path `p`, if `p` is stored.
    fn find_node(&self, p: &Vec<char>) -> (r: Option<usize>)
        ensures
            match r {
                Some(i) => i < self.nodes@.len() && self.nodes@[i as int].path@ == p@,
                None => !self.has_path(p@),
            },
    {
        let mut i: usize = 0;
        while i < self.nodes.len()
            invariant
                i <= self.nodes@.len(),
                forall|j: int| 0 <= j < i ==> (#[trigger] self.nodes@[j].path@) != p@,
            decreases self.nodes@.len() - i,
        {
            if chars_eq(&self.nodes[i].path, p) {
                return Some(i);
            }
            i += 1;
        }
        None
    }
}

/// The longest path length among the first `n` nodes (`-1` when `n == 0`).
pub open spec fn max_path_len_upto(t: Tree, n: int) -> int
    decreases n,
{
    if n <= 0 {
        -1
    } else {
        let m = max_path_len_upto(t, n - 1);
        let l = t.nodes@[n - 1].path@.len() as int;
        if l > m {
            l
        } else {
            m
        }
    }
}

/// Some node among the first `n` attains the longest path length.
proof fn lemma_max_path(t: Tree, n: int)
    requires
        1 <= n <= t.nodes@.len(),
    ensures
        exists|i: int|
            0 <= i < n && (#[trigger] t.nodes@[i].path@).len() == max_path_len_upto(t, n),
        forall|i: int|
            0 <= i < n ==> (#[trigger] t.nodes@[i].path@).len() <= max_path_len_upto(t, n),
    decreases n,
{
    if n == 1 {
        assert(t.nodes@[0].path@.len() == max_path_len_upto(t, 1));
    } else {
        lemma_max_path(t, n - 1);
        if t.nodes@[n - 1].path@.len() > max_path_len_upto(t, n - 1) {
            assert(t.nodes@[n - 1].path@.len() == max_path_len_upto(t, n));
        } else {
            let i = choose|i: int|
                0 <= i < n - 1 && (#[trigger] t.nodes@[i].path@).len() == max_path_len_upto(
                    t,
                    n - 1,
                );
            assert(t.nodes@[i].path@.len() == max_path_len_upto(t, n));
        }
    }
}

/// A well-formed tree with more than the root has a non-root leaf: a node
/// of maximal path length has no strict extension.
proof fn lemma_exists_leaf(t: Tree)
    requires
        t.wf(),
        t.nodes@.len() >= 2,
    ensures
        exists|i: int| 1 <= i < t.nodes@.len() && #[trigger] t.is_leaf(i),
{
    let n = t.nodes@.len() as int;
    lemma_max_path(t, n);
    let i0 = choose|i: int|
        0 <= i < n && (#[trigger] t.nodes@[i].path@).len() == max_path_len_upto(t, n);
    assert(t.nodes@[1].path@ != t.nodes@[0].path@);
    if t.nodes@[1].path@.len() == 0 {
        assert(t.nodes@[1].path@ =~= t.nodes@[0].path@);
    }
    assert(t.nodes@[1].path@.len() >= 1);
    assert(max_path_len_upto(t, n) >= 1);
    assert(i0 != 0);
    assert forall|j: int|
        t.valid_node(j) implies !(t.nodes@[i0].path@.len() < (
    #[trigger] t.nodes@[j].path@).len() && t.nodes@[i0].path@.is_prefix_of(
        t.nodes@[j].path@,
    )) by {
        assert(t.nodes@[j].path@.len() <= max_path_len_upto(t, n));
    }
    assert(t.is_leaf(i0));
}

/// Removing a non-root leaf keeps the tree well-formed, only removes its
/// one path, and keeps every surviving node's tenants.
proof fn lemma_remove_node(a: Tree, b: Tree, i: int)
    requires
        a.wf(),
        1 <= i < a.nodes@.len(),
        a.is_leaf(i),
        b.num_workers == a.num_workers,
        b.nodes@ == a.nodes@.remove(i),
    ensures
        b.wf(),
        forall|p: Seq<char>| #[trigger] b.has_path(p) ==> a.has_path(p),
        forall|p: Seq<char>, w: int|
            b.has_path(p) ==> (#[trigger] b.is_tenant(p, w) <==> a.is_tenant(p, w)),
{
    a.nodes@.remove_ensures(i);
    assert(b.nodes@.len() == a.nodes@.len() - 1);
    assert forall|j: int|
        0 <= j < b.nodes@.len() implies (#[trigger] b.nodes@[j]) == (if j < i {
        a.nodes@[j]
    } else {
        a.nodes@[j + 1]
    }) by {}
    // the removed leaf's path is the strict prefix of no stored path, and
    // in particular equals no other stored path
    assert forall|p: Seq<char>| #[trigger] b.has_path(p) implies a.has_path(p) && p
        != a.nodes@[i].path@ by {
        let j = choose|j: int| b.valid_node(j) && b.nodes@[j].path@ == p;
        if j < i {
            assert(a.valid_node(j) && a.nodes@[j].path@ == p);
        } else {
            assert(a.valid_node(j + 1) && a.nodes@[j + 1].path@ == p);
        }
    }
    assert forall|p: Seq<char>| a.has_path(p) && p != a.nodes@[i].path@ implies
        #[trigger] b.has_path(p) by {
        let j = choose|j: int| a.valid_node(j) && a.nodes@[j].path@ == p;
        if j < i {
            assert(b.valid_node(j) && b.nodes@[j].path@ == p);
        } else {
            assert(j > i);
            assert(b.valid_node(j - 1) && b.nodes@[j - 1].path@ == p);
        }
    }
    assert forall|p: Seq<char>, w: int| #[trigger] b.is_tenant(p, w) implies a.is_tenant(
        p,
        w,
    ) by {
        let j = choose|j: int|
            b.valid_node(j) && b.nodes@[j].path@ == p && b.node_is_tenant(j, w);
        if j < i {
            assert(a.node_is_tenant(j, w));
        } else {
            assert(a.node_is_tenant(j + 1, w));
        }
    }
    assert forall|p: Seq<char>, w: int|
        a.is_tenant(p, w) && p != a.nodes@[i].path@ implies #[trigger] b.is_tenant(p, w) by {
        let j = choose|j: int|
            a.valid_node(j) && a.nodes@[j].path@ == p && a.node_is_tenant(j, w);
        if j < i {
            assert(b.node_is_tenant(j, w));
        } else {
            assert(j > i);
            assert(b.node_is_tenant(j - 1, w));
            assert(b.nodes@[j - 1].path@ == p);
        }
    }
    // well-formedness of the remaining tree
    assert(b.nodes@[0] == a.nodes@[0]);
    assert forall|j: int| b.valid_node(j) implies (#[trigger] b.nodes@[j].tenant_access@.len())
        == b.num_workers by {
        if j < i {
            assert(a.nodes@[j].tenant_access@.len() == a.num_workers);
        } else {
            assert(a.nodes@[j + 1].tenant_access@.len() == a.num_workers);
        }
    }
    assert forall|j: int, j2: int|
        b.valid_node(j) && b.valid_node(j2) && j != j2 implies (#[trigger] b.nodes@[j].path@)
        != (#[trigger] b.nodes@[j2].path@) by {
        let aj = if j < i { j } else { j + 1 };
        let aj2 = if j2 < i { j2 } else { j2 + 1 };
        assert(a.nodes@[aj].path@ != a.nodes@[aj2].path@);
    }
    assert forall|j: int|
        b.valid_node(j) && b.nodes@[j].path@.len() > 0 implies b.has_path(
        (#[trigger] b.nodes@[j].path@).drop_last(),
    ) by {
        let p = b.nodes@[j].path@;
        assert(b.valid_node(j) && b.nodes@[j].path@ == p);
        assert(b.has_path(p));
        assert(a.has_path(p));
        assert(a.has_path(p.drop_last()));
        if p.drop_last() == a.nodes@[i].path@ {
            assert(p.drop_last() =~= p.subrange(0, p.len() - 1));
            assert(a.nodes@[i].path@.is_prefix_of(p));
            let q = choose|q: int| a.valid_node(q) && a.nodes@[q].path@ == p;
            assert(!(a.nodes@[i].path@.len() < a.nodes@[q].path@.len()
                && a.nodes@[i].path@.is_prefix_of(a.nodes@[q].path@)));
            assert(false);
        }
        assert(b.has_path(p.drop_last()));
    }
    assert forall|j: int, w: int|
        #[trigger] b.node_is_tenant(j, w) && b.nodes@[j].path@.len() > 0 implies b.is_tenant(
        b.nodes@[j].path@.drop_last(),
        w,
    ) by {
        let p = b.nodes@[j].path@;
        let aj = if j < i { j } else { j + 1 };
        assert(a.node_is_tenant(aj, w));
        assert(a.is_tenant(p.drop_last(), w));
        if p.drop_last() == a.nodes@[i].path@ {
            assert(p.drop_last() =~= p.subrange(0, p.len() - 1));
            assert(a.nodes@[i].path@.is_prefix_of(p));
            let q = choose|q: int| a.valid_node(q) && a.nodes@[q].path@ == p;
            assert(!(a.nodes@[i].path@.len() < a.nodes@[q].path@.len()
                && a.nodes@[i].path@.is_prefix_of(a.nodes@[q].path@)));
            assert(false);
        }
        assert(b.is_tenant(p.drop_last(), w));
    }
    assert forall|j: int| 1 <= j < b.nodes@.len() implies #[trigger] b.has_tenant(j) by {
        let aj = if j < i { j } else { j + 1 };
        assert(1 <= aj < a.nodes@.len());
        assert(a.nodes@[aj] == b.nodes@[j]);
        assert(a.has_tenant(aj));
        let w0 = choose|w0: int| #[trigger] a.node_is_tenant(aj, w0);
        assert(b.node_is_tenant(j, w0));
    }
    assert forall|w: int| 0 <= w < b.num_workers implies b.node_is_tenant(0, w) by {
        assert(a.node_is_tenant(0, w));
    }
}

/// Law: inserting `t` for worker `w` and then matching `t` against `w`'s
/// tenanted prefixes returns exactly `t`. The two quantified premises are
/// what `insert` and `prefix_match_tenant` ensure.
pub proof fn lemma_insert_then_prefix_match_tenant(
    pre: Tree,
    post: Tree,
    t: Seq<char>,
    w: int,
    r: Seq<char>,
)
    requires
        forall|p: Seq<char>, w2: int|
            post.is_tenant(p, w2) <==> (pre.is_tenant(p, w2) || (w2 == w && p.is_prefix_of(t))),
        r.is_prefix_of(t),
        forall|p: Seq<char>| post.is_tenant(p, w) && p.is_prefix_of(t) ==> p.len() <= r.len(),
    ensures
        r == t,
{
    assert(t =~= t.subrange(0, t.len() as int));
    assert(t.is_prefix_of(t));
    assert(post.is_tenant(t, w));
    assert(t.len() <= r.len());
    assert(r =~= t);
}

/// Law: eviction converges. One call already leaves the node count within
/// the bound, or the bare root; a second call with the same bound does not
/// change the node count. The premises are what `evict_tenant_data`
/// ensures for a first call (`t0` to `t1`) and a second (`t1` to `t2`).
pub proof fn lemma_evict_converges(t0: Tree, t1: Tree, t2: Tree, m: usize)
    requires
        t1.wf(),
        t2.wf(),
        t1.node_count() <= m || (t1.node_count() == 1 && m == 0),
        t1.node_count() <= m ==> t2 == t1,
        t2.node_count() <= m || (t2.node_count() == 1 && m == 0),
    ensures
        t1.node_count() <= m || t1.node_count() == 1,
        t2.node_count() == t1.node_count(),
{
}

/// One step of `insert`: if the tree already covers exactly the prefixes of
/// `text` shorter than `k` (beyond an original tree), then after storing and
/// tenanting the prefix of length `k` it covers exactly those shorter than
/// `k + 1`.
proof fn lemma_insert_step(orig: Tree, pre: Tree, post: Tree, text: Seq<char>, w: int, k: int)
    requires
        0 <= k <= text.len(),
        forall|p: Seq<char>|
            pre.has_path(p) <==> (orig.has_path(p) || (p.is_prefix_of(text) && p.len() < k)),
        forall|p: Seq<char>, w2: int|
            pre.is_tenant(p, w2) <==> (orig.is_tenant(p, w2) || (w2 == w && p.is_prefix_of(text)
                && p.len() < k)),
        forall|p: Seq<char>|
            post.has_path(p) <==> (pre.has_path(p) || p == text.subrange(0, k)),
        forall|p: Seq<char>, w2: int|
            post.is_tenant(p, w2) <==> (pre.is_tenant(p, w2) || (p == text.subrange(0, k) && w2
                == w)),
    ensures
        forall|p: Seq<char>|
            post.has_path(p) <==> (orig.has_path(p) || (p.is_prefix_of(text) && p.len() < k
                + 1)),
        forall|p: Seq<char>, w2: int|
            post.is_tenant(p, w2) <==> (orig.is_tenant(p, w2) || (w2 == w && p.is_prefix_of(text)
                && p.len() < k + 1)),
{
    assert(text.subrange(0, k).len() == k);
    assert(text.subrange(0, k).is_prefix_of(text));
    assert forall|p: Seq<char>| #[trigger] post.has_path(p) implies (orig.has_path(p) || (
    p.is_prefix_of(text) && p.len() < k + 1)) by {
        if !pre.has_path(p) {
            assert(p == text.subrange(0, k));
        }
    }
    assert forall|p: Seq<char>|
        orig.has_path(p) || (p.is_prefix_of(text) && p.len() < k + 1) implies
        #[trigger] post.has_path(p) by {
        if !orig.has_path(p) && p.len() == k {
            assert(p =~= text.subrange(0, k));
        }
    }
    assert forall|p: Seq<char>, w2: int| #[trigger] post.is_tenant(p, w2) implies (
    orig.is_tenant(p, w2) || (w2 == w && p.is_prefix_of(text) && p.len() < k + 1)) by {
        if !pre.is_tenant(p, w2) {
            assert(p == text.subrange(0, k) && w2 == w);
        }
    }
    assert forall|p: Seq<char>, w2: int|
        orig.is_tenant(p, w2) || (w2 == w && p.is_prefix_of(text) && p.len() < k + 1) implies
        #[trigger] post.is_tenant(p, w2) by {
        if !orig.is_tenant(p, w2) && p.len() == k {
            assert(p =~= text.subrange(0, k));
        }
    }
}

/// Marking worker `w` on the node at index `i` (refreshing its stamps)
/// keeps the stored paths and adds exactly the one tenancy `(path(i), w)`.
proof fn lemma_mark_tenant(a: Tree, b: Tree, i: int, w: int)
    requires
        a.wf(),
        a.valid_node(i),
        0 <= w < a.num_workers,
        b.num_workers == a.num_workers,
        b.nodes@.len() == a.nodes@.len(),
        forall|j: int| 0 <= j < a.nodes@.len() && j != i ==> b.nodes@[j] == a.nodes@[j],
        b.nodes@[i].path@ == a.nodes@[i].path@,
        b.nodes@[i].tenant_access@.len() == a.nodes@[i].tenant_access@.len(),
        forall|w2: int|
            0 <= w2 < a.num_workers && w2 != w ==> b.nodes@[i].tenant_access@[w2]
                == a.nodes@[i].tenant_access@[w2],
        b.nodes@[i].tenant_access@[w] is Some,
        a.nodes@[i].path@.len() > 0 ==> a.is_tenant(a.nodes@[i].path@.drop_last(), w),
    ensures
        b.wf(),
        forall|p: Seq<char>| b.has_path(p) <==> a.has_path(p),
        forall|p: Seq<char>, w2: int|
            b.is_tenant(p, w2) <==> (a.is_tenant(p, w2) || (p == a.nodes@[i].path@ && w2 == w)),
{
    assert(a.nodes@[i].tenant_access@.len() == a.num_workers);
    assert forall|j: int| 0 <= j < b.nodes@.len() implies (#[trigger] b.nodes@[j].path@)
        == a.nodes@[j].path@ by {}
    assert forall|p: Seq<char>| b.has_path(p) implies a.has_path(p) by {
        let j = choose|j: int| b.valid_node(j) && b.nodes@[j].path@ == p;
        assert(a.valid_node(j) && a.nodes@[j].path@ == p);
    }
    assert forall|p: Seq<char>| a.has_path(p) implies b.has_path(p) by {
        let j = choose|j: int| a.valid_node(j) && a.nodes@[j].path@ == p;
        assert(b.valid_node(j) && b.nodes@[j].path@ == p);
    }
    assert forall|p: Seq<char>, w2: int| b.is_tenant(p, w2) implies (a.is_tenant(p, w2) || (p
        == a.nodes@[i].path@ && w2 == w)) by {
        let j = choose|j: int|
            b.valid_node(j) && b.nodes@[j].path@ == p && b.node_is_tenant(j, w2);
        if j == i {
            if w2 != w {
                assert(b.nodes@[i].tenant_access@[w2] == a.nodes@[i].tenant_access@[w2]);
                assert(a.node_is_tenant(i, w2));
            }
        } else {
            assert(a.node_is_tenant(j, w2));
        }
    }
    assert forall|p: Seq<char>, w2: int|
        a.is_tenant(p, w2) || (p == a.nodes@[i].path@ && w2 == w) implies b.is_tenant(
        p,
        w2,
    ) by {
        if a.is_tenant(p, w2) {
            let j = choose|j: int|
                a.valid_node(j) && a.nodes@[j].path@ == p && a.node_is_tenant(j, w2);
            if j == i && w2 != w {
                assert(b.nodes@[i].tenant_access@[w2] == a.nodes@[i].tenant_access@[w2]);
                assert(b.node_is_tenant(j, w2));
            } else if j == i {
                assert(b.node_is_tenant(i, w));
            } else {
                assert(b.node_is_tenant(j, w2));
            }
        } else {
            assert(b.node_is_tenant(i, w));
            assert(b.nodes@[i].path@ == p);
        }
    }
    assert forall|j: int| b.valid_node(j) implies (#[trigger] b.nodes@[j].tenant_access@.len())
        == b.num_workers by {
        if j != i {
            assert(b.nodes@[j] == a.nodes@[j]);
        }
    }
    assert forall|j: int|
        b.valid_node(j) && b.nodes@[j].path@.len() > 0 implies b.has_path(
        (#[trigger] b.nodes@[j].path@).drop_last(),
    ) by {
        assert(a.has_path(a.nodes@[j].path@.drop_last()));
    }
    assert forall|j: int, w2: int|
        #[trigger] b.node_is_tenant(j, w2) && b.nodes@[j].path@.len() > 0 implies b.is_tenant(
        b.nodes@[j].path@.drop_last(),
        w2,
    ) by {
        if j == i && w2 == w {
            assert(a.is_tenant(a.nodes@[i].path@.drop_last(), w));
        } else {
            if j == i {
                assert(b.nodes@[i].tenant_access@[w2] == a.nodes@[i].tenant_access@[w2]);
            }
            assert(a.node_is_tenant(j, w2));
            assert(a.is_tenant(a.nodes@[j].path@.drop_last(), w2));
        }
    }
    assert forall|j: int| 1 <= j < b.nodes@.len() implies #[trigger] b.has_tenant(j) by {
        if j == i {
            assert(b.node_is_tenant(i, w));
        } else {
            assert(a.has_tenant(j));
            let w0 = choose|w0: int| #[trigger] a.node_is_tenant(j, w0);
            assert(b.node_is_tenant(j, w0));
        }
    }
    assert forall|w2: int| 0 <= w2 < b.num_workers implies b.node_is_tenant(0, w2) by {
        assert(a.node_is_tenant(0, w2));
        if i == 0 {
            if w2 != w {
                assert(b.nodes@[0].tenant_access@[w2] == a.nodes@[0].tenant_access@[w2]);
            }
        } else {
            assert(b.nodes@[0] == a.nodes@[0]);
        }
    }
}

/// Appending a fresh node whose path extends a stored, `w`-tenanted path
/// by one character and whose only tenant is `w` adds exactly that path
/// and exactly the tenancy `(path, w)`.
proof fn lemma_push_node(a: Tree, b: Tree, w: int)
    requires
        a.wf(),
        0 <= w < a.num_workers,
        b.num_workers == a.num_workers,
        b.nodes@.len() == a.nodes@.len() + 1,
        forall|j: int| 0 <= j < a.nodes@.len() ==> b.nodes@[j] == a.nodes@[j],
        b.nodes@.last().tenant_access@.len() == a.num_workers,
        forall|w2: int|
            0 <= w2 < a.num_workers ==> ((#[trigger] b.nodes@.last().tenant_access@[w2]) is Some
                <==> w2 == w),
        !a.has_path(b.nodes@.last().path@),
        b.nodes@.last().path@.len() > 0,
        a.is_tenant(b.nodes@.last().path@.drop_last(), w),
    ensures
        b.wf(),
        forall|p: Seq<char>| b.has_path(p) <==> (a.has_path(p) || p == b.nodes@.last().path@),
        forall|p: Seq<char>, w2: int|
            b.is_tenant(p, w2) <==> (a.is_tenant(p, w2) || (p == b.nodes@.last().path@ && w2
                == w)),
{
    let n = a.nodes@.len() as int;
    assert forall|p: Seq<char>| b.has_path(p) implies (a.has_path(p) || p
        == b.nodes@.last().path@) by {
        let j = choose|j: int| b.valid_node(j) && b.nodes@[j].path@ == p;
        if j < n {
            assert(a.valid_node(j) && a.nodes@[j].path@ == p);
        }
    }
    assert forall|p: Seq<char>| a.has_path(p) || p == b.nodes@.last().path@ implies b.has_path(
        p,
    ) by {
        if a.has_path(p) {
            let j = choose|j: int| a.valid_node(j) && a.nodes@[j].path@ == p;
            assert(b.valid_node(j) && b.nodes@[j].path@ == p);
        } else {
            assert(b.valid_node(n) && b.nodes@[n].path@ == p);
        }
    }
    assert forall|p: Seq<char>, w2: int| b.is_tenant(p, w2) implies (a.is_tenant(p, w2) || (p
        == b.nodes@.last().path@ && w2 == w)) by {
        let j = choose|j: int|
            b.valid_node(j) && b.nodes@[j].path@ == p && b.node_is_tenant(j, w2);
        if j < n {
            assert(a.node_is_tenant(j, w2));
        }
    }
    assert forall|p: Seq<char>, w2: int|
        a.is_tenant(p, w2) || (p == b.nodes@.last().path@ && w2 == w) implies b.is_tenant(
        p,
        w2,
    ) by {
        if a.is_tenant(p, w2) {
            let j = choose|j: int|
                a.valid_node(j) && a.nodes@[j].path@ == p && a.node_is_tenant(j, w2);
            assert(b.valid_node(j) && b.nodes@[j].path@ == p && b.node_is_tenant(j, w2));
        } else {
            assert(b.node_is_tenant(n, w));
        }
    }
    assert(b.nodes@[0] == a.nodes@[0]);
    assert forall|j: int| b.valid_node(j) implies (#[trigger] b.nodes@[j].tenant_access@.len())
        == b.num_workers by {
        if j < n {
            assert(b.nodes@[j] == a.nodes@[j]);
        }
    }
    assert forall|j: int, j2: int|
        b.valid_node(j) && b.valid_node(j2) && j != j2 implies (#[trigger] b.nodes@[j].path@)
        != (#[trigger] b.nodes@[j2].path@) by {
        if j < n && j2 < n {
            assert(a.nodes@[j].path@ != a.nodes@[j2].path@);
        } else if j < n {
            assert(b.nodes@[j2] == b.nodes@.last());
            assert(a.valid_node(j) && a.nodes@[j].path@ == b.nodes@[j].path@);
            assert(a.has_path(b.nodes@[j].path@));
        } else if j2 < n {
            assert(b.nodes@[j] == b.nodes@.last());
            assert(a.valid_node(j2) && a.nodes@[j2].path@ == b.nodes@[j2].path@);
            assert(a.has_path(b.nodes@[j2].path@));
        }
    }
    assert forall|j: int|
        b.valid_node(j) && b.nodes@[j].path@.len() > 0 implies b.has_path(
        (#[trigger] b.nodes@[j].path@).drop_last(),
    ) by {
        if j < n {
            assert(a.has_path(a.nodes@[j].path@.drop_last()));
        } else {
            assert(a.is_tenant(b.nodes@.last().path@.drop_last(), w));
            let j2 = choose|j2: int|
                a.valid_node(j2) && a.nodes@[j2].path@ == b.nodes@.last().path@.drop_last()
                    && a.node_is_tenant(j2, w);
            assert(a.has_path(b.nodes@[j].path@.drop_last()));
        }
    }
    assert forall|j: int, w2: int|
        #[trigger] b.node_is_tenant(j, w2) && b.nodes@[j].path@.len() > 0 implies b.is_tenant(
        b.nodes@[j].path@.drop_last(),
        w2,
    ) by {
        if j < n {
            assert(a.node_is_tenant(j, w2));
            assert(a.is_tenant(a.nodes@[j].path@.drop_last(), w2));
        } else {
            assert(w2 == w);
            assert(a.is_tenant(b.nodes@.last().path@.drop_last(), w));
        }
    }
    assert forall|j: int| 1 <= j < b.nodes@.len() implies #[trigger] b.has_tenant(j) by {
        if j < n {
            assert(a.has_tenant(j));
            let w0 = choose|w0: int| #[trigger] a.node_is_tenant(j, w0);
            assert(b.node_is_tenant(j, w0));
        } else {
            assert(b.node_is_tenant(n, w));
        }
    }
    assert forall|w2: int| 0 <= w2 < b.num_workers implies b.node_is_tenant(0, w2) by {
        assert(a.node_is_tenant(0, w2));
        assert(b.nodes@[0] == a.nodes@[0]);
    }
}

} // verus!
