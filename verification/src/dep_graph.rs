//! The collection dependency graph: the lineage graph with each collection's
//! versions collapsed to one node, keeping only the fork edges from parent to
//! child. Hard deletion walks this graph in reverse topological order and
//! finalises a soft-deleted collection only when everything reachable from it
//! is soft-deleted too.

use vstd::prelude::*;

use crate::graph::{VersionGraph, VersionGraphEdge};
use crate::types::{CollectionId, GarbageCollectorError};

verus! {

/// Directed graph over collections; edges point from fork parent to child.
pub struct CollectionDependencyGraph {
    pub nodes: Vec<CollectionId>,
    pub edges: Vec<VersionGraphEdge>,
}

impl CollectionDependencyGraph {
    /// Edges stay inside the node table and no collection appears twice.
    pub open spec fn wf(self) -> bool {
        &&& forall|m: int|
            0 <= m < self.edges@.len() ==> (#[trigger] self.edges@[m]).src < self.nodes@.len()
                && self.edges@[m].dst < self.nodes@.len()
        &&& self.nodes@.no_duplicates()
    }

    /// Whether there is an edge from node index `a` to node index `b`.
    pub open spec fn has_edge(self, a: int, b: int) -> bool {
        exists|m: int|
            0 <= m < self.edges@.len() && (#[trigger] self.edges@[m]).src == a
                && self.edges@[m].dst == b
    }

    /// Node index `b` can be reached from `a` along at most `fuel` edges.
    pub open spec fn reachable_in(self, a: int, b: int, fuel: nat) -> bool
        decreases fuel,
    {
        a == b || (fuel > 0 && exists|m: int|
            0 <= m < self.edges@.len() && (#[trigger] self.edges@[m]).src == a
                && self.reachable_in(self.edges@[m].dst as int, b, (fuel - 1) as nat))
    }

    /// Node index `b` can be reached from `a`.
    pub open spec fn reaches(self, a: int, b: int) -> bool {
        exists|fuel: nat| self.reachable_in(a, b, fuel)
    }

    /// More fuel never loses a path.
    pub proof fn lemma_reachable_fuel_mono(self, a: int, b: int, f1: nat, f2: nat)
        requires
            self.reachable_in(a, b, f1),
            f1 <= f2,
        ensures
            self.reachable_in(a, b, f2),
        decreases f1,
    {
        if a != b {
            let m = choose|m: int|
                0 <= m < self.edges@.len() && (#[trigger] self.edges@[m]).src == a
                    && self.reachable_in(self.edges@[m].dst as int, b, (f1 - 1) as nat);
            self.lemma_reachable_fuel_mono(
                self.edges@[m].dst as int,
                b,
                (f1 - 1) as nat,
                (f2 - 1) as nat,
            );
        }
    }

    /// Paths concatenate.
    pub proof fn lemma_reachable_concat(self, a: int, b: int, c: int, f1: nat, f2: nat)
        requires
            self.reachable_in(a, b, f1),
            self.reachable_in(b, c, f2),
        ensures
            self.reachable_in(a, c, (f1 + f2) as nat),
        decreases f1,
    {
        if a == b {
            self.lemma_reachable_fuel_mono(b, c, f2, (f1 + f2) as nat);
        } else {
            let m = choose|m: int|
                0 <= m < self.edges@.len() && (#[trigger] self.edges@[m]).src == a
                    && self.reachable_in(self.edges@[m].dst as int, b, (f1 - 1) as nat);
            self.lemma_reachable_concat(self.edges@[m].dst as int, b, c, (f1 - 1) as nat, f2);
        }
    }

    /// Reachability is transitive.
    pub proof fn lemma_reaches_trans(self, a: int, b: int, c: int)
        requires
            self.reaches(a, b),
            self.reaches(b, c),
        ensures
            self.reaches(a, c),
    {
        let f1 = choose|f1: nat| self.reachable_in(a, b, f1);
        let f2 = choose|f2: nat| self.reachable_in(b, c, f2);
        self.lemma_reachable_concat(a, b, c, f1, f2);
        assert(self.reachable_in(a, c, (f1 + f2) as nat));
    }
}

/// Whether `v` mentions `x`.
fn contains_usize(v: &Vec<usize>, x: usize) -> (r: bool)
    ensures
        r == v@.contains(x),
{
    let mut i: usize = 0;
    while i < v.len()
        invariant
            0 <= i <= v@.len(),
            forall|m: int| 0 <= m < i ==> v@[m] != x,
        decreases v@.len() - i,
    {
        if v[i] == x {
            return true;
        }
        i += 1;
    }
    false
}

/// A duplicate-free sequence of values below `n` has at most `n` elements.
pub proof fn lemma_bounded_nodup_len(s: Seq<usize>, n: nat)
    requires
        s.no_duplicates(),
        forall|i: int| 0 <= i < s.len() ==> (#[trigger] s[i]) < n,
    ensures
        s.len() <= n,
{
    broadcast use vstd::seq_lib::seq_to_set_is_finite;

    let t = s.map_values(|x: usize| x as int);
    assert(t.no_duplicates()) by {
        assert forall|i: int, j: int| 0 <= i < t.len() && 0 <= j < t.len() && i != j implies t[i]
            != t[j] by {
            assert(s[i] != s[j]);
        }
    }
    t.unique_seq_to_set();
    vstd::set_lib::lemma_int_range(0, n as int);
    assert(t.to_set().subset_of(vstd::set_lib::set_int_range(0, n as int))) by {
        assert forall|x: int| t.to_set().contains(x) implies vstd::set_lib::set_int_range(
            0,
            n as int,
        ).contains(x) by {
            let i = choose|i: int| 0 <= i < t.len() && t[i] == x;
            assert(s[i] < n);
        }
    }
    vstd::set_lib::lemma_len_subset(t.to_set(), vstd::set_lib::set_int_range(0, n as int));
}

/// A duplicate-free sequence containing every value below `n` has at least
/// `n` elements.
pub proof fn lemma_all_contained_len(s: Seq<usize>, n: nat)
    requires
        s.no_duplicates(),
        n <= usize::MAX + 1,
        forall|v: usize| (v as nat) < n ==> s.contains(v),
    ensures
        s.len() >= n,
{
    broadcast use vstd::seq_lib::seq_to_set_is_finite;

    let t = s.map_values(|x: usize| x as int);
    assert(t.no_duplicates()) by {
        assert forall|i: int, j: int| 0 <= i < t.len() && 0 <= j < t.len() && i != j implies t[i]
            != t[j] by {
            assert(s[i] != s[j]);
        }
    }
    t.unique_seq_to_set();
    vstd::set_lib::lemma_int_range(0, n as int);
    assert(vstd::set_lib::set_int_range(0, n as int).subset_of(t.to_set())) by {
        assert forall|x: int| vstd::set_lib::set_int_range(0, n as int).contains(x) implies t.to_set().contains(
            x,
        ) by {
            let v = x as usize;
            assert(s.contains(v));
            let i = choose|i: int| 0 <= i < s.len() && s[i] == v;
            assert(t[i] == x);
        }
    }
    vstd::set_lib::lemma_len_subset(vstd::set_lib::set_int_range(0, n as int), t.to_set());
}

impl CollectionDependencyGraph {
    /// Every edge leaving a member of `s` lands in `s`.
    pub open spec fn closed_under_edges(self, s: Seq<usize>) -> bool {
        forall|m: int|
            0 <= m < self.edges@.len() && s.contains((#[trigger] self.edges@[m]).src)
                ==> s.contains(self.edges@[m].dst)
    }

    /// From a member of an edge-closed set, only members can be reached.
    pub proof fn lemma_closed_reaches(self, s: Seq<usize>, a: usize, b: usize, fuel: nat)
        requires
            self.wf(),
            self.closed_under_edges(s),
            s.contains(a),
            self.reachable_in(a as int, b as int, fuel),
        ensures
            s.contains(b),
        decreases fuel,
    {
        if a as int != b as int {
            let m = choose|m: int|
                0 <= m < self.edges@.len() && (#[trigger] self.edges@[m]).src == a as int
                    && self.reachable_in(self.edges@[m].dst as int, b as int, (fuel - 1) as nat);
            assert(s.contains(self.edges@[m].dst));
            self.lemma_closed_reaches(s, self.edges@[m].dst, b, (fuel - 1) as nat);
        }
    }

    /// The node indices reachable from `start`, including `start` itself.
    pub fn reachable_set(&self, start: usize) -> (r: Vec<usize>)
        requires
            self.wf(),
            start < self.nodes@.len(),
        ensures
            r@.no_duplicates(),
            forall|i: int| 0 <= i < r@.len() ==> (#[trigger] r@[i]) < self.nodes@.len(),
            forall|b: usize| #[trigger] r@.contains(b) ==> self.reaches(start as int, b as int),
            forall|b: usize|
                b < self.nodes@.len() && self.reaches(start as int, b as int) ==> r@.contains(b),
            r@.contains(start),
    {
        let n = self.nodes.len();
        let mut visited: Vec<usize> = Vec::new();
        visited.push(start);
        proof {
            assert(visited@[0] == start);
            assert(self.reachable_in(start as int, start as int, 0));
        }
        let mut p: usize = 0;
        while p < visited.len()
            invariant
                self.wf(),
                start < n,
                n == self.nodes@.len(),
                visited@.no_duplicates(),
                forall|i: int| 0 <= i < visited@.len() ==> (#[trigger] visited@[i]) < n,
                visited@.contains(start),
                p <= visited@.len(),
                visited@.len() <= n,
                forall|i: int|
                    0 <= i < visited@.len() ==> self.reaches(
                        start as int,
                        (#[trigger] visited@[i]) as int,
                    ),
                forall|i: int, m: int|
                    0 <= i < p && 0 <= m < self.edges@.len() && (#[trigger] self.edges@[m]).src
                        == #[trigger] visited@[i] ==> visited@.contains(self.edges@[m].dst),
            decreases n - p,
        {
            let v = visited[p];
            let mut m: usize = 0;
            while m < self.edges.len()
                invariant
                    self.wf(),
                    start < n,
                    n == self.nodes@.len(),
                    p < visited@.len(),
                    visited@[p as int] == v,
                    visited@.no_duplicates(),
                    forall|i: int| 0 <= i < visited@.len() ==> (#[trigger] visited@[i]) < n,
                    visited@.contains(start),
                    visited@.len() <= n,
                    m <= self.edges@.len(),
                    forall|i: int|
                        0 <= i < visited@.len() ==> self.reaches(
                            start as int,
                            (#[trigger] visited@[i]) as int,
                        ),
                    forall|i: int, t: int|
                        0 <= i < p && 0 <= t < self.edges@.len() && (#[trigger] self.edges@[t]).src
                            == #[trigger] visited@[i] ==> visited@.contains(self.edges@[t].dst),
                    forall|t: int|
                        0 <= t < m && (#[trigger] self.edges@[t]).src == v as int
                            ==> visited@.contains(self.edges@[t].dst),
                decreases self.edges@.len() - m,
            {
                if self.edges[m].src == v {
                    let dst = self.edges[m].dst;
                    if !contains_usize(&visited, dst) {
                        let ghost prev = visited@;
                        visited.push(dst);
                        proof {
                            assert forall|x: usize| prev.contains(x) implies visited@.contains(
                                x,
                            ) by {
                                let i = choose|i: int| 0 <= i < prev.len() && prev[i] == x;
                                assert(visited@[i] == x);
                            }
                            assert(visited@[visited@.len() - 1] == dst);
                            assert(self.reaches(start as int, v as int));
                            assert(self.reaches(v as int, dst as int)) by {
                                assert(self.reachable_in(dst as int, dst as int, 0));
                                assert(self.edges@[m as int].src == v as int
                                    && self.reachable_in(self.edges@[m as int].dst as int, dst as int, 0));
                                assert(self.reachable_in(v as int, dst as int, 1));
                            }
                            self.lemma_reaches_trans(start as int, v as int, dst as int);
                            lemma_bounded_nodup_len(visited@, n as nat);
                        }
                    } else {
                        proof {
                            assert(visited@.contains(dst));
                        }
                    }
                }
                m += 1;
            }
            p += 1;
        }
        proof {
            assert(self.closed_under_edges(visited@)) by {
                assert forall|t: int|
                    0 <= t < self.edges@.len() && visited@.contains(
                        (#[trigger] self.edges@[t]).src,
                    ) implies visited@.contains(self.edges@[t].dst) by {
                    let i = choose|i: int|
                        0 <= i < visited@.len() && visited@[i] == self.edges@[t].src;
                }
            }
            assert forall|b: usize|
                b < self.nodes@.len() && self.reaches(start as int, b as int) implies visited@.contains(
                b,
            ) by {
                let fuel = choose|fuel: nat| self.reachable_in(start as int, b as int, fuel);
                self.lemma_closed_reaches(visited@, start, b, fuel);
            }
        }
        visited
    }
}

impl CollectionDependencyGraph {
    /// A nonempty set of node indices each of which has an incoming edge
    /// from inside the set: a certificate that the graph is cyclic.
    pub open spec fn blocked_set(self, s: Set<usize>) -> bool {
        &&& exists|v: usize| s.contains(v)
        &&& forall|v: usize| #[trigger] s.contains(v) ==> v < self.nodes@.len()
        &&& forall|v: usize|
            #[trigger] s.contains(v) ==> exists|m: int|
                0 <= m < self.edges@.len() && (#[trigger] self.edges@[m]).dst == v as int
                    && s.contains(self.edges@[m].src)
    }

    /// Topologically sorts the nodes, parents before children. Fails exactly
    /// when the graph is cyclic, returning the invariant violation that the
    /// hard-delete phase reports.
    pub fn toposort(&self) -> (r: Result<Vec<usize>, GarbageCollectorError>)
        requires
            self.wf(),
        ensures
            match r {
                Ok(order) => {
                    &&& order@.len() == self.nodes@.len()
                    &&& order@.no_duplicates()
                    &&& forall|i: int| 0 <= i < order@.len() ==> (#[trigger] order@[i]) < self.nodes@.len()
                    &&& forall|m: int, i: int, j: int|
                        0 <= m < self.edges@.len() && 0 <= i < order@.len() && 0 <= j
                            < order@.len() && (#[trigger] self.edges@[m]).src == #[trigger] order@[i]
                            && self.edges@[m].dst == #[trigger] order@[j] ==> i < j
                },
                Err(_) => exists|s: Set<usize>| self.blocked_set(s),
            },
    {
        let n = self.nodes.len();
        let mut order: Vec<usize> = Vec::new();
        let mut placed: Vec<bool> = Vec::new();
        let mut t: usize = 0;
        while t < n
            invariant
                0 <= t <= n,
                placed@.len() == t,
                forall|v: int| 0 <= v < t ==> !(#[trigger] placed@[v]),
            decreases n - t,
        {
            placed.push(false);
            t += 1;
        }
        while order.len() < n
            invariant
                self.wf(),
                n == self.nodes@.len(),
                placed@.len() == n,
                order@.no_duplicates(),
                order@.len() <= n,
                forall|i: int| 0 <= i < order@.len() ==> (#[trigger] order@[i]) < n,
                forall|v: usize| (v as int) < n ==> ((#[trigger] placed@[v as int]) <==> order@.contains(v)),
                forall|m: int, j: int|
                    0 <= m < self.edges@.len() && 0 <= j < order@.len() && (#[trigger] self.edges@[m]).dst
                        == #[trigger] order@[j] ==> exists|i: int|
                        0 <= i < j && order@[i] == self.edges@[m].src,
            decreases n - order@.len(),
        {
            let mut v: usize = 0;
            let mut placed_one = false;
            let ghost order_before = order@;
            while v < n
                invariant
                    self.wf(),
                    n == self.nodes@.len(),
                    placed@.len() == n,
                    order@.no_duplicates(),
                    order@.len() <= n,
                    v <= n,
                    forall|i: int| 0 <= i < order@.len() ==> (#[trigger] order@[i]) < n,
                    forall|w: usize| (w as int) < n ==> ((#[trigger] placed@[w as int]) <==> order@.contains(w)),
                    forall|m: int, j: int|
                        0 <= m < self.edges@.len() && 0 <= j < order@.len() && (#[trigger] self.edges@[m]).dst
                            == #[trigger] order@[j] ==> exists|i: int|
                            0 <= i < j && order@[i] == self.edges@[m].src,
                    placed_one ==> order@.len() == order_before.len() + 1,
                    !placed_one ==> order@ == order_before,
                    !placed_one ==> forall|w: usize|
                        (w as int) < v ==> (#[trigger] placed@[w as int] || exists|m: int|
                            0 <= m < self.edges@.len() && (#[trigger] self.edges@[m]).dst == w as int
                                && !placed@[self.edges@[m].src as int]),
                decreases n - v,
            {
                if !placed_one && !placed[v] {
                    let mut m: usize = 0;
                    let mut ready = true;
                    while m < self.edges.len()
                        invariant
                            self.wf(),
                            n == self.nodes@.len(),
                            placed@.len() == n,
                            v < n,
                            m <= self.edges@.len(),
                            ready <==> forall|u: int|
                                0 <= u < m ==> !((#[trigger] self.edges@[u]).dst == v as int
                                    && !placed@[self.edges@[u].src as int]),
                        decreases self.edges@.len() - m,
                    {
                        if self.edges[m].dst == v && !placed[self.edges[m].src] {
                            ready = false;
                        }
                        m += 1;
                    }
                    if ready {
                        let ghost prev = order@;
                        let ghost placed_prev = placed@;
                        order.push(v);
                        placed[v] = true;
                        placed_one = true;
                        proof {
                            assert forall|x: usize| prev.contains(x) implies order@.contains(x) by {
                                let i = choose|i: int| 0 <= i < prev.len() && prev[i] == x;
                                assert(order@[i] == x);
                            }
                            assert(order@[order@.len() - 1] == v);
                            assert forall|x: usize| #[trigger] order@.contains(x) implies prev.contains(x)
                                || x == v by {
                                let i = choose|i: int| 0 <= i < order@.len() && order@[i] == x;
                                if i < prev.len() {
                                    assert(prev[i] == x);
                                }
                            }
                            lemma_bounded_nodup_len(order@, n as nat);
                            assert forall|m2: int, j: int|
                                0 <= m2 < self.edges@.len() && 0 <= j < order@.len() && (
                                #[trigger] self.edges@[m2]).dst == #[trigger] order@[j] implies exists|i: int|
                                0 <= i < j && order@[i] == self.edges@[m2].src by {
                                if j < prev.len() {
                                    assert(prev[j] == order@[j]);
                                    let i = choose|i: int| 0 <= i < j && prev[i] == self.edges@[m2].src;
                                    assert(order@[i] == self.edges@[m2].src);
                                } else {
                                    // the new element: readiness of v means every edge into
                                    // v has a source that was placed already
                                    assert(order@[j] == v);
                                    let src = self.edges@[m2].src;
                                    assert(!(self.edges@[m2].dst == v as int && !placed_prev[src as int]));
                                    assert(placed_prev[src as int]);
                                    assert(prev.contains(src));
                                    let i = choose|i: int| 0 <= i < prev.len() && prev[i] == src;
                                    assert(order@[i] == self.edges@[m2].src);
                                }
                            }
                        }
                    }
                }
                v += 1;
            }
            if !placed_one {
                proof {
                    let s = Set::new(
                        |w: usize| (w as int) < n && !order@.contains(w),
                    );
                    if order@.len() < n {
                        // some node is unplaced, else order would contain all n values
                        assert(exists|w: usize| s.contains(w)) by {
                            if forall|w: usize| (w as nat) < n as nat ==> #[trigger] order@.contains(w) {
                                lemma_all_contained_len(order@, n as nat);
                                assert(false);
                            } else {
                                let w = choose|w: usize| (w as nat) < n as nat && !order@.contains(w);
                                assert(s.contains(w));
                            }
                        }
                        assert forall|w: usize| #[trigger] s.contains(w) implies exists|m: int|
                            0 <= m < self.edges@.len() && (#[trigger] self.edges@[m]).dst == w as int
                                && s.contains(self.edges@[m].src) by {
                            assert(!placed@[w as int]);
                            let m = choose|m: int|
                                0 <= m < self.edges@.len() && (#[trigger] self.edges@[m]).dst
                                    == w as int && !placed@[self.edges@[m].src as int];
                            assert(!order@.contains(self.edges@[m].src));
                            assert(s.contains(self.edges@[m].src));
                        }
                        assert(self.blocked_set(s));
                    }
                }
                return Err(
                    GarbageCollectorError::InvariantViolation(
                        "Failed to topologically sort collection dependency graph".to_string(),
                    ),
                );
            }
        }
        proof {
            assert forall|m: int, i: int, j: int|
                0 <= m < self.edges@.len() && 0 <= i < order@.len() && 0 <= j < order@.len() && (
                #[trigger] self.edges@[m]).src == #[trigger] order@[i] && self.edges@[m].dst
                == #[trigger] order@[j] implies i < j by {
                let i2 = choose|i2: int| 0 <= i2 < j && order@[i2] == self.edges@[m].src;
                // order has no duplicates, so the source sits at one index only
                assert(order@[i2] == order@[i]);
                if i != i2 {
                    assert(false);
                }
            }
        }
        Ok(order)
    }
}

/// A duplicate-free sequence of `n` values below `n` contains every value
/// below `n`.
pub proof fn lemma_nodup_onto(s: Seq<usize>, n: nat, j: usize)
    requires
        s.no_duplicates(),
        s.len() == n,
        forall|i: int| 0 <= i < s.len() ==> (#[trigger] s[i]) < n,
        (j as nat) < n,
    ensures
        s.contains(j),
{
    broadcast use vstd::seq_lib::seq_to_set_is_finite;

    if !s.contains(j) {
        let t = s.map_values(|x: usize| x as int);
        assert(t.no_duplicates()) by {
            assert forall|i1: int, i2: int|
                0 <= i1 < t.len() && 0 <= i2 < t.len() && i1 != i2 implies t[i1] != t[i2] by {
                assert(s[i1] != s[i2]);
            }
        }
        t.unique_seq_to_set();
        vstd::set_lib::lemma_int_range(0, n as int);
        let small = vstd::set_lib::set_int_range(0, n as int).remove(j as int);
        assert(t.to_set().subset_of(small)) by {
            assert forall|x: int| t.to_set().contains(x) implies small.contains(x) by {
                let i = choose|i: int| 0 <= i < t.len() && t[i] == x;
                assert(s[i] < n);
                assert(s[i] != j);
            }
        }
        vstd::set_lib::lemma_len_subset(t.to_set(), small);
        assert(small.len() == n - 1);
        assert(false);
    }
}

impl CollectionDependencyGraph {
    /// The node index of `cid`; meaningful only when present and `wf`.
    pub open spec fn node_index_of(self, cid: CollectionId) -> int {
        choose|i: int| 0 <= i < self.nodes@.len() && self.nodes@[i] == cid
    }

    /// In a topological order, every node strictly precedes everything
    /// reachable from it.
    pub proof fn lemma_path_pos(
        self,
        order: Seq<usize>,
        a: int,
        b: int,
        fuel: nat,
        pa: int,
        pb: int,
    )
        requires
            self.wf(),
            order.len() == self.nodes@.len(),
            order.no_duplicates(),
            forall|i: int| 0 <= i < order.len() ==> (#[trigger] order[i]) < self.nodes@.len(),
            forall|m: int, i: int, j: int|
                0 <= m < self.edges@.len() && 0 <= i < order.len() && 0 <= j < order.len() && (
                #[trigger] self.edges@[m]).src == #[trigger] order[i] && self.edges@[m].dst
                    == #[trigger] order[j] ==> i < j,
            self.reachable_in(a, b, fuel),
            a != b,
            0 <= pa < order.len(),
            0 <= pb < order.len(),
            order[pa] == a,
            order[pb] == b,
        ensures
            pa < pb,
        decreases fuel,
    {
        let m = choose|m: int|
            0 <= m < self.edges@.len() && (#[trigger] self.edges@[m]).src == a
                && self.reachable_in(self.edges@[m].dst as int, b, (fuel - 1) as nat);
        let d = self.edges@[m].dst;
        lemma_nodup_onto(order, self.nodes@.len() as nat, d);
        let pd = choose|p: int| 0 <= p < order.len() && order[p] == d;
        assert(order[pa] == self.edges@[m].src && order[pd] == self.edges@[m].dst);
        assert(pa < pd);
        if d as int == b {
            if pd != pb {
                assert(order[pd] == order[pb]);
                assert(false);
            }
        } else {
            self.lemma_path_pos(order, d as int, b, (fuel - 1) as nat, pd, pb);
        }
    }
}

/// `cid` may be hard-deleted: it is a node of the dependency graph, it is
/// eligible (soft-deleted and past the cutoff), and so is every collection
/// reachable from it.
pub open spec fn hard_deletable(
    dep: CollectionDependencyGraph,
    eligible: Seq<CollectionId>,
    cid: CollectionId,
) -> bool {
    &&& dep.nodes@.contains(cid)
    &&& eligible.contains(cid)
    &&& forall|j: int|
        0 <= j < dep.nodes@.len() && dep.reaches(dep.node_index_of(cid), j) ==> eligible.contains(
            #[trigger] dep.nodes@[j],
        )
}

/// Everything reachable from a hard-deletable collection is itself
/// hard-deletable: a hard-deleted collection never leaves behind a live
/// descendant.
pub proof fn lemma_hard_delete_closed(
    dep: CollectionDependencyGraph,
    eligible: Seq<CollectionId>,
    cid: CollectionId,
    d: int,
)
    requires
        dep.wf(),
        hard_deletable(dep, eligible, cid),
        0 <= d < dep.nodes@.len(),
        dep.reaches(dep.node_index_of(cid), d),
    ensures
        hard_deletable(dep, eligible, dep.nodes@[d]),
{
    let ci = dep.node_index_of(cid);
    assert(dep.nodes@.contains(dep.nodes@[d]));
    assert(eligible.contains(dep.nodes@[d]));
    let di = dep.node_index_of(dep.nodes@[d]);
    assert(0 <= di < dep.nodes@.len() && dep.nodes@[di] == dep.nodes@[d]);
    assert(di == d) by {
        if di != d {
            assert(false);
        }
    }
    assert forall|j: int|
        0 <= j < dep.nodes@.len() && dep.reaches(di, j) implies eligible.contains(
        #[trigger] dep.nodes@[j],
    ) by {
        dep.lemma_reaches_trans(ci, d, j);
    }
}

/// The collections to hard-delete, children before parents: the eligible
/// collections whose reachable set is entirely eligible, in reverse
/// topological order of the dependency graph. Fails exactly when the graph
/// is cyclic.
pub fn hard_delete_order(
    dep: &CollectionDependencyGraph,
    eligible: &Vec<CollectionId>,
) -> (r: Result<Vec<CollectionId>, GarbageCollectorError>)
    requires
        dep.wf(),
    ensures
        match r {
            Ok(order) => {
                &&& order@.no_duplicates()
                &&& forall|cid: CollectionId|
                    #[trigger] order@.contains(cid) <==> hard_deletable(*dep, eligible@, cid)
                &&& forall|i: int, j: int|
                    0 <= i < order@.len() && 0 <= j < order@.len() && dep.reaches(
                        dep.node_index_of(order@[j]),
                        dep.node_index_of(order@[i]),
                    ) && order@[i] != order@[j] ==> i < j
            },
            Err(_) => exists|s: Set<usize>| dep.blocked_set(s),
        },
{
    let n = dep.nodes.len();
    let topo = match dep.toposort() {
        Ok(o) => o,
        Err(e) => {
            return Err(e);
        },
    };
    let mut result: Vec<CollectionId> = Vec::new();
    let ghost mut picked: Seq<int> = Seq::empty();
    let mut t: usize = n;
    while t > 0
        invariant
            dep.wf(),
            n == dep.nodes@.len(),
            topo@.len() == n,
            topo@.no_duplicates(),
            forall|i: int| 0 <= i < topo@.len() ==> (#[trigger] topo@[i]) < n,
            forall|m: int, i: int, j: int|
                0 <= m < dep.edges@.len() && 0 <= i < topo@.len() && 0 <= j < topo@.len() && (
                #[trigger] dep.edges@[m]).src == #[trigger] topo@[i] && dep.edges@[m].dst
                    == #[trigger] topo@[j] ==> i < j,
            t <= n,
            result@.no_duplicates(),
            picked.len() == result@.len(),
            forall|k: int|
                0 <= k < picked.len() ==> t <= #[trigger] picked[k] < n && result@[k]
                    == dep.nodes@[topo@[picked[k]] as int],
            forall|k1: int, k2: int| 0 <= k1 < k2 < picked.len() ==> picked[k1] > picked[k2],
            forall|p: int|
                t <= p < n ==> (result@.contains(#[trigger] dep.nodes@[topo@[p] as int])
                    <==> hard_deletable(*dep, eligible@, dep.nodes@[topo@[p] as int])),
            forall|cid: CollectionId|
                #[trigger] result@.contains(cid) ==> exists|k: int|
                    0 <= k < picked.len() && result@[k] == cid,
        decreases t,
    {
        t -= 1;
        let idx = topo[t];
        let cid = dep.nodes[idx];
        let ghost prev = result@;
        let ghost prev_picked = picked;
        let mut deletable = false;
        if crate::lookup::contains_cid(eligible, cid) {
            let reach = dep.reachable_set(idx);
            let mut all = true;
            let mut q: usize = 0;
            while q < reach.len()
                invariant
                    dep.wf(),
                    n == dep.nodes@.len(),
                    q <= reach@.len(),
                    forall|i: int| 0 <= i < reach@.len() ==> (#[trigger] reach@[i]) < n,
                    all <==> forall|i: int|
                        0 <= i < q ==> eligible@.contains(dep.nodes@[(#[trigger] reach@[i]) as int]),
                decreases reach@.len() - q,
            {
                if !crate::lookup::contains_cid(eligible, dep.nodes[reach[q]]) {
                    all = false;
                }
                q += 1;
            }
            if all {
                deletable = true;
            }
            proof {
                let ghost ii = dep.node_index_of(cid);
                assert(dep.nodes@.contains(cid)) by {
                    assert(dep.nodes@[idx as int] == cid);
                }
                assert(0 <= ii < n && dep.nodes@[ii] == cid);
                assert(ii == idx as int) by {
                    if ii != idx as int {
                        assert(false);
                    }
                }
                if all {
                    assert(hard_deletable(*dep, eligible@, cid)) by {
                        assert forall|j: int|
                            0 <= j < dep.nodes@.len() && dep.reaches(ii, j) implies eligible@.contains(
                            #[trigger] dep.nodes@[j],
                        ) by {
                            assert(reach@.contains(j as usize));
                            let qi = choose|qi: int|
                                0 <= qi < reach@.len() && reach@[qi] == j as usize;
                            assert(eligible@.contains(dep.nodes@[reach@[qi] as int]));
                        }
                    }
                } else {
                    assert(!hard_deletable(*dep, eligible@, cid)) by {
                        let qi = choose|qi: int|
                            0 <= qi < reach@.len() && !eligible@.contains(
                                dep.nodes@[(#[trigger] reach@[qi]) as int],
                            );
                        let j = reach@[qi];
                        assert(reach@.contains(j));
                        assert(dep.reaches(idx as int, j as int));
                    }
                }
            }
        } else {
            proof {
                assert(!hard_deletable(*dep, eligible@, cid));
            }
        }
        if deletable {
            result.push(cid);
            proof {
                picked = picked.push(t as int);
                assert forall|x: CollectionId| prev.contains(x) implies result@.contains(x) by {
                    let k = choose|k: int| 0 <= k < prev.len() && prev[k] == x;
                    assert(result@[k] == x);
                }
                assert(result@[result@.len() - 1] == cid);
                assert forall|x: CollectionId| #[trigger] result@.contains(x) implies prev.contains(
                    x,
                ) || x == cid by {
                    let k = choose|k: int| 0 <= k < result@.len() && result@[k] == x;
                    if k < prev.len() {
                        assert(prev[k] == x);
                    }
                }
                // cid is new to the result: its topo position was not yet processed
                assert(!prev.contains(cid)) by {
                    if prev.contains(cid) {
                        let k = choose|k: int| 0 <= k < prev_picked.len() && prev[k] == cid;
                        assert(prev[k] == dep.nodes@[topo@[prev_picked[k]] as int]);
                        assert(t as int + 1 <= prev_picked[k] < n);
                        let other = topo@[prev_picked[k]];
                        assert(dep.nodes@[other as int] == cid && dep.nodes@[idx as int] == cid);
                        if other as int != idx as int {
                            assert(false);
                        }
                        assert(topo@[prev_picked[k]] == topo@[t as int]);
                        assert(false);
                    }
                }
            }
        } else {
            proof {
                assert forall|p: int|
                    t <= p < n implies (result@.contains(#[trigger] dep.nodes@[topo@[p] as int])
                        <==> hard_deletable(*dep, eligible@, dep.nodes@[topo@[p] as int])) by {
                    if p == t as int {
                        assert(dep.nodes@[topo@[p] as int] == cid);
                        if result@.contains(cid) {
                            let k = choose|k: int| 0 <= k < picked.len() && result@[k] == cid;
                            assert(t as int + 1 <= picked[k] < n);
                            let other = topo@[picked[k]];
                            assert(dep.nodes@[other as int] == cid && dep.nodes@[idx as int]
                                == cid);
                            if other as int != idx as int {
                                assert(false);
                            }
                            assert(false);
                        }
                    }
                }
            }
        }
    }
    proof {
        assert forall|cid: CollectionId| #[trigger] result@.contains(cid) implies hard_deletable(
            *dep,
            eligible@,
            cid,
        ) by {
            let k = choose|k: int| 0 <= k < picked.len() && result@[k] == cid;
            assert(result@.contains(dep.nodes@[topo@[picked[k]] as int]));
        }
        assert forall|cid: CollectionId| hard_deletable(*dep, eligible@, cid) implies result@.contains(
            cid,
        ) by {
            let i = choose|i: int| 0 <= i < dep.nodes@.len() && dep.nodes@[i] == cid;
            lemma_nodup_onto(topo@, n as nat, i as usize);
            let p = choose|p: int| 0 <= p < topo@.len() && topo@[p] == i as usize;
            assert(dep.nodes@[topo@[p] as int] == cid);
        }
        assert forall|i: int, j: int|
            0 <= i < result@.len() && 0 <= j < result@.len() && dep.reaches(
                dep.node_index_of(result@[j]),
                dep.node_index_of(result@[i]),
            ) && result@[i] != result@[j] implies i < j by {
            let a = dep.node_index_of(result@[j]);
            let b = dep.node_index_of(result@[i]);
            assert(result@.contains(result@[j]) && result@.contains(result@[i]));
            assert(dep.nodes@.contains(result@[j])) by {
                let k = choose|k: int| 0 <= k < picked.len() && result@[k] == result@[j];
                assert(dep.nodes@[topo@[picked[k]] as int] == result@[j]);
            }
            assert(0 <= a < n && dep.nodes@[a] == result@[j]);
            assert(0 <= b < n && dep.nodes@[b] == result@[i]);
            // relate a and b to the picked topo positions
            assert(topo@[picked[j]] as int == a) by {
                assert(result@[j] == dep.nodes@[topo@[picked[j]] as int]);
                if topo@[picked[j]] as int != a {
                    assert(false);
                }
            }
            assert(topo@[picked[i]] as int == b) by {
                assert(result@[i] == dep.nodes@[topo@[picked[i]] as int]);
                if topo@[picked[i]] as int != b {
                    assert(false);
                }
            }
            assert(a != b);
            let fuel = choose|fuel: nat| dep.reachable_in(a, b, fuel);
            dep.lemma_path_pos(topo@, a, b, fuel, picked[j], picked[i]);
            // so picked[j] < picked[i]; picked is strictly decreasing
            if i == j {
                assert(false);
            }
            if i > j {
                assert(picked[j] > picked[i]);
                assert(false);
            }
        }
    }
    Ok(result)
}

/// The dependency graph faithfully collapses the lineage graph: one node
/// per collection, edges exactly where lineage edges cross collections.
pub open spec fn dep_matches_graph(dep: CollectionDependencyGraph, g: VersionGraph) -> bool {
    &&& dep.wf()
    &&& forall|cid: CollectionId| dep.nodes@.contains(cid) <==> g.has_collection(cid)
    &&& forall|m: int|
        0 <= m < dep.edges@.len() ==> #[trigger] dep_edge_from_lineage(
            dep.nodes@,
            dep.edges@,
            g,
            m,
        )
    &&& forall|k: int|
        0 <= k < g.edges@.len() && #[trigger] crossing_edge(g, k) ==> lineage_edge_covered(
            dep.nodes@,
            dep.edges@,
            g,
            k,
        )
}

/// `cids` is a valid hard-delete sequence over `dep`: exactly the
/// hard-deletable collections, each before everything that reaches it.
pub open spec fn hard_delete_cids_ok(
    dep: CollectionDependencyGraph,
    eligible: Seq<CollectionId>,
    cids: Seq<CollectionId>,
) -> bool {
    &&& cids.no_duplicates()
    &&& forall|cid: CollectionId| #[trigger] cids.contains(cid) <==> hard_deletable(dep, eligible, cid)
    &&& forall|i: int, j: int|
        0 <= i < cids.len() && 0 <= j < cids.len() && dep.reaches(
            dep.node_index_of(cids[j]),
            dep.node_index_of(cids[i]),
        ) && cids[i] != cids[j] ==> i < j
}

/// Whether lineage edge `k` crosses from one collection into another.
pub open spec fn crossing_edge(g: VersionGraph, k: int) -> bool {
    g.nodes@[g.edges@[k].src as int].collection_id != g.nodes@[g.edges@[k].dst as int].collection_id
}

/// Whether dependency edge `m` carries the collections of lineage edge `k`.
pub open spec fn dep_edge_matches(
    dep_nodes: Seq<CollectionId>,
    dep_edges: Seq<VersionGraphEdge>,
    g: VersionGraph,
    m: int,
    k: int,
) -> bool {
    &&& dep_nodes[dep_edges[m].src as int] == g.nodes@[g.edges@[k].src as int].collection_id
    &&& dep_nodes[dep_edges[m].dst as int] == g.nodes@[g.edges@[k].dst as int].collection_id
}

/// Dependency edge `m` comes from some crossing lineage edge.
pub open spec fn dep_edge_from_lineage(
    dep_nodes: Seq<CollectionId>,
    dep_edges: Seq<VersionGraphEdge>,
    g: VersionGraph,
    m: int,
) -> bool {
    exists|k: int|
        0 <= k < g.edges@.len() && #[trigger] crossing_edge(g, k) && dep_edge_matches(
            dep_nodes,
            dep_edges,
            g,
            m,
            k,
        )
}

/// Crossing lineage edge `k` is represented by some dependency edge.
pub open spec fn lineage_edge_covered(
    dep_nodes: Seq<CollectionId>,
    dep_edges: Seq<VersionGraphEdge>,
    g: VersionGraph,
    k: int,
) -> bool {
    exists|m: int|
        0 <= m < dep_edges.len() && #[trigger] dep_edge_matches(dep_nodes, dep_edges, g, m, k)
}

/// The first position of `cid` in a node table that contains it.
fn index_of_cid(nodes: &Vec<CollectionId>, cid: CollectionId) -> (r: usize)
    requires
        nodes@.contains(cid),
    ensures
        r < nodes@.len() && nodes@[r as int] == cid,
{
    let mut i: usize = 0;
    while i < nodes.len()
        invariant
            0 <= i <= nodes@.len(),
            nodes@.contains(cid),
            forall|m: int| 0 <= m < i ==> nodes@[m] != cid,
        decreases nodes@.len() - i,
    {
        if nodes[i] == cid {
            return i;
        }
        i += 1;
    }
    proof {
        let k = choose|k: int| 0 <= k < nodes@.len() && nodes@[k] == cid;
        assert(false);
    }
    0
}

/// Collapses the lineage graph: one node per collection, one dependency edge
/// per lineage edge that crosses collections.
pub fn version_graph_to_collection_dependency_graph(g: &VersionGraph) -> (r:
    CollectionDependencyGraph)
    requires
        g.wf(),
    ensures
        r.wf(),
        forall|cid: CollectionId| r.nodes@.contains(cid) <==> g.has_collection(cid),
        forall|m: int|
            0 <= m < r.edges@.len() ==> #[trigger] dep_edge_from_lineage(r.nodes@, r.edges@, *g, m),
        forall|k: int|
            0 <= k < g.edges@.len() && #[trigger] crossing_edge(*g, k) ==> lineage_edge_covered(
                r.nodes@,
                r.edges@,
                *g,
                k,
            ),
{
    let nodes = crate::classify::distinct_collections(g);
    let mut edges: Vec<VersionGraphEdge> = Vec::new();
    let mut k: usize = 0;
    while k < g.edges.len()
        invariant
            0 <= k <= g.edges@.len(),
            g.wf(),
            nodes@.no_duplicates(),
            forall|cid: CollectionId| nodes@.contains(cid) <==> g.has_collection(cid),
            forall|m: int|
                0 <= m < edges@.len() ==> (#[trigger] edges@[m]).src < nodes@.len()
                    && edges@[m].dst < nodes@.len(),
            forall|m: int|
                0 <= m < edges@.len() ==> #[trigger] dep_edge_from_lineage(nodes@, edges@, *g, m),
            forall|t: int|
                0 <= t < k && #[trigger] crossing_edge(*g, t) ==> lineage_edge_covered(
                    nodes@,
                    edges@,
                    *g,
                    t,
                ),
        decreases g.edges@.len() - k,
    {
        let e = g.edges[k];
        let src_cid = g.nodes[e.src].collection_id;
        let dst_cid = g.nodes[e.dst].collection_id;
        if src_cid != dst_cid {
            proof {
                assert(g.has_collection(src_cid)) by {
                    assert(g.nodes@[e.src as int].collection_id == src_cid);
                }
                assert(g.has_collection(dst_cid)) by {
                    assert(g.nodes@[e.dst as int].collection_id == dst_cid);
                }
            }
            let i = index_of_cid(&nodes, src_cid);
            let j = index_of_cid(&nodes, dst_cid);
            let ghost prev = edges@;
            edges.push(VersionGraphEdge { src: i, dst: j });
            proof {
                assert(crossing_edge(*g, k as int));
                assert(dep_edge_matches(nodes@, edges@, *g, edges@.len() - 1, k as int));
                assert forall|m: int|
                    0 <= m < edges@.len() implies #[trigger] dep_edge_from_lineage(
                    nodes@,
                    edges@,
                    *g,
                    m,
                ) by {
                    if m < prev.len() {
                        assert(dep_edge_from_lineage(nodes@, prev, *g, m));
                        let t = choose|t: int|
                            0 <= t < g.edges@.len() && #[trigger] crossing_edge(*g, t)
                                && dep_edge_matches(nodes@, prev, *g, m, t);
                        assert(edges@[m] == prev[m]);
                        assert(dep_edge_matches(nodes@, edges@, *g, m, t));
                    } else {
                        assert(dep_edge_matches(nodes@, edges@, *g, m, k as int));
                    }
                }
                assert forall|t: int|
                    0 <= t < k + 1 && #[trigger] crossing_edge(*g, t) implies lineage_edge_covered(
                    nodes@,
                    edges@,
                    *g,
                    t,
                ) by {
                    if t < k {
                        assert(lineage_edge_covered(nodes@, prev, *g, t));
                        let m = choose|m: int|
                            0 <= m < prev.len() && #[trigger] dep_edge_matches(
                                nodes@,
                                prev,
                                *g,
                                m,
                                t,
                            );
                        assert(edges@[m] == prev[m]);
                        assert(dep_edge_matches(nodes@, edges@, *g, m, t));
                    } else {
                        assert(dep_edge_matches(nodes@, edges@, *g, edges@.len() - 1, k as int));
                    }
                }
            }
        }
        k += 1;
    }
    CollectionDependencyGraph { nodes, edges }
}

} // verus!
