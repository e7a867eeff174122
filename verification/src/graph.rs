//! The lineage graph of a fork tree: nodes are (collection, version) pairs,
//! edges join consecutive versions within a collection and a parent's
//! fork-point version to the child's bootstrap version. Exactly one node has
//! no incoming edge (the root); the builder that produces the graph is an
//! external collaborator, so everything here is validated defensively.

use vstd::prelude::*;

use crate::types::CollectionId;

verus! {

/// One node of the lineage graph.
#[derive(Clone, Copy, PartialEq, Eq, Structural, Debug)]
pub struct VersionGraphNode {
    pub collection_id: CollectionId,
    pub version: u64,
}

/// A directed edge between two node indices.
#[derive(Clone, Copy, PartialEq, Eq, Structural, Debug)]
pub struct VersionGraphEdge {
    pub src: usize,
    pub dst: usize,
}

/// A directed lineage graph over (collection, version) nodes.
pub struct VersionGraph {
    pub nodes: Vec<VersionGraphNode>,
    pub edges: Vec<VersionGraphEdge>,
}

impl VersionGraph {
    /// Every edge stays inside the node table and no (collection, version)
    /// pair appears twice.
    pub open spec fn wf(self) -> bool {
        &&& forall|k: int|
            0 <= k < self.edges@.len() ==> (#[trigger] self.edges@[k]).src < self.nodes@.len()
                && self.edges@[k].dst < self.nodes@.len()
        &&& forall|i: int, j: int|
            0 <= i < j < self.nodes@.len() ==> !(#[trigger] self.nodes@[i]
                == #[trigger] self.nodes@[j])
    }

    /// Whether any node belongs to `cid`.
    pub open spec fn has_collection(self, cid: CollectionId) -> bool {
        exists|k: int| 0 <= k < self.nodes@.len() && (#[trigger] self.nodes@[k]).collection_id == cid
    }

    /// Whether the graph has the node (`cid`, `version`).
    pub open spec fn has_node(self, cid: CollectionId, version: u64) -> bool {
        exists|k: int|
            0 <= k < self.nodes@.len() && #[trigger] self.nodes@[k] == (VersionGraphNode {
                collection_id: cid,
                version,
            })
    }

    /// Whether some edge ends at node `i`.
    pub open spec fn has_incoming(self, i: int) -> bool {
        exists|k: int| 0 <= k < self.edges@.len() && (#[trigger] self.edges@[k]).dst == i
    }

    /// The source of the first edge ending at `i`, scanning edges from `from`.
    pub open spec fn first_parent_from(self, i: int, from: int) -> Option<int>
        decreases self.edges@.len() - from,
    {
        if from < 0 || from >= self.edges@.len() {
            None
        } else if self.edges@[from].dst == i {
            Some(self.edges@[from].src as int)
        } else {
            self.first_parent_from(i, from + 1)
        }
    }

    /// The source of the first edge ending at `i`, if any.
    pub open spec fn first_parent(self, i: int) -> Option<int> {
        self.first_parent_from(i, 0)
    }

    /// Node `i` and every node on the chain of first-incoming edges from `i`
    /// up to `root` carry version 0, and the chain reaches `root` within
    /// `fuel` steps.
    pub open spec fn rooted_v0_chain(self, i: int, root: int, fuel: nat) -> bool
        decreases fuel,
    {
        &&& self.nodes@[i].version == 0
        &&& (i == root || (fuel > 0 && match self.first_parent(i) {
            Some(p) => self.rooted_v0_chain(p, root, (fuel - 1) as nat),
            None => false,
        }))
    }

    /// An empty file listing for (`cid`, `version`) is tolerable: the node
    /// exists, a root exists, and the chain from the node up to the first
    /// root carries version 0 throughout — a cold-start bootstrap lineage.
    pub open spec fn empty_listing_allowed(self, cid: CollectionId, version: u64) -> bool {
        exists|s: int, rt: int|
            #![trigger self.rooted_v0_chain(s, rt, self.nodes@.len() as nat)]
            {
                &&& 0 <= s < self.nodes@.len() && self.nodes@[s] == (VersionGraphNode {
                    collection_id: cid,
                    version,
                })
                &&& 0 <= rt < self.nodes@.len() && !self.has_incoming(rt)
                &&& (forall|j: int| 0 <= j < rt ==> self.has_incoming(j))
                &&& self.rooted_v0_chain(s, rt, self.nodes@.len() as nat)
            }
    }

    /// Checks `wf` by scanning the edge and node tables.
    pub fn validate(&self) -> (r: bool)
        ensures
            r == self.wf(),
    {
        let n = self.nodes.len();
        let mut k: usize = 0;
        while k < self.edges.len()
            invariant
                0 <= k <= self.edges@.len(),
                forall|m: int|
                    0 <= m < k ==> (#[trigger] self.edges@[m]).src < self.nodes@.len()
                        && self.edges@[m].dst < self.nodes@.len(),
                n == self.nodes@.len(),
            decreases self.edges@.len() - k,
        {
            if self.edges[k].src >= n || self.edges[k].dst >= n {
                return false;
            }
            k += 1;
        }
        let mut i: usize = 0;
        while i < self.nodes.len()
            invariant
                0 <= i <= self.nodes@.len(),
                forall|a: int, b: int|
                    0 <= a < b < self.nodes@.len() && b < i ==> !(#[trigger] self.nodes@[a]
                        == #[trigger] self.nodes@[b]),
                forall|m: int|
                    0 <= m < self.edges@.len() ==> (#[trigger] self.edges@[m]).src
                        < self.nodes@.len() && self.edges@[m].dst < self.nodes@.len(),
            decreases self.nodes@.len() - i,
        {
            let mut j: usize = 0;
            while j < i
                invariant
                    0 <= j <= i < self.nodes@.len(),
                    forall|a: int| 0 <= a < j ==> !(#[trigger] self.nodes@[a] == self.nodes@[i as int]),
                decreases i - j,
            {
                if self.nodes[j] == self.nodes[i] {
                    return false;
                }
                j += 1;
            }
            i += 1;
        }
        true
    }

    /// The index of the first node equal to (collection_id, version).
    pub fn find_node_index(&self, collection_id: CollectionId, version: u64) -> (r: Option<usize>)
        ensures
            match r {
                Some(i) => i < self.nodes@.len() && self.nodes@[i as int]
                    == (VersionGraphNode { collection_id, version }),
                None => forall|i: int|
                    0 <= i < self.nodes@.len() ==> !(#[trigger] self.nodes@[i]
                        == (VersionGraphNode { collection_id, version })),
            },
    {
        let target = VersionGraphNode { collection_id, version };
        let mut i: usize = 0;
        while i < self.nodes.len()
            invariant
                0 <= i <= self.nodes@.len(),
                forall|m: int| 0 <= m < i ==> !(#[trigger] self.nodes@[m] == target),
                target == (VersionGraphNode { collection_id, version }),
            decreases self.nodes@.len() - i,
        {
            if self.nodes[i] == target {
                return Some(i);
            }
            i += 1;
        }
        None
    }

    /// The index of the first node with no incoming edge.
    pub fn find_root_index(&self) -> (r: Option<usize>)
        ensures
            match r {
                Some(i) => i < self.nodes@.len() && !self.has_incoming(i as int) && forall|j: int|
                    0 <= j < i ==> self.has_incoming(j),
                None => forall|i: int| 0 <= i < self.nodes@.len() ==> self.has_incoming(i),
            },
    {
        let mut i: usize = 0;
        while i < self.nodes.len()
            invariant
                0 <= i <= self.nodes@.len(),
                forall|m: int| 0 <= m < i ==> self.has_incoming(m),
            decreases self.nodes@.len() - i,
        {
            let mut k: usize = 0;
            let mut incoming = false;
            while k < self.edges.len()
                invariant
                    0 <= k <= self.edges@.len(),
                    incoming == exists|m: int|
                        0 <= m < k && (#[trigger] self.edges@[m]).dst == i as int,
                    i < self.nodes@.len(),
                decreases self.edges@.len() - k,
            {
                if self.edges[k].dst == i {
                    incoming = true;
                }
                k += 1;
            }
            if !incoming {
                return Some(i);
            }
            i += 1;
        }
        None
    }

    /// The source of the first edge into node `i`, if any.
    pub fn find_parent(&self, i: usize) -> (r: Option<usize>)
        requires
            self.wf(),
            i < self.nodes@.len(),
        ensures
            match r {
                Some(p) => p < self.nodes@.len() && self.first_parent(i as int) == Some(p as int),
                None => self.first_parent(i as int) is None,
            },
    {
        let mut k: usize = 0;
        while k < self.edges.len()
            invariant
                0 <= k <= self.edges@.len(),
                self.first_parent(i as int) == self.first_parent_from(i as int, k as int),
                self.wf(),
                i < self.nodes@.len(),
            decreases self.edges@.len() - k,
        {
            if self.edges[k].dst == i {
                return Some(self.edges[k].src);
            }
            k += 1;
        }
        None
    }

    /// Walks the chain of first-incoming edges from `start` towards `root`,
    /// reporting whether every node met (both ends included) is at version 0
    /// and the walk reaches `root`.
    pub fn rooted_all_v0(&self, start: usize, root: usize) -> (r: bool)
        requires
            self.wf(),
            start < self.nodes@.len(),
            root < self.nodes@.len(),
        ensures
            r == self.rooted_v0_chain(start as int, root as int, self.nodes@.len() as nat),
    {
        let mut cur = start;
        let mut fuel = self.nodes.len();
        loop
            invariant
                self.wf(),
                cur < self.nodes@.len(),
                root < self.nodes@.len(),
                fuel <= self.nodes@.len(),
                self.rooted_v0_chain(start as int, root as int, self.nodes@.len() as nat)
                    == self.rooted_v0_chain(cur as int, root as int, fuel as nat),
            decreases fuel,
        {
            if self.nodes[cur].version != 0 {
                return false;
            }
            if cur == root {
                return true;
            }
            if fuel == 0 {
                return false;
            }
            match self.find_parent(cur) {
                Some(p) => {
                    cur = p;
                    fuel -= 1;
                },
                None => {
                    return false;
                },
            }
        }
    }
}

} // verus!
