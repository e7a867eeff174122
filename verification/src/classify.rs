//! Retention classification: given the lineage graph, the version files, the
//! set of soft-deleted collections, a creation-time cutoff and a minimum
//! number of versions to keep, assign Keep or Delete to every (collection,
//! version) node of the graph.
//!
//! Every version of a soft-deleted collection is deleted. For a live
//! collection the versions are scanned newest first: a version is deleted
//! exactly when it was created before the cutoff and at least
//! `min_versions_to_keep` newer versions of the same collection are kept.

use vstd::prelude::*;

use crate::graph::VersionGraph;
use crate::lookup::{
    created_at_of, find_version_file, has_version_file, unique_file_ids, version_file_for,
    find_version_info, contains_cid, VersionFileEntry,
};
use crate::types::{CollectionId, CollectionVersionFile, GarbageCollectorError, VersionAction};

verus! {

broadcast use vstd::seq_lib::group_to_multiset_ensures;

/// A version paired with its creation time, the classifier's working datum.
#[derive(Clone, Copy, PartialEq, Eq, Structural, Debug)]
pub struct VersionStamp {
    pub version: u64,
    pub created_at: i64,
}

/// The classification of one version of one collection.
#[derive(Clone, Copy, PartialEq, Eq, Structural, Debug)]
pub struct VersionEntry {
    pub version: u64,
    pub action: VersionAction,
}

/// All classified versions of one collection.
pub struct CollectionVersions {
    pub collection_id: CollectionId,
    pub versions: Vec<VersionEntry>,
}

/// The classifier's result: one entry per collection of the graph.
pub struct ComputeVersionsToDeleteOutput {
    pub versions: Vec<CollectionVersions>,
}

/// The retention policy over a newest-first sequence of stamps, with `kept`
/// versions already kept among the newer ones: a stamp is deleted exactly
/// when it is older than the cutoff and at least `min_keep` newer versions
/// are kept.
pub open spec fn classify_desc(
    entries: Seq<VersionStamp>,
    cutoff: i64,
    min_keep: u64,
    kept: nat,
) -> Seq<VersionAction>
    decreases entries.len(),
{
    if entries.len() == 0 {
        Seq::empty()
    } else if entries[0].created_at < cutoff && kept >= min_keep {
        seq![VersionAction::Delete] + classify_desc(entries.skip(1), cutoff, min_keep, kept)
    } else {
        seq![VersionAction::Keep] + classify_desc(entries.skip(1), cutoff, min_keep, kept + 1)
    }
}

/// The policy classifies exactly as many versions as it is given.
pub proof fn lemma_classify_desc_len(
    entries: Seq<VersionStamp>,
    cutoff: i64,
    min_keep: u64,
    kept: nat,
)
    ensures
        classify_desc(entries, cutoff, min_keep, kept).len() == entries.len(),
    decreases entries.len(),
{
    if entries.len() > 0 {
        if entries[0].created_at < cutoff && kept >= min_keep {
            lemma_classify_desc_len(entries.skip(1), cutoff, min_keep, kept);
        } else {
            lemma_classify_desc_len(entries.skip(1), cutoff, min_keep, kept + 1);
        }
    }
}

/// The subsequence of stamps that `classify_desc` keeps.
pub open spec fn kept_entries(
    entries: Seq<VersionStamp>,
    cutoff: i64,
    min_keep: u64,
    kept: nat,
) -> Seq<VersionStamp>
    decreases entries.len(),
{
    if entries.len() == 0 {
        Seq::empty()
    } else if entries[0].created_at < cutoff && kept >= min_keep {
        kept_entries(entries.skip(1), cutoff, min_keep, kept)
    } else {
        seq![entries[0]] + kept_entries(entries.skip(1), cutoff, min_keep, kept + 1)
    }
}

/// Re-classifying only the kept versions keeps every one of them again: a
/// second garbage-collection run over the survivors deletes nothing.
pub proof fn lemma_classify_idempotent(
    entries: Seq<VersionStamp>,
    cutoff: i64,
    min_keep: u64,
    kept: nat,
)
    ensures
        forall|i: int|
            0 <= i < classify_desc(kept_entries(entries, cutoff, min_keep, kept), cutoff, min_keep, kept).len()
                ==> classify_desc(kept_entries(entries, cutoff, min_keep, kept), cutoff, min_keep, kept)[i]
                == VersionAction::Keep,
    decreases entries.len(),
{
    if entries.len() == 0 {
    } else if entries[0].created_at < cutoff && kept >= min_keep {
        lemma_classify_idempotent(entries.skip(1), cutoff, min_keep, kept);
    } else {
        lemma_classify_idempotent(entries.skip(1), cutoff, min_keep, kept + 1);
        let k = kept_entries(entries, cutoff, min_keep, kept);
        let rest = kept_entries(entries.skip(1), cutoff, min_keep, kept + 1);
        assert(k == seq![entries[0]] + rest);
        assert(k.skip(1) =~= rest);
        assert(classify_desc(k, cutoff, min_keep, kept) == seq![VersionAction::Keep]
            + classify_desc(rest, cutoff, min_keep, kept + 1));
    }
}

/// Classifies one collection's stamps, given newest first. A soft-deleted
/// collection loses every version; otherwise the retention policy decides.
pub fn classify_collection(
    entries: &Vec<VersionStamp>,
    cutoff: i64,
    min_keep: u64,
    soft_deleted: bool,
) -> (r: Vec<VersionEntry>)
    ensures
        r@.len() == entries@.len(),
        forall|i: int| 0 <= i < r@.len() ==> (#[trigger] r@[i]).version == entries@[i].version,
        soft_deleted ==> forall|i: int|
            0 <= i < r@.len() ==> (#[trigger] r@[i]).action == VersionAction::Delete,
        !soft_deleted ==> forall|i: int|
            0 <= i < r@.len() ==> (#[trigger] r@[i]).action == classify_desc(
                entries@,
                cutoff,
                min_keep,
                0,
            )[i],
{
    let mut r: Vec<VersionEntry> = Vec::new();
    if soft_deleted {
        let mut i: usize = 0;
        while i < entries.len()
            invariant
                0 <= i <= entries@.len(),
                r@.len() == i,
                forall|m: int| 0 <= m < i ==> (#[trigger] r@[m]).version == entries@[m].version,
                forall|m: int| 0 <= m < i ==> (#[trigger] r@[m]).action == VersionAction::Delete,
            decreases entries@.len() - i,
        {
            r.push(VersionEntry { version: entries[i].version, action: VersionAction::Delete });
            i += 1;
        }
        return r;
    }
    let ghost full = classify_desc(entries@, cutoff, min_keep, 0);
    let mut kept: u64 = 0;
    let mut i: usize = 0;
    proof {
        assert(entries@.skip(0) =~= entries@);
        assert(r@.map_values(|e: VersionEntry| e.action) =~= Seq::<VersionAction>::empty());
        assert(full =~= r@.map_values(|e: VersionEntry| e.action) + classify_desc(
            entries@.skip(0),
            cutoff,
            min_keep,
            0,
        ));
    }
    while i < entries.len()
        invariant
            0 <= i <= entries@.len(),
            r@.len() == i,
            kept <= i,
            forall|m: int| 0 <= m < i ==> (#[trigger] r@[m]).version == entries@[m].version,
            forall|m: int| 0 <= m < i ==> (#[trigger] r@[m]).action == full[m],
            full == r@.map_values(|e: VersionEntry| e.action) + classify_desc(
                entries@.skip(i as int),
                cutoff,
                min_keep,
                kept as nat,
            ),
            full == classify_desc(entries@, cutoff, min_keep, 0),
        decreases entries@.len() - i,
    {
        let e = entries[i];
        let ghost tail = entries@.skip(i as int);
        proof {
            assert(tail[0] == entries@[i as int]);
            assert(tail.skip(1) =~= entries@.skip(i as int + 1));
        }
        let ghost old_kept = kept as nat;
        let action: VersionAction;
        if e.created_at < cutoff && kept >= min_keep {
            action = VersionAction::Delete;
        } else {
            action = VersionAction::Keep;
            kept += 1;
        }
        let ghost prev = r@;
        r.push(VersionEntry { version: e.version, action });
        proof {
            assert(classify_desc(tail, cutoff, min_keep, old_kept) == seq![action] + classify_desc(
                entries@.skip(i as int + 1),
                cutoff,
                min_keep,
                kept as nat,
            ));
            assert(r@.map_values(|x: VersionEntry| x.action) =~= prev.map_values(
                |x: VersionEntry| x.action,
            ) + seq![action]);
            assert(full =~= r@.map_values(|x: VersionEntry| x.action) + classify_desc(
                entries@.skip(i as int + 1),
                cutoff,
                min_keep,
                kept as nat,
            ));
            assert(full[i as int] == action);
        }
        i += 1;
    }
    proof {
        assert(entries@.skip(i as int) =~= Seq::<VersionStamp>::empty());
        assert(full =~= r@.map_values(|e: VersionEntry| e.action));
    }
    r
}

/// Strictly ordered newest first.
pub open spec fn sorted_desc(s: Seq<u64>) -> bool {
    forall|i: int, j: int| 0 <= i < j < s.len() ==> s[i] >= s[j]
}

/// Inserts `x` into a newest-first vector, keeping the order.
fn sorted_insert_desc(v: &mut Vec<u64>, x: u64)
    requires
        sorted_desc(old(v)@),
    ensures
        sorted_desc(final(v)@),
        final(v)@.to_multiset() == old(v)@.to_multiset().insert(x),
{
    let mut i: usize = 0;
    while i < v.len() && v[i] >= x
        invariant
            0 <= i <= v@.len(),
            forall|m: int| 0 <= m < i ==> v@[m] >= x,
            sorted_desc(v@),
            v == old(v),
        decreases v@.len() - i,
    {
        i += 1;
    }
    v.insert(i, x);
    proof {
        vstd::seq_lib::to_multiset_insert(old(v)@, i as int, x);
    }
}

/// Sorts into newest-first order.
pub fn sort_desc(input: &Vec<u64>) -> (r: Vec<u64>)
    ensures
        sorted_desc(r@),
        r@.to_multiset() == input@.to_multiset(),
        r@.len() == input@.len(),
        forall|x: u64| r@.contains(x) <==> input@.contains(x),
        input@.no_duplicates() ==> r@.no_duplicates(),
{
    let mut r: Vec<u64> = Vec::new();
    let mut i: usize = 0;
    proof {
        assert(input@.take(0) =~= Seq::<u64>::empty());
    }
    while i < input.len()
        invariant
            0 <= i <= input@.len(),
            sorted_desc(r@),
            r@.to_multiset() == input@.take(i as int).to_multiset(),
        decreases input@.len() - i,
    {
        let ghost before = input@.take(i as int);
        sorted_insert_desc(&mut r, input[i]);
        proof {
            assert(input@.take(i as int + 1) =~= before.push(input@[i as int]));
            vstd::seq_lib::to_multiset_build(before, input@[i as int]);
        }
        i += 1;
    }
    proof {
        assert(input@.take(input@.len() as int) =~= input@);
        assert forall|x: u64| r@.contains(x) <==> input@.contains(x) by {
            vstd::seq_lib::to_multiset_contains(r@, x);
            vstd::seq_lib::to_multiset_contains(input@, x);
        }
        vstd::seq_lib::to_multiset_len(r@);
        vstd::seq_lib::to_multiset_len(input@);
        if input@.no_duplicates() {
            input@.lemma_multiset_has_no_duplicates();
            r@.lemma_multiset_has_no_duplicates_conv();
        }
    }
    r
}

/// The distinct collections named by the graph's nodes, in first-occurrence
/// order.
pub fn distinct_collections(graph: &VersionGraph) -> (r: Vec<CollectionId>)
    ensures
        r@.no_duplicates(),
        forall|cid: CollectionId| r@.contains(cid) <==> graph.has_collection(cid),
{
    let mut r: Vec<CollectionId> = Vec::new();
    let mut i: usize = 0;
    while i < graph.nodes.len()
        invariant
            0 <= i <= graph.nodes@.len(),
            r@.no_duplicates(),
            forall|k: int|
                0 <= k < i ==> r@.contains((#[trigger] graph.nodes@[k]).collection_id),
            forall|c: CollectionId| #[trigger] r@.contains(c) ==> graph.has_collection(c),
        decreases graph.nodes@.len() - i,
    {
        let cid = graph.nodes[i].collection_id;
        if !contains_cid(&r, cid) {
            let ghost prev = r@;
            r.push(cid);
            proof {
                assert forall|c: CollectionId| #[trigger] r@.contains(c) implies prev.contains(c)
                    || c == cid by {
                    let k = choose|k: int| 0 <= k < r@.len() && r@[k] == c;
                    if k < prev.len() {
                        assert(prev[k] == c);
                    }
                }
                assert forall|c: CollectionId| prev.contains(c) implies r@.contains(c) by {
                    let k = choose|k: int| 0 <= k < prev.len() && prev[k] == c;
                    assert(r@[k] == c);
                }
                assert(r@[r@.len() - 1] == cid);
                assert(graph.has_collection(cid)) by {
                    assert(graph.nodes@[i as int].collection_id == cid);
                }
            }
        }
        i += 1;
    }
    proof {
        assert forall|cid: CollectionId| graph.has_collection(cid) implies r@.contains(cid) by {
            let k = choose|k: int|
                0 <= k < graph.nodes@.len() && (#[trigger] graph.nodes@[k]).collection_id == cid;
            assert(r@.contains(graph.nodes@[k].collection_id));
        }
    }
    r
}

/// All versions the graph records for `cid`, without duplicates.
pub fn versions_of_collection(graph: &VersionGraph, cid: CollectionId) -> (r: Vec<u64>)
    ensures
        r@.no_duplicates(),
        forall|v: u64| r@.contains(v) <==> graph.has_node(cid, v),
{
    let mut r: Vec<u64> = Vec::new();
    let mut i: usize = 0;
    while i < graph.nodes.len()
        invariant
            0 <= i <= graph.nodes@.len(),
            r@.no_duplicates(),
            forall|k: int|
                0 <= k < i && (#[trigger] graph.nodes@[k]).collection_id == cid ==> r@.contains(
                    graph.nodes@[k].version,
                ),
            forall|v: u64| #[trigger] r@.contains(v) ==> graph.has_node(cid, v),
        decreases graph.nodes@.len() - i,
    {
        let node = graph.nodes[i];
        if node.collection_id == cid {
            let mut seen = false;
            let mut m: usize = 0;
            while m < r.len()
                invariant
                    0 <= m <= r@.len(),
                    seen == exists|t: int| 0 <= t < m && r@[t] == node.version,
                decreases r@.len() - m,
            {
                if r[m] == node.version {
                    seen = true;
                }
                m += 1;
            }
            if !seen {
                let ghost prev = r@;
                r.push(node.version);
                proof {
                    assert forall|v: u64| #[trigger] r@.contains(v) implies prev.contains(v) || v
                        == node.version by {
                        let k = choose|k: int| 0 <= k < r@.len() && r@[k] == v;
                        if k < prev.len() {
                            assert(prev[k] == v);
                        }
                    }
                    assert forall|v: u64| prev.contains(v) implies r@.contains(v) by {
                        let k = choose|k: int| 0 <= k < prev.len() && prev[k] == v;
                        assert(r@[k] == v);
                    }
                    assert(r@[r@.len() - 1] == node.version);
                    assert(graph.has_node(cid, node.version)) by {
                        assert(graph.nodes@[i as int] == (crate::graph::VersionGraphNode {
                            collection_id: cid,
                            version: node.version,
                        }));
                    }
                }
            } else {
                proof {
                    let t = choose|t: int| 0 <= t < r@.len() && r@[t] == node.version;
                    assert(r@.contains(node.version));
                }
            }
        }
        i += 1;
    }
    proof {
        assert forall|v: u64| graph.has_node(cid, v) implies r@.contains(v) by {
            let k = choose|k: int|
                0 <= k < graph.nodes@.len() && #[trigger] graph.nodes@[k] == (
                crate::graph::VersionGraphNode { collection_id: cid, version: v });
            assert(graph.nodes@[k].collection_id == cid);
            assert(r@.contains(graph.nodes@[k].version));
        }
    }
    r
}

/// The versions paired with their recorded creation times; meaningful only
/// when every version has one.
pub open spec fn stamp_seq(file: CollectionVersionFile, versions: Seq<u64>) -> Seq<VersionStamp> {
    versions.map_values(
        |v: u64| VersionStamp { version: v, created_at: created_at_of(file, v).unwrap() },
    )
}

/// Pairs each version with its creation time from the file's history.
fn stamps_for(file: &CollectionVersionFile, versions: &Vec<u64>) -> (r: Result<
    Vec<VersionStamp>,
    GarbageCollectorError,
>)
    ensures
        match r {
            Ok(s) => {
                &&& s@ == stamp_seq(*file, versions@)
                &&& forall|m: int|
                    0 <= m < versions@.len() ==> created_at_of(*file, #[trigger] versions@[m]) is Some
            },
            Err(_) => exists|m: int|
                0 <= m < versions@.len() && created_at_of(*file, #[trigger] versions@[m]) is None,
        },
{
    let history = match &file.version_history {
        Some(h) => h,
        None => {
            if versions.len() > 0 {
                assert(created_at_of(*file, versions@[0]) is None);
                return Err(
                    GarbageCollectorError::InvariantViolation(
                        "Expected version file to contain version history".to_string(),
                    ),
                );
            } else {
                assert(versions@ =~= Seq::<u64>::empty());
                assert(stamp_seq(*file, versions@) =~= Seq::<VersionStamp>::empty());
                return Ok(Vec::new());
            }
        },
    };
    let mut r: Vec<VersionStamp> = Vec::new();
    let mut i: usize = 0;
    while i < versions.len()
        invariant
            0 <= i <= versions@.len(),
            r@.len() == i,
            file.version_history matches Some(h) && h == history,
            forall|m: int|
                0 <= m < i ==> created_at_of(*file, #[trigger] versions@[m]) is Some,
            forall|m: int|
                0 <= m < i ==> #[trigger] r@[m] == (VersionStamp {
                    version: versions@[m],
                    created_at: created_at_of(*file, versions@[m]).unwrap(),
                }),
        decreases versions@.len() - i,
    {
        let v = versions[i];
        match find_version_info(history, v) {
            Some(vi) => {
                r.push(VersionStamp { version: v, created_at: vi.created_at });
            },
            None => {
                return Err(
                    GarbageCollectorError::InvariantViolation(
                        "Expected version to be present in version history".to_string(),
                    ),
                );
            },
        }
        i += 1;
    }
    proof {
        assert(r@ =~= stamp_seq(*file, versions@));
    }
    Ok(r)
}

impl CollectionVersions {
    /// The versions in this entry, in order.
    pub open spec fn version_seq(self) -> Seq<u64> {
        self.versions@.map_values(|e: VersionEntry| e.version)
    }

    /// The actions in this entry, in order.
    pub open spec fn action_seq(self) -> Seq<VersionAction> {
        self.versions@.map_values(|e: VersionEntry| e.action)
    }

    /// Whether `v` is classified here.
    pub open spec fn has_version(self, v: u64) -> bool {
        self.version_seq().contains(v)
    }

    /// The action assigned to `v`; meaningful only when `v` is classified
    /// here and the versions are distinct.
    pub open spec fn action_of(self, v: u64) -> VersionAction {
        self.versions@[choose|i: int|
            0 <= i < self.versions@.len() && (#[trigger] self.versions@[i]).version == v].action
    }
}

/// Every graph node's collection has a version file whose history records the
/// node's creation time: the condition under which classification succeeds.
pub open spec fn classification_inputs_ok(g: VersionGraph, files: Seq<VersionFileEntry>) -> bool {
    forall|k: int|
        0 <= k < g.nodes@.len() ==> {
            let node = #[trigger] g.nodes@[k];
            &&& has_version_file(files, node.collection_id)
            &&& created_at_of(version_file_for(files, node.collection_id), node.version) is Some
        }
}

/// What the classifier guarantees of one collection's entry.
pub open spec fn collection_entry_ok(
    e: CollectionVersions,
    g: VersionGraph,
    files: Seq<VersionFileEntry>,
    soft_deleted: Seq<CollectionId>,
    cutoff: i64,
    min_keep: u64,
) -> bool {
    &&& g.has_collection(e.collection_id)
    &&& sorted_desc(e.version_seq())
    &&& e.version_seq().no_duplicates()
    &&& forall|v: u64| e.has_version(v) <==> g.has_node(e.collection_id, v)
    &&& has_version_file(files, e.collection_id)
    &&& forall|i: int|
        0 <= i < e.versions@.len() ==> created_at_of(
            version_file_for(files, e.collection_id),
            (#[trigger] e.versions@[i]).version,
        ) is Some
    &&& if soft_deleted.contains(e.collection_id) {
        forall|i: int|
            0 <= i < e.versions@.len() ==> (#[trigger] e.versions@[i]).action
                == VersionAction::Delete
    } else {
        e.action_seq() == classify_desc(
            stamp_seq(version_file_for(files, e.collection_id), e.version_seq()),
            cutoff,
            min_keep,
            0,
        )
    }
}

impl ComputeVersionsToDeleteOutput {
    /// The collections classified, in order.
    pub open spec fn collection_ids(self) -> Seq<CollectionId> {
        self.versions@.map_values(|cv: CollectionVersions| cv.collection_id)
    }

    /// No collection appears twice, and no version twice within a collection.
    pub open spec fn wf(self) -> bool {
        &&& self.collection_ids().no_duplicates()
        &&& forall|k: int|
            0 <= k < self.versions@.len() ==> (#[trigger] self.versions@[k]).version_seq().no_duplicates()
    }

    /// Whether `cid` is classified.
    pub open spec fn has_collection(self, cid: CollectionId) -> bool {
        self.collection_ids().contains(cid)
    }

    /// The entry for `cid`; meaningful only when present and `wf`.
    pub open spec fn entry_for(self, cid: CollectionId) -> CollectionVersions {
        self.versions@[choose|k: int|
            0 <= k < self.versions@.len() && (#[trigger] self.versions@[k]).collection_id == cid]
    }

    /// Whether version `v` of `cid` is classified.
    pub open spec fn has_pair(self, cid: CollectionId, v: u64) -> bool {
        exists|k: int|
            0 <= k < self.versions@.len() && (#[trigger] self.versions@[k]).collection_id == cid
                && self.versions@[k].has_version(v)
    }

    /// The action assigned to version `v` of `cid`; meaningful only when
    /// classified and `wf`.
    pub open spec fn pair_action(self, cid: CollectionId, v: u64) -> VersionAction {
        self.entry_for(cid).action_of(v)
    }

    /// How many (collection, version) pairs are classified.
    pub open spec fn total_pairs(self) -> nat {
        pairs_count(self.versions@)
    }

    /// How many pairs are classified Delete.
    pub open spec fn total_deletes(self) -> nat {
        deletes_count(self.versions@)
    }
}

/// Whether a classified version is to be deleted.
pub open spec fn is_delete_entry(ve: VersionEntry) -> bool {
    ve.action == VersionAction::Delete
}

/// The versions of `s` classified Delete, in order.
pub open spec fn delete_versions_seq(s: Seq<VersionEntry>) -> Seq<u64>
    decreases s.len(),
{
    if s.len() == 0 {
        Seq::empty()
    } else if is_delete_entry(s.last()) {
        delete_versions_seq(s.drop_last()).push(s.last().version)
    } else {
        delete_versions_seq(s.drop_last())
    }
}

/// There are never more deletions than versions.
pub proof fn lemma_delete_versions_seq_len(s: Seq<VersionEntry>)
    ensures
        delete_versions_seq(s).len() <= s.len(),
    decreases s.len(),
{
    if s.len() > 0 {
        lemma_delete_versions_seq_len(s.drop_last());
    }
}

/// The versions of `e` classified Delete, in order.
pub open spec fn delete_versions_of(e: CollectionVersions) -> Seq<u64> {
    delete_versions_seq(e.versions@)
}

/// The number of classified pairs across `s`.
pub open spec fn pairs_count(s: Seq<CollectionVersions>) -> nat
    decreases s.len(),
{
    if s.len() == 0 {
        0
    } else {
        pairs_count(s.drop_last()) + s.last().versions@.len()
    }
}

/// The number of Delete-classified pairs across `s`.
pub open spec fn deletes_count(s: Seq<CollectionVersions>) -> nat
    decreases s.len(),
{
    if s.len() == 0 {
        0
    } else {
        deletes_count(s.drop_last()) + delete_versions_of(s.last()).len()
    }
}

/// One more prefix element adds its own versions to the pair count.
pub proof fn lemma_pairs_count_take(s: Seq<CollectionVersions>, i: int)
    requires
        0 <= i < s.len(),
    ensures
        pairs_count(s.take(i + 1)) == pairs_count(s.take(i)) + s[i].versions@.len(),
{
    assert(s.take(i + 1).drop_last() =~= s.take(i));
    assert(s.take(i + 1).last() == s[i]);
}

/// One more prefix element adds its own deletions to the delete count.
pub proof fn lemma_deletes_count_take(s: Seq<CollectionVersions>, i: int)
    requires
        0 <= i < s.len(),
    ensures
        deletes_count(s.take(i + 1)) == deletes_count(s.take(i)) + delete_versions_of(s[i]).len(),
{
    assert(s.take(i + 1).drop_last() =~= s.take(i));
    assert(s.take(i + 1).last() == s[i]);
}

/// A prefix never counts more pairs than the whole.
pub proof fn lemma_pairs_count_prefix(s: Seq<CollectionVersions>, k: int)
    requires
        0 <= k <= s.len(),
    ensures
        pairs_count(s.take(k)) <= pairs_count(s),
    decreases s.len() - k,
{
    if k < s.len() {
        lemma_pairs_count_take(s, k);
        lemma_pairs_count_prefix(s, k + 1);
    } else {
        assert(s.take(k) =~= s);
    }
}

/// Versions that are all kept produce no deletions.
pub proof fn lemma_no_delete_entries(s: Seq<VersionEntry>)
    requires
        forall|i: int| 0 <= i < s.len() ==> (#[trigger] s[i]).action == VersionAction::Keep,
    ensures
        delete_versions_seq(s).len() == 0,
    decreases s.len(),
{
    if s.len() > 0 {
        lemma_no_delete_entries(s.drop_last());
        assert(s.last() == s[s.len() - 1]);
    }
}

/// A classification that keeps every version of every collection deletes
/// nothing.
pub proof fn lemma_all_keep_no_deletes(s: Seq<CollectionVersions>)
    requires
        forall|k: int, i: int|
            0 <= k < s.len() && 0 <= i < (#[trigger] s[k]).versions@.len() ==> (
            #[trigger] s[k].versions@[i]).action == VersionAction::Keep,
    ensures
        deletes_count(s) == 0,
    decreases s.len(),
{
    if s.len() > 0 {
        lemma_all_keep_no_deletes(s.drop_last());
        assert(s.last() == s[s.len() - 1]);
        lemma_no_delete_entries(s.last().versions@);
    }
}

/// No more pairs are deleted than are classified.
pub proof fn lemma_deletes_le_pairs(s: Seq<CollectionVersions>)
    ensures
        deletes_count(s) <= pairs_count(s),
    decreases s.len(),
{
    if s.len() > 0 {
        lemma_deletes_le_pairs(s.drop_last());
        lemma_delete_versions_seq_len(s.last().versions@);
    }
}

/// Classifies every (collection, version) node of the graph as Keep or
/// Delete under the retention policy.
pub fn compute_versions_to_delete(
    graph: &VersionGraph,
    version_files: &Vec<VersionFileEntry>,
    soft_deleted_collections: &Vec<CollectionId>,
    cutoff_time: i64,
    min_versions_to_keep: u64,
) -> (r: Result<ComputeVersionsToDeleteOutput, GarbageCollectorError>)
    requires
        unique_file_ids(version_files@),
    ensures
        match r {
            Ok(out) => {
                &&& out.wf()
                &&& classification_inputs_ok(*graph, version_files@)
                &&& forall|cid: CollectionId| out.has_collection(cid) <==> graph.has_collection(cid)
                &&& forall|k: int|
                    0 <= k < out.versions@.len() ==> collection_entry_ok(
                        #[trigger] out.versions@[k],
                        *graph,
                        version_files@,
                        soft_deleted_collections@,
                        cutoff_time,
                        min_versions_to_keep,
                    )
            },
            Err(_) => !classification_inputs_ok(*graph, version_files@),
        },
{
    let collections = distinct_collections(graph);
    let mut out: Vec<CollectionVersions> = Vec::new();
    let mut c: usize = 0;
    while c < collections.len()
        invariant
            0 <= c <= collections@.len(),
            unique_file_ids(version_files@),
            collections@.no_duplicates(),
            forall|cid: CollectionId| collections@.contains(cid) <==> graph.has_collection(cid),
            out@.len() == c,
            forall|k: int|
                0 <= k < c ==> (#[trigger] out@[k]).collection_id == collections@[k],
            forall|k: int|
                0 <= k < c ==> collection_entry_ok(
                    #[trigger] out@[k],
                    *graph,
                    version_files@,
                    soft_deleted_collections@,
                    cutoff_time,
                    min_versions_to_keep,
                ),
        decreases collections@.len() - c,
    {
        let cid = collections[c];
        let gathered = versions_of_collection(graph, cid);
        let versions = sort_desc(&gathered);
        let file = match find_version_file(version_files, cid) {
            Some(f) => f,
            None => {
                proof {
                    assert(graph.has_collection(cid));
                    let k = choose|k: int|
                        0 <= k < graph.nodes@.len() && (#[trigger] graph.nodes@[k]).collection_id
                            == cid;
                    assert(!classification_inputs_ok(*graph, version_files@)) by {
                        assert(!has_version_file(version_files@, graph.nodes@[k].collection_id));
                    }
                }
                return Err(GarbageCollectorError::MissingVersionFile(cid));
            },
        };
        let stamps = match stamps_for(file, &versions) {
            Ok(s) => s,
            Err(e) => {
                proof {
                    let m = choose|m: int|
                        0 <= m < versions@.len() && created_at_of(*file, #[trigger] versions@[m])
                            is None;
                    let v = versions@[m];
                    assert(graph.has_node(cid, v));
                    let k = choose|k: int|
                        0 <= k < graph.nodes@.len() && #[trigger] graph.nodes@[k] == (
                        crate::graph::VersionGraphNode { collection_id: cid, version: v });
                    assert(!classification_inputs_ok(*graph, version_files@)) by {
                        assert(graph.nodes@[k].collection_id == cid && graph.nodes@[k].version
                            == v);
                    }
                }
                return Err(e);
            },
        };
        let soft = contains_cid(soft_deleted_collections, cid);
        let classified = classify_collection(
            &stamps,
            cutoff_time,
            min_versions_to_keep,
            soft,
        );
        let entry = CollectionVersions { collection_id: cid, versions: classified };
        proof {
            assert(entry.version_seq() =~= versions@);
            if !soft {
                lemma_classify_desc_len(stamps@, cutoff_time, min_versions_to_keep, 0);
                assert(entry.action_seq() =~= classify_desc(
                    stamp_seq(*file, versions@),
                    cutoff_time,
                    min_versions_to_keep,
                    0,
                ));
            }
            assert(collection_entry_ok(
                entry,
                *graph,
                version_files@,
                soft_deleted_collections@,
                cutoff_time,
                min_versions_to_keep,
            ));
        }
        out.push(entry);
        c += 1;
    }
    let result = ComputeVersionsToDeleteOutput { versions: out };
    proof {
        assert(result.collection_ids() =~= collections@);
        assert(classification_inputs_ok(*graph, version_files@)) by {
            assert forall|k: int| 0 <= k < graph.nodes@.len() implies {
                let node = #[trigger] graph.nodes@[k];
                &&& has_version_file(version_files@, node.collection_id)
                &&& created_at_of(version_file_for(version_files@, node.collection_id), node.version)
                    is Some
            } by {
                let node = graph.nodes@[k];
                assert(graph.has_collection(node.collection_id));
                assert(collections@.contains(node.collection_id));
                let c0 = choose|t: int|
                    0 <= t < collections@.len() && collections@[t] == node.collection_id;
                let e = result.versions@[c0];
                assert(collection_entry_ok(
                    e,
                    *graph,
                    version_files@,
                    soft_deleted_collections@,
                    cutoff_time,
                    min_versions_to_keep,
                ));
                assert(graph.has_node(node.collection_id, node.version)) by {
                    assert(graph.nodes@[k] == (crate::graph::VersionGraphNode {
                        collection_id: node.collection_id,
                        version: node.version,
                    }));
                }
                assert(e.has_version(node.version));
                let i = choose|i: int|
                    0 <= i < e.version_seq().len() && e.version_seq()[i] == node.version;
                assert(e.versions@[i].version == node.version);
            }
        }
    }
    Ok(result)
}

} // verus!
