//! The orchestrator state machine. One garbage-collection run walks through
//! fixed stages: build the lineage graph, classify every version, fan out
//! one mark-versions task per collection and one list-files task per
//! version, derive the log offsets to retain, delete the unreferenced blobs
//! and obsolete logs, remove the deleted version rows, and finally
//! hard-delete the eligible soft-deleted collections, children first.
//!
//! The caller runs the event loop: it performs each returned task against
//! the metadata store, object store and log service, and feeds every
//! completion back in as plain values. Each handler validates the event,
//! advances the state, and says exactly which tasks to start next.

use vstd::prelude::*;

use crate::classify::{
    classification_inputs_ok, collection_entry_ok, compute_versions_to_delete, delete_versions_of,
    is_delete_entry, lemma_pairs_count_take, CollectionVersions, ComputeVersionsToDeleteOutput,
    VersionEntry,
};
use crate::dep_graph::CollectionDependencyGraph;
use crate::graph::VersionGraph;
use crate::lookup::{
    contains_cid, find_version_file, has_version_file, unique_file_ids, version_file_for,
    VersionFileEntry,
};
use crate::refcount::{count_of, has_path, unique_paths, FileRefEntry};
use crate::types::{
    CleanupMode, CollectionId, CollectionStatus, GarbageCollectorError, GarbageCollectorResponse,
    SoftDeleteStatus, VersionAction, VersionPair,
};

verus! {

/// A request to delete the listed blob paths from object storage (or only
/// log them, in a dry run). The file-deletion operator can also clear index
/// prefixes, but the orchestrator never asks for that, so the task carries
/// blob paths alone.
pub struct DeleteUnusedFilesTask {
    pub unused_s3_files: Vec<String>,
    pub cleanup_mode: CleanupMode,
    pub tenant_id: String,
}

/// The minimum log offset one collection must retain.
pub struct LogOffsetEntry {
    pub collection_id: CollectionId,
    pub min_offset_to_keep: u64,
}

/// A request to destroy the logs of the collections to hard-delete and to
/// truncate every other collection's log up to its retained offset.
pub struct DeleteUnusedLogsTask {
    pub collections_to_destroy: Vec<CollectionId>,
    pub collections_to_garbage_collect: Vec<LogOffsetEntry>,
    pub enabled: bool,
    pub cleanup_mode: CleanupMode,
    pub enable_dangerous_option_to_ignore_min_versions_for_wal3: bool,
}

/// What a mark-versions completion may start: the log cleanup once every
/// mark has landed, and the file cleanup once every listing has landed too.
pub struct MarkStep {
    pub delete_unused_logs: Option<DeleteUnusedLogsTask>,
    pub delete_unused_files: Option<DeleteUnusedFilesTask>,
}

/// A version that survives and is past the bootstrap: the versions that
/// constrain log truncation.
pub open spec fn is_kept_positive(ve: VersionEntry) -> bool {
    ve.action == VersionAction::Keep && ve.version > 0
}

/// Whether some version of the entry is kept and positive.
pub open spec fn has_kept_positive(e: CollectionVersions) -> bool {
    exists|i: int| 0 <= i < e.versions@.len() && is_kept_positive(#[trigger] e.versions@[i])
}

/// `v` is the least kept positive version of the entry.
pub open spec fn is_min_kept_positive(e: CollectionVersions, v: u64) -> bool {
    &&& exists|i: int|
        0 <= i < e.versions@.len() && (#[trigger] e.versions@[i]).version == v && is_kept_positive(
            e.versions@[i],
        )
    &&& forall|i: int|
        0 <= i < e.versions@.len() && is_kept_positive(#[trigger] e.versions@[i])
            ==> e.versions@[i].version >= v
}

/// The least kept positive version; meaningful only when one exists.
pub open spec fn min_kept_positive(e: CollectionVersions) -> u64 {
    choose|v: u64| is_min_kept_positive(e, v)
}

/// The least kept positive version of the entry, scanned directly.
fn find_min_kept_positive(e: &CollectionVersions) -> (r: Option<u64>)
    ensures
        match r {
            Some(v) => is_min_kept_positive(*e, v) && min_kept_positive(*e) == v,
            None => !has_kept_positive(*e),
        },
{
    let mut best: Option<u64> = None;
    let mut i: usize = 0;
    while i < e.versions.len()
        invariant
            0 <= i <= e.versions@.len(),
            match best {
                Some(v) => {
                    &&& exists|m: int|
                        0 <= m < i && (#[trigger] e.versions@[m]).version == v && is_kept_positive(
                            e.versions@[m],
                        )
                    &&& forall|m: int|
                        0 <= m < i && is_kept_positive(#[trigger] e.versions@[m])
                            ==> e.versions@[m].version >= v
                },
                None => forall|m: int| 0 <= m < i ==> !is_kept_positive(#[trigger] e.versions@[m]),
            },
        decreases e.versions@.len() - i,
    {
        let ve = e.versions[i];
        if matches!(ve.action, VersionAction::Keep) && ve.version > 0 {
            match best {
                Some(v) => {
                    if ve.version < v {
                        best = Some(ve.version);
                    }
                },
                None => {
                    best = Some(ve.version);
                },
            }
        }
        i += 1;
    }
    proof {
        if let Some(v) = best {
            assert(is_min_kept_positive(*e, v));
            let w = min_kept_positive(*e);
            assert(is_min_kept_positive(*e, w));
            if w != v {
                assert(w >= v && v >= w);
                assert(false);
            }
        }
    }
    best
}

/// What one log-truncation entry means: its collection has a kept positive
/// version, and the retained offset is one past the log position its version
/// file records for the least such version.
pub open spec fn gc_entry_ok(
    g: LogOffsetEntry,
    vd: ComputeVersionsToDeleteOutput,
    files: Seq<VersionFileEntry>,
) -> bool {
    exists|k: int|
        {
            &&& 0 <= k < vd.versions@.len()
            &&& (#[trigger] vd.versions@[k]).collection_id == g.collection_id
            &&& has_kept_positive(vd.versions@[k])
            &&& has_version_file(files, g.collection_id)
            &&& match crate::lookup::log_position_of(
                version_file_for(files, g.collection_id),
                min_kept_positive(vd.versions@[k]),
            ) {
                Some(pos) => pos >= 0 && g.min_offset_to_keep == pos + 1,
                None => false,
            }
        }
}

/// A request to remove one collection's marked version rows from the
/// metadata store, carrying the deleted blob paths as proof.
pub struct DeleteVersionsTask {
    pub collection_id: CollectionId,
    pub versions: Vec<u64>,
    pub tenant_id: String,
    pub database_id: String,
    pub unused_s3_files: Vec<String>,
}

/// What follows the destructive file and log stages: wait for the other to
/// land, finish the run, or fan out the version removals.
pub enum DeleteVersionsStep {
    Wait,
    Done(GarbageCollectorResponse),
    Dispatch(Vec<DeleteVersionsTask>),
}

/// A request to finalise one soft-deleted collection.
pub struct HardDeleteTask {
    pub tenant: String,
    pub database_name: String,
    pub collection_id: CollectionId,
}

/// The run's last step: the collections to finalise, children first, and the
/// final response.
pub struct CollectionCompletion {
    pub hard_delete_tasks: Vec<HardDeleteTask>,
    pub response: GarbageCollectorResponse,
}

/// What one version-removal task carries: the collection's Delete versions
/// and the tenant and database of its version file.
pub open spec fn delete_task_ok(
    task: DeleteVersionsTask,
    e: CollectionVersions,
    files: Seq<VersionFileEntry>,
    deleted_files: Seq<String>,
) -> bool {
    &&& task.collection_id == e.collection_id
    &&& task.versions@ == delete_versions_of(e)
    &&& task.versions@.len() > 0
    &&& has_version_file(files, e.collection_id)
    &&& version_file_for(files, e.collection_id).collection_info_immutable is Some
    &&& task.tenant_id@ == version_file_for(
        files,
        e.collection_id,
    ).collection_info_immutable.unwrap().tenant_id@
    &&& task.database_id@ == version_file_for(
        files,
        e.collection_id,
    ).collection_info_immutable.unwrap().database_id@
    &&& task.unused_s3_files@.len() == deleted_files.len()
    &&& forall|i: int|
        0 <= i < task.unused_s3_files@.len() ==> (#[trigger] task.unused_s3_files@[i])@
            == deleted_files[i]@
}

/// Copies a list of paths.
fn clone_paths(v: &Vec<String>) -> (r: Vec<String>)
    ensures
        r@.len() == v@.len(),
        forall|i: int| 0 <= i < r@.len() ==> (#[trigger] r@[i])@ == v@[i]@,
{
    let mut r: Vec<String> = Vec::new();
    let mut i: usize = 0;
    while i < v.len()
        invariant
            0 <= i <= v@.len(),
            r@.len() == i,
            forall|m: int| 0 <= m < i ==> (#[trigger] r@[m])@ == v@[m]@,
        decreases v@.len() - i,
    {
        r.push(v[i].clone());
        i += 1;
    }
    r
}

/// A request to mark the listed versions of one collection as deleted in the
/// metadata store.
pub struct MarkVersionsTask {
    pub collection_id: CollectionId,
    pub versions_to_delete: Vec<u64>,
    pub tenant_id: String,
    pub database_id: String,
}

/// What follows the classification: either the run is already over, or the
/// mark and list fan-out begins.
pub enum ComputeStep {
    Done(GarbageCollectorResponse),
    Dispatch { mark_tasks: Vec<MarkVersionsTask>, list_tasks: Vec<VersionPair> },
}

/// The orchestrator. Fields fall in two groups: the run's configuration,
/// fixed at construction, and the mutable progress state that the event
/// handlers advance.
pub struct GarbageCollectorOrchestrator {
    pub collection_id: CollectionId,
    pub version_file_path: String,
    pub lineage_file_path: Option<String>,
    pub version_absolute_cutoff_time: i64,
    pub collection_soft_delete_absolute_cutoff_time: i64,
    pub cleanup_mode: CleanupMode,
    pub min_versions_to_keep: u32,
    pub enable_log_gc: bool,
    pub enable_dangerous_option_to_ignore_min_versions_for_wal3: bool,

    pub version_files: Vec<VersionFileEntry>,
    pub graph: Option<VersionGraph>,
    pub soft_deleted_collections_to_gc: Vec<CollectionId>,
    pub versions_to_delete_output: Option<ComputeVersionsToDeleteOutput>,
    pub pending_mark_versions_at_sysdb_tasks: Vec<CollectionId>,
    pub pending_list_files_at_version_tasks: Vec<VersionPair>,
    pub file_ref_counts: Vec<FileRefEntry>,
    pub delete_unused_file_output: Option<Vec<String>>,
    pub delete_unused_log_output_received: bool,
    pub delete_versions_dispatched: bool,
    pub pending_delete_versions_tasks: Vec<CollectionId>,
    pub num_files_deleted: u64,
    pub num_versions_to_delete_total: u64,
    pub tenant: Option<String>,
    pub database_name: Option<String>,

    /// How many list-files tasks the classification created.
    pub total_list_tasks: Ghost<nat>,
    /// The file sets reported by the completed list-files tasks.
    pub listed: Ghost<Map<VersionPair, Set<Seq<char>>>>,
}

/// Every classified collection has a version file with its immutable
/// collection info: what the mark fan-out needs.
pub open spec fn mark_inputs_ok(
    output: ComputeVersionsToDeleteOutput,
    files: Seq<VersionFileEntry>,
) -> bool {
    forall|k: int|
        0 <= k < output.versions@.len() ==> {
            let cid = (#[trigger] output.versions@[k]).collection_id;
            &&& has_version_file(files, cid)
            &&& version_file_for(files, cid).collection_info_immutable is Some
        }
}

/// What one mark task carries for one classified collection: its
/// Delete-classified versions and the tenant and database of its version
/// file.
pub open spec fn mark_task_ok(
    task: MarkVersionsTask,
    e: CollectionVersions,
    files: Seq<VersionFileEntry>,
) -> bool {
    &&& task.collection_id == e.collection_id
    &&& task.versions_to_delete@ == delete_versions_of(e)
    &&& has_version_file(files, e.collection_id)
    &&& version_file_for(files, e.collection_id).collection_info_immutable is Some
    &&& task.tenant_id@ == version_file_for(
        files,
        e.collection_id,
    ).collection_info_immutable.unwrap().tenant_id@
    &&& task.database_id@ == version_file_for(
        files,
        e.collection_id,
    ).collection_info_immutable.unwrap().database_id@
}

/// Checks the classification's well-formedness: distinct collections,
/// distinct versions per collection.
fn validate_classification(output: &ComputeVersionsToDeleteOutput) -> (r: bool)
    ensures
        r == output.wf(),
{
    let mut i: usize = 0;
    while i < output.versions.len()
        invariant
            0 <= i <= output.versions@.len(),
            forall|a: int, b: int|
                0 <= a < b < output.versions@.len() && b < i ==> (#[trigger] output.versions@[a]).collection_id
                    != (#[trigger] output.versions@[b]).collection_id,
            forall|k: int|
                0 <= k < i ==> (#[trigger] output.versions@[k]).version_seq().no_duplicates(),
        decreases output.versions@.len() - i,
    {
        let mut j: usize = 0;
        while j < i
            invariant
                0 <= j <= i < output.versions@.len(),
                forall|a: int|
                    0 <= a < j ==> (#[trigger] output.versions@[a]).collection_id
                        != output.versions@[i as int].collection_id,
            decreases i - j,
        {
            if output.versions[j].collection_id == output.versions[i].collection_id {
                proof {
                    assert(output.collection_ids()[j as int]
                        == output.collection_ids()[i as int]);
                }
                return false;
            }
            j += 1;
        }
        let entry = &output.versions[i];
        let mut a: usize = 0;
        while a < entry.versions.len()
            invariant
                0 <= a <= entry.versions@.len(),
                i < output.versions@.len(),
                *entry == output.versions@[i as int],
                forall|x: int, y: int|
                    0 <= x < y < entry.versions@.len() && y < a ==> (#[trigger] entry.versions@[x]).version
                        != (#[trigger] entry.versions@[y]).version,
            decreases entry.versions@.len() - a,
        {
            let mut b: usize = 0;
            while b < a
                invariant
                    0 <= b <= a < entry.versions@.len(),
                    i < output.versions@.len(),
                    *entry == output.versions@[i as int],
                    forall|x: int|
                        0 <= x < b ==> (#[trigger] entry.versions@[x]).version
                            != entry.versions@[a as int].version,
                decreases a - b,
            {
                if entry.versions[b].version == entry.versions[a].version {
                    proof {
                        assert(entry.version_seq()[b as int] == entry.version_seq()[a as int]);
                        assert(!output.versions@[i as int].version_seq().no_duplicates());
                    }
                    return false;
                }
                b += 1;
            }
            a += 1;
        }
        proof {
            assert forall|x: int, y: int|
                0 <= x < y < entry.version_seq().len() implies entry.version_seq()[x]
                != entry.version_seq()[y] by {
                assert(entry.versions@[x].version != entry.versions@[y].version);
            }
        }
        i += 1;
    }
    proof {
        assert forall|a: int, b: int|
            0 <= a < b < output.collection_ids().len() implies output.collection_ids()[a]
            != output.collection_ids()[b] by {
            assert(output.versions@[a].collection_id != output.versions@[b].collection_id);
        }
    }
    true
}

impl GarbageCollectorOrchestrator {
    /// The classification mentions `pr` and its listing has arrived.
    pub open spec fn pair_completed(self, pr: VersionPair) -> bool {
        &&& match self.versions_to_delete_output {
            Some(vd) => vd.has_pair(pr.collection_id, pr.version),
            None => false,
        }
        &&& !self.pending_list_files_at_version_tasks@.contains(pr)
    }

    /// Some completed listing mentioned `p`.
    pub open spec fn some_completed_lists(self, p: Seq<char>) -> bool {
        exists|pr: VersionPair| #[trigger] self.pair_completed(pr) && self.listed@[pr].contains(p)
    }

    /// Some completed listing of a version classified Keep mentioned `p`.
    pub open spec fn kept_completed_lists(self, p: Seq<char>) -> bool {
        exists|pr: VersionPair|
            #[trigger] self.pair_completed(pr) && self.versions_to_delete_output.unwrap().pair_action(
                pr.collection_id,
                pr.version,
            ) == VersionAction::Keep && self.listed@[pr].contains(p)
    }

    /// How many list-files tasks have completed.
    pub open spec fn completed_count(self) -> int {
        self.total_list_tasks@ - self.pending_list_files_at_version_tasks@.len()
    }

    /// The orchestrator's invariant, maintained by every handler.
    pub open spec fn wf(self) -> bool {
        &&& unique_file_ids(self.version_files@)
        &&& (self.graph matches Some(g) ==> g.wf())
        &&& unique_paths(self.file_ref_counts@)
        &&& self.pending_list_files_at_version_tasks@.no_duplicates()
        &&& self.pending_mark_versions_at_sysdb_tasks@.no_duplicates()
        &&& self.pending_delete_versions_tasks@.no_duplicates()
        &&& match self.versions_to_delete_output {
            Some(vd) => {
                &&& vd.wf()
                &&& self.graph is Some
                &&& vd.total_pairs() == self.total_list_tasks@
                &&& self.total_list_tasks@ <= usize::MAX
                &&& self.pending_list_files_at_version_tasks@.len() <= self.total_list_tasks@
                &&& forall|i: int|
                    0 <= i < self.pending_list_files_at_version_tasks@.len() ==> vd.has_pair(
                        (#[trigger] self.pending_list_files_at_version_tasks@[i]).collection_id,
                        self.pending_list_files_at_version_tasks@[i].version,
                    )
                &&& forall|i: int|
                    0 <= i < self.pending_mark_versions_at_sysdb_tasks@.len() ==> vd.has_collection(
                        #[trigger] self.pending_mark_versions_at_sysdb_tasks@[i],
                    )
                &&& forall|pr: VersionPair|
                    self.listed@.contains_key(pr) <==> #[trigger] self.pair_completed(pr)
                &&& forall|p: Seq<char>|
                    #[trigger] has_path(self.file_ref_counts@, p) <==> self.some_completed_lists(p)
                &&& forall|p: Seq<char>|
                    #[trigger] has_path(self.file_ref_counts@, p) ==> (count_of(
                        self.file_ref_counts@,
                        p,
                    ) > 0 <==> self.kept_completed_lists(p))
                &&& forall|p: Seq<char>|
                    #[trigger] has_path(self.file_ref_counts@, p) ==> count_of(
                        self.file_ref_counts@,
                        p,
                    ) <= self.completed_count()
                &&& (self.delete_versions_dispatched ==> {
                    &&& self.num_versions_to_delete_total == vd.total_deletes()
                    &&& forall|i: int|
                        0 <= i < self.pending_delete_versions_tasks@.len() ==> vd.has_collection(
                            #[trigger] self.pending_delete_versions_tasks@[i],
                        )
                })
            },
            None => {
                &&& self.pending_list_files_at_version_tasks@.len() == 0
                &&& self.pending_mark_versions_at_sysdb_tasks@.len() == 0
                &&& self.pending_delete_versions_tasks@.len() == 0
                &&& self.file_ref_counts@.len() == 0
                &&& self.listed@.dom() =~= Set::<VersionPair>::empty()
                &&& self.total_list_tasks@ == 0
                &&& !self.delete_versions_dispatched
            },
        }
    }

    /// Builds an orchestrator ready for one run over the fork tree of
    /// `collection_id`.
    pub fn new(
        collection_id: CollectionId,
        version_file_path: String,
        lineage_file_path: Option<String>,
        version_absolute_cutoff_time: i64,
        collection_soft_delete_absolute_cutoff_time: i64,
        cleanup_mode: CleanupMode,
        min_versions_to_keep: u32,
        enable_log_gc: bool,
        enable_dangerous_option_to_ignore_min_versions_for_wal3: bool,
    ) -> (r: Self)
        ensures
            r.wf(),
            r.collection_id == collection_id,
            r.version_file_path == version_file_path,
            r.lineage_file_path == lineage_file_path,
            r.version_absolute_cutoff_time == version_absolute_cutoff_time,
            r.collection_soft_delete_absolute_cutoff_time
                == collection_soft_delete_absolute_cutoff_time,
            r.cleanup_mode == cleanup_mode,
            r.min_versions_to_keep == min_versions_to_keep,
            r.enable_log_gc == enable_log_gc,
            r.enable_dangerous_option_to_ignore_min_versions_for_wal3
                == enable_dangerous_option_to_ignore_min_versions_for_wal3,
            r.graph is None,
            r.versions_to_delete_output is None,
            r.version_files@.len() == 0,
            r.soft_deleted_collections_to_gc@.len() == 0,
            r.pending_mark_versions_at_sysdb_tasks@.len() == 0,
            r.pending_list_files_at_version_tasks@.len() == 0,
            r.pending_delete_versions_tasks@.len() == 0,
            r.file_ref_counts@.len() == 0,
            r.delete_unused_file_output is None,
            !r.delete_unused_log_output_received,
            !r.delete_versions_dispatched,
            r.num_files_deleted == 0,
            r.num_versions_to_delete_total == 0,
            r.tenant is None,
            r.database_name is None,
    {
        GarbageCollectorOrchestrator {
            collection_id,
            version_file_path,
            lineage_file_path,
            version_absolute_cutoff_time,
            collection_soft_delete_absolute_cutoff_time,
            cleanup_mode,
            min_versions_to_keep,
            enable_log_gc,
            enable_dangerous_option_to_ignore_min_versions_for_wal3,
            version_files: Vec::new(),
            graph: None,
            soft_deleted_collections_to_gc: Vec::new(),
            versions_to_delete_output: None,
            pending_mark_versions_at_sysdb_tasks: Vec::new(),
            pending_list_files_at_version_tasks: Vec::new(),
            file_ref_counts: Vec::new(),
            delete_unused_file_output: None,
            delete_unused_log_output_received: false,
            delete_versions_dispatched: false,
            pending_delete_versions_tasks: Vec::new(),
            num_files_deleted: 0,
            num_versions_to_delete_total: 0,
            tenant: None,
            database_name: None,
            total_list_tasks: Ghost(0),
            listed: Ghost(Map::empty()),
        }
    }

    /// The soft-deleted collections of the tree, from the statuses the
    /// metadata store reported for `all_ids`.
    pub fn soft_deleted_collections_in(
        all_ids: &Vec<CollectionId>,
        statuses: &Vec<SoftDeleteStatus>,
    ) -> (r: Vec<CollectionId>)
        ensures
            r@.no_duplicates(),
            forall|cid: CollectionId|
                #[trigger] r@.contains(cid) <==> (all_ids@.contains(cid) && exists|i: int|
                    0 <= i < statuses@.len() && (#[trigger] statuses@[i]).collection_id == cid
                        && statuses@[i].is_soft_deleted),
    {
        let mut r: Vec<CollectionId> = Vec::new();
        let mut i: usize = 0;
        while i < statuses.len()
            invariant
                0 <= i <= statuses@.len(),
                r@.no_duplicates(),
                forall|cid: CollectionId|
                    #[trigger] r@.contains(cid) ==> (all_ids@.contains(cid) && exists|m: int|
                        0 <= m < statuses@.len() && (#[trigger] statuses@[m]).collection_id == cid
                            && statuses@[m].is_soft_deleted),
                forall|m: int|
                    0 <= m < i && (#[trigger] statuses@[m]).is_soft_deleted && all_ids@.contains(
                        statuses@[m].collection_id,
                    ) ==> r@.contains(statuses@[m].collection_id),
            decreases statuses@.len() - i,
        {
            let cid = statuses[i].collection_id;
            if statuses[i].is_soft_deleted && contains_cid(all_ids, cid) && !contains_cid(&r, cid) {
                let ghost prev = r@;
                r.push(cid);
                proof {
                    assert(r@[r@.len() - 1] == cid);
                    assert forall|c: CollectionId| #[trigger] r@.contains(c) implies prev.contains(
                        c,
                    ) || c == cid by {
                        let k = choose|k: int| 0 <= k < r@.len() && r@[k] == c;
                        if k < prev.len() {
                            assert(prev[k] == c);
                        }
                    }
                    assert forall|c: CollectionId| prev.contains(c) implies r@.contains(c) by {
                        let k = choose|k: int| 0 <= k < prev.len() && prev[k] == c;
                        assert(r@[k] == c);
                    }
                    assert(statuses@[i as int].collection_id == cid
                        && statuses@[i as int].is_soft_deleted);
                }
            } else {
                proof {
                    if statuses@[i as int].is_soft_deleted && all_ids@.contains(cid) {
                        assert(r@.contains(cid));
                    }
                }
            }
            i += 1;
        }
        proof {
            assert forall|cid: CollectionId|
                (all_ids@.contains(cid) && exists|m: int|
                    0 <= m < statuses@.len() && (#[trigger] statuses@[m]).collection_id == cid
                        && statuses@[m].is_soft_deleted) implies r@.contains(cid) by {
                let m = choose|m: int|
                    0 <= m < statuses@.len() && (#[trigger] statuses@[m]).collection_id == cid
                        && statuses@[m].is_soft_deleted;
                assert(r@.contains(statuses@[m].collection_id));
            }
        }
        r
    }

    /// Of the soft-deleted collections the metadata store described, those
    /// last updated before the soft-delete cutoff: the ones this run may
    /// hard-delete.
    pub fn filter_eligible_soft_deleted(&self, collections: &Vec<CollectionStatus>) -> (r: Vec<
        CollectionId,
    >)
        ensures
            r@.no_duplicates(),
            forall|cid: CollectionId|
                #[trigger] r@.contains(cid) <==> exists|i: int|
                    0 <= i < collections@.len() && (#[trigger] collections@[i]).collection_id == cid
                        && collections@[i].updated_at
                        < self.collection_soft_delete_absolute_cutoff_time,
    {
        let mut r: Vec<CollectionId> = Vec::new();
        let mut i: usize = 0;
        while i < collections.len()
            invariant
                0 <= i <= collections@.len(),
                r@.no_duplicates(),
                forall|cid: CollectionId|
                    #[trigger] r@.contains(cid) ==> exists|m: int|
                        0 <= m < collections@.len() && (#[trigger] collections@[m]).collection_id
                            == cid && collections@[m].updated_at
                            < self.collection_soft_delete_absolute_cutoff_time,
                forall|m: int|
                    0 <= m < i && (#[trigger] collections@[m]).updated_at
                        < self.collection_soft_delete_absolute_cutoff_time ==> r@.contains(
                        collections@[m].collection_id,
                    ),
            decreases collections@.len() - i,
        {
            let cid = collections[i].collection_id;
            if collections[i].updated_at < self.collection_soft_delete_absolute_cutoff_time
                && !contains_cid(&r, cid) {
                let ghost prev = r@;
                r.push(cid);
                proof {
                    assert(r@[r@.len() - 1] == cid);
                    assert forall|c: CollectionId| #[trigger] r@.contains(c) implies prev.contains(
                        c,
                    ) || c == cid by {
                        let k = choose|k: int| 0 <= k < r@.len() && r@[k] == c;
                        if k < prev.len() {
                            assert(prev[k] == c);
                        }
                    }
                    assert forall|c: CollectionId| prev.contains(c) implies r@.contains(c) by {
                        let k = choose|k: int| 0 <= k < prev.len() && prev[k] == c;
                        assert(r@[k] == c);
                    }
                    assert(collections@[i as int].collection_id == cid
                        && collections@[i as int].updated_at
                        < self.collection_soft_delete_absolute_cutoff_time);
                }
            } else {
                proof {
                    if collections@[i as int].updated_at
                        < self.collection_soft_delete_absolute_cutoff_time {
                        assert(r@.contains(cid));
                    }
                }
            }
            i += 1;
        }
        proof {
            assert forall|cid: CollectionId|
                (exists|m: int|
                    0 <= m < collections@.len() && (#[trigger] collections@[m]).collection_id == cid
                        && collections@[m].updated_at
                        < self.collection_soft_delete_absolute_cutoff_time) implies r@.contains(
                cid,
            ) by {
                let m = choose|m: int|
                    0 <= m < collections@.len() && (#[trigger] collections@[m]).collection_id == cid
                        && collections@[m].updated_at
                        < self.collection_soft_delete_absolute_cutoff_time;
                assert(r@.contains(collections@[m].collection_id));
            }
        }
        r
    }

    /// Stores the lineage graph, the loaded version files and the eligible
    /// soft-deleted set that the graph-construction stage produced.
    pub fn handle_version_graph_ready(
        &mut self,
        version_files: Vec<VersionFileEntry>,
        graph: VersionGraph,
        eligible_soft_deleted: Vec<CollectionId>,
    ) -> (r: Result<(), GarbageCollectorError>)
        requires
            old(self).wf(),
        ensures
            final(self).wf(),
            match r {
                Ok(()) => {
                    &&& old(self).graph is None
                    &&& graph.wf()
                    &&& unique_file_ids(version_files@)
                    &&& final(self).graph == Some(graph)
                    &&& final(self).version_files == version_files
                    &&& final(self).soft_deleted_collections_to_gc == eligible_soft_deleted
                    &&& final(self).versions_to_delete_output
                        == old(self).versions_to_delete_output
                    &&& final(self).collection_id == old(self).collection_id
                    &&& final(self).cleanup_mode == old(self).cleanup_mode
                    &&& final(self).version_absolute_cutoff_time == old(self).version_absolute_cutoff_time
                    &&& final(self).min_versions_to_keep == old(self).min_versions_to_keep
                },
                Err(_) => {
                    &&& *final(self) == *old(self)
                    &&& (old(self).graph is Some || !graph.wf() || !unique_file_ids(
                        version_files@,
                    ))
                },
            },
    {
        if self.graph.is_some() {
            return Err(
                GarbageCollectorError::InvariantViolation(
                    "Expected graph to be received only once".to_string(),
                ),
            );
        }
        if !graph.validate() {
            return Err(
                GarbageCollectorError::InvariantViolation(
                    "Expected version graph edges and nodes to be well formed".to_string(),
                ),
            );
        }
        if !crate::lookup::validate_unique_files(&version_files) {
            return Err(
                GarbageCollectorError::InvariantViolation(
                    "Expected one version file per collection".to_string(),
                ),
            );
        }
        self.version_files = version_files;
        self.graph = Some(graph);
        self.soft_deleted_collections_to_gc = eligible_soft_deleted;
        Ok(())
    }

    /// Runs the classifier over the stored graph: the compute-versions task.
    pub fn start_compute_versions_to_delete(&self) -> (r: Result<
        ComputeVersionsToDeleteOutput,
        GarbageCollectorError,
    >)
        requires
            self.wf(),
        ensures
            match r {
                Ok(out) => {
                    &&& self.graph is Some
                    &&& out.wf()
                    &&& classification_inputs_ok(self.graph.unwrap(), self.version_files@)
                    &&& forall|cid: CollectionId|
                        out.has_collection(cid) <==> self.graph.unwrap().has_collection(cid)
                    &&& forall|k: int|
                        0 <= k < out.versions@.len() ==> collection_entry_ok(
                            #[trigger] out.versions@[k],
                            self.graph.unwrap(),
                            self.version_files@,
                            self.soft_deleted_collections_to_gc@,
                            self.version_absolute_cutoff_time,
                            self.min_versions_to_keep as u64,
                        )
                },
                Err(_) => self.graph is None || !classification_inputs_ok(
                    self.graph.unwrap(),
                    self.version_files@,
                ),
            },
    {
        let graph = match &self.graph {
            Some(g) => g,
            None => {
                return Err(
                    GarbageCollectorError::InvariantViolation(
                        "Expected graph to be set".to_string(),
                    ),
                );
            },
        };
        compute_versions_to_delete(
            graph,
            &self.version_files,
            &self.soft_deleted_collections_to_gc,
            self.version_absolute_cutoff_time,
            self.min_versions_to_keep as u64,
        )
    }

    /// Receives the classification. An empty one ends the run with zero
    /// totals; otherwise the mark and list fan-out starts: one mark task per
    /// collection, carrying its Delete versions, and one list task per
    /// classified (collection, version).
    #[verifier::rlimit(60)]
    pub fn handle_compute_versions_to_delete_output(
        &mut self,
        output: ComputeVersionsToDeleteOutput,
    ) -> (r: Result<ComputeStep, GarbageCollectorError>)
        requires
            old(self).wf(),
        ensures
            final(self).wf(),
            match r {
                Ok(ComputeStep::Done(resp)) => {
                    &&& output.versions@.len() == 0
                    &&& resp.collection_id == old(self).collection_id
                    &&& resp.num_files_deleted == 0
                    &&& resp.num_versions_deleted == 0
                    &&& *final(self) == *old(self)
                },
                Ok(ComputeStep::Dispatch { mark_tasks, list_tasks }) => {
                    &&& output.versions@.len() > 0
                    &&& output.wf()
                    &&& old(self).versions_to_delete_output is None
                    &&& final(self).versions_to_delete_output == Some(output)
                    &&& final(self).pending_list_files_at_version_tasks@ == list_tasks@
                    &&& forall|pr: VersionPair|
                        #[trigger] list_tasks@.contains(pr) <==> output.has_pair(
                            pr.collection_id,
                            pr.version,
                        )
                    &&& list_tasks@.len() == output.total_pairs()
                    &&& final(self).pending_mark_versions_at_sysdb_tasks@
                        == output.collection_ids()
                    &&& mark_tasks@.len() == output.versions@.len()
                    &&& forall|k: int|
                        0 <= k < mark_tasks@.len() ==> mark_task_ok(
                            #[trigger] mark_tasks@[k],
                            output.versions@[k],
                            old(self).version_files@,
                        )
                    &&& final(self).version_files == old(self).version_files
                    &&& final(self).graph == old(self).graph
                    &&& final(self).soft_deleted_collections_to_gc == old(self).soft_deleted_collections_to_gc
                    &&& final(self).cleanup_mode == old(self).cleanup_mode
                    &&& final(self).collection_id == old(self).collection_id
                    &&& final(self).file_ref_counts == old(self).file_ref_counts
                    &&& final(self).delete_unused_file_output == old(self).delete_unused_file_output
                    &&& final(self).delete_unused_log_output_received == old(self).delete_unused_log_output_received
                },
                Err(_) => {
                    &&& (old(self).versions_to_delete_output is Some || old(self).graph is None
                        || !output.wf() || !mark_inputs_ok(output, old(self).version_files@))
                    &&& *final(self) == *old(self)
                    &&& (r matches Err(GarbageCollectorError::MissingVersionFile(c)) ==> {
                        &&& output.has_collection(c)
                        &&& !has_version_file(old(self).version_files@, c)
                        &&& exists|k: int|
                            {
                                &&& 0 <= k < output.versions@.len()
                                &&& (#[trigger] output.versions@[k]).collection_id == c
                                &&& forall|t: int|
                                    0 <= t < k ==> has_version_file(
                                        old(self).version_files@,
                                        (#[trigger] output.versions@[t]).collection_id,
                                    ) && version_file_for(
                                        old(self).version_files@,
                                        output.versions@[t].collection_id,
                                    ).collection_info_immutable is Some
                            }
                    })
                },
            },
    {
        if self.versions_to_delete_output.is_some() {
            return Err(
                GarbageCollectorError::InvariantViolation(
                    "Expected versions_to_delete_output to be received only once".to_string(),
                ),
            );
        }
        if output.versions.len() == 0 {
            let response = GarbageCollectorResponse {
                collection_id: self.collection_id,
                num_versions_deleted: 0,
                num_files_deleted: 0,
            };
            return Ok(ComputeStep::Done(response));
        }
        if self.graph.is_none() {
            return Err(
                GarbageCollectorError::InvariantViolation(
                    "Expected graph to be set".to_string(),
                ),
            );
        }
        if !validate_classification(&output) {
            return Err(
                GarbageCollectorError::InvariantViolation(
                    "Expected classification to be well formed".to_string(),
                ),
            );
        }
        // Build one mark task per collection before touching any state, so
        // that a missing version file leaves the orchestrator unchanged.
        let mut mark_tasks: Vec<MarkVersionsTask> = Vec::new();
        let mut k: usize = 0;
        while k < output.versions.len()
            invariant
                0 <= k <= output.versions@.len(),
                *self == *old(self),
                old(self).wf(),
                output.wf(),
                mark_tasks@.len() == k,
                forall|t: int|
                    0 <= t < k ==> mark_task_ok(
                        #[trigger] mark_tasks@[t],
                        output.versions@[t],
                        old(self).version_files@,
                    ),
            decreases output.versions@.len() - k,
        {
            let entry = &output.versions[k];
            let file = match find_version_file(&self.version_files, entry.collection_id) {
                Some(f) => f,
                None => {
                    proof {
                        assert(!mark_inputs_ok(output, old(self).version_files@)) by {
                            assert(!has_version_file(
                                old(self).version_files@,
                                output.versions@[k as int].collection_id,
                            ));
                        }
                        assert(output.has_collection(output.versions@[k as int].collection_id)) by {
                            assert(output.collection_ids()[k as int]
                                == output.versions@[k as int].collection_id);
                        }
                        assert forall|t: int|
                            0 <= t < k implies has_version_file(
                            old(self).version_files@,
                            (#[trigger] output.versions@[t]).collection_id,
                        ) && version_file_for(
                            old(self).version_files@,
                            output.versions@[t].collection_id,
                        ).collection_info_immutable is Some by {
                            assert(mark_task_ok(
                                mark_tasks@[t],
                                output.versions@[t],
                                old(self).version_files@,
                            ));
                        }
                    }
                    return Err(GarbageCollectorError::MissingVersionFile(entry.collection_id));
                },
            };
            let info = match &file.collection_info_immutable {
                Some(ci) => ci,
                None => {
                    proof {
                        assert(!mark_inputs_ok(output, old(self).version_files@)) by {
                            assert(version_file_for(
                                old(self).version_files@,
                                output.versions@[k as int].collection_id,
                            ).collection_info_immutable is None);
                        }
                    }
                    return Err(
                        GarbageCollectorError::InvariantViolation(
                            "Expected collection_info_immutable to be set".to_string(),
                        ),
                    );
                },
            };
            let mut versions_to_mark: Vec<u64> = Vec::new();
            let mut m: usize = 0;
            proof {
                assert(entry.versions@.take(0) =~= Seq::<VersionEntry>::empty());
            }
            while m < entry.versions.len()
                invariant
                    0 <= m <= entry.versions@.len(),
                    k < output.versions@.len(),
                    *entry == output.versions@[k as int],
                    versions_to_mark@ == crate::classify::delete_versions_seq(
                        entry.versions@.take(m as int),
                    ),
                decreases entry.versions@.len() - m,
            {
                let ghost before = entry.versions@.take(m as int);
                proof {
                    assert(entry.versions@.take(m as int + 1).drop_last() =~= before);
                    assert(entry.versions@.take(m as int + 1).last() == entry.versions@[m as int]);
                }
                if entry.versions[m].action == VersionAction::Delete {
                    versions_to_mark.push(entry.versions[m].version);
                } else {
                    proof {
                        assert(!is_delete_entry(entry.versions@[m as int]));
                    }
                }
                m += 1;
            }
            proof {
                assert(entry.versions@.take(entry.versions@.len() as int) =~= entry.versions@);
            }
            let task = MarkVersionsTask {
                collection_id: entry.collection_id,
                versions_to_delete: versions_to_mark,
                tenant_id: info.tenant_id.clone(),
                database_id: info.database_id.clone(),
            };
            mark_tasks.push(task);
            k += 1;
        }
        // The list fan-out covers every classified pair, both kinds: Keep
        // versions will add their references, Delete versions seed the
        // candidate set with zeroes.
        let mut list_tasks: Vec<VersionPair> = Vec::new();
        let mut pending: Vec<VersionPair> = Vec::new();
        let mut mark_pending: Vec<CollectionId> = Vec::new();
        let ghost vdseq = output.versions@;
        let mut k2: usize = 0;
        proof {
            assert(vdseq.take(0) =~= Seq::<CollectionVersions>::empty());
            assert(output.collection_ids().take(0) =~= Seq::<CollectionId>::empty());
        }
        while k2 < output.versions.len()
            invariant
                0 <= k2 <= vdseq.len(),
                output.wf(),
                vdseq == output.versions@,
                mark_pending@ == output.collection_ids().take(k2 as int),
                pending@ == list_tasks@,
                pending@.len() == crate::classify::pairs_count(vdseq.take(k2 as int)),
                pending@.no_duplicates(),
                forall|pr: VersionPair|
                    #[trigger] pending@.contains(pr) <==> exists|t: int|
                        0 <= t < k2 && (#[trigger] vdseq[t]).collection_id == pr.collection_id
                            && vdseq[t].has_version(pr.version),
            decreases vdseq.len() - k2,
        {
            let entry = &output.versions[k2];
            let cid = entry.collection_id;
            mark_pending.push(cid);
            proof {
                assert(mark_pending@ =~= output.collection_ids().take(k2 as int + 1));
            }
            let mut m: usize = 0;
            while m < entry.versions.len()
                invariant
                    0 <= m <= entry.versions@.len(),
                    0 <= k2 < vdseq.len(),
                    output.wf(),
                    vdseq == output.versions@,
                    *entry == vdseq[k2 as int],
                    cid == entry.collection_id,
                    pending@ == list_tasks@,
                    pending@.len() == crate::classify::pairs_count(vdseq.take(k2 as int)) + m,
                    pending@.no_duplicates(),
                    forall|pr: VersionPair|
                        #[trigger] pending@.contains(pr) <==> ((exists|t: int|
                            0 <= t < k2 && (#[trigger] vdseq[t]).collection_id == pr.collection_id
                                && vdseq[t].has_version(pr.version)) || (pr.collection_id == cid
                            && exists|t: int|
                            0 <= t < m && (#[trigger] entry.versions@[t]).version == pr.version)),
                decreases entry.versions@.len() - m,
            {
                let pr = VersionPair { collection_id: cid, version: entry.versions[m].version };
                proof {
                    // the pair is new: earlier collections differ by wf, and
                    // earlier versions of this collection differ by wf
                    if pending@.contains(pr) {
                        if exists|t: int|
                            0 <= t < k2 && (#[trigger] vdseq[t]).collection_id == pr.collection_id
                                && vdseq[t].has_version(pr.version) {
                            let t = choose|t: int|
                                0 <= t < k2 && (#[trigger] vdseq[t]).collection_id
                                    == pr.collection_id && vdseq[t].has_version(pr.version);
                            assert(output.collection_ids()[t]
                                == output.collection_ids()[k2 as int]);
                            assert(false);
                        } else {
                            let t = choose|t: int|
                                0 <= t < m && (#[trigger] entry.versions@[t]).version == pr.version;
                            assert(entry.version_seq()[t] == entry.version_seq()[m as int]);
                            assert(false);
                        }
                    }
                }
                let ghost prev = pending@;
                pending.push(pr);
                list_tasks.push(pr);
                proof {
                    assert(pending@[pending@.len() - 1] == pr);
                    assert forall|x: VersionPair| #[trigger] pending@.contains(x) implies prev.contains(
                        x,
                    ) || x == pr by {
                        let t = choose|t: int| 0 <= t < pending@.len() && pending@[t] == x;
                        if t < prev.len() {
                            assert(prev[t] == x);
                        }
                    }
                    assert forall|x: VersionPair| prev.contains(x) implies pending@.contains(x) by {
                        let t = choose|t: int| 0 <= t < prev.len() && prev[t] == x;
                        assert(pending@[t] == x);
                    }
                    assert(vdseq[k2 as int].has_version(pr.version)) by {
                        assert(entry.version_seq()[m as int] == pr.version);
                    }
                    assert forall|x: VersionPair| #[trigger] pending@.contains(x) implies ((exists|
                        t: int,
                    |
                        0 <= t < k2 && (#[trigger] vdseq[t]).collection_id == x.collection_id
                            && vdseq[t].has_version(x.version)) || (x.collection_id == cid
                        && exists|t: int|
                        0 <= t < m + 1 && (#[trigger] entry.versions@[t]).version
                            == x.version)) by {
                        if prev.contains(x) {
                        } else {
                            assert(x == pr);
                            assert(entry.versions@[m as int].version == x.version);
                        }
                    }
                    assert forall|x: VersionPair|
                        ((exists|t: int|
                            0 <= t < k2 && (#[trigger] vdseq[t]).collection_id == x.collection_id
                                && vdseq[t].has_version(x.version)) || (x.collection_id == cid
                            && exists|t: int|
                            0 <= t < m + 1 && (#[trigger] entry.versions@[t]).version
                                == x.version)) implies #[trigger] pending@.contains(x) by {
                        if exists|t: int|
                            0 <= t < k2 && (#[trigger] vdseq[t]).collection_id == x.collection_id
                                && vdseq[t].has_version(x.version) {
                            assert(prev.contains(x));
                        } else {
                            let t = choose|t: int|
                                0 <= t < m + 1 && (#[trigger] entry.versions@[t]).version
                                    == x.version;
                            if t < m {
                                assert(prev.contains(x));
                            } else {
                                assert(x == pr);
                            }
                        }
                    }
                }
                m += 1;
            }
            proof {
                lemma_pairs_count_take(vdseq, k2 as int);
                assert forall|pr: VersionPair| #[trigger] pending@.contains(pr) implies (exists|
                    t: int,
                |
                    0 <= t < k2 + 1 && (#[trigger] vdseq[t]).collection_id == pr.collection_id
                        && vdseq[t].has_version(pr.version)) by {
                    if pr.collection_id == cid && exists|t: int|
                        0 <= t < entry.versions@.len() && (#[trigger] entry.versions@[t]).version
                            == pr.version {
                        assert(vdseq[k2 as int].collection_id == pr.collection_id);
                        let t = choose|t: int|
                            0 <= t < entry.versions@.len() && (#[trigger] entry.versions@[t]).version
                                == pr.version;
                        assert(vdseq[k2 as int].version_seq()[t] == pr.version);
                        assert(vdseq[k2 as int].has_version(pr.version));
                    }
                }
                assert forall|pr: VersionPair|
                    (exists|t: int|
                        0 <= t < k2 + 1 && (#[trigger] vdseq[t]).collection_id == pr.collection_id
                            && vdseq[t].has_version(pr.version)) implies #[trigger] pending@.contains(
                    pr,
                ) by {
                    let t = choose|t: int|
                        0 <= t < k2 + 1 && (#[trigger] vdseq[t]).collection_id == pr.collection_id
                            && vdseq[t].has_version(pr.version);
                    if t == k2 as int {
                        let v = choose|x: int|
                            0 <= x < vdseq[t].version_seq().len() && vdseq[t].version_seq()[x]
                                == pr.version;
                        assert(entry.versions@[v].version == pr.version);
                    }
                }
            }
            k2 += 1;
        }
        proof {
            assert(vdseq.take(vdseq.len() as int) =~= vdseq);
            assert(output.collection_ids().take(output.collection_ids().len() as int)
                =~= output.collection_ids());
        }
        self.pending_mark_versions_at_sysdb_tasks = mark_pending;
        self.pending_list_files_at_version_tasks = pending;
        proof {
            self.total_list_tasks@ = output.total_pairs();
        }
        self.versions_to_delete_output = Some(output);
        let plen = self.pending_list_files_at_version_tasks.len();
        proof {
            let s = *self;
            assert(s.pending_list_files_at_version_tasks@.len() == plen as nat);
            assert forall|pr: VersionPair| !(#[trigger] s.pair_completed(pr)) by {
                if s.versions_to_delete_output.unwrap().has_pair(pr.collection_id, pr.version) {
                    assert(s.pending_list_files_at_version_tasks@.contains(pr));
                }
            }
            assert forall|p: Seq<char>| !(#[trigger] has_path(s.file_ref_counts@, p)) by {}
            assert(unique_file_ids(s.version_files@));
            assert(s.graph matches Some(g) ==> g.wf());
            assert(unique_paths(s.file_ref_counts@));
            assert(s.pending_list_files_at_version_tasks@.no_duplicates());
            assert(s.pending_mark_versions_at_sysdb_tasks@.no_duplicates());
            assert(s.pending_delete_versions_tasks@.no_duplicates());
            let vd = s.versions_to_delete_output.unwrap();
            assert(vd.wf());
            assert(vd.total_pairs() == s.total_list_tasks@);
            assert(s.total_list_tasks@ <= usize::MAX);
            assert(s.pending_list_files_at_version_tasks@.len() <= s.total_list_tasks@);
            assert forall|pr: VersionPair|
                s.listed@.contains_key(pr) <==> #[trigger] s.pair_completed(pr) by {
                assert(!s.listed@.dom().contains(pr));
            }
            assert forall|p: Seq<char>|
                #[trigger] has_path(s.file_ref_counts@, p) <==> s.some_completed_lists(p) by {
                if s.some_completed_lists(p) {
                    let pr = choose|pr: VersionPair|
                        #[trigger] s.pair_completed(pr) && s.listed@[pr].contains(p);
                    assert(false);
                }
            }
            assert(!s.delete_versions_dispatched);
            assert forall|p: Seq<char>|
                #[trigger] has_path(s.file_ref_counts@, p) implies (count_of(s.file_ref_counts@, p)
                > 0 <==> s.kept_completed_lists(p)) by {
                assert(false);
            }
            assert forall|p: Seq<char>|
                #[trigger] has_path(s.file_ref_counts@, p) implies count_of(s.file_ref_counts@, p)
                <= s.completed_count() by {
                assert(false);
            }
            assert(s.wf()) by {
                assert(s.pending_mark_versions_at_sysdb_tasks@.no_duplicates());
                assert forall|i: int|
                    0 <= i < s.pending_mark_versions_at_sysdb_tasks@.len() implies s.versions_to_delete_output.unwrap().has_collection(
                    #[trigger] s.pending_mark_versions_at_sysdb_tasks@[i],
                ) by {
                    assert(s.versions_to_delete_output.unwrap().collection_ids().contains(
                        s.versions_to_delete_output.unwrap().collection_ids()[i],
                    ));
                }
                assert forall|i: int|
                    0 <= i < s.pending_list_files_at_version_tasks@.len() implies s.versions_to_delete_output.unwrap().has_pair(
                    (#[trigger] s.pending_list_files_at_version_tasks@[i]).collection_id,
                    s.pending_list_files_at_version_tasks@[i].version,
                ) by {
                    assert(s.pending_list_files_at_version_tasks@.contains(
                        s.pending_list_files_at_version_tasks@[i],
                    ));
                }
            }
        }
        Ok(ComputeStep::Dispatch { mark_tasks, list_tasks })
    }

    /// A blob path currently known to be referenced by a surviving version.
    pub open spec fn retained(self, p: Seq<char>) -> bool {
        has_path(self.file_ref_counts@, p) && count_of(self.file_ref_counts@, p) > 0
    }

    /// Both fan-outs have fully completed: reference counts are final.
    pub open spec fn files_fanin_done(self) -> bool {
        self.pending_list_files_at_version_tasks@.len() == 0
            && self.pending_mark_versions_at_sysdb_tasks@.len() == 0
    }

    /// What the delete-files task carries: exactly the known paths that no
    /// surviving version references, under the run's cleanup mode and the
    /// tree's tenant.
    pub open spec fn files_task_ok(self, task: DeleteUnusedFilesTask) -> bool {
        &&& task.cleanup_mode == self.cleanup_mode
        &&& forall|p: Seq<char>|
            #[trigger] crate::refcount::mentions(task.unused_s3_files@, p) <==> (has_path(
                self.file_ref_counts@,
                p,
            ) && count_of(self.file_ref_counts@, p) == 0)
        &&& self.version_files@.len() > 0
        &&& self.version_files@[0].file.collection_info_immutable is Some
        &&& task.tenant_id@
            == self.version_files@[0].file.collection_info_immutable.unwrap().tenant_id@
    }

    /// The event names a classified (collection, version) whose listing is
    /// still awaited.
    pub open spec fn listing_classified(self, cid: CollectionId, version: u64) -> bool {
        &&& self.versions_to_delete_output matches Some(vd) && vd.has_pair(cid, version)
        &&& self.pending_list_files_at_version_tasks@.contains(
            (VersionPair { collection_id: cid, version }),
        )
    }

    /// This listing is the last outstanding work of both fan-outs.
    pub open spec fn completes_fan_in(self) -> bool {
        self.pending_list_files_at_version_tasks@.len() == 1
            && self.pending_mark_versions_at_sysdb_tasks@.len() == 0
    }

    /// The file cleanup can name a tenant: some version file with its
    /// immutable info is loaded.
    pub open spec fn files_task_inputs_ok(self) -> bool {
        self.version_files@.len() > 0
            && self.version_files@[0].file.collection_info_immutable is Some
    }

    /// Exactly when the listing handler succeeds: the pair is classified and
    /// pending, an empty listing comes only from an all-bootstrap lineage,
    /// and when this completion starts the file cleanup, its inputs exist.
    pub open spec fn listing_accepted(
        self,
        cid: CollectionId,
        version: u64,
        file_paths: Seq<String>,
    ) -> bool {
        &&& self.listing_classified(cid, version)
        &&& (file_paths.len() > 0 || (self.graph matches Some(g) && g.empty_listing_allowed(
            cid,
            version,
        )))
        &&& (self.completes_fan_in() ==> self.files_task_inputs_ok())
    }

    /// Every collection with a kept positive version has a version file
    /// whose history gives that version a non-negative log position: what
    /// the log cleanup needs.
    pub open spec fn logs_inputs_ok(self) -> bool {
        match self.versions_to_delete_output {
            Some(vd) => forall|k: int|
                0 <= k < vd.versions@.len() && has_kept_positive(#[trigger] vd.versions@[k]) ==> {
                    &&& has_version_file(self.version_files@, vd.versions@[k].collection_id)
                    &&& match crate::lookup::log_position_of(
                        version_file_for(self.version_files@, vd.versions@[k].collection_id),
                        min_kept_positive(vd.versions@[k]),
                    ) {
                        Some(pos) => pos >= 0,
                        None => false,
                    }
                },
            None => false,
        }
    }

    /// What the delete-logs task carries: the eligible soft-deleted
    /// collections to destroy, and one truncation offset per collection
    /// that keeps a positive version.
    pub open spec fn logs_task_ok(self, task: DeleteUnusedLogsTask) -> bool {
        &&& self.versions_to_delete_output is Some
        &&& task.enabled == self.enable_log_gc
        &&& task.cleanup_mode == self.cleanup_mode
        &&& task.enable_dangerous_option_to_ignore_min_versions_for_wal3
            == self.enable_dangerous_option_to_ignore_min_versions_for_wal3
        &&& task.collections_to_destroy@ == self.soft_deleted_collections_to_gc@
        &&& forall|t: int|
            0 <= t < task.collections_to_garbage_collect@.len() ==> gc_entry_ok(
                #[trigger] task.collections_to_garbage_collect@[t],
                self.versions_to_delete_output.unwrap(),
                self.version_files@,
            )
        &&& forall|k: int|
            0 <= k < self.versions_to_delete_output.unwrap().versions@.len() && has_kept_positive(
                #[trigger] self.versions_to_delete_output.unwrap().versions@[k],
            ) ==> exists|t: int|
                0 <= t < task.collections_to_garbage_collect@.len()
                    && (#[trigger] task.collections_to_garbage_collect@[t]).collection_id
                    == self.versions_to_delete_output.unwrap().versions@[k].collection_id
    }

    /// The invariant only reads the classification, the listing state and
    /// the counts: it survives any change to the other fields, and any
    /// replacement of the mark and delete-versions queues that keeps them
    /// duplicate-free and within the classification.
    pub proof fn lemma_wf_frame(s1: Self, s2: Self)
        requires
            s1.wf(),
            s2.versions_to_delete_output == s1.versions_to_delete_output,
            s2.pending_list_files_at_version_tasks == s1.pending_list_files_at_version_tasks,
            s2.file_ref_counts == s1.file_ref_counts,
            s2.listed == s1.listed,
            s2.total_list_tasks == s1.total_list_tasks,
            s2.version_files == s1.version_files,
            s2.graph == s1.graph,
            s2.pending_mark_versions_at_sysdb_tasks@.no_duplicates(),
            s2.pending_delete_versions_tasks@.no_duplicates(),
            match s1.versions_to_delete_output {
                Some(vd) => {
                    &&& forall|i: int|
                        0 <= i < s2.pending_mark_versions_at_sysdb_tasks@.len()
                            ==> vd.has_collection(
                            #[trigger] s2.pending_mark_versions_at_sysdb_tasks@[i],
                        )
                    &&& (s2.delete_versions_dispatched ==> {
                        &&& s2.num_versions_to_delete_total == vd.total_deletes()
                        &&& forall|i: int|
                            0 <= i < s2.pending_delete_versions_tasks@.len() ==> vd.has_collection(
                                #[trigger] s2.pending_delete_versions_tasks@[i],
                            )
                    })
                },
                None => {
                    &&& s2.pending_mark_versions_at_sysdb_tasks@.len() == 0
                    &&& s2.pending_delete_versions_tasks@.len() == 0
                    &&& !s2.delete_versions_dispatched
                },
            },
        ensures
            s2.wf(),
    {
        assert forall|pr: VersionPair| #[trigger] s2.pair_completed(pr) <==> s1.pair_completed(
            pr,
        ) by {}
        if s1.versions_to_delete_output is Some {
            assert forall|p: Seq<char>|
                #[trigger] s2.some_completed_lists(p) <==> s1.some_completed_lists(p) by {
                if s1.some_completed_lists(p) {
                    let pr = choose|pr: VersionPair|
                        #[trigger] s1.pair_completed(pr) && s1.listed@[pr].contains(p);
                    assert(s2.pair_completed(pr) && s2.listed@[pr].contains(p));
                }
                if s2.some_completed_lists(p) {
                    let pr = choose|pr: VersionPair|
                        #[trigger] s2.pair_completed(pr) && s2.listed@[pr].contains(p);
                    assert(s1.pair_completed(pr) && s1.listed@[pr].contains(p));
                }
            }
            assert forall|p: Seq<char>|
                #[trigger] s2.kept_completed_lists(p) <==> s1.kept_completed_lists(p) by {
                if s1.kept_completed_lists(p) {
                    let pr = choose|pr: VersionPair|
                        #[trigger] s1.pair_completed(pr)
                            && s1.versions_to_delete_output.unwrap().pair_action(
                            pr.collection_id,
                            pr.version,
                        ) == VersionAction::Keep && s1.listed@[pr].contains(p);
                    assert(s2.pair_completed(pr) && s2.listed@[pr].contains(p));
                }
                if s2.kept_completed_lists(p) {
                    let pr = choose|pr: VersionPair|
                        #[trigger] s2.pair_completed(pr)
                            && s2.versions_to_delete_output.unwrap().pair_action(
                            pr.collection_id,
                            pr.version,
                        ) == VersionAction::Keep && s2.listed@[pr].contains(p);
                    assert(s1.pair_completed(pr) && s1.listed@[pr].contains(p));
                }
            }
        }
    }

    /// The log-stage inputs read only the classification and the version
    /// files: they are insensitive to every other field.
    pub proof fn lemma_logs_inputs_frame(s1: Self, s2: Self)
        requires
            s2.versions_to_delete_output == s1.versions_to_delete_output,
            s2.version_files == s1.version_files,
        ensures
            s1.logs_inputs_ok() == s2.logs_inputs_ok(),
    {
        match s1.versions_to_delete_output {
            Some(vd) => {
                if s1.logs_inputs_ok() {
                    assert forall|k: int|
                        0 <= k < vd.versions@.len() && has_kept_positive(
                            #[trigger] vd.versions@[k],
                        ) implies {
                        &&& has_version_file(s2.version_files@, vd.versions@[k].collection_id)
                        &&& match crate::lookup::log_position_of(
                            version_file_for(s2.version_files@, vd.versions@[k].collection_id),
                            min_kept_positive(vd.versions@[k]),
                        ) {
                            Some(pos) => pos >= 0,
                            None => false,
                        }
                    } by {
                        assert(has_version_file(s1.version_files@, vd.versions@[k].collection_id));
                    }
                    assert(s2.logs_inputs_ok());
                }
                if s2.logs_inputs_ok() {
                    assert forall|k: int|
                        0 <= k < vd.versions@.len() && has_kept_positive(
                            #[trigger] vd.versions@[k],
                        ) implies {
                        &&& has_version_file(s1.version_files@, vd.versions@[k].collection_id)
                        &&& match crate::lookup::log_position_of(
                            version_file_for(s1.version_files@, vd.versions@[k].collection_id),
                            min_kept_positive(vd.versions@[k]),
                        ) {
                            Some(pos) => pos >= 0,
                            None => false,
                        }
                    } by {
                        assert(has_version_file(s2.version_files@, vd.versions@[k].collection_id));
                    }
                    assert(s1.logs_inputs_ok());
                }
            },
            None => {},
        }
    }

    /// Once every mark task has landed, derives the log-cleanup task: the
    /// minimum retained offset of each collection with a kept positive
    /// version is one past that version's recorded log position.
    #[verifier::rlimit(100)]
    pub fn try_start_delete_unused_logs_operator(&self) -> (r: Result<
        Option<DeleteUnusedLogsTask>,
        GarbageCollectorError,
    >)
        requires
            self.wf(),
        ensures
            match r {
                Ok(None) => self.pending_mark_versions_at_sysdb_tasks@.len() > 0,
                Ok(Some(task)) => {
                    &&& self.pending_mark_versions_at_sysdb_tasks@.len() == 0
                    &&& self.logs_task_ok(task)
                    &&& self.logs_inputs_ok()
                },
                Err(_) => {
                    &&& self.pending_mark_versions_at_sysdb_tasks@.len() == 0
                    &&& !self.logs_inputs_ok()
                },
            },
    {
        if self.pending_mark_versions_at_sysdb_tasks.len() > 0 {
            return Ok(None);
        }
        let vd = match &self.versions_to_delete_output {
            Some(vd) => vd,
            None => {
                return Err(
                    GarbageCollectorError::InvariantViolation(
                        "Expected versions_to_delete_output to be set".to_string(),
                    ),
                );
            },
        };
        let mut gc: Vec<LogOffsetEntry> = Vec::new();
        let mut k: usize = 0;
        while k < vd.versions.len()
            invariant
                0 <= k <= vd.versions@.len(),
                self.wf(),
                self.pending_mark_versions_at_sysdb_tasks@.len() == 0,
                self.versions_to_delete_output matches Some(v) && v == vd,
                forall|t: int|
                    0 <= t < gc@.len() ==> gc_entry_ok(#[trigger] gc@[t], *vd, self.version_files@),
                forall|m: int|
                    0 <= m < k && has_kept_positive(#[trigger] vd.versions@[m]) ==> exists|t: int|
                        0 <= t < gc@.len() && (#[trigger] gc@[t]).collection_id
                            == vd.versions@[m].collection_id,
                forall|m: int|
                    0 <= m < k && has_kept_positive(#[trigger] vd.versions@[m]) ==> {
                        &&& has_version_file(self.version_files@, vd.versions@[m].collection_id)
                        &&& match crate::lookup::log_position_of(
                            version_file_for(self.version_files@, vd.versions@[m].collection_id),
                            min_kept_positive(vd.versions@[m]),
                        ) {
                            Some(pos) => pos >= 0,
                            None => false,
                        }
                    },
            decreases vd.versions@.len() - k,
        {
            let entry = &vd.versions[k];
            let min_version = match find_min_kept_positive(entry) {
                Some(v) => v,
                None => {
                    k += 1;
                    continue ;
                },
            };
            let file = match find_version_file(&self.version_files, entry.collection_id) {
                Some(f) => f,
                None => {
                    proof {
                        assert(!self.logs_inputs_ok()) by {
                            assert(has_kept_positive(vd.versions@[k as int]));
                            assert(!has_version_file(
                                self.version_files@,
                                vd.versions@[k as int].collection_id,
                            ));
                        }
                    }
                    return Err(
                        GarbageCollectorError::InvariantViolation(
                            "Expected version file to be present".to_string(),
                        ),
                    );
                },
            };
            let history = match &file.version_history {
                Some(h) => h,
                None => {
                    proof {
                        assert(!self.logs_inputs_ok()) by {
                            assert(has_kept_positive(vd.versions@[k as int]));
                        }
                    }
                    return Err(
                        GarbageCollectorError::InvariantViolation(
                            "Expected version file to contain version history".to_string(),
                        ),
                    );
                },
            };
            let info = match crate::lookup::find_version_info(history, min_version) {
                Some(vi) => vi,
                None => {
                    proof {
                        assert(!self.logs_inputs_ok()) by {
                            assert(has_kept_positive(vd.versions@[k as int]));
                        }
                    }
                    return Err(
                        GarbageCollectorError::InvariantViolation(
                            "Expected min kept version to be present in version history".to_string(),
                        ),
                    );
                },
            };
            if info.current_log_position < 0 {
                proof {
                    assert(!self.logs_inputs_ok()) by {
                        assert(has_kept_positive(vd.versions@[k as int]));
                    }
                }
                return Err(
                    GarbageCollectorError::InvariantViolation(
                        "Expected log offset to be unsigned".to_string(),
                    ),
                );
            }
            // The minimum offset to keep is one after the position already
            // materialised at the minimum kept version.
            let offset = info.current_log_position as u64 + 1;
            let ghost prev = gc@;
            gc.push(LogOffsetEntry { collection_id: entry.collection_id, min_offset_to_keep: offset });
            proof {
                assert(gc@[gc@.len() - 1].collection_id == entry.collection_id);
                assert(gc_entry_ok(gc@[gc@.len() - 1], *vd, self.version_files@)) by {
                    assert(vd.versions@[k as int].collection_id == entry.collection_id
                        && has_kept_positive(vd.versions@[k as int]));
                }
                assert forall|m: int|
                    0 <= m < k + 1 && has_kept_positive(#[trigger] vd.versions@[m]) implies exists|
                    t: int,
                |
                    0 <= t < gc@.len() && (#[trigger] gc@[t]).collection_id
                        == vd.versions@[m].collection_id by {
                    if m < k {
                        let t = choose|t: int|
                            0 <= t < prev.len() && (#[trigger] prev[t]).collection_id
                                == vd.versions@[m].collection_id;
                        assert(gc@[t].collection_id == vd.versions@[m].collection_id);
                    } else {
                        assert(gc@[gc@.len() - 1].collection_id
                            == vd.versions@[m].collection_id);
                    }
                }
            }
            k += 1;
        }
        let mut destroy: Vec<CollectionId> = Vec::new();
        let mut d: usize = 0;
        while d < self.soft_deleted_collections_to_gc.len()
            invariant
                0 <= d <= self.soft_deleted_collections_to_gc@.len(),
                destroy@ == self.soft_deleted_collections_to_gc@.take(d as int),
            decreases self.soft_deleted_collections_to_gc@.len() - d,
        {
            destroy.push(self.soft_deleted_collections_to_gc[d]);
            proof {
                assert(destroy@ =~= self.soft_deleted_collections_to_gc@.take(d as int + 1));
            }
            d += 1;
        }
        proof {
            assert(destroy@ =~= self.soft_deleted_collections_to_gc@);
            let vdv = self.versions_to_delete_output.unwrap();
            assert(vdv == *vd);
            assert forall|m: int|
                0 <= m < vdv.versions@.len() && has_kept_positive(
                    #[trigger] vdv.versions@[m],
                ) implies exists|t: int|
                0 <= t < gc@.len() && (#[trigger] gc@[t]).collection_id
                    == vdv.versions@[m].collection_id by {
                assert(has_kept_positive(vd.versions@[m]));
                let t = choose|t: int|
                    0 <= t < gc@.len() && (#[trigger] gc@[t]).collection_id
                        == vd.versions@[m].collection_id;
            }
        }
        Ok(
            Some(
                DeleteUnusedLogsTask {
                    collections_to_destroy: destroy,
                    collections_to_garbage_collect: gc,
                    enabled: self.enable_log_gc,
                    cleanup_mode: self.cleanup_mode,
                    enable_dangerous_option_to_ignore_min_versions_for_wal3: self.enable_dangerous_option_to_ignore_min_versions_for_wal3,
                },
            ),
        )
    }

    /// Once both fan-outs are complete, derives the delete-files task: the
    /// known blob paths no surviving version references. Also fixes the
    /// tenant and database for the rest of the run.
    pub fn try_start_delete_unused_files_operator(&mut self) -> (r: Result<
        Option<DeleteUnusedFilesTask>,
        GarbageCollectorError,
    >)
        requires
            old(self).wf(),
        ensures
            final(self).wf(),
            match r {
                Ok(None) => !old(self).files_fanin_done() && *final(self) == *old(self),
                Ok(Some(task)) => {
                    &&& old(self).files_fanin_done()
                    &&& final(self).files_task_ok(task)
                    &&& final(self).tenant is Some
                    &&& final(self).database_name is Some
                    &&& *final(self) == (GarbageCollectorOrchestrator {
                        tenant: final(self).tenant,
                        database_name: final(self).database_name,
                        ..*old(self)
                    })
                },
                Err(_) => {
                    &&& old(self).files_fanin_done()
                    &&& (old(self).version_files@.len() == 0 || old(self).version_files@[0].file.collection_info_immutable is None)
                    &&& *final(self) == *old(self)
                },
            },
    {
        if self.pending_list_files_at_version_tasks.len() > 0 {
            return Ok(None);
        }
        if self.pending_mark_versions_at_sysdb_tasks.len() > 0 {
            return Ok(None);
        }
        let file_paths_to_delete = crate::refcount::zero_count_paths(&self.file_ref_counts);
        if self.version_files.len() == 0 {
            return Err(
                GarbageCollectorError::InvariantViolation(
                    "Expected there to be at least one version file".to_string(),
                ),
            );
        }
        // All collections of one fork tree live under the same tenant, so
        // any version file's immutable info identifies it.
        let info = match &self.version_files[0].file.collection_info_immutable {
            Some(ci) => ci,
            None => {
                return Err(
                    GarbageCollectorError::InvariantViolation(
                        "Expected collection_info_immutable to be set".to_string(),
                    ),
                );
            },
        };
        let tenant_id = info.tenant_id.clone();
        let database_name = info.database_name.clone();
        let task_tenant = tenant_id.clone();
        self.tenant = Some(tenant_id);
        self.database_name = Some(database_name);
        proof {
            Self::lemma_wf_frame(*old(self), *self);
        }
        Ok(
            Some(
                DeleteUnusedFilesTask {
                    unused_s3_files: file_paths_to_delete,
                    cleanup_mode: self.cleanup_mode,
                    tenant_id: task_tenant,
                },
            ),
        )
    }

    /// Receives one mark-versions completion. When it was the last, the log
    /// cleanup starts; when every listing has landed too, the file cleanup
    /// starts.
    pub fn handle_mark_versions_at_sysdb_output(&mut self, collection_id: CollectionId) -> (r:
        Result<MarkStep, GarbageCollectorError>)
        requires
            old(self).wf(),
        ensures
            final(self).wf(),
            match r {
                Ok(step) => {
                    &&& forall|x: CollectionId|
                        #[trigger] final(self).pending_mark_versions_at_sysdb_tasks@.contains(x)
                            <==> (old(self).pending_mark_versions_at_sysdb_tasks@.contains(x) && x
                            != collection_id)
                    &&& (step.delete_unused_logs is Some <==> final(self).pending_mark_versions_at_sysdb_tasks@.len() == 0)
                    &&& (step.delete_unused_logs matches Some(t) ==> final(self).logs_task_ok(t))
                    &&& (step.delete_unused_files is Some <==> final(self).files_fanin_done())
                    &&& (step.delete_unused_files matches Some(t) ==> final(self).files_task_ok(t))
                    &&& final(self).file_ref_counts == old(self).file_ref_counts
                    &&& final(self).versions_to_delete_output == old(self).versions_to_delete_output
                    &&& final(self).pending_list_files_at_version_tasks == old(self).pending_list_files_at_version_tasks
                    &&& final(self).listed == old(self).listed
                    &&& final(self).cleanup_mode == old(self).cleanup_mode
                },
                Err(_) => {
                    &&& forall|x: CollectionId|
                        #[trigger] final(self).pending_mark_versions_at_sysdb_tasks@.contains(x)
                            <==> (old(self).pending_mark_versions_at_sysdb_tasks@.contains(x) && x
                            != collection_id)
                    &&& final(self).pending_mark_versions_at_sysdb_tasks@.len() == 0
                    &&& final(self).file_ref_counts == old(self).file_ref_counts
                    &&& final(self).versions_to_delete_output == old(self).versions_to_delete_output
                    &&& final(self).pending_list_files_at_version_tasks == old(self).pending_list_files_at_version_tasks
                    &&& final(self).listed == old(self).listed
                    &&& final(self).pending_delete_versions_tasks == old(self).pending_delete_versions_tasks
                    &&& final(self).delete_versions_dispatched == old(self).delete_versions_dispatched
                    &&& final(self).version_files == old(self).version_files
                    &&& final(self).graph == old(self).graph
                    &&& final(self).tenant == old(self).tenant
                    &&& final(self).database_name == old(self).database_name
                    &&& (!old(self).logs_inputs_ok() || old(self).version_files@.len() == 0 || old(
                        self,
                    ).version_files@[0].file.collection_info_immutable is None)
                },
            },
    {
        let mut i: usize = 0;
        let n = self.pending_mark_versions_at_sysdb_tasks.len();
        let ghost pending0 = self.pending_mark_versions_at_sysdb_tasks@;
        let mut found: Option<usize> = None;
        while i < n
            invariant
                0 <= i <= n,
                n == self.pending_mark_versions_at_sysdb_tasks@.len(),
                self.pending_mark_versions_at_sysdb_tasks@ == pending0,
                match found {
                    Some(idx) => idx < n && pending0[idx as int] == collection_id,
                    None => forall|m: int| 0 <= m < i ==> pending0[m] != collection_id,
                },
            decreases n - i,
        {
            if found.is_none() && self.pending_mark_versions_at_sysdb_tasks[i] == collection_id {
                found = Some(i);
            }
            i += 1;
        }
        let ghost old_self = *old(self);
        match found {
            Some(idx) => {
                self.pending_mark_versions_at_sysdb_tasks.remove(idx);
                proof {
                    crate::lookup::lemma_remove_element(pending0, idx as int);
                }
            },
            None => {
                proof {
                    assert(!pending0.contains(collection_id)) by {
                        if pending0.contains(collection_id) {
                            let k = choose|k: int|
                                0 <= k < pending0.len() && pending0[k] == collection_id;
                            assert(false);
                        }
                    }
                }
            },
        }
        proof {
            if old_self.versions_to_delete_output is Some {
                assert forall|t: int|
                    0 <= t < self.pending_mark_versions_at_sysdb_tasks@.len() implies old_self.versions_to_delete_output.unwrap().has_collection(
                    #[trigger] self.pending_mark_versions_at_sysdb_tasks@[t],
                ) by {
                    assert(self.pending_mark_versions_at_sysdb_tasks@.contains(
                        self.pending_mark_versions_at_sysdb_tasks@[t],
                    ));
                    let k = choose|k: int|
                        0 <= k < pending0.len() && pending0[k]
                            == self.pending_mark_versions_at_sysdb_tasks@[t];
                }
            }
            Self::lemma_wf_frame(old_self, *self);
        }
        let delete_unused_logs = match self.try_start_delete_unused_logs_operator() {
            Ok(t) => t,
            Err(e) => {
                proof {
                    Self::lemma_logs_inputs_frame(*old(self), *self);
                }
                return Err(e);
            },
        };
        let delete_unused_files = match self.try_start_delete_unused_files_operator() {
            Ok(t) => t,
            Err(e) => {
                return Err(e);
            },
        };
        Ok(MarkStep { delete_unused_logs, delete_unused_files })
    }

    /// Receives one list-files completion: checks the empty-listing defense,
    /// folds the paths into the reference counts — a Keep version increments
    /// each of its paths, a Delete version only makes them known — and, when
    /// it was the last listing, starts the file cleanup.
    #[verifier::rlimit(80)]
    pub fn handle_list_files_at_version_output(
        &mut self,
        collection_id: CollectionId,
        version: u64,
        file_paths: Vec<String>,
    ) -> (r: Result<Option<DeleteUnusedFilesTask>, GarbageCollectorError>)
        requires
            old(self).wf(),
        ensures
            final(self).wf(),
            match r {
                Ok(step) => {
                    &&& old(self).versions_to_delete_output matches Some(vd) && vd.has_pair(
                        collection_id,
                        version,
                    )
                    &&& old(self).pending_list_files_at_version_tasks@.contains(
                        (VersionPair { collection_id, version }),
                    )
                    &&& forall|x: VersionPair|
                        #[trigger] final(self).pending_list_files_at_version_tasks@.contains(x)
                            <==> (old(self).pending_list_files_at_version_tasks@.contains(x) && x
                            != (VersionPair { collection_id, version }))
                    &&& final(self).listed@ == old(self).listed@.insert(
                        (VersionPair { collection_id, version }),
                        Set::new(|p: Seq<char>| crate::refcount::mentions(file_paths@, p)),
                    )
                    &&& forall|q: Seq<char>|
                        #[trigger] has_path(final(self).file_ref_counts@, q) <==> (has_path(
                            old(self).file_ref_counts@,
                            q,
                        ) || crate::refcount::mentions(file_paths@, q))
                    &&& (old(self).versions_to_delete_output.unwrap().pair_action(
                        collection_id,
                        version,
                    ) == VersionAction::Keep ==> forall|q: Seq<char>|
                        #[trigger] final(self).retained(q) <==> (old(self).retained(q)
                            || crate::refcount::mentions(file_paths@, q)))
                    &&& (old(self).versions_to_delete_output.unwrap().pair_action(
                        collection_id,
                        version,
                    ) == VersionAction::Delete ==> forall|q: Seq<char>|
                        #[trigger] final(self).retained(q) <==> old(self).retained(q))
                    &&& forall|q: Seq<char>|
                        #[trigger] crate::refcount::mentions(file_paths@, q) ==> count_of(
                            final(self).file_ref_counts@,
                            q,
                        ) == (if has_path(old(self).file_ref_counts@, q) {
                            count_of(old(self).file_ref_counts@, q) as int
                        } else {
                            0int
                        }) + (if old(self).versions_to_delete_output.unwrap().pair_action(
                            collection_id,
                            version,
                        ) == VersionAction::Keep {
                            1int
                        } else {
                            0int
                        })
                    &&& forall|q: Seq<char>|
                        !crate::refcount::mentions(file_paths@, q) && #[trigger] has_path(
                            old(self).file_ref_counts@,
                            q,
                        ) ==> count_of(final(self).file_ref_counts@, q) == count_of(
                            old(self).file_ref_counts@,
                            q,
                        )
                    &&& (step is Some <==> final(self).files_fanin_done())
                    &&& (step matches Some(task) ==> final(self).files_task_ok(task))
                    &&& final(self).versions_to_delete_output == old(self).versions_to_delete_output
                    &&& final(self).pending_mark_versions_at_sysdb_tasks == old(self).pending_mark_versions_at_sysdb_tasks
                    &&& final(self).graph == old(self).graph
                    &&& final(self).cleanup_mode == old(self).cleanup_mode
                },
                Err(_) => *final(self) == *old(self),
            },
            r is Ok <==> old(self).listing_accepted(collection_id, version, file_paths@),
            ({
                &&& old(self).listing_classified(collection_id, version)
                &&& file_paths@.len() == 0
                &&& old(self).graph matches Some(g) && g.has_node(collection_id, version) && (
                exists|rt: int| 0 <= rt < g.nodes@.len() && !(#[trigger] g.has_incoming(rt)))
                    && !g.empty_listing_allowed(collection_id, version)
            }) ==> (r matches Err(GarbageCollectorError::InvariantViolation(m)) && m@
                == "Version of collection has no file paths, but has non-v0 ancestors. This should never happen."@),
    {
        let pr = VersionPair { collection_id, version };
        let vd = match &self.versions_to_delete_output {
            Some(vd) => vd,
            None => {
                return Err(
                    GarbageCollectorError::InvariantViolation(
                        "Expected versions_to_delete_output to be set".to_string(),
                    ),
                );
            },
        };
        // Look up how this version was classified.
        let mut k: usize = 0;
        let n = vd.versions.len();
        let mut entry_idx: Option<usize> = None;
        while k < n
            invariant
                0 <= k <= n,
                n == vd.versions@.len(),
                match entry_idx {
                    Some(e) => e < n && vd.versions@[e as int].collection_id == collection_id,
                    None => forall|m: int|
                        0 <= m < k ==> (#[trigger] vd.versions@[m]).collection_id != collection_id,
                },
            decreases n - k,
        {
            if entry_idx.is_none() && vd.versions[k].collection_id == collection_id {
                entry_idx = Some(k);
            }
            k += 1;
        }
        let ei = match entry_idx {
            Some(e) => e,
            None => {
                proof {
                    assert(!vd.has_pair(collection_id, version)) by {
                        if vd.has_pair(collection_id, version) {
                            let k2 = choose|k2: int|
                                0 <= k2 < vd.versions@.len() && (#[trigger] vd.versions@[k2]).collection_id
                                    == collection_id && vd.versions@[k2].has_version(version);
                            assert(false);
                        }
                    }
                }
                return Err(
                    GarbageCollectorError::InvariantViolation(
                        "Expected versions_to_delete_output to contain collection".to_string(),
                    ),
                );
            },
        };
        let entry = &vd.versions[ei];
        let mut m: usize = 0;
        let vn = entry.versions.len();
        let mut version_idx: Option<usize> = None;
        while m < vn
            invariant
                0 <= m <= vn,
                vn == entry.versions@.len(),
                match version_idx {
                    Some(v) => v < vn && entry.versions@[v as int].version == version,
                    None => forall|t: int|
                        0 <= t < m ==> (#[trigger] entry.versions@[t]).version != version,
                },
            decreases vn - m,
        {
            if version_idx.is_none() && entry.versions[m].version == version {
                version_idx = Some(m);
            }
            m += 1;
        }
        let vi = match version_idx {
            Some(v) => v,
            None => {
                proof {
                    assert(!vd.has_pair(collection_id, version)) by {
                        if vd.has_pair(collection_id, version) {
                            let k2 = choose|k2: int|
                                0 <= k2 < vd.versions@.len() && (#[trigger] vd.versions@[k2]).collection_id
                                    == collection_id && vd.versions@[k2].has_version(version);
                            if k2 != ei as int {
                                assert(vd.collection_ids()[k2] == vd.collection_ids()[ei as int]);
                                assert(false);
                            }
                            let t2 = choose|t2: int|
                                0 <= t2 < vd.versions@[k2].version_seq().len()
                                    && vd.versions@[k2].version_seq()[t2] == version;
                            assert(entry.versions@[t2].version == version);
                            assert(false);
                        }
                    }
                }
                return Err(
                    GarbageCollectorError::InvariantViolation(
                        "Expected versions_to_delete_output to contain version for collection".to_string(),
                    ),
                );
            },
        };
        let version_action = entry.versions[vi].action;
        proof {
            assert(entry.version_seq()[vi as int] == version);
            assert(vd.has_pair(collection_id, version));
            // the classification is duplicate-free, so this entry and this
            // version are the ones the specification functions name
            assert(vd.pair_action(collection_id, version) == version_action) by {
                let e0 = choose|e0: int|
                    0 <= e0 < vd.versions@.len() && (#[trigger] vd.versions@[e0]).collection_id
                        == collection_id;
                if e0 != ei as int {
                    assert(vd.collection_ids()[e0] == vd.collection_ids()[ei as int]);
                    assert(false);
                }
                let v0 = choose|v0: int|
                    0 <= v0 < entry.versions@.len() && (#[trigger] entry.versions@[v0]).version
                        == version;
                if v0 != vi as int {
                    assert(entry.version_seq()[v0] == entry.version_seq()[vi as int]);
                    assert(false);
                }
            }
        }
        // The listing must still be awaited, else the counts would be skewed.
        let mut t: usize = 0;
        let pn = self.pending_list_files_at_version_tasks.len();
        let mut pending_idx: Option<usize> = None;
        while t < pn
            invariant
                0 <= t <= pn,
                pn == self.pending_list_files_at_version_tasks@.len(),
                match pending_idx {
                    Some(p) => p < pn && self.pending_list_files_at_version_tasks@[p as int] == pr,
                    None => forall|u: int|
                        0 <= u < t ==> self.pending_list_files_at_version_tasks@[u] != pr,
                },
                pr == (VersionPair { collection_id, version }),
            decreases pn - t,
        {
            if pending_idx.is_none() && self.pending_list_files_at_version_tasks[t] == pr {
                pending_idx = Some(t);
            }
            t += 1;
        }
        let pi = match pending_idx {
            Some(p) => p,
            None => {
                proof {
                    assert(!self.pending_list_files_at_version_tasks@.contains(pr)) by {
                        if self.pending_list_files_at_version_tasks@.contains(pr) {
                            let u2 = choose|u2: int|
                                0 <= u2 < self.pending_list_files_at_version_tasks@.len()
                                    && self.pending_list_files_at_version_tasks@[u2] == pr;
                            assert(false);
                        }
                    }
                }
                return Err(
                    GarbageCollectorError::InvariantViolation(
                        "Expected list files task to be pending".to_string(),
                    ),
                );
            },
        };
        // An empty listing is allowed only for a bootstrap version whose
        // whole ancestry is at version 0; anything else means compaction
        // flushed a version without file output.
        if file_paths.len() == 0 {
            let graph = match &self.graph {
                Some(g) => g,
                None => {
                    return Err(
                        GarbageCollectorError::InvariantViolation(
                            "Expected graph to be set".to_string(),
                        ),
                    );
                },
            };
            let this_node = match graph.find_node_index(collection_id, version) {
                Some(i) => i,
                None => {
                    proof {
                        assert(!graph.empty_listing_allowed(collection_id, version)) by {
                            if graph.empty_listing_allowed(collection_id, version) {
                                let (s2, rt2) = choose|s2: int, rt2: int|
                                    #![trigger graph.rooted_v0_chain(s2, rt2, graph.nodes@.len() as nat)]
                                    {
                                        &&& 0 <= s2 < graph.nodes@.len() && graph.nodes@[s2] == (
                                        crate::graph::VersionGraphNode { collection_id, version })
                                        &&& 0 <= rt2 < graph.nodes@.len() && !graph.has_incoming(
                                            rt2,
                                        )
                                        &&& (forall|j: int|
                                            0 <= j < rt2 ==> graph.has_incoming(j))
                                        &&& graph.rooted_v0_chain(
                                            s2,
                                            rt2,
                                            graph.nodes@.len() as nat,
                                        )
                                    };
                                assert(false);
                            }
                        }
                    }
                    return Err(
                        GarbageCollectorError::InvariantViolation(
                            "Expected to find node for collection at version".to_string(),
                        ),
                    );
                },
            };
            let root = match graph.find_root_index() {
                Some(i) => i,
                None => {
                    proof {
                        assert(!graph.empty_listing_allowed(collection_id, version)) by {
                            if graph.empty_listing_allowed(collection_id, version) {
                                let (s2, rt2) = choose|s2: int, rt2: int|
                                    #![trigger graph.rooted_v0_chain(s2, rt2, graph.nodes@.len() as nat)]
                                    {
                                        &&& 0 <= s2 < graph.nodes@.len() && graph.nodes@[s2] == (
                                        crate::graph::VersionGraphNode { collection_id, version })
                                        &&& 0 <= rt2 < graph.nodes@.len() && !graph.has_incoming(
                                            rt2,
                                        )
                                        &&& (forall|j: int|
                                            0 <= j < rt2 ==> graph.has_incoming(j))
                                        &&& graph.rooted_v0_chain(
                                            s2,
                                            rt2,
                                            graph.nodes@.len() as nat,
                                        )
                                    };
                                assert(graph.has_incoming(rt2));
                                assert(false);
                            }
                        }
                    }
                    return Err(
                        GarbageCollectorError::InvariantViolation(
                            "Expected to find root node".to_string(),
                        ),
                    );
                },
            };
            if !graph.rooted_all_v0(this_node, root) {
                proof {
                    assert(!graph.empty_listing_allowed(collection_id, version)) by {
                        if graph.empty_listing_allowed(collection_id, version) {
                            let (s2, rt2) = choose|s2: int, rt2: int|
                                #![trigger graph.rooted_v0_chain(s2, rt2, graph.nodes@.len() as nat)]
                                {
                                    &&& 0 <= s2 < graph.nodes@.len() && graph.nodes@[s2] == (
                                    crate::graph::VersionGraphNode { collection_id, version })
                                    &&& 0 <= rt2 < graph.nodes@.len() && !graph.has_incoming(rt2)
                                    &&& (forall|j: int| 0 <= j < rt2 ==> graph.has_incoming(j))
                                    &&& graph.rooted_v0_chain(s2, rt2, graph.nodes@.len() as nat)
                                };
                            // the node and the first root are unique, so the
                            // witness chain is the one the walk refuted
                            assert(s2 == this_node as int) by {
                                if s2 != this_node as int {
                                    assert(graph.nodes@[s2] == graph.nodes@[this_node as int]);
                                    assert(false);
                                }
                            }
                            assert(rt2 == root as int) by {
                                if rt2 < root as int {
                                    assert(graph.has_incoming(rt2));
                                    assert(false);
                                }
                                if (root as int) < rt2 {
                                    assert(graph.has_incoming(root as int));
                                    assert(false);
                                }
                            }
                            assert(false);
                        }
                    }
                }
                return Err(
                    GarbageCollectorError::InvariantViolation(
                        "Version of collection has no file paths, but has non-v0 ancestors. This should never happen.".to_string(),
                    ),
                );
            }
            proof {
                assert(graph.empty_listing_allowed(collection_id, version)) by {
                    assert(graph.rooted_v0_chain(
                        this_node as int,
                        root as int,
                        graph.nodes@.len() as nat,
                    ));
                }
            }
        }
        // If this completion finishes both fan-outs, the file cleanup starts
        // at once; fail here, before any state changes, when it cannot.
        if self.pending_list_files_at_version_tasks.len() == 1
            && self.pending_mark_versions_at_sysdb_tasks.len() == 0 {
            if self.version_files.len() == 0 {
                return Err(
                    GarbageCollectorError::InvariantViolation(
                        "Expected there to be at least one version file".to_string(),
                    ),
                );
            }
            if self.version_files[0].file.collection_info_immutable.is_none() {
                return Err(
                    GarbageCollectorError::InvariantViolation(
                        "Expected collection_info_immutable to be set".to_string(),
                    ),
                );
            }
        }
        proof {
            assert(old(self).listing_accepted(collection_id, version, file_paths@));
        }
        let paths = crate::refcount::dedup_paths(&file_paths);
        let ghost counts0 = self.file_ref_counts@;
        let ghost pending0 = self.pending_list_files_at_version_tasks@;
        let ghost total = self.total_list_tasks@;
        self.pending_list_files_at_version_tasks.remove(pi);
        proof {
            crate::lookup::lemma_remove_element(pending0, pi as int);
        }
        let ghost pending1 = self.pending_list_files_at_version_tasks@;
        let keep = matches!(version_action, VersionAction::Keep);
        proof {
            assert forall|q: Seq<char>| #[trigger] has_path(counts0, q) implies count_of(
                counts0,
                q,
            ) < u64::MAX by {
                assert(count_of(counts0, q) <= total - pending0.len());
                assert(pending0.len() >= 1) by {
                    assert(pending0.contains(pr));
                }
                assert(total <= usize::MAX);
            }
        }
        let mut i: usize = 0;
        while i < paths.len()
            invariant
                0 <= i <= paths@.len(),
                self.versions_to_delete_output == old(self).versions_to_delete_output,
                self.version_files == old(self).version_files,
                self.graph == old(self).graph,
                self.soft_deleted_collections_to_gc == old(self).soft_deleted_collections_to_gc,
                self.cleanup_mode == old(self).cleanup_mode,
                self.collection_id == old(self).collection_id,
                self.pending_mark_versions_at_sysdb_tasks == old(self).pending_mark_versions_at_sysdb_tasks,
                self.pending_delete_versions_tasks == old(self).pending_delete_versions_tasks,
                self.delete_versions_dispatched == old(self).delete_versions_dispatched,
                self.num_versions_to_delete_total == old(self).num_versions_to_delete_total,
                self.num_files_deleted == old(self).num_files_deleted,
                self.delete_unused_file_output == old(self).delete_unused_file_output,
                self.delete_unused_log_output_received == old(self).delete_unused_log_output_received,
                self.tenant == old(self).tenant,
                self.database_name == old(self).database_name,
                self.total_list_tasks == old(self).total_list_tasks,
                self.listed == old(self).listed,
                self.pending_list_files_at_version_tasks@ == pending1,
                unique_paths(self.file_ref_counts@),
                forall|a: int, b: int|
                    0 <= a < b < paths@.len() ==> (#[trigger] paths@[a])@ != (#[trigger] paths@[b])@,
                unique_paths(counts0),
                forall|q: Seq<char>|
                    #[trigger] has_path(self.file_ref_counts@, q) <==> (has_path(counts0, q)
                        || crate::refcount::mentions(paths@.take(i as int), q)),
                forall|q: Seq<char>|
                    crate::refcount::mentions(paths@.take(i as int), q)
                        ==> #[trigger] count_of(self.file_ref_counts@, q) == (
                    if has_path(counts0, q) {
                        count_of(counts0, q) + (if keep { 1int } else { 0int })
                    } else {
                        (if keep { 1int } else { 0int })
                    }),
                forall|q: Seq<char>|
                    !crate::refcount::mentions(paths@.take(i as int), q) && #[trigger] has_path(
                        counts0,
                        q,
                    ) ==> count_of(self.file_ref_counts@, q) == count_of(counts0, q),
                forall|q: Seq<char>|
                    #[trigger] has_path(counts0, q) ==> count_of(counts0, q) < u64::MAX,
            decreases paths@.len() - i,
        {
            let ghost mid = self.file_ref_counts@;
            let ghost pview = paths@[i as int]@;
            proof {
                assert(paths@.take(i as int + 1) =~= paths@.take(i as int).push(paths@[i as int]));
                assert(!crate::refcount::mentions(paths@.take(i as int), pview)) by {
                    if crate::refcount::mentions(paths@.take(i as int), pview) {
                        let a = choose|a: int|
                            0 <= a < i && (#[trigger] paths@.take(i as int)[a])@ == pview;
                        assert(paths@[a]@ == paths@[i as int]@);
                        assert(false);
                    }
                }
            }
            if keep {
                crate::refcount::bump(&mut self.file_ref_counts, &paths[i]);
                proof {
                    assert(count_of(self.file_ref_counts@, pview) == if has_path(mid, pview) {
                        count_of(mid, pview) + 1
                    } else {
                        1int
                    });
                    assert(has_path(mid, pview) <==> has_path(counts0, pview));
                    if has_path(counts0, pview) {
                        assert(count_of(mid, pview) == count_of(counts0, pview));
                    }
                }
            } else {
                crate::refcount::touch(&mut self.file_ref_counts, &paths[i]);
                proof {
                    assert(count_of(self.file_ref_counts@, pview) == if has_path(mid, pview) {
                        count_of(mid, pview) as int
                    } else {
                        0int
                    });
                    assert(has_path(mid, pview) <==> has_path(counts0, pview));
                    if has_path(counts0, pview) {
                        assert(count_of(mid, pview) == count_of(counts0, pview));
                    }
                }
            }
            proof {
                assert forall|q: Seq<char>|
                    crate::refcount::mentions(paths@.take(i as int + 1), q) implies #[trigger] count_of(
                    self.file_ref_counts@,
                    q,
                ) == (if has_path(counts0, q) {
                    count_of(counts0, q) + (if keep { 1int } else { 0int })
                } else {
                    (if keep { 1int } else { 0int })
                }) by {
                    let a = choose|a: int|
                        0 <= a < i + 1 && (#[trigger] paths@.take(i as int + 1)[a])@ == q;
                    if a == i as int {
                        assert(q == pview);
                        assert(has_path(mid, q) <==> has_path(counts0, q));
                        if has_path(counts0, q) {
                            assert(count_of(mid, q) == count_of(counts0, q));
                        }
                    } else {
                        assert(crate::refcount::mentions(paths@.take(i as int), q)) by {
                            assert(paths@.take(i as int)[a]@ == q);
                        }
                        assert(q != pview);
                        assert(has_path(mid, q));
                        assert(count_of(mid, q) == (if has_path(counts0, q) {
                            count_of(counts0, q) + (if keep {
                                1int
                            } else {
                                0int
                            })
                        } else {
                            (if keep {
                                1int
                            } else {
                                0int
                            })
                        }));
                        assert(count_of(self.file_ref_counts@, q) == count_of(mid, q));
                    }
                }
                assert forall|q: Seq<char>|
                    !crate::refcount::mentions(paths@.take(i as int + 1), q) && #[trigger] has_path(
                        counts0,
                        q,
                    ) implies count_of(self.file_ref_counts@, q) == count_of(counts0, q) by {
                    assert(!crate::refcount::mentions(paths@.take(i as int), q)) by {
                        if crate::refcount::mentions(paths@.take(i as int), q) {
                            let a = choose|a: int|
                                0 <= a < i && (#[trigger] paths@.take(i as int)[a])@ == q;
                            assert(paths@.take(i as int + 1)[a]@ == q);
                        }
                    }
                    assert(q != pview) by {
                        if q == pview {
                            assert(paths@.take(i as int + 1)[i as int]@ == q);
                        }
                    }
                    assert(has_path(mid, q));
                    assert(count_of(mid, q) == count_of(counts0, q));
                    assert(count_of(self.file_ref_counts@, q) == count_of(mid, q));
                }
                assert forall|q: Seq<char>|
                    #[trigger] has_path(self.file_ref_counts@, q) implies (has_path(counts0, q)
                        || crate::refcount::mentions(paths@.take(i as int + 1), q)) by {
                    if !has_path(counts0, q) && !crate::refcount::mentions(
                        paths@.take(i as int),
                        q,
                    ) {
                        assert(q == pview);
                        assert(paths@.take(i as int + 1)[i as int]@ == q);
                    }
                }
                assert forall|q: Seq<char>|
                    (has_path(counts0, q) || crate::refcount::mentions(
                        paths@.take(i as int + 1),
                        q,
                    )) implies #[trigger] has_path(self.file_ref_counts@, q) by {
                    if crate::refcount::mentions(paths@.take(i as int + 1), q) {
                        let a = choose|a: int|
                            0 <= a < i + 1 && (#[trigger] paths@.take(i as int + 1)[a])@ == q;
                        if a < i as int {
                            assert(paths@.take(i as int)[a]@ == q);
                            assert(crate::refcount::mentions(paths@.take(i as int), q));
                        } else {
                            assert(q == pview);
                        }
                    }
                }
            }
            i += 1;
        }
        proof {
            assert(paths@.take(paths@.len() as int) =~= paths@);
        }
        proof {
            self.listed@ = self.listed@.insert(
                pr,
                Set::new(|p: Seq<char>| crate::refcount::mentions(file_paths@, p)),
            );
        }
        proof {
            lemma_after_listing(*old(self), *self, pr, file_paths@, paths@, keep);
        }
        let step = match self.try_start_delete_unused_files_operator() {
            Ok(s) => s,
            Err(e) => {
                return Err(e);
            },
        };
        Ok(step)
    }

    /// Receives the delete-files completion with the paths actually deleted
    /// (all of the requested ones in Delete mode, none in a dry run).
    pub fn handle_delete_unused_files_output(&mut self, deleted_files: Vec<String>) -> (r: Result<
        DeleteVersionsStep,
        GarbageCollectorError,
    >)
        requires
            old(self).wf(),
        ensures
            final(self).wf(),
            old(self).cleanup_mode == CleanupMode::DryRun && old(self).delete_unused_file_output
                is None && old(self).delete_unused_log_output_received ==> match r {
                Ok(step) => step matches DeleteVersionsStep::Done(resp) && resp.num_files_deleted
                    == 0 && resp.num_versions_deleted == 0 && resp.collection_id == old(self).collection_id,
                Err(_) => false,
            },
            match r {
                Ok(step) => {
                    &&& old(self).delete_unused_file_output is None
                    &&& final(self).delete_unused_file_output matches Some(d) && d@ == deleted_files@
                    &&& delete_versions_step_ok(
                        *old(self),
                        *final(self),
                        deleted_files@,
                        true,
                        step,
                    )
                },
                Err(_) => {
                    &&& *final(self) == (GarbageCollectorOrchestrator {
                        delete_unused_file_output: final(self).delete_unused_file_output,
                        ..*old(self)
                    })
                    &&& (old(self).delete_unused_file_output is Some || (old(self).delete_unused_log_output_received && old(self).cleanup_mode
                        == CleanupMode::Delete && (old(self).delete_versions_dispatched || old(self).versions_to_delete_output is None || !mark_inputs_ok(
                        old(self).versions_to_delete_output.unwrap(),
                        old(self).version_files@,
                    ))))
                },
            },
    {
        if self.delete_unused_file_output.is_some() {
            return Err(
                GarbageCollectorError::InvariantViolation(
                    "Expected delete files output to be received only once".to_string(),
                ),
            );
        }
        self.delete_unused_file_output = Some(deleted_files);
        proof {
            Self::lemma_wf_frame(*old(self), *self);
        }
        self.try_start_delete_versions_at_sysdb_operator()
    }

    /// Receives the delete-logs completion.
    pub fn handle_delete_unused_logs_output(&mut self) -> (r: Result<
        DeleteVersionsStep,
        GarbageCollectorError,
    >)
        requires
            old(self).wf(),
        ensures
            final(self).wf(),
            old(self).cleanup_mode == CleanupMode::DryRun && old(self).delete_unused_file_output
                is Some && !old(self).delete_unused_log_output_received ==> match r {
                Ok(step) => step matches DeleteVersionsStep::Done(resp) && resp.num_files_deleted
                    == 0 && resp.num_versions_deleted == 0 && resp.collection_id == old(self).collection_id,
                Err(_) => false,
            },
            match r {
                Ok(step) => {
                    &&& !old(self).delete_unused_log_output_received
                    &&& final(self).delete_unused_log_output_received
                    &&& match old(self).delete_unused_file_output {
                        Some(d) => delete_versions_step_ok(*old(self), *final(self), d@, true, step),
                        None => step is Wait,
                    }
                },
                Err(_) => {
                    &&& *final(self) == (GarbageCollectorOrchestrator {
                        delete_unused_log_output_received: final(self).delete_unused_log_output_received,
                        ..*old(self)
                    })
                    &&& (old(self).delete_unused_log_output_received || (old(self).delete_unused_file_output is Some && old(self).cleanup_mode
                        == CleanupMode::Delete && (old(self).delete_versions_dispatched || old(self).versions_to_delete_output is None || !mark_inputs_ok(
                        old(self).versions_to_delete_output.unwrap(),
                        old(self).version_files@,
                    ))))
                },
            },
    {
        if self.delete_unused_log_output_received {
            return Err(
                GarbageCollectorError::InvariantViolation(
                    "Expected delete logs output to be received only once".to_string(),
                ),
            );
        }
        self.delete_unused_log_output_received = true;
        proof {
            Self::lemma_wf_frame(*old(self), *self);
        }
        self.try_start_delete_versions_at_sysdb_operator()
    }

    /// Once blobs and logs are gone, fans out one version-removal task per
    /// collection with deletions. A dry run ends here with zero totals, as
    /// does a classification that deleted nothing.
    #[verifier::rlimit(100)]
    fn try_start_delete_versions_at_sysdb_operator(&mut self) -> (r: Result<
        DeleteVersionsStep,
        GarbageCollectorError,
    >)
        requires
            old(self).wf(),
        ensures
            final(self).wf(),
            old(self).cleanup_mode == CleanupMode::DryRun && old(self).delete_unused_file_output
                is Some && old(self).delete_unused_log_output_received ==> match r {
                Ok(step) => step matches DeleteVersionsStep::Done(resp) && resp.num_files_deleted
                    == 0 && resp.num_versions_deleted == 0 && resp.collection_id == old(self).collection_id,
                Err(_) => false,
            },
            match r {
                Ok(step) => {
                    &&& final(self).delete_unused_log_output_received == old(self).delete_unused_log_output_received
                    &&& final(self).delete_unused_file_output == old(self).delete_unused_file_output
                    &&& final(self).versions_to_delete_output == old(self).versions_to_delete_output
                    &&& final(self).cleanup_mode == old(self).cleanup_mode
                    &&& final(self).collection_id == old(self).collection_id
                    &&& final(self).graph == old(self).graph
                    &&& final(self).soft_deleted_collections_to_gc == old(self).soft_deleted_collections_to_gc
                    &&& match old(self).delete_unused_file_output {
                        Some(d) => delete_versions_step_ok(*old(self), *final(self), d@, true, step),
                        None => step is Wait && *final(self) == *old(self),
                    }
                },
                Err(_) => {
                    &&& *final(self) == *old(self)
                    &&& old(self).cleanup_mode == CleanupMode::Delete
                    &&& old(self).delete_unused_file_output is Some
                    &&& old(self).delete_unused_log_output_received
                    &&& (old(self).delete_versions_dispatched || old(self).versions_to_delete_output
                        is None || !mark_inputs_ok(
                        old(self).versions_to_delete_output.unwrap(),
                        old(self).version_files@,
                    ))
                },
            },
    {
        let deleted = match &self.delete_unused_file_output {
            Some(d) => d,
            None => {
                return Ok(DeleteVersionsStep::Wait);
            },
        };
        if !self.delete_unused_log_output_received {
            return Ok(DeleteVersionsStep::Wait);
        }
        if matches!(self.cleanup_mode, CleanupMode::DryRun) {
            let response = GarbageCollectorResponse {
                collection_id: self.collection_id,
                num_versions_deleted: 0,
                num_files_deleted: 0,
            };
            return Ok(DeleteVersionsStep::Done(response));
        }
        if self.delete_versions_dispatched {
            return Err(
                GarbageCollectorError::InvariantViolation(
                    "Expected delete versions tasks to be dispatched only once".to_string(),
                ),
            );
        }
        let vd = match &self.versions_to_delete_output {
            Some(vd) => vd,
            None => {
                return Err(
                    GarbageCollectorError::InvariantViolation(
                        "Expected versions_to_delete_output to be set".to_string(),
                    ),
                );
            },
        };
        let ghost vdseq = vd.versions@;
        let mut tasks: Vec<DeleteVersionsTask> = Vec::new();
        let mut task_cids: Vec<CollectionId> = Vec::new();
        let mut total: usize = 0;
        let mut k: usize = 0;
        proof {
            assert(vdseq.take(0) =~= Seq::<CollectionVersions>::empty());
        }
        while k < vd.versions.len()
            invariant
                0 <= k <= vdseq.len(),
                *self == *old(self),
                self.wf(),
                self.cleanup_mode != CleanupMode::DryRun,
                !self.delete_versions_dispatched,
                self.delete_unused_log_output_received,
                self.versions_to_delete_output matches Some(v) && v == vd,
                vdseq == vd.versions@,
                vd.wf(),
                self.delete_unused_file_output matches Some(d) && d == deleted,
                total == crate::classify::deletes_count(vdseq.take(k as int)),
                task_cids@.len() == tasks@.len(),
                forall|t: int| 0 <= t < tasks@.len() ==> (#[trigger] tasks@[t]).collection_id
                    == task_cids@[t],
                task_cids@.no_duplicates(),
                forall|t: int|
                    0 <= t < tasks@.len() ==> exists|m: int|
                        0 <= m < k && delete_task_ok(
                            #[trigger] tasks@[t],
                            vdseq[m],
                            self.version_files@,
                            deleted@,
                        ) && vdseq[m].collection_id == tasks@[t].collection_id,
                forall|m: int|
                    0 <= m < k && delete_versions_of(#[trigger] vdseq[m]).len() > 0 ==> exists|
                        t: int,
                    |
                        0 <= t < tasks@.len() && (#[trigger] tasks@[t]).collection_id
                            == vdseq[m].collection_id,
                forall|t: int|
                    0 <= t < task_cids@.len() ==> exists|m: int|
                        0 <= m < k && (#[trigger] task_cids@[t]) == vdseq[m].collection_id,
            decreases vdseq.len() - k,
        {
            let entry = &vd.versions[k];
            let mut versions_to_delete: Vec<u64> = Vec::new();
            let mut m: usize = 0;
            proof {
                assert(entry.versions@.take(0) =~= Seq::<VersionEntry>::empty());
            }
            while m < entry.versions.len()
                invariant
                    0 <= m <= entry.versions@.len(),
                    k < vdseq.len(),
                    *entry == vdseq[k as int],
                    versions_to_delete@ == crate::classify::delete_versions_seq(
                        entry.versions@.take(m as int),
                    ),
                decreases entry.versions@.len() - m,
            {
                proof {
                    assert(entry.versions@.take(m as int + 1).drop_last() =~= entry.versions@.take(
                        m as int,
                    ));
                    assert(entry.versions@.take(m as int + 1).last() == entry.versions@[m as int]);
                }
                if matches!(entry.versions[m].action, VersionAction::Delete) {
                    versions_to_delete.push(entry.versions[m].version);
                } else {
                    proof {
                        assert(!is_delete_entry(entry.versions@[m as int]));
                    }
                }
                m += 1;
            }
            proof {
                assert(entry.versions@.take(entry.versions@.len() as int) =~= entry.versions@);
                crate::classify::lemma_deletes_count_take(vdseq, k as int);
                crate::classify::lemma_deletes_le_pairs(vdseq.take(k as int + 1));
                crate::classify::lemma_pairs_count_prefix(vdseq, k as int + 1);
                assert(vdseq.take(vdseq.len() as int) =~= vdseq);
                assert(crate::classify::pairs_count(vdseq) == vd.total_pairs());
            }
            if versions_to_delete.len() > 0 {
                let file = match find_version_file(&self.version_files, entry.collection_id) {
                    Some(f) => f,
                    None => {
                        proof {
                            assert(!mark_inputs_ok(*vd, self.version_files@)) by {
                                assert(!has_version_file(
                                    self.version_files@,
                                    vdseq[k as int].collection_id,
                                ));
                            }
                        }
                        return Err(GarbageCollectorError::MissingVersionFile(entry.collection_id));
                    },
                };
                let info = match &file.collection_info_immutable {
                    Some(ci) => ci,
                    None => {
                        proof {
                            assert(!mark_inputs_ok(*vd, self.version_files@)) by {
                                assert(version_file_for(
                                    self.version_files@,
                                    vdseq[k as int].collection_id,
                                ).collection_info_immutable is None);
                            }
                        }
                        return Err(
                            GarbageCollectorError::InvariantViolation(
                                "Expected collection_info_immutable to be set".to_string(),
                            ),
                        );
                    },
                };
                let ghost prev_cids = task_cids@;
                let ghost prev_tasks = tasks@;
                let task = DeleteVersionsTask {
                    collection_id: entry.collection_id,
                    versions: versions_to_delete,
                    tenant_id: info.tenant_id.clone(),
                    database_id: info.database_id.clone(),
                    unused_s3_files: clone_paths(deleted),
                };
                let new_total = total + task.versions.len();
                proof {
                    // the new collection was not among the earlier ones
                    assert forall|t: int| 0 <= t < prev_cids.len() implies prev_cids[t]
                        != entry.collection_id by {
                        let m2 = choose|m2: int|
                            0 <= m2 < k && (#[trigger] prev_cids[t]) == vdseq[m2].collection_id;
                        assert(vd.collection_ids()[m2] == vd.collection_ids()[k as int]
                            ==> false);
                    }
                }
                tasks.push(task);
                task_cids.push(entry.collection_id);
                total = new_total;
                proof {
                    assert(task_cids@[task_cids@.len() - 1] == entry.collection_id);
                    assert(tasks@[tasks@.len() - 1].collection_id == entry.collection_id);
                    assert(delete_task_ok(
                        tasks@[tasks@.len() - 1],
                        vdseq[k as int],
                        self.version_files@,
                        deleted@,
                    ));
                    assert forall|t: int|
                        0 <= t < prev_cids.len() implies task_cids@[t] == prev_cids[t] by {}
                    assert forall|t: int|
                        0 <= t < tasks@.len() implies exists|m2: int|
                            0 <= m2 < k + 1 && delete_task_ok(
                                #[trigger] tasks@[t],
                                vdseq[m2],
                                self.version_files@,
                                deleted@,
                            ) && vdseq[m2].collection_id == tasks@[t].collection_id by {
                        if t < prev_tasks.len() {
                            assert(tasks@[t] == prev_tasks[t]);
                            let m2 = choose|m2: int|
                                0 <= m2 < k && delete_task_ok(
                                    #[trigger] prev_tasks[t],
                                    vdseq[m2],
                                    self.version_files@,
                                    deleted@,
                                ) && vdseq[m2].collection_id == prev_tasks[t].collection_id;
                            assert(delete_task_ok(
                                tasks@[t],
                                vdseq[m2],
                                self.version_files@,
                                deleted@,
                            ));
                        } else {
                            assert(delete_task_ok(
                                tasks@[t],
                                vdseq[k as int],
                                self.version_files@,
                                deleted@,
                            ));
                        }
                    }
                    assert forall|m2: int|
                        0 <= m2 < k + 1 && delete_versions_of(#[trigger] vdseq[m2]).len()
                            > 0 implies exists|t: int|
                            0 <= t < tasks@.len() && (#[trigger] tasks@[t]).collection_id
                                == vdseq[m2].collection_id by {
                        if m2 < k {
                            let t = choose|t: int|
                                0 <= t < prev_tasks.len() && (#[trigger] prev_tasks[t]).collection_id
                                    == vdseq[m2].collection_id;
                            assert(tasks@[t].collection_id == vdseq[m2].collection_id);
                        } else {
                            assert(tasks@[tasks@.len() - 1].collection_id
                                == vdseq[m2].collection_id);
                        }
                    }
                    assert forall|t: int|
                        0 <= t < task_cids@.len() implies exists|m2: int|
                            0 <= m2 < k + 1 && (#[trigger] task_cids@[t])
                                == vdseq[m2].collection_id by {
                        if t < prev_cids.len() {
                            assert(task_cids@[t] == prev_cids[t]);
                            let m2 = choose|m2: int|
                                0 <= m2 < k && (#[trigger] prev_cids[t])
                                    == vdseq[m2].collection_id;
                            assert(task_cids@[t] == vdseq[m2].collection_id);
                        } else {
                            assert(task_cids@[t] == vdseq[k as int].collection_id);
                        }
                    }
                }
            } else {
                proof {
                    assert(delete_versions_of(vdseq[k as int]).len() == 0);
                }
            }
            k += 1;
        }
        proof {
            assert(vdseq.take(vdseq.len() as int) =~= vdseq);
        }
        // In Delete mode the operator reports exactly what it was asked to
        // delete, so the count is final here.
        self.num_files_deleted = deleted.len() as u64;
        if total == 0 {
            let response = GarbageCollectorResponse {
                collection_id: self.collection_id,
                num_versions_deleted: 0,
                num_files_deleted: 0,
            };
            proof {
                Self::lemma_wf_frame(*old(self), *self);
            }
            return Ok(DeleteVersionsStep::Done(response));
        }
        self.num_versions_to_delete_total = total as u64;
        self.delete_versions_dispatched = true;
        self.pending_delete_versions_tasks = task_cids;
        proof {
            assert(total == self.versions_to_delete_output.unwrap().total_deletes());
            assert(self.pending_delete_versions_tasks@ =~= tasks@.map_values(
                |task: DeleteVersionsTask| task.collection_id,
            ));
            assert forall|i: int|
                0 <= i < self.pending_delete_versions_tasks@.len() implies self.versions_to_delete_output.unwrap().has_collection(
                #[trigger] self.pending_delete_versions_tasks@[i],
            ) by {
                let m = choose|m: int|
                    0 <= m < vdseq.len() && (#[trigger] self.pending_delete_versions_tasks@[i])
                        == vdseq[m].collection_id;
                assert(self.versions_to_delete_output.unwrap().collection_ids()[m]
                    == vdseq[m].collection_id);
            }
            Self::lemma_wf_frame(*old(self), *self);
        }
        let step = DeleteVersionsStep::Dispatch(tasks);
        proof {
            let d0 = old(self).delete_unused_file_output.unwrap();
            assert(delete_versions_step_ok(*old(self), *self, d0@, true, step));
        }
        Ok(step)
    }

    /// Receives one version-removal completion. When it was the last, the
    /// hard-delete order is computed over the dependency graph and the run
    /// finishes with its totals.
    pub fn handle_delete_versions_output(&mut self, collection_id: CollectionId) -> (r: Result<
        Option<CollectionCompletion>,
        GarbageCollectorError,
    >)
        requires
            old(self).wf(),
        ensures
            final(self).wf(),
            match r {
                Ok(step) => {
                    &&& old(self).delete_versions_dispatched
                    &&& old(self).pending_delete_versions_tasks@.contains(collection_id)
                    &&& forall|x: CollectionId|
                        #[trigger] final(self).pending_delete_versions_tasks@.contains(x) <==> (old(self).pending_delete_versions_tasks@.contains(x) && x != collection_id)
                    &&& (step is Some <==> final(self).pending_delete_versions_tasks@.len() == 0)
                    &&& match step {
                        Some(c) => {
                            &&& c.response.collection_id == old(self).collection_id
                            &&& c.response.num_versions_deleted
                                == old(self).versions_to_delete_output.unwrap().total_deletes()
                            &&& c.response.num_files_deleted == old(self).num_files_deleted
                            &&& old(self).graph is Some
                            &&& old(self).tenant is Some
                            &&& old(self).database_name is Some
                            &&& exists|dep: CollectionDependencyGraph|
                                crate::dep_graph::dep_matches_graph(
                                    dep,
                                    old(self).graph.unwrap(),
                                ) && crate::dep_graph::hard_delete_cids_ok(
                                    dep,
                                    old(self).soft_deleted_collections_to_gc@,
                                    c.hard_delete_tasks@.map_values(
                                        |t: HardDeleteTask| t.collection_id,
                                    ),
                                )
                            &&& forall|t: int|
                                0 <= t < c.hard_delete_tasks@.len() ==> {
                                    &&& (#[trigger] c.hard_delete_tasks@[t]).tenant@ == old(self).tenant.unwrap()@
                                    &&& c.hard_delete_tasks@[t].database_name@ == old(self).database_name.unwrap()@
                                }
                        },
                        None => true,
                    }
                },
                Err(_) => {
                    &&& final(self).file_ref_counts == old(self).file_ref_counts
                    &&& final(self).versions_to_delete_output == old(self).versions_to_delete_output
                    &&& final(self).pending_list_files_at_version_tasks == old(self).pending_list_files_at_version_tasks
                    &&& final(self).pending_mark_versions_at_sysdb_tasks == old(self).pending_mark_versions_at_sysdb_tasks
                    &&& final(self).listed == old(self).listed
                    &&& final(self).num_files_deleted == old(self).num_files_deleted
                    &&& final(self).num_versions_to_delete_total == old(self).num_versions_to_delete_total
                    &&& final(self).delete_versions_dispatched == old(self).delete_versions_dispatched
                    &&& final(self).graph == old(self).graph
                    &&& final(self).tenant == old(self).tenant
                    &&& final(self).database_name == old(self).database_name
                    &&& (!old(self).delete_versions_dispatched || !old(
                        self,
                    ).pending_delete_versions_tasks@.contains(collection_id) || old(self).graph
                        is None || old(self).tenant is None || old(self).database_name is None || (
                    old(self).graph matches Some(g) && exists|dep: CollectionDependencyGraph|
                        crate::dep_graph::dep_matches_graph(dep, g) && (exists|bs: Set<usize>|
                            #[trigger] dep.blocked_set(bs))))
                },
            },
    {
        if !self.delete_versions_dispatched {
            return Err(
                GarbageCollectorError::InvariantViolation(
                    "Expected delete versions tasks to have been dispatched".to_string(),
                ),
            );
        }
        let mut i: usize = 0;
        let n = self.pending_delete_versions_tasks.len();
        let ghost pending0 = self.pending_delete_versions_tasks@;
        let mut found: Option<usize> = None;
        while i < n
            invariant
                0 <= i <= n,
                n == self.pending_delete_versions_tasks@.len(),
                self.pending_delete_versions_tasks@ == pending0,
                match found {
                    Some(idx) => idx < n && pending0[idx as int] == collection_id,
                    None => forall|m: int| 0 <= m < i ==> pending0[m] != collection_id,
                },
            decreases n - i,
        {
            if found.is_none() && self.pending_delete_versions_tasks[i] == collection_id {
                found = Some(i);
            }
            i += 1;
        }
        let idx = match found {
            Some(idx) => idx,
            None => {
                proof {
                    if pending0.contains(collection_id) {
                        let kk = choose|kk: int|
                            0 <= kk < pending0.len() && pending0[kk] == collection_id;
                        assert(false);
                    }
                }
                return Err(
                    GarbageCollectorError::InvariantViolation(
                        "Expected delete versions task to be pending".to_string(),
                    ),
                );
            },
        };
        self.pending_delete_versions_tasks.remove(idx);
        proof {
            crate::lookup::lemma_remove_element(pending0, idx as int);
            assert forall|t: int|
                0 <= t < self.pending_delete_versions_tasks@.len() implies old(self).versions_to_delete_output.unwrap().has_collection(
                #[trigger] self.pending_delete_versions_tasks@[t],
            ) by {
                assert(self.pending_delete_versions_tasks@.contains(
                    self.pending_delete_versions_tasks@[t],
                ));
                let kk = choose|kk: int|
                    0 <= kk < pending0.len() && pending0[kk]
                        == self.pending_delete_versions_tasks@[t];
            }
            Self::lemma_wf_frame(*old(self), *self);
        }
        if self.pending_delete_versions_tasks.len() > 0 {
            return Ok(None);
        }
        let graph = match &self.graph {
            Some(g) => g,
            None => {
                return Err(
                    GarbageCollectorError::InvariantViolation(
                        "Expected graph to be set".to_string(),
                    ),
                );
            },
        };
        let tenant = match &self.tenant {
            Some(t) => t,
            None => {
                return Err(
                    GarbageCollectorError::InvariantViolation(
                        "Expected tenant to be set".to_string(),
                    ),
                );
            },
        };
        let database_name = match &self.database_name {
            Some(d) => d,
            None => {
                return Err(
                    GarbageCollectorError::InvariantViolation(
                        "Expected database to be set".to_string(),
                    ),
                );
            },
        };
        // Hard-delete children before parents, and only the soft-deleted
        // collections whose whole reachable set is soft-deleted.
        let dep = crate::dep_graph::version_graph_to_collection_dependency_graph(graph);
        let order = match crate::dep_graph::hard_delete_order(
            &dep,
            &self.soft_deleted_collections_to_gc,
        ) {
            Ok(o) => o,
            Err(e) => {
                proof {
                    assert(crate::dep_graph::dep_matches_graph(dep, *graph));
                }
                return Err(e);
            },
        };
        let mut hard_delete_tasks: Vec<HardDeleteTask> = Vec::new();
        let mut t: usize = 0;
        while t < order.len()
            invariant
                0 <= t <= order@.len(),
                hard_delete_tasks@.len() == t,
                forall|m: int|
                    0 <= m < t ==> (#[trigger] hard_delete_tasks@[m]).collection_id == order@[m],
                forall|m: int|
                    0 <= m < t ==> (#[trigger] hard_delete_tasks@[m]).tenant@ == tenant@
                        && hard_delete_tasks@[m].database_name@ == database_name@,
                *tenant == self.tenant.unwrap(),
                *database_name == self.database_name.unwrap(),
                self.tenant is Some,
                self.database_name is Some,
            decreases order@.len() - t,
        {
            hard_delete_tasks.push(
                HardDeleteTask {
                    tenant: tenant.clone(),
                    database_name: database_name.clone(),
                    collection_id: order[t],
                },
            );
            t += 1;
        }
        let response = GarbageCollectorResponse {
            collection_id: self.collection_id,
            num_versions_deleted: self.num_versions_to_delete_total,
            num_files_deleted: self.num_files_deleted,
        };
        proof {
            assert(hard_delete_tasks@.map_values(|task: HardDeleteTask| task.collection_id)
                =~= order@);
            assert(crate::dep_graph::dep_matches_graph(dep, *graph));
            assert(crate::dep_graph::hard_delete_cids_ok(
                dep,
                self.soft_deleted_collections_to_gc@,
                order@,
            ));
        }
        Ok(Some(CollectionCompletion { hard_delete_tasks, response }))
    }
}

/// Once every listing has arrived, the retained blob paths are exactly the
/// union, over the (collection, version) pairs classified Keep, of the paths
/// their listings reported: the round trip between listing and retention.
pub proof fn lemma_retained_are_kept_union(s: GarbageCollectorOrchestrator)
    requires
        s.wf(),
        s.versions_to_delete_output is Some,
        s.pending_list_files_at_version_tasks@.len() == 0,
    ensures
        forall|p: Seq<char>|
            #[trigger] s.retained(p) <==> exists|pr: VersionPair|
                {
                    &&& #[trigger] s.versions_to_delete_output.unwrap().has_pair(
                        pr.collection_id,
                        pr.version,
                    )
                    &&& s.versions_to_delete_output.unwrap().pair_action(
                        pr.collection_id,
                        pr.version,
                    ) == VersionAction::Keep
                    &&& s.listed@[pr].contains(p)
                },
{
    let vd = s.versions_to_delete_output.unwrap();
    assert forall|pr: VersionPair| #[trigger] s.pair_completed(pr) <==> vd.has_pair(
        pr.collection_id,
        pr.version,
    ) by {}
    assert forall|p: Seq<char>|
        #[trigger] s.retained(p) implies exists|pr: VersionPair|
            {
                &&& #[trigger] vd.has_pair(pr.collection_id, pr.version)
                &&& vd.pair_action(pr.collection_id, pr.version) == VersionAction::Keep
                &&& s.listed@[pr].contains(p)
            } by {
        assert(s.kept_completed_lists(p));
        let pr = choose|pr: VersionPair|
            #[trigger] s.pair_completed(pr) && s.versions_to_delete_output.unwrap().pair_action(
                pr.collection_id,
                pr.version,
            ) == VersionAction::Keep && s.listed@[pr].contains(p);
        assert(vd.has_pair(pr.collection_id, pr.version) && vd.pair_action(
            pr.collection_id,
            pr.version,
        ) == VersionAction::Keep && s.listed@[pr].contains(p));
    }
    assert forall|p: Seq<char>|
        (exists|pr: VersionPair|
            {
                &&& #[trigger] vd.has_pair(pr.collection_id, pr.version)
                &&& vd.pair_action(pr.collection_id, pr.version) == VersionAction::Keep
                &&& s.listed@[pr].contains(p)
            }) implies #[trigger] s.retained(p) by {
        let pr = choose|pr: VersionPair|
            {
                &&& #[trigger] vd.has_pair(pr.collection_id, pr.version)
                &&& vd.pair_action(pr.collection_id, pr.version) == VersionAction::Keep
                &&& s.listed@[pr].contains(p)
            };
        assert(s.pair_completed(pr));
        assert(s.kept_completed_lists(p));
        assert(s.some_completed_lists(p));
        assert(has_path(s.file_ref_counts@, p));
    }
}

/// No blob path handed to the file cleanup is referenced by any version
/// classified Keep: deleting the zero-count set never breaks a surviving
/// version.
pub proof fn lemma_deleted_blobs_unreferenced(
    s: GarbageCollectorOrchestrator,
    task: DeleteUnusedFilesTask,
)
    requires
        s.wf(),
        s.versions_to_delete_output is Some,
        s.pending_list_files_at_version_tasks@.len() == 0,
        s.files_task_ok(task),
    ensures
        forall|p: Seq<char>, pr: VersionPair|
            {
                &&& #[trigger] crate::refcount::mentions(task.unused_s3_files@, p)
                &&& s.versions_to_delete_output.unwrap().has_pair(pr.collection_id, pr.version)
                &&& s.versions_to_delete_output.unwrap().pair_action(pr.collection_id, pr.version)
                    == VersionAction::Keep
            } ==> !(#[trigger] s.listed@[pr].contains(p)),
{
    let vd = s.versions_to_delete_output.unwrap();
    assert forall|p: Seq<char>, pr: VersionPair|
        {
            &&& #[trigger] crate::refcount::mentions(task.unused_s3_files@, p)
            &&& vd.has_pair(pr.collection_id, pr.version)
            &&& vd.pair_action(pr.collection_id, pr.version) == VersionAction::Keep
        } implies !(#[trigger] s.listed@[pr].contains(p)) by {
        assert(has_path(s.file_ref_counts@, p) && count_of(s.file_ref_counts@, p) == 0);
        if s.listed@[pr].contains(p) {
            assert(s.pair_completed(pr));
            assert(s.kept_completed_lists(p));
            assert(count_of(s.file_ref_counts@, p) > 0);
            assert(false);
        }
    }
}

/// A run whose classification keeps everything deletes nothing: the file
/// cleanup receives no paths and no version removal is owed. Re-running the
/// collector over the survivors of a previous run yields such a
/// classification, so the second run reports zero totals.
pub proof fn lemma_all_keep_run_deletes_nothing(
    s: GarbageCollectorOrchestrator,
    task: DeleteUnusedFilesTask,
)
    requires
        s.wf(),
        s.versions_to_delete_output is Some,
        s.pending_list_files_at_version_tasks@.len() == 0,
        s.files_task_ok(task),
        forall|k: int, i: int|
            0 <= k < s.versions_to_delete_output.unwrap().versions@.len() && 0 <= i < (
            #[trigger] s.versions_to_delete_output.unwrap().versions@[k]).versions@.len() ==> (
            #[trigger] s.versions_to_delete_output.unwrap().versions@[k].versions@[i]).action
                == VersionAction::Keep,
    ensures
        task.unused_s3_files@.len() == 0,
        s.versions_to_delete_output.unwrap().total_deletes() == 0,
{
    let vd = s.versions_to_delete_output.unwrap();
    crate::classify::lemma_all_keep_no_deletes(vd.versions@);
    assert forall|p: Seq<char>| !(#[trigger] crate::refcount::mentions(task.unused_s3_files@, p)) by {
        if crate::refcount::mentions(task.unused_s3_files@, p) {
            assert(has_path(s.file_ref_counts@, p) && count_of(s.file_ref_counts@, p) == 0);
            assert(s.some_completed_lists(p));
            let pr = choose|pr: VersionPair|
                #[trigger] s.pair_completed(pr) && s.listed@[pr].contains(p);
            assert(vd.has_pair(pr.collection_id, pr.version));
            assert(vd.pair_action(pr.collection_id, pr.version) == VersionAction::Keep) by {
                let k = choose|k: int|
                    0 <= k < vd.versions@.len() && (#[trigger] vd.versions@[k]).collection_id
                        == pr.collection_id && vd.versions@[k].has_version(pr.version);
                let e = vd.entry_for(pr.collection_id);
                let k2 = choose|k2: int|
                    0 <= k2 < vd.versions@.len() && (#[trigger] vd.versions@[k2]).collection_id
                        == pr.collection_id;
                let i = choose|i: int|
                    0 <= i < e.versions@.len() && (#[trigger] e.versions@[i]).version == pr.version;
                assert(e.has_version(pr.version)) by {
                    let i0 = choose|i0: int|
                        0 <= i0 < vd.versions@[k].version_seq().len()
                            && vd.versions@[k].version_seq()[i0] == pr.version;
                    if k2 != k {
                        assert(vd.collection_ids()[k2] == vd.collection_ids()[k]);
                        assert(false);
                    }
                    assert(e == vd.versions@[k]);
                }
                assert(e.versions@[i].action == VersionAction::Keep) by {
                    if k2 != k {
                        assert(vd.collection_ids()[k2] == vd.collection_ids()[k]);
                        assert(false);
                    }
                }
            }
            assert(s.kept_completed_lists(p));
            assert(count_of(s.file_ref_counts@, p) > 0);
            assert(false);
        }
    }
    if task.unused_s3_files@.len() > 0 {
        assert(crate::refcount::mentions(task.unused_s3_files@, task.unused_s3_files@[0]@));
        assert(false);
    }
}

/// How the destructive stage may advance, given the deleted files reported:
/// wait while an output is missing, finish with zeros in a dry run or when
/// nothing was classified Delete, and otherwise fan out the removals.
pub open spec fn delete_versions_step_ok(
    s1: GarbageCollectorOrchestrator,
    s2: GarbageCollectorOrchestrator,
    deleted_files: Seq<String>,
    outputs_present: bool,
    step: DeleteVersionsStep,
) -> bool {
    match step {
        DeleteVersionsStep::Wait => !s2.delete_unused_log_output_received,
        DeleteVersionsStep::Done(resp) => {
            &&& s2.delete_unused_log_output_received
            &&& resp.collection_id == s1.collection_id
            &&& resp.num_files_deleted == 0
            &&& resp.num_versions_deleted == 0
            &&& (s1.cleanup_mode == CleanupMode::Delete ==> {
                &&& s1.versions_to_delete_output is Some
                &&& s1.versions_to_delete_output.unwrap().total_deletes() == 0
            })
        },
        DeleteVersionsStep::Dispatch(tasks) => {
            &&& s2.delete_unused_log_output_received
            &&& s1.cleanup_mode == CleanupMode::Delete
            &&& s1.versions_to_delete_output is Some
            &&& s1.versions_to_delete_output.unwrap().total_deletes() > 0
            &&& s2.num_files_deleted == deleted_files.len()
            &&& s2.num_versions_to_delete_total
                == s1.versions_to_delete_output.unwrap().total_deletes()
            &&& s2.delete_versions_dispatched
            &&& s2.pending_delete_versions_tasks@ == tasks@.map_values(
                |task: DeleteVersionsTask| task.collection_id,
            )
            &&& forall|t: int|
                0 <= t < tasks@.len() ==> exists|m: int|
                    0 <= m < s1.versions_to_delete_output.unwrap().versions@.len()
                        && delete_task_ok(
                        #[trigger] tasks@[t],
                        s1.versions_to_delete_output.unwrap().versions@[m],
                        s1.version_files@,
                        deleted_files,
                    )
            &&& forall|m: int|
                0 <= m < s1.versions_to_delete_output.unwrap().versions@.len()
                    && delete_versions_of(
                    #[trigger] s1.versions_to_delete_output.unwrap().versions@[m],
                ).len() > 0 ==> exists|t: int|
                    0 <= t < tasks@.len() && (#[trigger] tasks@[t]).collection_id
                        == s1.versions_to_delete_output.unwrap().versions@[m].collection_id
        },
    }
}

/// After one listing is folded in, the orchestrator is well formed again and
/// the counts say exactly what they should: the new paths are known, and a
/// kept version's paths are now retained.
proof fn lemma_after_listing(
    s1: GarbageCollectorOrchestrator,
    s2: GarbageCollectorOrchestrator,
    pr: VersionPair,
    reported: Seq<String>,
    deduped: Seq<String>,
    keep: bool,
)
    requires
        s1.wf(),
        s1.versions_to_delete_output matches Some(vd) && vd.has_pair(pr.collection_id, pr.version),
        s1.pending_list_files_at_version_tasks@.contains(pr),
        s1.versions_to_delete_output.unwrap().pair_action(pr.collection_id, pr.version) == (
        if keep {
            VersionAction::Keep
        } else {
            VersionAction::Delete
        }),
        s2.versions_to_delete_output == s1.versions_to_delete_output,
        s2.version_files == s1.version_files,
        s2.graph == s1.graph,
        s2.total_list_tasks == s1.total_list_tasks,
        s2.pending_mark_versions_at_sysdb_tasks == s1.pending_mark_versions_at_sysdb_tasks,
        s2.pending_delete_versions_tasks == s1.pending_delete_versions_tasks,
        s2.delete_versions_dispatched == s1.delete_versions_dispatched,
        s2.num_versions_to_delete_total == s1.num_versions_to_delete_total,
        s2.pending_list_files_at_version_tasks@.no_duplicates(),
        forall|x: VersionPair|
            #[trigger] s2.pending_list_files_at_version_tasks@.contains(x) <==> (
            s1.pending_list_files_at_version_tasks@.contains(x) && x != pr),
        s2.pending_list_files_at_version_tasks@.len()
            == s1.pending_list_files_at_version_tasks@.len() - 1,
        s2.listed@ == s1.listed@.insert(
            pr,
            Set::new(|p: Seq<char>| crate::refcount::mentions(reported, p)),
        ),
        forall|p: Seq<char>|
            #[trigger] crate::refcount::mentions(deduped, p) <==> crate::refcount::mentions(
                reported,
                p,
            ),
        unique_paths(s2.file_ref_counts@),
        forall|q: Seq<char>|
            #[trigger] has_path(s2.file_ref_counts@, q) <==> (has_path(s1.file_ref_counts@, q)
                || crate::refcount::mentions(deduped, q)),
        forall|q: Seq<char>|
            crate::refcount::mentions(deduped, q) ==> #[trigger] count_of(s2.file_ref_counts@, q)
                == (if has_path(s1.file_ref_counts@, q) {
                count_of(s1.file_ref_counts@, q) + (if keep {
                    1int
                } else {
                    0int
                })
            } else {
                (if keep {
                    1int
                } else {
                    0int
                })
            }),
        forall|q: Seq<char>|
            !crate::refcount::mentions(deduped, q) && #[trigger] has_path(s1.file_ref_counts@, q)
                ==> count_of(s2.file_ref_counts@, q) == count_of(s1.file_ref_counts@, q),
    ensures
        s2.wf(),
        forall|q: Seq<char>|
            #[trigger] has_path(s2.file_ref_counts@, q) <==> (has_path(s1.file_ref_counts@, q)
                || crate::refcount::mentions(reported, q)),
        keep ==> forall|q: Seq<char>|
            #[trigger] s2.retained(q) <==> (s1.retained(q) || crate::refcount::mentions(
                reported,
                q,
            )),
        !keep ==> forall|q: Seq<char>| #[trigger] s2.retained(q) <==> s1.retained(q),
{
    let vd = s1.versions_to_delete_output.unwrap();
    assert forall|i: int|
        0 <= i < s2.pending_list_files_at_version_tasks@.len() implies vd.has_pair(
        (#[trigger] s2.pending_list_files_at_version_tasks@[i]).collection_id,
        s2.pending_list_files_at_version_tasks@[i].version,
    ) by {
        let x = s2.pending_list_files_at_version_tasks@[i];
        assert(s2.pending_list_files_at_version_tasks@.contains(x));
        assert(s1.pending_list_files_at_version_tasks@.contains(x));
        let k = choose|k: int|
            0 <= k < s1.pending_list_files_at_version_tasks@.len()
                && s1.pending_list_files_at_version_tasks@[k] == x;
    }
    assert(s2.pair_completed(pr)) by {
        assert(!s2.pending_list_files_at_version_tasks@.contains(pr));
    }
    assert(!s1.pair_completed(pr));
    assert forall|x: VersionPair| x != pr implies (#[trigger] s2.pair_completed(x)
        <==> s1.pair_completed(x)) by {}
    // which pairs are completed and what they listed
    assert forall|x: VersionPair|
        s2.listed@.contains_key(x) <==> #[trigger] s2.pair_completed(x) by {
        if x != pr {
            assert(s2.listed@.contains_key(x) == s1.listed@.contains_key(x));
        }
    }
    // the known paths
    assert forall|q: Seq<char>|
        #[trigger] has_path(s2.file_ref_counts@, q) <==> s2.some_completed_lists(q) by {
        if has_path(s2.file_ref_counts@, q) {
            if has_path(s1.file_ref_counts@, q) {
                assert(s1.some_completed_lists(q));
                let x = choose|x: VersionPair|
                    #[trigger] s1.pair_completed(x) && s1.listed@[x].contains(q);
                assert(s2.pair_completed(x) && s2.listed@[x].contains(q));
            } else {
                assert(crate::refcount::mentions(deduped, q));
                assert(s2.listed@[pr].contains(q));
                assert(s2.pair_completed(pr) && s2.listed@[pr].contains(q));
            }
        }
        if s2.some_completed_lists(q) {
            let x = choose|x: VersionPair|
                #[trigger] s2.pair_completed(x) && s2.listed@[x].contains(q);
            if x == pr {
                assert(crate::refcount::mentions(reported, q));
            } else {
                assert(s1.pair_completed(x) && s1.listed@[x].contains(q));
                assert(s1.some_completed_lists(q));
            }
        }
    }
    // the retained paths
    assert forall|q: Seq<char>|
        #[trigger] has_path(s2.file_ref_counts@, q) implies (count_of(s2.file_ref_counts@, q) > 0
            <==> s2.kept_completed_lists(q)) by {
        if count_of(s2.file_ref_counts@, q) > 0 {
            if crate::refcount::mentions(deduped, q) && keep {
                assert(s2.pair_completed(pr) && vd.pair_action(pr.collection_id, pr.version)
                    == VersionAction::Keep && s2.listed@[pr].contains(q));
            } else {
                assert(has_path(s1.file_ref_counts@, q) && count_of(s1.file_ref_counts@, q) > 0);
                assert(s1.kept_completed_lists(q));
                let x = choose|x: VersionPair|
                    #[trigger] s1.pair_completed(x) && vd.pair_action(x.collection_id, x.version)
                        == VersionAction::Keep && s1.listed@[x].contains(q);
                assert(s2.pair_completed(x) && s2.listed@[x].contains(q));
            }
        }
        if s2.kept_completed_lists(q) {
            let x = choose|x: VersionPair|
                #[trigger] s2.pair_completed(x) && vd.pair_action(x.collection_id, x.version)
                    == VersionAction::Keep && s2.listed@[x].contains(q);
            if x == pr {
                assert(keep);
                assert(crate::refcount::mentions(reported, q));
                assert(count_of(s2.file_ref_counts@, q) > 0);
            } else {
                assert(s1.pair_completed(x) && s1.listed@[x].contains(q));
                assert(s1.kept_completed_lists(q));
                assert(has_path(s1.file_ref_counts@, q)) by {
                    assert(s1.some_completed_lists(q));
                }
                assert(count_of(s1.file_ref_counts@, q) > 0);
                if crate::refcount::mentions(deduped, q) {
                    assert(count_of(s2.file_ref_counts@, q) > 0);
                } else {
                    assert(count_of(s2.file_ref_counts@, q) > 0);
                }
            }
        }
    }
    // the counts stay within the number of completed listings
    assert forall|q: Seq<char>|
        #[trigger] has_path(s2.file_ref_counts@, q) implies count_of(s2.file_ref_counts@, q)
        <= s2.completed_count() by {
        assert(s2.completed_count() == s1.completed_count() + 1);
        if has_path(s1.file_ref_counts@, q) {
            assert(count_of(s1.file_ref_counts@, q) <= s1.completed_count());
        }
    }
    // what retained means, in both directions
    assert forall|q: Seq<char>|
        #[trigger] has_path(s2.file_ref_counts@, q) <==> (has_path(s1.file_ref_counts@, q)
            || crate::refcount::mentions(reported, q)) by {}
    if keep {
        assert forall|q: Seq<char>|
            #[trigger] s2.retained(q) <==> (s1.retained(q) || crate::refcount::mentions(
                reported,
                q,
            )) by {
            if s1.retained(q) {
                if crate::refcount::mentions(deduped, q) {
                    assert(count_of(s2.file_ref_counts@, q) > 0);
                } else {
                    assert(count_of(s2.file_ref_counts@, q) > 0);
                }
            }
            if crate::refcount::mentions(reported, q) {
                assert(crate::refcount::mentions(deduped, q));
                assert(count_of(s2.file_ref_counts@, q) > 0);
            }
            if s2.retained(q) && !crate::refcount::mentions(reported, q) {
                assert(!crate::refcount::mentions(deduped, q));
                assert(has_path(s1.file_ref_counts@, q));
                assert(count_of(s1.file_ref_counts@, q) == count_of(s2.file_ref_counts@, q));
            }
        }
    } else {
        assert forall|q: Seq<char>| #[trigger] s2.retained(q) <==> s1.retained(q) by {
            if s2.retained(q) {
                if crate::refcount::mentions(deduped, q) {
                    assert(has_path(s1.file_ref_counts@, q) && count_of(s1.file_ref_counts@, q)
                        > 0);
                } else {
                    assert(has_path(s1.file_ref_counts@, q));
                }
            }
            if s1.retained(q) {
                if crate::refcount::mentions(deduped, q) {
                    assert(count_of(s2.file_ref_counts@, q) > 0);
                } else {
                    assert(count_of(s2.file_ref_counts@, q) > 0);
                }
            }
        }
    }
}

} // verus!
