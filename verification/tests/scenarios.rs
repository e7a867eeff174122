use garbage_collector::classify::ComputeVersionsToDeleteOutput;
use garbage_collector::graph::{VersionGraph, VersionGraphEdge, VersionGraphNode};
use garbage_collector::lookup::VersionFileEntry;
use garbage_collector::orchestrator::{
    ComputeStep, DeleteUnusedLogsTask, DeleteVersionsStep, GarbageCollectorOrchestrator,
    HardDeleteTask,
};
use garbage_collector::types::{
    CleanupMode, CollectionId, CollectionInfo, CollectionVersionFile, GarbageCollectorError,
    GarbageCollectorResponse, VersionAction, VersionInfo,
};

fn version_file(id: u128, history: Vec<(u64, i64, i64)>) -> VersionFileEntry {
    VersionFileEntry {
        collection_id: CollectionId(id),
        file: CollectionVersionFile {
            collection_info_immutable: Some(CollectionInfo {
                tenant_id: "test_tenant".to_string(),
                database_id: "db-1".to_string(),
                database_name: "test_database".to_string(),
            }),
            version_history: Some(
                history
                    .into_iter()
                    .map(|(version, created_at, current_log_position)| VersionInfo {
                        version,
                        created_at,
                        current_log_position,
                    })
                    .collect(),
            ),
        },
    }
}

fn node(id: u128, version: u64) -> VersionGraphNode {
    VersionGraphNode { collection_id: CollectionId(id), version }
}

fn edge(src: usize, dst: usize) -> VersionGraphEdge {
    VersionGraphEdge { src, dst }
}

fn new_orchestrator(mode: CleanupMode, cutoff: i64, min_keep: u32) -> GarbageCollectorOrchestrator {
    GarbageCollectorOrchestrator::new(
        CollectionId(1),
        "version-file-path".to_string(),
        None,
        cutoff,
        cutoff,
        mode,
        min_keep,
        true,
        false,
    )
}

struct RunOutcome {
    response: GarbageCollectorResponse,
    deleted_files: Vec<String>,
    hard_delete_tasks: Vec<HardDeleteTask>,
    logs_task: Option<DeleteUnusedLogsTask>,
    classification: ComputeVersionsToDeleteOutput,
}

fn listing_for(listings: &[(u128, u64, Vec<&str>)], id: u128, version: u64) -> Vec<String> {
    for (c, v, paths) in listings {
        if *c == id && *v == version {
            return paths.iter().map(|p| p.to_string()).collect();
        }
    }
    Vec::new()
}

fn run_gc(
    mut orch: GarbageCollectorOrchestrator,
    files: Vec<VersionFileEntry>,
    graph: VersionGraph,
    eligible: Vec<CollectionId>,
    listings: &[(u128, u64, Vec<&str>)],
) -> Result<RunOutcome, GarbageCollectorError> {
    orch.handle_version_graph_ready(files, graph, eligible)?;
    let classification = orch.start_compute_versions_to_delete()?;
    let classification_copy = orch.start_compute_versions_to_delete()?;
    let step = orch.handle_compute_versions_to_delete_output(classification)?;
    let (mark_tasks, list_tasks) = match step {
        ComputeStep::Done(response) => {
            return Ok(RunOutcome {
                response,
                deleted_files: Vec::new(),
                hard_delete_tasks: Vec::new(),
                logs_task: None,
                classification: classification_copy,
            });
        }
        ComputeStep::Dispatch { mark_tasks, list_tasks } => (mark_tasks, list_tasks),
    };
    let mut files_task = None;
    let mut logs_task = None;
    for task in &mark_tasks {
        let s = orch.handle_mark_versions_at_sysdb_output(task.collection_id)?;
        if let Some(l) = s.delete_unused_logs {
            logs_task = Some(l);
        }
        if let Some(f) = s.delete_unused_files {
            files_task = Some(f);
        }
    }
    for pr in &list_tasks {
        let paths = listing_for(listings, pr.collection_id.0, pr.version);
        if let Some(f) = orch.handle_list_files_at_version_output(pr.collection_id, pr.version, paths)? {
            files_task = Some(f);
        }
    }
    let files_task = match files_task {
        Some(f) => f,
        None => panic!("file cleanup never started"),
    };
    let deleted_files = if matches!(files_task.cleanup_mode, CleanupMode::Delete) {
        files_task.unused_s3_files.clone()
    } else {
        Vec::new()
    };
    let first = orch.handle_delete_unused_files_output(deleted_files.clone())?;
    let second = orch.handle_delete_unused_logs_output()?;
    let final_step = match second {
        DeleteVersionsStep::Wait => first,
        other => other,
    };
    match final_step {
        DeleteVersionsStep::Done(response) => Ok(RunOutcome {
            response,
            deleted_files,
            hard_delete_tasks: Vec::new(),
            logs_task,
            classification: classification_copy,
        }),
        DeleteVersionsStep::Dispatch(tasks) => {
            let mut completion = None;
            for t in &tasks {
                if let Some(c) = orch.handle_delete_versions_output(t.collection_id)? {
                    completion = Some(c);
                }
            }
            let c = match completion {
                Some(c) => c,
                None => panic!("version removal never completed"),
            };
            Ok(RunOutcome {
                response: c.response,
                deleted_files,
                hard_delete_tasks: c.hard_delete_tasks,
                logs_task,
                classification: classification_copy,
            })
        }
        DeleteVersionsStep::Wait => panic!("destructive stage stalled"),
    }
}

fn actions_of(out: &ComputeVersionsToDeleteOutput, id: u128) -> Vec<(u64, VersionAction)> {
    for e in &out.versions {
        if e.collection_id == CollectionId(id) {
            return e.versions.iter().map(|ve| (ve.version, ve.action)).collect();
        }
    }
    Vec::new()
}

#[test]
fn no_op_run_within_cutoff() {
    // Three recent versions, keep at least three: nothing is deleted.
    let orch = new_orchestrator(CleanupMode::Delete, 50, 3);
    let graph = VersionGraph {
        nodes: vec![node(1, 0), node(1, 1), node(1, 2)],
        edges: vec![edge(0, 1), edge(1, 2)],
    };
    let files = vec![version_file(1, vec![(0, 100, 0), (1, 100, 10), (2, 100, 20)])];
    let listings =
        [(1, 0, vec!["f0"]), (1, 1, vec!["f1"]), (1, 2, vec!["f2"])];
    let outcome = run_gc(orch, files, graph, vec![], &listings).unwrap();
    assert_eq!(outcome.response.num_files_deleted, 0);
    assert_eq!(outcome.response.num_versions_deleted, 0);
    assert!(outcome.deleted_files.is_empty());
    assert!(outcome.hard_delete_tasks.is_empty());
}

#[test]
fn single_collection_trim() {
    // v0..v3 are past the cutoff and at least two newer versions survive, so
    // they go; v4 and v5 stay, and the log is kept from v4's position + 1.
    let orch = new_orchestrator(CleanupMode::Delete, 50, 2);
    let graph = VersionGraph {
        nodes: vec![node(1, 0), node(1, 1), node(1, 2), node(1, 3), node(1, 4), node(1, 5)],
        edges: vec![edge(0, 1), edge(1, 2), edge(2, 3), edge(3, 4), edge(4, 5)],
    };
    let files = vec![version_file(
        1,
        vec![(0, 10, 0), (1, 10, 10), (2, 10, 20), (3, 10, 30), (4, 100, 40), (5, 100, 50)],
    )];
    let listings = [
        (1, 0, vec!["f0"]),
        (1, 1, vec!["f1"]),
        (1, 2, vec!["f2"]),
        (1, 3, vec!["f3"]),
        (1, 4, vec!["f4"]),
        (1, 5, vec!["f5"]),
    ];
    let outcome = run_gc(orch, files, graph, vec![], &listings).unwrap();
    let actions = actions_of(&outcome.classification, 1);
    for (v, a) in &actions {
        if *v <= 3 {
            assert_eq!(*a, VersionAction::Delete, "v{} should be deleted", v);
        } else {
            assert_eq!(*a, VersionAction::Keep, "v{} should be kept", v);
        }
    }
    assert_eq!(outcome.response.num_versions_deleted, 4);
    assert_eq!(outcome.response.num_files_deleted, 4);
    let mut deleted = outcome.deleted_files.clone();
    deleted.sort();
    assert_eq!(deleted, vec!["f0", "f1", "f2", "f3"]);
    let logs = outcome.logs_task.unwrap();
    assert_eq!(logs.collections_to_garbage_collect.len(), 1);
    assert_eq!(logs.collections_to_garbage_collect[0].collection_id, CollectionId(1));
    assert_eq!(logs.collections_to_garbage_collect[0].min_offset_to_keep, 41);
    assert!(logs.collections_to_destroy.is_empty());
}

#[test]
fn errors_on_empty_file_paths() {
    // v1 reports no files while its ancestor chain is not all-bootstrap:
    // the run must abort.
    let orch = new_orchestrator(CleanupMode::Delete, 200, 1);
    let graph = VersionGraph { nodes: vec![node(1, 0), node(1, 1)], edges: vec![edge(0, 1)] };
    let files = vec![version_file(1, vec![(0, 100, 0), (1, 100, 10)])];
    let listings = [(1, 0, vec!["f0"])];
    let result = run_gc(orch, files, graph, vec![], &listings);
    assert!(result.is_err());
    let message = match result {
        Err(e) => e.message(),
        Ok(_) => panic!("expected an error"),
    };
    assert!(message.contains("no file paths"));
}

#[test]
fn empty_listing_allowed_for_bootstrap_chain() {
    // A bootstrap version with an all-bootstrap ancestry may list nothing.
    let orch = new_orchestrator(CleanupMode::Delete, 50, 1);
    let graph = VersionGraph { nodes: vec![node(1, 0)], edges: vec![] };
    let files = vec![version_file(1, vec![(0, 100, 0)])];
    let listings: [(u128, u64, Vec<&str>); 0] = [];
    let outcome = run_gc(orch, files, graph, vec![], &listings).unwrap();
    assert_eq!(outcome.response.num_versions_deleted, 0);
    assert_eq!(outcome.response.num_files_deleted, 0);
}

#[test]
fn fork_shared_file_retained() {
    // f0 is only referenced by the deleted R@v0 and goes; f2 is shared with
    // the fork child's bootstrap and survives.
    let orch = new_orchestrator(CleanupMode::Delete, 50, 1);
    let graph = VersionGraph {
        nodes: vec![node(1, 0), node(1, 1), node(1, 2), node(2, 0)],
        edges: vec![edge(0, 1), edge(1, 2), edge(2, 3)],
    };
    let files = vec![
        version_file(1, vec![(0, 10, 0), (1, 100, 10), (2, 100, 20)]),
        version_file(2, vec![(0, 100, 0)]),
    ];
    let listings = [
        (1, 0, vec!["f0"]),
        (1, 1, vec!["f1"]),
        (1, 2, vec!["f2"]),
        (2, 0, vec!["f2"]),
    ];
    let outcome = run_gc(orch, files, graph, vec![], &listings).unwrap();
    assert_eq!(outcome.deleted_files, vec!["f0"]);
    assert_eq!(outcome.response.num_files_deleted, 1);
    assert_eq!(outcome.response.num_versions_deleted, 1);
    assert!(outcome.hard_delete_tasks.is_empty());
}

#[test]
fn soft_delete_skipped_while_child_alive() {
    // R is eligible for hard deletion but its fork child C is alive: R's
    // versions are still trimmed, yet no finalisation is issued.
    let orch = new_orchestrator(CleanupMode::Delete, 50, 1);
    let graph = VersionGraph {
        nodes: vec![node(1, 0), node(1, 1), node(2, 0)],
        edges: vec![edge(0, 1), edge(1, 2)],
    };
    let files = vec![
        version_file(1, vec![(0, 10, 0), (1, 10, 10)]),
        version_file(2, vec![(0, 100, 0)]),
    ];
    let listings = [(1, 0, vec!["r0"]), (1, 1, vec!["r1"]), (2, 0, vec!["r1"])];
    let outcome =
        run_gc(orch, files, graph, vec![CollectionId(1)], &listings).unwrap();
    let actions = actions_of(&outcome.classification, 1);
    for (_, a) in &actions {
        assert_eq!(*a, VersionAction::Delete);
    }
    assert!(outcome.hard_delete_tasks.is_empty());
    assert_eq!(outcome.deleted_files, vec!["r0"]);
    let logs = outcome.logs_task.unwrap();
    assert_eq!(logs.collections_to_destroy, vec![CollectionId(1)]);
}

#[test]
fn soft_delete_full_tree_child_first() {
    // Both collections are eligible: the child is finalised before the root.
    let orch = new_orchestrator(CleanupMode::Delete, 200, 0);
    let graph = VersionGraph {
        nodes: vec![node(1, 0), node(1, 1), node(2, 0)],
        edges: vec![edge(0, 1), edge(1, 2)],
    };
    let files = vec![
        version_file(1, vec![(0, 10, 0), (1, 10, 10)]),
        version_file(2, vec![(0, 10, 0)]),
    ];
    let listings = [(1, 0, vec!["r0"]), (1, 1, vec!["r1"]), (2, 0, vec!["r1"])];
    let outcome = run_gc(
        orch,
        files,
        graph,
        vec![CollectionId(1), CollectionId(2)],
        &listings,
    )
    .unwrap();
    let order: Vec<CollectionId> =
        outcome.hard_delete_tasks.iter().map(|t| t.collection_id).collect();
    assert_eq!(order, vec![CollectionId(2), CollectionId(1)]);
    assert_eq!(outcome.hard_delete_tasks[0].tenant, "test_tenant");
    assert_eq!(outcome.hard_delete_tasks[0].database_name, "test_database");
}

#[test]
fn dry_run_reports_zero_and_deletes_nothing() {
    // Same tree as the trim scenario, but in a dry run: the response is all
    // zeros and the file task still names the candidates without acting.
    let orch = new_orchestrator(CleanupMode::DryRun, 50, 2);
    let graph = VersionGraph {
        nodes: vec![node(1, 0), node(1, 1), node(1, 2)],
        edges: vec![edge(0, 1), edge(1, 2)],
    };
    let files = vec![version_file(1, vec![(0, 10, 0), (1, 10, 10), (2, 100, 20)])];
    let listings = [(1, 0, vec!["f0"]), (1, 1, vec!["f1"]), (1, 2, vec!["f2"])];
    let outcome = run_gc(orch, files, graph, vec![], &listings).unwrap();
    assert_eq!(outcome.response.num_files_deleted, 0);
    assert_eq!(outcome.response.num_versions_deleted, 0);
    assert!(outcome.deleted_files.is_empty());
    assert!(outcome.hard_delete_tasks.is_empty());
}

#[test]
fn second_run_deletes_nothing() {
    // First run trims v0; the second run sees only the survivors and
    // reports zero deletions.
    let orch = new_orchestrator(CleanupMode::Delete, 50, 1);
    let graph = VersionGraph {
        nodes: vec![node(1, 0), node(1, 1), node(1, 2)],
        edges: vec![edge(0, 1), edge(1, 2)],
    };
    let files = vec![version_file(1, vec![(0, 10, 0), (1, 100, 10), (2, 100, 20)])];
    let listings = [(1, 0, vec!["f0"]), (1, 1, vec!["f1"]), (1, 2, vec!["f2"])];
    let first = run_gc(orch, files, graph, vec![], &listings).unwrap();
    assert_eq!(first.response.num_versions_deleted, 1);
    assert_eq!(first.deleted_files, vec!["f0"]);

    let orch2 = new_orchestrator(CleanupMode::Delete, 50, 1);
    let graph2 = VersionGraph { nodes: vec![node(1, 1), node(1, 2)], edges: vec![edge(0, 1)] };
    let files2 = vec![version_file(1, vec![(1, 100, 10), (2, 100, 20)])];
    let listings2 = [(1, 1, vec!["f1"]), (1, 2, vec!["f2"])];
    let second = run_gc(orch2, files2, graph2, vec![], &listings2).unwrap();
    assert_eq!(second.response.num_files_deleted, 0);
    assert_eq!(second.response.num_versions_deleted, 0);
    assert!(second.deleted_files.is_empty());
}
