use garbage_collector::classify::{
    classify_collection, compute_versions_to_delete, sort_desc, VersionStamp,
};
use garbage_collector::dep_graph::{
    hard_delete_order, version_graph_to_collection_dependency_graph, CollectionDependencyGraph,
};
use garbage_collector::graph::{VersionGraph, VersionGraphEdge, VersionGraphNode};
use garbage_collector::lookup::VersionFileEntry;
use garbage_collector::orchestrator::GarbageCollectorOrchestrator;
use garbage_collector::refcount::{bump, touch, zero_count_paths, FileRefEntry};
use garbage_collector::types::{
    CleanupMode, CollectionId, CollectionInfo, CollectionStatus, CollectionVersionFile,
    GarbageCollectorError, SoftDeleteStatus, VersionAction, VersionInfo,
};

fn stamp(version: u64, created_at: i64) -> VersionStamp {
    VersionStamp { version, created_at }
}

fn gnode(id: u128, version: u64) -> VersionGraphNode {
    VersionGraphNode { collection_id: CollectionId(id), version }
}

fn gedge(src: usize, dst: usize) -> VersionGraphEdge {
    VersionGraphEdge { src, dst }
}

fn bare_file(id: u128, history: Vec<(u64, i64, i64)>) -> VersionFileEntry {
    VersionFileEntry {
        collection_id: CollectionId(id),
        file: CollectionVersionFile {
            collection_info_immutable: Some(CollectionInfo {
                tenant_id: "tenant-a".to_string(),
                database_id: "db-a".to_string(),
                database_name: "database-a".to_string(),
            }),
            version_history: Some(
                history
                    .into_iter()
                    .map(|(version, created_at, current_log_position)| VersionInfo {
                        version,
                        created_at,
                        current_log_position,
                    })
                    .collect(),
            ),
        },
    }
}

#[test]
fn classifier_keeps_minimum_and_deletes_expired() {
    // Newest first: the two newest stay regardless; older ones go once they
    // are past the cutoff and enough newer versions are kept.
    let entries = vec![
        stamp(5, 100),
        stamp(4, 100),
        stamp(3, 10),
        stamp(2, 10),
        stamp(1, 10),
        stamp(0, 10),
    ];
    let classified = classify_collection(&entries, 50, 2, false);
    let expected = [
        (5, VersionAction::Keep),
        (4, VersionAction::Keep),
        (3, VersionAction::Delete),
        (2, VersionAction::Delete),
        (1, VersionAction::Delete),
        (0, VersionAction::Delete),
    ];
    for (i, (v, a)) in expected.iter().enumerate() {
        assert_eq!(classified[i].version, *v);
        assert_eq!(classified[i].action, *a);
    }
}

#[test]
fn classifier_keeps_recent_versions_over_minimum() {
    // A version newer than the cutoff is kept even when enough newer
    // versions already survive.
    let entries = vec![stamp(2, 100), stamp(1, 100), stamp(0, 10)];
    let classified = classify_collection(&entries, 50, 1, false);
    assert_eq!(classified[0].action, VersionAction::Keep);
    assert_eq!(classified[1].action, VersionAction::Keep);
    assert_eq!(classified[2].action, VersionAction::Delete);
}

#[test]
fn classifier_deletes_everything_of_soft_deleted() {
    let entries = vec![stamp(1, 100), stamp(0, 100)];
    let classified = classify_collection(&entries, 50, 5, true);
    assert_eq!(classified[0].action, VersionAction::Delete);
    assert_eq!(classified[1].action, VersionAction::Delete);
}

#[test]
fn sort_desc_orders_versions() {
    let v = vec![3u64, 1, 5, 2];
    let sorted = sort_desc(&v);
    assert_eq!(sorted, vec![5, 3, 2, 1]);
}

#[test]
fn compute_versions_errors_on_missing_version_file() {
    let graph = VersionGraph { nodes: vec![gnode(7, 0)], edges: vec![] };
    let files: Vec<VersionFileEntry> = Vec::new();
    let result = compute_versions_to_delete(&graph, &files, &Vec::new(), 50, 1);
    assert!(matches!(result, Err(GarbageCollectorError::MissingVersionFile(c)) if c == CollectionId(7)));
}

#[test]
fn compute_versions_errors_on_missing_history_entry() {
    let graph = VersionGraph { nodes: vec![gnode(7, 0), gnode(7, 1)], edges: vec![gedge(0, 1)] };
    let files = vec![bare_file(7, vec![(0, 100, 0)])];
    let result = compute_versions_to_delete(&graph, &files, &Vec::new(), 50, 1);
    assert!(matches!(result, Err(GarbageCollectorError::InvariantViolation(_))));
}

#[test]
fn graph_walk_accepts_bootstrap_chain_only() {
    // Root at v0 with a forked child at v0: the child's empty listing is
    // tolerated; a v1 node is not.
    let graph = VersionGraph {
        nodes: vec![gnode(1, 0), gnode(2, 0), gnode(2, 1)],
        edges: vec![gedge(0, 1), gedge(1, 2)],
    };
    assert!(graph.validate());
    let root = graph.find_root_index().unwrap();
    assert_eq!(root, 0);
    let child = graph.find_node_index(CollectionId(2), 0).unwrap();
    assert!(graph.rooted_all_v0(child, root));
    let v1 = graph.find_node_index(CollectionId(2), 1).unwrap();
    assert!(!graph.rooted_all_v0(v1, root));
}

#[test]
fn graph_validate_rejects_bad_edges_and_duplicates() {
    let bad_edge = VersionGraph { nodes: vec![gnode(1, 0)], edges: vec![gedge(0, 3)] };
    assert!(!bad_edge.validate());
    let dup = VersionGraph { nodes: vec![gnode(1, 0), gnode(1, 0)], edges: vec![] };
    assert!(!dup.validate());
}

#[test]
fn dependency_graph_collapses_fork_edges() {
    let graph = VersionGraph {
        nodes: vec![gnode(1, 0), gnode(1, 1), gnode(2, 0)],
        edges: vec![gedge(0, 1), gedge(1, 2)],
    };
    let dep = version_graph_to_collection_dependency_graph(&graph);
    assert_eq!(dep.nodes, vec![CollectionId(1), CollectionId(2)]);
    assert_eq!(dep.edges.len(), 1);
    assert_eq!(dep.edges[0].src, 0);
    assert_eq!(dep.edges[0].dst, 1);
}

#[test]
fn toposort_rejects_cycles() {
    let dep = CollectionDependencyGraph {
        nodes: vec![CollectionId(1), CollectionId(2)],
        edges: vec![gedge(0, 1), gedge(1, 0)],
    };
    let result = dep.toposort();
    assert!(matches!(result, Err(GarbageCollectorError::InvariantViolation(_))));
}

#[test]
fn hard_delete_order_children_before_parents() {
    // A chain of three collections, all eligible: grandchild, child, root.
    let dep = CollectionDependencyGraph {
        nodes: vec![CollectionId(1), CollectionId(2), CollectionId(3)],
        edges: vec![gedge(0, 1), gedge(1, 2)],
    };
    let eligible = vec![CollectionId(1), CollectionId(2), CollectionId(3)];
    let order = hard_delete_order(&dep, &eligible).unwrap();
    assert_eq!(order, vec![CollectionId(3), CollectionId(2), CollectionId(1)]);
}

#[test]
fn hard_delete_order_skips_partial_subtrees() {
    // The root reaches a live child, so only the childless eligible leaf
    // qualifies.
    let dep = CollectionDependencyGraph {
        nodes: vec![CollectionId(1), CollectionId(2), CollectionId(3)],
        edges: vec![gedge(0, 1), gedge(0, 2)],
    };
    let eligible = vec![CollectionId(1), CollectionId(3)];
    let order = hard_delete_order(&dep, &eligible).unwrap();
    assert_eq!(order, vec![CollectionId(3)]);
}

#[test]
fn eligibility_filters_by_status_and_cutoff() {
    let all = vec![CollectionId(1), CollectionId(2), CollectionId(3)];
    let statuses = vec![
        SoftDeleteStatus { collection_id: CollectionId(1), is_soft_deleted: true },
        SoftDeleteStatus { collection_id: CollectionId(2), is_soft_deleted: false },
        SoftDeleteStatus { collection_id: CollectionId(9), is_soft_deleted: true },
    ];
    let to_query = GarbageCollectorOrchestrator::soft_deleted_collections_in(&all, &statuses);
    assert_eq!(to_query, vec![CollectionId(1)]);

    let orch = GarbageCollectorOrchestrator::new(
        CollectionId(1),
        "path".to_string(),
        None,
        50,
        50,
        CleanupMode::Delete,
        1,
        true,
        false,
    );
    let metas = vec![
        CollectionStatus { collection_id: CollectionId(1), updated_at: 10 },
        CollectionStatus { collection_id: CollectionId(2), updated_at: 99 },
    ];
    let eligible = orch.filter_eligible_soft_deleted(&metas);
    assert_eq!(eligible, vec![CollectionId(1)]);
}

#[test]
fn duplicate_list_completion_is_rejected() {
    let mut orch = GarbageCollectorOrchestrator::new(
        CollectionId(1),
        "path".to_string(),
        None,
        200,
        200,
        CleanupMode::Delete,
        1,
        true,
        false,
    );
    let graph = VersionGraph { nodes: vec![gnode(1, 0), gnode(1, 1)], edges: vec![gedge(0, 1)] };
    let files = vec![bare_file(1, vec![(0, 100, 0), (1, 100, 10)])];
    orch.handle_version_graph_ready(files, graph, vec![]).unwrap();
    let out = orch.start_compute_versions_to_delete().unwrap();
    orch.handle_compute_versions_to_delete_output(out).unwrap();
    let paths = vec!["f1".to_string()];
    orch.handle_list_files_at_version_output(CollectionId(1), 1, paths.clone()).unwrap();
    let again = orch.handle_list_files_at_version_output(CollectionId(1), 1, paths);
    assert!(matches!(again, Err(GarbageCollectorError::InvariantViolation(_))));
}

#[test]
fn classification_is_received_only_once() {
    let mut orch = GarbageCollectorOrchestrator::new(
        CollectionId(1),
        "path".to_string(),
        None,
        200,
        200,
        CleanupMode::Delete,
        1,
        true,
        false,
    );
    let graph = VersionGraph { nodes: vec![gnode(1, 0)], edges: vec![] };
    let files = vec![bare_file(1, vec![(0, 100, 0)])];
    orch.handle_version_graph_ready(files, graph, vec![]).unwrap();
    let out = orch.start_compute_versions_to_delete().unwrap();
    let out2 = orch.start_compute_versions_to_delete().unwrap();
    orch.handle_compute_versions_to_delete_output(out).unwrap();
    let again = orch.handle_compute_versions_to_delete_output(out2);
    assert!(matches!(again, Err(GarbageCollectorError::InvariantViolation(_))));
}

#[test]
fn reference_counts_shared_paths() {
    let mut entries: Vec<FileRefEntry> = Vec::new();
    let shared = "shared".to_string();
    let orphan = "orphan".to_string();
    touch(&mut entries, &orphan);
    touch(&mut entries, &shared);
    bump(&mut entries, &shared);
    let zero = zero_count_paths(&entries);
    assert_eq!(zero, vec!["orphan"]);
}
