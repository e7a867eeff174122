//! Plain data model: identifiers, version metadata, cleanup modes, the
//! orchestrator's response, and its error type.

use vstd::prelude::*;

verus! {

/// Stable identifier of a collection (the 128 bits of its UUID).
#[derive(Clone, Copy, PartialEq, Eq, Structural, Debug)]
pub struct CollectionId(pub u128);

/// What the classifier decided for one version of one collection.
#[derive(Clone, Copy, PartialEq, Eq, Structural, Debug)]
pub enum VersionAction {
    Keep,
    Delete,
}

/// Whether destructive writes are performed or only simulated.
#[derive(Clone, Copy, PartialEq, Eq, Structural, Debug)]
pub enum CleanupMode {
    DryRun,
    Delete,
}

/// Per-version metadata as recorded in a collection's version file.
pub struct VersionInfo {
    pub version: u64,
    /// Seconds since the epoch at which this version was created.
    pub created_at: i64,
    /// Offset of the first log entry not yet materialised at this version.
    /// Recorded as signed on the wire; a negative value is an invariant
    /// violation.
    pub current_log_position: i64,
}

/// Immutable collection metadata carried by a version file.
pub struct CollectionInfo {
    pub tenant_id: String,
    pub database_id: String,
    pub database_name: String,
}

/// The contents of one collection's version file that the orchestrator reads.
pub struct CollectionVersionFile {
    pub collection_info_immutable: Option<CollectionInfo>,
    pub version_history: Option<Vec<VersionInfo>>,
}

/// Soft-delete status and last-update time of a collection, as reported by
/// the metadata store.
pub struct CollectionStatus {
    pub collection_id: CollectionId,
    pub updated_at: i64,
}

/// A collection's soft-delete flag, as reported by the metadata store.
pub struct SoftDeleteStatus {
    pub collection_id: CollectionId,
    pub is_soft_deleted: bool,
}

/// One (collection, version) node whose file listing is awaited.
#[derive(Clone, Copy, PartialEq, Eq, Structural, Debug)]
pub struct VersionPair {
    pub collection_id: CollectionId,
    pub version: u64,
}

/// Final outcome of one garbage-collection run.
pub struct GarbageCollectorResponse {
    pub collection_id: CollectionId,
    pub num_versions_deleted: u64,
    pub num_files_deleted: u64,
}

/// Everything that can end a garbage-collection run early. Failures of the
/// surrounding runtime and of the remote sub-operators are carried as
/// messages; the variants produced by this library's own checks carry the
/// offending collection or a description of the violated invariant.
#[derive(Debug)]
pub enum GarbageCollectorError {
    Panic(String),
    Channel(String),
    Result(String),
    Generic(String),
    Wal3(String),
    Aborted,
    ConstructVersionGraph(String),
    ComputeVersionsToDelete(String),
    MarkVersionsAtSysDb(String),
    ListFilesAtVersion(String),
    DeleteUnusedFiles(String),
    DeleteUnusedLogs(String),
    DeleteVersionsAtSysDb(String),
    MissingVersionFile(CollectionId),
    InvariantViolation(String),
    UnparsableUuid(String),
    CollectionDeletionFailed(String),
    SysDbMethodFailed(String),
}

impl GarbageCollectorError {
    /// A human-readable description of the error.
    pub fn message(&self) -> (r: String)
        ensures
            self matches GarbageCollectorError::Panic(m) ==> r@ == m@,
            self matches GarbageCollectorError::Channel(m) ==> r@ == m@,
            self matches GarbageCollectorError::Result(m) ==> r@ == m@,
            self matches GarbageCollectorError::Generic(m) ==> r@ == m@,
            self matches GarbageCollectorError::Wal3(m) ==> r@ == m@,
            self matches GarbageCollectorError::ConstructVersionGraph(m) ==> r@ == m@,
            self matches GarbageCollectorError::ComputeVersionsToDelete(m) ==> r@ == m@,
            self matches GarbageCollectorError::MarkVersionsAtSysDb(m) ==> r@ == m@,
            self matches GarbageCollectorError::ListFilesAtVersion(m) ==> r@ == m@,
            self matches GarbageCollectorError::DeleteUnusedFiles(m) ==> r@ == m@,
            self matches GarbageCollectorError::DeleteUnusedLogs(m) ==> r@ == m@,
            self matches GarbageCollectorError::DeleteVersionsAtSysDb(m) ==> r@ == m@,
            self matches GarbageCollectorError::InvariantViolation(m) ==> r@ == m@,
            self matches GarbageCollectorError::UnparsableUuid(m) ==> r@ == m@,
            self matches GarbageCollectorError::CollectionDeletionFailed(m) ==> r@ == m@,
            self matches GarbageCollectorError::SysDbMethodFailed(m) ==> r@ == m@,
    {
        match self {
            GarbageCollectorError::Panic(m) => m.clone(),
            GarbageCollectorError::Channel(m) => m.clone(),
            GarbageCollectorError::Result(m) => m.clone(),
            GarbageCollectorError::Generic(m) => m.clone(),
            GarbageCollectorError::Wal3(m) => m.clone(),
            GarbageCollectorError::Aborted => "The task was aborted because resources were exhausted".to_string(),
            GarbageCollectorError::ConstructVersionGraph(m) => m.clone(),
            GarbageCollectorError::ComputeVersionsToDelete(m) => m.clone(),
            GarbageCollectorError::MarkVersionsAtSysDb(m) => m.clone(),
            GarbageCollectorError::ListFilesAtVersion(m) => m.clone(),
            GarbageCollectorError::DeleteUnusedFiles(m) => m.clone(),
            GarbageCollectorError::DeleteUnusedLogs(m) => m.clone(),
            GarbageCollectorError::DeleteVersionsAtSysDb(m) => m.clone(),
            GarbageCollectorError::MissingVersionFile(_) => "Expected version file missing for collection".to_string(),
            GarbageCollectorError::InvariantViolation(m) => m.clone(),
            GarbageCollectorError::UnparsableUuid(m) => m.clone(),
            GarbageCollectorError::CollectionDeletionFailed(m) => m.clone(),
            GarbageCollectorError::SysDbMethodFailed(m) => m.clone(),
        }
    }
}

} // verus!
