//! Garbage collection for a versioned, forkable collection store.
//!
//! A collection evolves through numbered versions, each referencing a set of
//! immutable blob files; collections may be forked (parent/child lineage) and
//! soft-deleted. This library holds the verified decision core of the garbage
//! collector: the retention classifier, the blob reference counter, the
//! log-truncation offset derivation, the hard-delete ordering over the fork
//! tree, and the orchestrator state machine that sequences them. Callers run
//! the surrounding event loop and perform the storage, log, and metadata
//! calls; they feed each completion back into the state machine as plain
//! values.

use vstd::prelude::*;

pub mod classify;
pub mod dep_graph;
pub mod graph;
pub mod lookup;
pub mod orchestrator;
pub mod refcount;
pub mod types;

verus! {

} // verus!
