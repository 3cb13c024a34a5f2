//! Error taxonomy of the deletion protocol.

use vstd::prelude::*;

verus! {

/// Storage-layer failure kind reported by a store.
#[derive(Clone, Copy, PartialEq, Eq, Debug, Structural)]
pub enum StoreErrorKind {
    Backend,
    Serialization,
}

/// Domain failure reported by the DAG when a removal would violate its
/// invariants (for example, a certificate still referenced by an un-removed
/// descendant).
#[derive(Clone, Copy, PartialEq, Eq, Debug, Structural)]
pub enum DagErrorKind {
    InvariantViolated,
}

/// Failure of a remote call to a worker.
#[derive(Clone, Copy, PartialEq, Eq, Debug, Structural)]
pub enum NetworkErrorKind {
    Unreachable,
}

/// The two ways local cleanup can fail: a store operation or the DAG
/// removal. Kept as exactly these two cases so callers can branch on
/// recovery strategy (retry on storage, alert on DAG inconsistency).
#[derive(Clone, Copy, PartialEq, Eq, Debug, Structural)]
pub enum CleanupError {
    Storage(StoreErrorKind),
    Dag(DagErrorKind),
}

/// Everything `remove_blocks` can report: the remote all-or-nothing gate,
/// a storage-layer failure, or a DAG-consistency failure.
#[derive(Clone, Copy, PartialEq, Eq, Debug, Structural)]
pub enum BlockRemovalError {
    Network(NetworkErrorKind),
    Storage(StoreErrorKind),
    Dag(DagErrorKind),
}

} // verus!
