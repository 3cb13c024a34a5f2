//! Verified core of the garbage-collection layer of a DAG-based mempool.
//!
//! Two components are modelled and proved here:
//!
//! * [`block_remover::BlockRemover`] deletes certificates and everything that
//!   hangs off them (headers, payload markers, DAG entries, worker-held
//!   batches) in a fixed order that keeps every partial failure retryable.
//! * [`primary_connector::PrimaryConnector`] relays batch digests from a
//!   worker to its primary under a hard in-flight ceiling, shedding load
//!   instead of queueing, and stops on a shutdown reconfiguration.
//!
//! The persistent stores, the DAG and the worker network are external
//! collaborators; they appear here as in-memory models whose contracts state
//! exactly the interface the two components rely on.

pub mod block_remover;
pub mod channel;
pub mod dag;
pub mod errors;
pub mod kv;
pub mod network;
pub mod primary_connector;
pub mod stores;
pub mod types;
