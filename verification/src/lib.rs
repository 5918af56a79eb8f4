//! A hierarchical event store for an oracle service.
//!
//! Events are identified by slash-delimited paths with an outcome-kind
//! suffix.  The store keeps a tree of nodes: each node aggregates the
//! events attached to its path and the names of its immediate children.
//! Two interchangeable backends implement one backend-agnostic contract,
//! and an update/acknowledgment pipeline feeds the store from event
//! sources.

pub mod cli;
pub mod conformance;
pub mod db;
pub mod events;
pub mod flat;
pub mod ids;
pub mod in_memory;
pub mod laws;
pub mod model;
pub mod sources;
