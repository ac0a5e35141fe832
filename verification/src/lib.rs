//! Request-phase bookkeeping for a Kuadrant policy filter: a store of gRPC
//! replies keyed by token, the upstream configuration and its validation,
//! attribute resolution from a request snapshot, and the decisions taken
//! while a policy pipeline digests its replies.

pub mod attributes;
pub mod config;
pub mod pipeline;
pub mod store;
pub mod text;
