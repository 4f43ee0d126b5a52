//! What a cluster is made of, as the client shows it.

pub mod broker;
pub mod consumer;
pub mod partition;
pub mod topic;
