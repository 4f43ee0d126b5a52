//! What the cluster client hands to the rest of the application.

pub mod client;
pub mod mapper;
