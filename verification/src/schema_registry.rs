//! What the schema registry holds.

pub mod client;
