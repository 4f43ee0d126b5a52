//! The coordination service.

pub mod client;
