//! Configuration layer of a desktop client for messaging clusters: a typed
//! settings registry, a store of connection records, a tree of connection
//! groups, their XML form, and the fixed-layout codec that masks secrets.

pub mod error;
pub mod text;
pub mod config;
pub mod acls;
pub mod async_ops;
pub mod kafka;
pub mod models;
pub mod schema_registry;
pub mod ui_events;
pub mod zk_browser;
pub mod zookeeper;
pub mod decoders;
pub mod tauri_commands;
