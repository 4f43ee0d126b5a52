//! The persisted configuration: settings, connections, groups, secrets.

pub mod crypto;
pub mod settings;
pub mod xml;
pub mod server_connection;
pub mod sorting;
pub mod connection_xml;
pub mod server_group;
pub mod group_xml;
pub mod group_laws;
pub mod settings_laws;
pub mod connection_laws;
