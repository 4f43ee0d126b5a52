//! What the application tells its user interface about.

use vstd::prelude::*;

verus! {

/// Something that happened to the configuration or to a cluster.
#[derive(Debug, Clone)]
pub enum AppEvent {
    ServerConnectionAdded { id: i64, name: String },
    ServerConnectionRemoved { id: i64 },
    ServerConnectionConnected { id: i64 },
    ServerConnectionDisconnected { id: i64 },
    TopicAdded { name: String },
    TopicRemoved { name: String },
    ConsumerAdded { group_id: String },
    ConsumerRemoved { group_id: String },
}

} // verus!
