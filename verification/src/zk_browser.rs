//! The nodes of a coordination service as the browser shows them, and the
//! check of a request to create one.

use vstd::prelude::*;
use vstd::string::*;
use crate::error::ValidationError;
use crate::text::text_eq;

verus! {

/// An access control entry of a node.
#[derive(Debug, Clone)]
pub struct ZkAcl {
    pub scheme: String,
    pub id: String,
    pub permissions: String,
    pub host: String,
}

/// The bookkeeping that the service keeps of a node.
#[derive(Debug, Clone)]
pub struct ZkStat {
    pub data_length: usize,
    pub version: i32,
    pub cversion: i32,
    pub aversion: i32,
    pub ephemeral_owner: String,
    pub ctime: i64,
    pub mtime: i64,
    pub pzxid: i64,
    pub num_children: i32,
}

/// A node with its data and its bookkeeping.
#[derive(Debug, Clone)]
pub struct ZkNode {
    pub path: String,
    /// The data, in base64 where it is binary.
    pub data: String,
    pub is_directory: bool,
    pub child_count: usize,
    pub creation_time: i64,
    pub modification_time: i64,
    pub version: i32,
    pub acl: Vec<ZkAcl>,
    pub stat: ZkStat,
}

/// A request to connect to a coordination service.
#[derive(Debug)]
pub struct ZkConnectionRequest {
    pub name: String,
    /// The hosts, separated by commas.
    pub zk_hosts: String,
    pub chroot: Option<String>,
    /// In milliseconds.
    pub session_timeout: Option<u32>,
    pub auth_scheme: Option<String>,
    pub auth: Option<String>,
}

/// The data of a node.
#[derive(Debug, Clone)]
pub struct ZkNodeData {
    pub path: String,
    pub data: String,
    pub is_binary: bool,
}

/// A request to create a node.
#[derive(Debug)]
pub struct CreateZkNodeRequest {
    pub path: String,
    pub data: String,
    pub is_binary: bool,
    /// One of `persistent`, `ephemeral`, `sequential`, `container`.
    pub create_mode: String,
    pub acl: Vec<ZkAcl>,
}

/// A request to change the data of a node.
#[derive(Debug)]
pub struct UpdateZkNodeRequest {
    pub path: String,
    pub data: String,
    /// The version that the node must have for the change to be made.
    pub expected_version: Option<i32>,
    pub is_binary: bool,
}

/// A request to delete a node.
#[derive(Debug)]
pub struct DeleteZkNodeRequest {
    pub path: String,
    /// The version that the node must have to be deleted.
    pub expected_version: Option<i32>,
    pub recursive: bool,
}

/// The names of the children of a node.
#[derive(Debug, Clone)]
pub struct ZkChildren {
    pub path: String,
    pub children: Vec<String>,
}

/// Whether a text names a way to create a node.
pub open spec fn is_create_mode(s: Seq<char>) -> bool {
    s == "persistent"@ || s == "ephemeral"@ || s == "sequential"@ || s == "container"@
}

/// What is wrong with a request to create a node, the first fault in the
/// order of the checks, or nothing.
pub open spec fn create_fault(path: Seq<char>, create_mode: Seq<char>) -> Option<
    ValidationError,
> {
    if path.len() == 0 {
        Some(ValidationError::EmptyPath)
    } else if path[0] != '/' {
        Some(ValidationError::PathNotAbsolute)
    } else if !is_create_mode(create_mode) {
        Some(ValidationError::InvalidCreateMode)
    } else {
        None
    }
}

impl CreateZkNodeRequest {
    /// Checks the request: the path must not be empty and must start with
    /// a slash, and the create mode must be one of the four that exist. The
    /// first fault in that order is returned.
    pub fn validate(&self) -> (r: Result<(), ValidationError>)
        ensures
            match create_fault(self.path@, self.create_mode@) {
                Some(fault) => r == Err::<(), ValidationError>(fault),
                None => r is Ok,
            },
    {
        let path = self.path.as_str();
        if path.is_empty() {
            return Err(ValidationError::EmptyPath);
        }
        if path.get_char(0) != '/' {
            return Err(ValidationError::PathNotAbsolute);
        }
        let mode = self.create_mode.as_str();
        if !(text_eq(mode, "persistent") || text_eq(mode, "ephemeral") || text_eq(
            mode,
            "sequential",
        ) || text_eq(mode, "container")) {
            return Err(ValidationError::InvalidCreateMode);
        }
        Ok(())
    }
}

} // verus!
