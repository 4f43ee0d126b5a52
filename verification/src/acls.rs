//! Access control entries of a cluster, and the check of a request to
//! create one.

use vstd::prelude::*;
use crate::error::ValidationError;
use crate::text::text_eq;

verus! {

/// What an entry allows or denies.
#[derive(Debug, Clone, Copy, PartialEq, Eq, Structural)]
pub enum AclOperation {
    Read,
    Write,
    Create,
    Delete,
    Alter,
    Describe,
    ClusterAction,
    DescribeConfigs,
    AlterConfigs,
    All,
}

/// Whether an entry allows or denies.
#[derive(Debug, Clone, Copy, PartialEq, Eq, Structural)]
pub enum AclPermission {
    Allow,
    Deny,
}

/// The kind of resource an entry is about.
#[derive(Debug, Clone, Copy, PartialEq, Eq, Structural)]
pub enum AclResourceType {
    Topic,
    Group,
    Cluster,
    TransactionalId,
    DelegationToken,
}

/// One access control entry.
#[derive(Debug, Clone)]
pub struct AclBinding {
    /// Whom the entry is about, such as `User:alice` or `User:*`.
    pub principal: String,
    /// The kind of resource.
    pub resource_type: String,
    /// The name of the resource.
    pub resource_name: String,
    pub operation: AclOperation,
    pub permission_type: AclPermission,
    /// The hosts the entry holds for, `*` for all.
    pub host: String,
    /// Whether the resource name is a pattern.
    pub wildcard: bool,
}

/// A request to create an access control entry, as the user interface
/// sends it.
#[derive(Debug)]
pub struct CreateAclRequest {
    pub principal: String,
    pub resource_type: String,
    pub resource_name: String,
    pub operation: String,
    pub permission_type: String,
    pub host: Option<String>,
    pub wildcard: Option<bool>,
}

/// What to list access control entries by. A field that is absent matches
/// every entry.
#[derive(Debug)]
pub struct AclFilter {
    pub resource_type: Option<String>,
    pub resource_name: Option<String>,
    pub principal: Option<String>,
    pub operation: Option<String>,
    pub permission_type: Option<String>,
    pub host: Option<String>,
}

/// Whether a text names a kind of resource.
pub open spec fn is_resource_type(s: Seq<char>) -> bool {
    s == "Topic"@ || s == "Group"@ || s == "Cluster"@ || s == "TransactionalId"@ || s
        == "DelegationToken"@
}

/// Whether a text names an operation.
pub open spec fn is_operation(s: Seq<char>) -> bool {
    s == "Read"@ || s == "Write"@ || s == "Create"@ || s == "Delete"@ || s == "Alter"@ || s
        == "Describe"@ || s == "ClusterAction"@ || s == "DescribeConfigs"@ || s
        == "AlterConfigs"@ || s == "All"@
}

/// Whether a text names a permission.
pub open spec fn is_permission(s: Seq<char>) -> bool {
    s == "Allow"@ || s == "Deny"@
}

/// What is wrong with a request, the first fault in the order of the
/// checks, or nothing.
pub open spec fn acl_fault(
    principal: Seq<char>,
    resource_type: Seq<char>,
    resource_name: Seq<char>,
    operation: Seq<char>,
    permission_type: Seq<char>,
) -> Option<ValidationError> {
    if principal.len() == 0 {
        Some(ValidationError::EmptyPrincipal)
    } else if resource_name.len() == 0 {
        Some(ValidationError::EmptyResourceName)
    } else if !is_resource_type(resource_type) {
        Some(ValidationError::InvalidResourceType)
    } else if !is_operation(operation) {
        Some(ValidationError::InvalidOperation)
    } else if !is_permission(permission_type) {
        Some(ValidationError::InvalidPermissionType)
    } else {
        None
    }
}

/// Whether a text names a kind of resource.
fn names_resource_type(s: &str) -> (r: bool)
    ensures
        r == is_resource_type(s@),
{
    text_eq(s, "Topic") || text_eq(s, "Group") || text_eq(s, "Cluster") || text_eq(
        s,
        "TransactionalId",
    ) || text_eq(s, "DelegationToken")
}

/// Whether a text names an operation.
fn names_operation(s: &str) -> (r: bool)
    ensures
        r == is_operation(s@),
{
    text_eq(s, "Read") || text_eq(s, "Write") || text_eq(s, "Create") || text_eq(s, "Delete")
        || text_eq(s, "Alter") || text_eq(s, "Describe") || text_eq(s, "ClusterAction") || text_eq(
        s,
        "DescribeConfigs",
    ) || text_eq(s, "AlterConfigs") || text_eq(s, "All")
}

impl CreateAclRequest {
    /// Checks the request: the principal and the resource name must not be
    /// empty, and the resource type, the operation and the permission must
    /// each be one of the names that exist. The first fault in that order
    /// is returned.
    pub fn validate(&self) -> (r: Result<(), ValidationError>)
        ensures
            match acl_fault(
                self.principal@,
                self.resource_type@,
                self.resource_name@,
                self.operation@,
                self.permission_type@,
            ) {
                Some(fault) => r == Err::<(), ValidationError>(fault),
                None => r is Ok,
            },
    {
        if self.principal.as_str().is_empty() {
            return Err(ValidationError::EmptyPrincipal);
        }
        if self.resource_name.as_str().is_empty() {
            return Err(ValidationError::EmptyResourceName);
        }
        if !names_resource_type(self.resource_type.as_str()) {
            return Err(ValidationError::InvalidResourceType);
        }
        if !names_operation(self.operation.as_str()) {
            return Err(ValidationError::InvalidOperation);
        }
        if !(text_eq(self.permission_type.as_str(), "Allow") || text_eq(
            self.permission_type.as_str(),
            "Deny",
        )) {
            return Err(ValidationError::InvalidPermissionType);
        }
        Ok(())
    }
}

} // verus!
