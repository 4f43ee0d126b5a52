use offset_explorer::acls::CreateAclRequest;
use offset_explorer::error::ValidationError;

fn request(principal: &str, resource_type: &str, resource_name: &str, operation: &str, permission: &str) -> CreateAclRequest {
    CreateAclRequest {
        principal: principal.to_string(),
        resource_type: resource_type.to_string(),
        resource_name: resource_name.to_string(),
        operation: operation.to_string(),
        permission_type: permission.to_string(),
        host: None,
        wildcard: None,
    }
}

#[test]
fn test_validate_acl_request() {
    let valid_request = CreateAclRequest {
        principal: "User:alice".to_string(),
        resource_type: "Topic".to_string(),
        resource_name: "test-topic".to_string(),
        operation: "Read".to_string(),
        permission_type: "Allow".to_string(),
        host: Some("*".to_string()),
        wildcard: Some(false),
    };

    assert!(valid_request.validate().is_ok());

    let invalid_request = CreateAclRequest {
        principal: "".to_string(),
        resource_type: "Topic".to_string(),
        resource_name: "test-topic".to_string(),
        operation: "Read".to_string(),
        permission_type: "Allow".to_string(),
        host: None,
        wildcard: None,
    };

    assert!(invalid_request.validate().is_err());
}

#[test]
fn acl_faults_come_in_the_order_of_the_checks() {
    assert_eq!(request("", "", "", "", "").validate(), Err(ValidationError::EmptyPrincipal));
    assert_eq!(request("User:a", "", "", "", "").validate(), Err(ValidationError::EmptyResourceName));
    assert_eq!(request("User:a", "topic", "t", "Read", "Allow").validate(), Err(ValidationError::InvalidResourceType));
    assert_eq!(request("User:a", "Topic", "t", "READ", "Allow").validate(), Err(ValidationError::InvalidOperation));
    assert_eq!(request("User:a", "Topic", "t", "Read", "allow").validate(), Err(ValidationError::InvalidPermissionType));
    assert_eq!(request("User:a", "DelegationToken", "t", "AlterConfigs", "Deny").validate(), Ok(()));
}
