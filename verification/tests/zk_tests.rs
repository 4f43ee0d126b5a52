use offset_explorer::error::ValidationError;
use offset_explorer::zk_browser::CreateZkNodeRequest;

#[test]
fn test_zk_path_validation() {
    let valid_request = CreateZkNodeRequest {
        path: "/test/path".to_string(),
        data: "data".to_string(),
        is_binary: false,
        create_mode: "persistent".to_string(),
        acl: vec![],
    };

    assert!(valid_request.validate().is_ok());

    let invalid_request = CreateZkNodeRequest {
        path: "invalid/path".to_string(),
        data: "data".to_string(),
        is_binary: false,
        create_mode: "persistent".to_string(),
        acl: vec![],
    };

    assert!(invalid_request.validate().is_err());
}

#[test]
fn zk_create_faults() {
    let make = |path: &str, mode: &str| CreateZkNodeRequest {
        path: path.to_string(),
        data: String::new(),
        is_binary: false,
        create_mode: mode.to_string(),
        acl: vec![],
    };
    assert_eq!(make("", "persistent").validate(), Err(ValidationError::EmptyPath));
    assert_eq!(make("a/b", "persistent").validate(), Err(ValidationError::PathNotAbsolute));
    assert_eq!(make("/a", "durable").validate(), Err(ValidationError::InvalidCreateMode));
    assert_eq!(make("/", "container").validate(), Ok(()));
    assert_eq!(make("/é", "ephemeral").validate(), Ok(()));
}
