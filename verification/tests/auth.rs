use reasondb_core::error::ReasonError;
use reasondb_core::auth::permissions::{Permission, Permissions};
use reasondb_core::auth::{hash_api_key, validate_key_format, KeyPrefix};

#[test]
fn test_hash_api_key() {
    let key = "rdb_live_abcdefghijklmnopqrstuvwxyz123456";
    let hash = hash_api_key(key);
    assert_eq!(hash.len(), 64); // SHA256 hex = 64 chars

    // Same key should produce same hash
    let hash2 = hash_api_key(key);
    assert_eq!(hash, hash2);
}

#[test]
fn test_validate_key_format() {
    // Valid live key
    let result = validate_key_format("rdb_live_abcdefghijklmnopqrstuvwxyz12345");
    assert!(result.is_ok());
    assert_eq!(result.unwrap(), KeyPrefix::Live);

    // Valid test key
    let result = validate_key_format("rdb_test_abcdefghijklmnopqrstuvwxyz12345");
    assert!(result.is_ok());
    assert_eq!(result.unwrap(), KeyPrefix::Test);

    // Invalid prefix
    let result = validate_key_format("rdb_fake_abcdefghijklmnopqrstuvwxyz12345");
    assert!(result.is_err());

    // Wrong length
    let result = validate_key_format("rdb_live_short");
    assert!(result.is_err());
}

#[test]
fn test_permissions() {
    let perms = Permissions::new(vec![Permission::Read, Permission::Write]);

    assert!(perms.has(Permission::Read));
    assert!(perms.has(Permission::Write));
    assert!(!perms.has(Permission::Admin));
}

#[test]
fn test_has_all() {
    let perms = Permissions::all();
    assert!(perms.has_all(&[Permission::Read, Permission::Write, Permission::Admin]));

    let limited = Permissions::read_only();
    assert!(!limited.has_all(&[Permission::Read, Permission::Write]));
}

#[test]
fn test_permission_from_str() {
    assert_eq!("read".parse::<Permission>().unwrap(), Permission::Read);
    assert_eq!("WRITE".parse::<Permission>().unwrap(), Permission::Write);
    assert!("invalid".parse::<Permission>().is_err());
}

#[test]
fn key_lengths_forty_and_forty_four() {
    let body = "abcdefghijklmnopqrstuvwxyz0123456789";
    let key = |prefix: &str, n: usize| format!("{}{}", prefix, &body[..n - 9]);
    assert_eq!(validate_key_format(&key("rdb_live_", 40)), Ok(KeyPrefix::Live));
    assert_eq!(validate_key_format(&key("rdb_test_", 44)), Ok(KeyPrefix::Test));
    for n in [39, 41, 42, 43, 45] {
        assert_eq!(
            validate_key_format(&key("rdb_live_", n)),
            Err(ReasonError::Auth("Invalid API key format".to_string()))
        );
    }
    assert_eq!(
        validate_key_format(&key("rdb_xxxx_", 44)),
        Err(ReasonError::Auth("Invalid API key prefix".to_string()))
    );
}
