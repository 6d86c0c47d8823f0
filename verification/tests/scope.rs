use lagent::scope::{check_root, is_root, system_agents_dir, target_dir, ScopeError};

#[test]
fn test_user_scope_returns_home_library_path() {
    let path = target_dir(true, Some("/Users/testuser".to_string()), false).unwrap();
    assert_eq!(path, "/Users/testuser/Library/LaunchAgents");
}

#[test]
fn test_system_scope_returns_library_path() {
    let path = system_agents_dir();
    assert_eq!(path, "/Library/LaunchAgents");
}

#[test]
fn test_is_root_returns_bool() {
    let _ = is_root(None);
}

#[test]
fn is_root_reads_id_output() {
    assert!(is_root(Some("0\n".to_string())));
    assert!(is_root(Some("  0 ".to_string())));
    assert!(!is_root(Some("501\n".to_string())));
    assert!(!is_root(Some("00".to_string())));
    assert!(!is_root(Some(String::new())));
    assert!(!is_root(None));
}

#[test]
fn target_dir_per_scope() {
    assert_eq!(
        target_dir(true, Some("/Users/me/".to_string()), false).unwrap(),
        "/Users/me/Library/LaunchAgents"
    );
    assert_eq!(target_dir(false, None, true).unwrap(), "/Library/LaunchAgents");
    match target_dir(false, Some("/Users/me".to_string()), false) {
        Err(e @ ScopeError::NotRoot) => {
            assert_eq!(e.message(), "this operation requires root. Re-run with sudo.")
        }
        other => panic!("unexpected {:?}", other),
    }
    match target_dir(true, None, true) {
        Err(e @ ScopeError::HomeNotSet) => {
            assert_eq!(e.message(), "HOME environment variable not set")
        }
        other => panic!("unexpected {:?}", other),
    }
}

#[test]
fn check_root_needs_root() {
    assert!(check_root(true).is_ok());
    assert!(matches!(check_root(false), Err(ScopeError::NotRoot)));
}
