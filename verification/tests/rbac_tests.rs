use biblio::rbac::{PermissionChecker, UserRole};

#[test]
fn test_from_str_known_roles() {
    assert_eq!(UserRole::from_str("admin"), UserRole::Admin);
    assert_eq!(UserRole::from_str("ADMIN"), UserRole::Admin);
    assert_eq!(UserRole::from_str("Librarian"), UserRole::Librarian);
    assert_eq!(UserRole::from_str("user"), UserRole::User);
    assert_eq!(UserRole::from_str("reader"), UserRole::Reader);
}

#[test]
fn test_from_str_unknown_falls_back_to_reader() {
    assert_eq!(UserRole::from_str("guest"), UserRole::Reader);
    assert_eq!(UserRole::from_str(""), UserRole::Reader);
}

#[test]
fn test_labels() {
    assert_eq!(UserRole::Admin.label(), "admin");
    assert_eq!(UserRole::Librarian.label(), "librarian");
    assert_eq!(UserRole::User.label(), "user");
    assert_eq!(UserRole::Reader.label(), "reader");
}

#[test]
fn test_capabilities() {
    assert!(UserRole::Admin.can_manage_users());
    assert!(!UserRole::Librarian.can_manage_users());
    assert!(UserRole::Admin.can_manage_libraries());
    assert!(UserRole::Librarian.can_manage_libraries());
    assert!(!UserRole::User.can_manage_libraries());
    assert!(UserRole::Admin.can_view_audit_logs());
    assert!(!UserRole::Reader.can_view_audit_logs());
    assert!(UserRole::Admin.can_manage_permissions());
    assert!(!UserRole::User.can_manage_permissions());
    assert!(UserRole::Reader.can_browse_libraries());
}

#[test]
fn test_has_permission() {
    assert!(PermissionChecker::has_permission(&UserRole::Admin, "manage_users"));
    assert!(!PermissionChecker::has_permission(&UserRole::Reader, "manage_users"));
    assert!(PermissionChecker::has_permission(&UserRole::Librarian, "manage_libraries"));
    assert!(!PermissionChecker::has_permission(&UserRole::User, "manage_libraries"));
    assert!(PermissionChecker::has_permission(&UserRole::Admin, "view_audit_logs"));
    assert!(PermissionChecker::has_permission(&UserRole::Reader, "browse_libraries"));
    assert!(PermissionChecker::has_permission(&UserRole::Reader, "download_books"));
    assert!(PermissionChecker::has_permission(&UserRole::Reader, "view_book_details"));
    assert!(!PermissionChecker::has_permission(&UserRole::Admin, "unknown_permission"));
}

#[test]
fn test_require_permission() {
    assert!(PermissionChecker::require_permission(&UserRole::Admin, "manage_users").is_ok());
    let err = PermissionChecker::require_permission(&UserRole::Reader, "manage_users");
    assert_eq!(err.unwrap_err(), "Permission denied: manage_users");
}
