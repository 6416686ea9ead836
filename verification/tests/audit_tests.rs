use biblio::audit::{AuditEventType, AuditLogger};

#[test]
fn test_event_labels() {
    assert_eq!(AuditEventType::LoginSuccess.label(), "LOGIN_SUCCESS");
    assert_eq!(AuditEventType::LoginFailure.label(), "LOGIN_FAILURE");
    assert_eq!(AuditEventType::LogoutSuccess.label(), "LOGOUT_SUCCESS");
    assert_eq!(AuditEventType::PasswordChange.label(), "PASSWORD_CHANGE");
    assert_eq!(AuditEventType::PasswordReset.label(), "PASSWORD_RESET");
    assert_eq!(AuditEventType::UserCreated.label(), "USER_CREATED");
    assert_eq!(AuditEventType::UserDeleted.label(), "USER_DELETED");
    assert_eq!(AuditEventType::UserModified.label(), "USER_MODIFIED");
    assert_eq!(AuditEventType::UnauthorizedAccess.label(), "UNAUTHORIZED_ACCESS");
    assert_eq!(AuditEventType::SessionTimeout.label(), "SESSION_TIMEOUT");
    assert_eq!(AuditEventType::PermissionDenied.label(), "PERMISSION_DENIED");
}

#[test]
fn test_log_event_and_get_logs_newest_first() {
    let mut logger = AuditLogger::new(100);
    logger.log_event(AuditEventType::LoginSuccess, "alice", "127.0.0.1", "first", true);
    logger.log_event(AuditEventType::LoginFailure, "bob", "127.0.0.1", "second", false);
    let logs = logger.get_logs(10);
    assert_eq!(logs.len(), 2);
    assert_eq!(logs[0].username, "bob");
    assert_eq!(logs[0].event_type, "LOGIN_FAILURE");
    assert!(!logs[0].success);
    assert_eq!(logs[1].username, "alice");
    assert_eq!(logs[1].details, "first");
}

#[test]
fn test_log_bound_drops_oldest() {
    let mut logger = AuditLogger::new(2);
    logger.log_event(AuditEventType::LoginSuccess, "a", "ip", "one", true);
    logger.log_event(AuditEventType::LoginSuccess, "b", "ip", "two", true);
    logger.log_event(AuditEventType::LoginSuccess, "c", "ip", "three", true);
    let logs = logger.get_logs(10);
    assert_eq!(logs.len(), 2);
    assert_eq!(logs[0].details, "three");
    assert_eq!(logs[1].details, "two");
}

#[test]
fn test_get_logs_limit() {
    let mut logger = AuditLogger::new(100);
    logger.log_event(AuditEventType::LoginSuccess, "a", "ip", "one", true);
    logger.log_event(AuditEventType::LoginSuccess, "b", "ip", "two", true);
    logger.log_event(AuditEventType::LoginSuccess, "c", "ip", "three", true);
    let logs = logger.get_logs(2);
    assert_eq!(logs.len(), 2);
    assert_eq!(logs[0].details, "three");
    assert_eq!(logs[1].details, "two");
}

#[test]
fn test_get_user_logs() {
    let mut logger = AuditLogger::new(100);
    logger.log_event(AuditEventType::LoginSuccess, "alice", "ip", "a1", true);
    logger.log_event(AuditEventType::LoginSuccess, "bob", "ip", "b1", true);
    logger.log_event(AuditEventType::LoginFailure, "alice", "ip", "a2", false);
    let logs = logger.get_user_logs("alice", 10);
    assert_eq!(logs.len(), 2);
    assert_eq!(logs[0].details, "a2");
    assert_eq!(logs[1].details, "a1");
    let limited = logger.get_user_logs("alice", 1);
    assert_eq!(limited.len(), 1);
    assert_eq!(limited[0].details, "a2");
}

#[test]
fn test_clear_logs() {
    let mut logger = AuditLogger::new(100);
    logger.log_event(AuditEventType::LoginSuccess, "a", "ip", "one", true);
    logger.clear_logs();
    assert_eq!(logger.get_logs(10).len(), 0);
}
