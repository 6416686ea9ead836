use biblio::session::SessionStore;

#[test]
fn test_create_and_validate_session() {
    let mut store = SessionStore::new(30);
    let token = store.create_session("alice");
    assert_eq!(token.len(), 36);
    assert_eq!(store.validate_session(&token), Some("alice".to_string()));
    assert_eq!(store.validate_session("no-such-token"), None);
}

#[test]
fn test_tokens_differ() {
    let mut store = SessionStore::new(30);
    let t1 = store.create_session("alice");
    let t2 = store.create_session("bob");
    assert_ne!(t1, t2);
    assert_eq!(store.sessions().len(), 2);
}

#[test]
fn test_invalidate_session() {
    let mut store = SessionStore::new(30);
    let token = store.create_session("alice");
    store.invalidate_session(&token);
    assert_eq!(store.validate_session(&token), None);
    assert_eq!(store.sessions().len(), 0);
}

#[test]
fn test_expired_session_is_dropped() {
    let mut store = SessionStore::new(30);
    let token = store.create_session("alice");
    // far beyond any 30-minute expiry
    assert_eq!(store.validate_session_at(&token, i64::MAX), None);
    assert_eq!(store.sessions().len(), 0);
}

#[test]
fn test_live_session_updates_activity() {
    let mut store = SessionStore::new(30);
    let token = store.create_session("alice");
    let created = store.sessions()[0].created_at;
    let r = store.validate_session_at(&token, created + 1);
    assert_eq!(r, Some("alice".to_string()));
    assert_eq!(store.sessions()[0].last_activity, created + 1);
}

#[test]
fn test_cleanup_expired_sessions() {
    let mut store = SessionStore::new(30);
    let _t1 = store.create_session("alice");
    let _t2 = store.create_session("bob");
    store.cleanup_expired_at(i64::MAX);
    assert_eq!(store.sessions().len(), 0);

    let mut fresh = SessionStore::new(30);
    let _t = fresh.create_session("carol");
    let created = fresh.sessions()[0].created_at;
    fresh.cleanup_expired_at(created);
    assert_eq!(fresh.sessions().len(), 1);
}
