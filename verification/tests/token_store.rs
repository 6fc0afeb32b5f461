use meta_mcp::tokens::{forget, now_secs, record_ids, still_valid, OAuthRecord, OAuthStore};

fn rec(token: &str) -> OAuthRecord {
    OAuthRecord {
        resource: "r".to_string(),
        authorization_endpoint: "a".to_string(),
        token_endpoint: "t".to_string(),
        registration_endpoint: None,
        client_id: "c".to_string(),
        client_secret: None,
        scope: None,
        access_token: token.to_string(),
        refresh_token: None,
        expires_at: None,
    }
}

#[test]
fn insert_replaces_by_id() {
    let mut store = OAuthStore::new();
    store.insert("a".to_string(), rec("1"));
    store.insert("b".to_string(), rec("2"));
    store.insert("a".to_string(), rec("3"));
    assert_eq!(store.entries.len(), 2);
    assert_eq!(store.get("a").unwrap().access_token, "3");
    assert_eq!(store.get("b").unwrap().access_token, "2");
    assert!(store.get("c").is_none());
    assert_eq!(record_ids(&store), vec!["a".to_string(), "b".to_string()]);
}

#[test]
fn forget_removes_only_that_server() {
    let mut store = OAuthStore::new();
    store.insert("a".to_string(), rec("1"));
    store.insert("b".to_string(), rec("2"));
    assert!(forget(&mut store, "a"));
    assert!(store.get("a").is_none());
    assert_eq!(store.get("b").unwrap().access_token, "2");
    assert!(!forget(&mut store, "a"));
    assert_eq!(record_ids(&store), vec!["b".to_string()]);
    assert!(store.remove("b"));
    assert!(record_ids(&store).is_empty());
}

#[test]
fn validity_needs_a_minute_left() {
    assert!(still_valid(None, 1000));
    assert!(still_valid(Some(1061), 1000));
    assert!(!still_valid(Some(1060), 1000));
    assert!(!still_valid(Some(0), 0));
    assert!(!still_valid(Some(u64::MAX), u64::MAX - 10));
    assert!(still_valid(Some(u64::MAX), u64::MAX - 61));
}

#[test]
fn clock_is_after_the_epoch() {
    assert!(now_secs() > 1_600_000_000);
}

#[test]
fn clock_reading_or_zero() {
    assert_eq!(meta_mcp::tokens::secs_or_zero(Some(1234)), 1234);
    assert_eq!(meta_mcp::tokens::secs_or_zero(None), 0);
}
