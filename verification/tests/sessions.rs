use romhack::sessions::{Session, SessionStore};

fn make_session(container_id: &str) -> Session {
    Session { container_id: container_id.into(), platform: "ds".into() }
}

#[test]
fn insert_and_get() {
    let mut store = SessionStore::default();
    store.insert("abc".into(), make_session("ctr-1"));
    let s = store.get("abc").expect("should exist");
    assert_eq!(s.container_id, "ctr-1");
    assert_eq!(s.platform, "ds");
}

#[test]
fn get_missing_returns_none() {
    let store = SessionStore::default();
    assert!(store.get("nonexistent").is_none());
}

#[test]
fn remove_returns_session() {
    let mut store = SessionStore::default();
    store.insert("xyz".into(), make_session("ctr-2"));
    let s = store.remove("xyz").expect("should return session");
    assert_eq!(s.container_id, "ctr-2");
    assert!(store.get("xyz").is_none());
}

#[test]
fn remove_missing_returns_none() {
    let mut store = SessionStore::default();
    assert!(store.remove("ghost").is_none());
}

#[test]
fn insert_replaces_and_keeps_others() {
    let mut store = SessionStore::new();
    store.insert("a".into(), make_session("ctr-a"));
    store.insert("b".into(), make_session("ctr-b"));
    store.insert("a".into(), make_session("ctr-a2"));
    assert_eq!(store.get("a").unwrap().container_id, "ctr-a2");
    assert_eq!(store.get("b").unwrap().container_id, "ctr-b");
    store.remove("a");
    assert!(store.get("a").is_none());
    assert_eq!(store.get("b").unwrap().container_id, "ctr-b");
}
