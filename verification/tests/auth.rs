//! Authentication: the key table, the `Authorization` header and rejections.
use patchbay::auth::{AuthError, AuthedKey, KeyStore};
use patchbay::config::{Secret, VirtualKey};

fn make_key(name: &str, raw: &str, enforce_private: bool) -> VirtualKey {
    VirtualKey {
        name: name.to_string(),
        key: Secret::new(raw),
        enforce_private,
    }
}

#[test]
fn known_key_authenticates() {
    let store = KeyStore::from_virtual_keys(&[make_key("dev", "sk-dev-abc", false)]);
    let id = store.authenticate("sk-dev-abc").unwrap();
    assert_eq!(id.name, "dev");
    assert!(!id.enforce_private);
}

#[test]
fn unknown_key_returns_none() {
    let store = KeyStore::from_virtual_keys(&[make_key("dev", "sk-dev-abc", false)]);
    assert!(store.authenticate("sk-wrong").is_none());
}

#[test]
fn enforce_private_is_propagated() {
    let store = KeyStore::from_virtual_keys(&[make_key("priv", "sk-priv-xyz", true)]);
    assert!(store.authenticate("sk-priv-xyz").unwrap().enforce_private);
}

#[test]
fn empty_store_is_open() {
    let store = KeyStore::from_virtual_keys(&[]);
    assert!(store.is_open());
    // Open store admits anything.
    assert!(store.authenticate("whatever").is_none());
}

#[test]
fn multiple_keys_are_independent() {
    let keys = [
        make_key("a", "sk-aaa", false),
        make_key("b", "sk-bbb", true),
    ];
    let store = KeyStore::from_virtual_keys(&keys);
    assert_eq!(store.authenticate("sk-aaa").unwrap().name, "a");
    assert_eq!(store.authenticate("sk-bbb").unwrap().name, "b");
    assert!(store.authenticate("sk-ccc").is_none());
}

#[test]
fn of_keys_with_one_secret_the_last_counts() {
    let keys = [
        make_key("first", "sk-same", false),
        make_key("second", "sk-same", true),
    ];
    let store = KeyStore::from_virtual_keys(&keys);
    let id = store.authenticate("sk-same").unwrap();
    assert_eq!(id.name, "second");
    assert!(id.enforce_private);
}

#[test]
fn clones_of_a_store_know_the_same_keys() {
    let store = KeyStore::from_virtual_keys(&[make_key("dev", "sk-dev-abc", true)]);
    let other = store.clone();
    assert_eq!(other.authenticate("sk-dev-abc").unwrap().name, "dev");
    assert!(!other.is_open());
}

#[test]
fn bearer_token_is_admitted_as_its_key() {
    let store = KeyStore::from_virtual_keys(&[
        make_key("a", "sk-aaa", false),
        make_key("b", "sk-bbb", true),
    ]);
    let AuthedKey(id) = AuthedKey::from_request_parts(&store, Some("Bearer sk-bbb")).unwrap();
    assert_eq!(id.name, "b");
    assert!(id.enforce_private);
}

#[test]
fn open_store_admits_everyone_as_anonymous() {
    let store = KeyStore::from_virtual_keys(&[]);
    for header in [None, Some("Basic abc"), Some("Bearer whatever")] {
        let AuthedKey(id) = AuthedKey::from_request_parts(&store, header).unwrap();
        assert_eq!(id.name, "anonymous");
        assert!(!id.enforce_private);
    }
}

#[test]
fn each_rejection_names_its_reason() {
    let store = KeyStore::from_virtual_keys(&[make_key("dev", "sk-dev-abc", false)]);
    let reason = |header: Option<&str>| -> &'static str {
        AuthedKey::from_request_parts(&store, header).unwrap_err().0
    };
    assert_eq!(reason(None), "missing Authorization header");
    assert_eq!(
        reason(Some("Basic sk-dev-abc")),
        "Authorization header must use the Bearer scheme"
    );
    // The scheme is matched exactly, its one space included.
    assert_eq!(
        reason(Some("bearer sk-dev-abc")),
        "Authorization header must use the Bearer scheme"
    );
    assert_eq!(
        reason(Some("Bearer")),
        "Authorization header must use the Bearer scheme"
    );
    assert_eq!(reason(Some("Bearer ")), "invalid API key");
    assert_eq!(reason(Some("Bearer  sk-dev-abc")), "invalid API key");
    assert_eq!(reason(Some("Bearer sk-wrong")), "invalid API key");
}

#[test]
fn rejection_is_a_401_with_an_error_object() {
    let answer = AuthError("invalid API key").into_response();
    assert_eq!(answer.status, 401);
    assert_eq!(answer.message, "invalid API key");
    assert_eq!(answer.kind, "invalid_request_error");
    assert_eq!(answer.code, "invalid_api_key");
}
