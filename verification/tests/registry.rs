//! The account registry: lookups, registration, resynchronization.

use minichotan::session::AccountList;

fn fresh() -> AccountList {
    AccountList::default()
}

fn registry(owner: Option<&str>, pairs: &[(&str, &str)]) -> AccountList {
    AccountList {
        owner_id: owner.map(|o| o.to_string()),
        rpc_session_keys: pairs
            .iter()
            .map(|(u, k)| (u.to_string(), k.to_string()))
            .collect(),
    }
}

#[test]
fn fresh_registry_is_signed_out() {
    let acct = fresh();
    assert!(!acct.signed_in());
    assert!(acct.owner_id.is_none());
}

#[test]
fn signed_in_after_any_registration() {
    let mut acct = fresh();
    acct.register_account("u1".to_string(), "k1".to_string());
    assert!(acct.signed_in());
}

#[test]
fn first_account_becomes_owner_second_does_not() {
    let mut acct = fresh();
    acct.register_account("u1".to_string(), "k1".to_string());
    assert_eq!(acct.owner_id.as_deref(), Some("u1"));
    acct.register_account("u2".to_string(), "k2".to_string());
    assert_eq!(acct.owner_id.as_deref(), Some("u1"));
    assert_eq!(acct.key_for("u1").as_deref(), Some("k1"));
    assert_eq!(acct.key_for("u2").as_deref(), Some("k2"));
    assert_eq!(acct.rpc_session_keys.len(), 2);
}

#[test]
fn registration_overwrites_with_the_latest_key() {
    let mut acct = fresh();
    acct.register_account("u1".to_string(), "k1".to_string());
    acct.register_account("u1".to_string(), "k9".to_string());
    assert_eq!(acct.key_for("u1").as_deref(), Some("k9"));
    assert_eq!(acct.rpc_session_keys.len(), 1);
}

#[test]
fn key_for_missing_is_none_never_a_failure() {
    assert!(fresh().key_for("missing").is_none());
    let acct = registry(Some("u1"), &[("u1", "k1"), ("u2", "k2")]);
    assert!(acct.key_for("missing").is_none());
}

#[test]
fn owner_key_resolves_the_owner() {
    let acct = registry(Some("u2"), &[("u1", "k1"), ("u2", "k2")]);
    assert_eq!(acct.owner_key().as_deref(), Some("k2"));
}

#[test]
fn owner_key_without_owner_is_none() {
    let acct = registry(None, &[("u1", "k1")]);
    assert!(acct.owner_key().is_none());
}

#[test]
fn owner_key_survives_a_dangling_owner() {
    // owner set but absent from the map: answered with None, no panic
    let acct = registry(Some("gone"), &[("u1", "k1")]);
    assert!(acct.owner_key().is_none());
}

#[test]
fn resync_replaces_the_map_wholesale() {
    let mut acct = registry(Some("u1"), &[("u1", "k1"), ("u2", "k2")]);
    acct.resync_accounts(
        Some("u1".to_string()),
        vec![("u1".to_string(), "k1".to_string())],
    );
    assert_eq!(acct.owner_id.as_deref(), Some("u1"));
    assert_eq!(acct.rpc_session_keys.len(), 1);
    assert_eq!(acct.key_for("u1").as_deref(), Some("k1"));
    assert!(acct.key_for("u2").is_none());
}

#[test]
fn resync_keeps_the_last_duplicate() {
    let mut acct = fresh();
    acct.resync_accounts(
        Some("u1".to_string()),
        vec![
            ("u1".to_string(), "old".to_string()),
            ("u1".to_string(), "new".to_string()),
        ],
    );
    assert_eq!(acct.key_for("u1").as_deref(), Some("new"));
    assert_eq!(acct.rpc_session_keys.len(), 1);
}
