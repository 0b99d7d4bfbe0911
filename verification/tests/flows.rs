//! The request flows: key resolution, request lines, response application.

use minichotan::error::{classify_transport_failure, AppError};
use minichotan::flows::{
    accounts_body, accounts_request, add_account_request, apply_account_list, apply_add_account,
    decode_or_error, empty_accounts_body, result_of, timeline_request, timeline_request_fresh,
    user_id_body, userinfo_request, AccountsAction,
};
use minichotan::json::JsonValue;
use minichotan::parse::parse_json_text;
use minichotan::response::RpcResponseResult;
use minichotan::session::AccountList;

fn registry(owner: Option<&str>, pairs: &[(&str, &str)]) -> AccountList {
    AccountList {
        owner_id: owner.map(|o| o.to_string()),
        rpc_session_keys: pairs
            .iter()
            .map(|(u, k)| (u.to_string(), k.to_string()))
            .collect(),
    }
}

fn member<'a>(v: &'a JsonValue, key: &str) -> &'a JsonValue {
    match v {
        JsonValue::Obj(ms) => {
            for (k, val) in ms {
                if k == key {
                    return val;
                }
            }
            panic!("member {} not found", key)
        },
        other => panic!("expected an object, got {:?}", other),
    }
}

#[test]
fn timeline_without_key_is_session_not_found_before_any_call() {
    let acct = registry(None, &[]);
    let user = "42".to_string();
    let r = timeline_request(&acct, Some(&user), "id-1");
    match r {
        Err(AppError::SessionNotFound(u)) => assert_eq!(u, "42"),
        other => panic!("expected a missing session key, got {:?}", other),
    }
}

#[test]
fn timeline_without_user_id_is_a_parameter_error() {
    let acct = registry(Some("u1"), &[("u1", "k1")]);
    assert!(matches!(
        timeline_request(&acct, None, "id-1"),
        Err(AppError::Params)
    ));
}

#[test]
fn timeline_request_carries_the_resolved_key() {
    let acct = registry(Some("u1"), &[("u1", "k1"), ("42", "k42")]);
    let user = "42".to_string();
    let req = timeline_request(&acct, Some(&user), "id-1").expect("key is registered");
    let v = parse_json_text(req.payload()).expect("payload must be valid JSON");
    assert_eq!(member(&v, "method"), &JsonValue::Str("v0.home_timeline".to_string()));
    assert_eq!(member(&v, "id"), &JsonValue::Str("id-1".to_string()));
    let params = member(&v, "params");
    assert_eq!(member(params, "session_key"), &JsonValue::Str("k42".to_string()));
    let api = member(params, "api_params");
    assert_eq!(
        member(api, "expansions"),
        &JsonValue::Str(
            "author_id,referenced_tweets.id,referenced_tweets.id.author_id,attachments.media_keys"
                .to_string()
        )
    );
}

#[test]
fn timeline_fresh_draws_a_nonempty_id() {
    let acct = registry(Some("u1"), &[("u1", "k1")]);
    let user = "u1".to_string();
    let req = timeline_request_fresh(&acct, Some(&user)).expect("key is registered");
    let v = parse_json_text(req.payload()).expect("payload must be valid JSON");
    match member(&v, "id") {
        JsonValue::Str(id) => assert_eq!(id.chars().count(), 36),
        other => panic!("expected a string id, got {:?}", other),
    }
}

#[test]
fn userinfo_request_is_a_plain_call() {
    let acct = registry(None, &[("7", "k7")]);
    let user = "7".to_string();
    let req = userinfo_request(&acct, Some(&user), "id-2").expect("key is registered");
    let v = parse_json_text(req.payload()).expect("payload must be valid JSON");
    assert_eq!(member(&v, "method"), &JsonValue::Str("v0.plain".to_string()));
    let params = member(&v, "params");
    assert_eq!(member(params, "endpoint"), &JsonValue::Str("users/:id".to_string()));
    assert_eq!(member(params, "http_method"), &JsonValue::Str("GET".to_string()));
    assert_eq!(member(params, "api_params"), &JsonValue::Obj(vec![]));
}

#[test]
fn add_account_uses_the_owner_key_or_null() {
    let acct = registry(Some("u1"), &[("u1", "k1")]);
    let req = add_account_request(&acct, "id-3");
    let v = parse_json_text(req.payload()).expect("payload must be valid JSON");
    assert_eq!(member(&v, "method"), &JsonValue::Str("v0.account.add".to_string()));
    assert_eq!(member(member(&v, "params"), "session_key"), &JsonValue::Str("k1".to_string()));

    let empty = AccountList::default();
    let req2 = add_account_request(&empty, "id-4");
    let v2 = parse_json_text(req2.payload()).expect("payload must be valid JSON");
    assert_eq!(member(member(&v2, "params"), "session_key"), &JsonValue::Null);
}

#[test]
fn accounts_listing_without_keys_stays_local() {
    let acct = AccountList::default();
    assert!(matches!(accounts_request(&acct, "id-5"), AccountsAction::EmptyList));
    assert_eq!(empty_accounts_body(), r#"{"owner":null,"session_keys":{}}"#);
}

#[test]
fn accounts_listing_when_signed_in_calls_the_backend() {
    let acct = registry(Some("u1"), &[("u1", "k1")]);
    match accounts_request(&acct, "id-6") {
        AccountsAction::Call(req) => {
            let v = parse_json_text(req.payload()).expect("payload must be valid JSON");
            assert_eq!(member(&v, "method"), &JsonValue::Str("v0.account.list".to_string()));
            assert_eq!(
                member(member(&v, "params"), "session_key"),
                &JsonValue::Str("k1".to_string())
            );
        },
        AccountsAction::EmptyList => panic!("a signed-in session must call the backend"),
    }
}

#[test]
fn apply_add_account_registers_and_promotes() {
    let mut acct = AccountList::default();
    let res = RpcResponseResult::AccountAdd {
        user_id: "u1".to_string(),
        session_key: "k1".to_string(),
    };
    let uid = apply_add_account(&mut acct, &res).expect("an add result applies");
    assert_eq!(uid, "u1");
    assert_eq!(acct.owner_id.as_deref(), Some("u1"));
    assert_eq!(acct.key_for("u1").as_deref(), Some("k1"));
    assert!(acct.signed_in());
}

#[test]
fn apply_add_account_rejects_other_shapes() {
    let mut acct = AccountList::default();
    let res = RpcResponseResult::Status { version: "1".to_string() };
    assert!(matches!(
        apply_add_account(&mut acct, &res),
        Err(AppError::BackendInvalidResponse(_))
    ));
    assert!(!acct.signed_in());
}

#[test]
fn apply_account_list_resynchronizes() {
    let mut acct = registry(Some("u1"), &[("u1", "k1"), ("u2", "k2")]);
    let res = RpcResponseResult::AccountList {
        owner: Some("u1".to_string()),
        session_keys: vec![("u1".to_string(), "k1".to_string())],
    };
    let (owner, ids) = apply_account_list(&mut acct, &res).expect("a list result applies");
    assert_eq!(owner.as_deref(), Some("u1"));
    assert_eq!(ids, vec!["u1".to_string()]);
    assert_eq!(acct.rpc_session_keys.len(), 1);
    assert!(acct.key_for("u2").is_none());
    assert_eq!(accounts_body(owner.as_ref(), &ids), r#"{"owner_id":"u1","user_ids":["u1"]}"#);
}

#[test]
fn apply_account_list_deduplicates_repeated_ids() {
    // a malformed backend map repeating a user id: the last key wins and the
    // listing names the user once
    let mut acct = AccountList::default();
    let res = RpcResponseResult::AccountList {
        owner: Some("u1".to_string()),
        session_keys: vec![
            ("u1".to_string(), "old".to_string()),
            ("u1".to_string(), "new".to_string()),
        ],
    };
    let (_, ids) = apply_account_list(&mut acct, &res).expect("a list result applies");
    assert_eq!(ids, vec!["u1".to_string()]);
    assert_eq!(acct.rpc_session_keys.len(), 1);
    assert_eq!(acct.key_for("u1").as_deref(), Some("new"));
}

#[test]
fn add_account_body_is_canonical() {
    assert_eq!(user_id_body(&"u1".to_string()), r#"{"user_id":"u1"}"#);
    assert_eq!(user_id_body(&"a\"b".to_string()), r#"{"user_id":"a\"b"}"#);
}

#[test]
fn result_of_splits_results_and_errors() {
    let ok = decode_or_error(r#"{"id":"1","jsonrpc":"2.0","result":{"version":"v"}}"#)
        .expect("decodes");
    assert!(matches!(result_of(ok), Ok(RpcResponseResult::Status { .. })));

    let err = decode_or_error(r#"{"id":"1","jsonrpc":"2.0","error":{"code":7,"message":"boom"}}"#)
        .expect("decodes");
    match result_of(err) {
        Err(AppError::RpcResponse(e)) => {
            assert_eq!(e.code, 7);
            assert_eq!(e.message, "boom");
            assert_eq!(
                AppError::RpcResponse(e).message(),
                "error response from backend: boom"
            );
        },
        other => panic!("expected a backend error, got {:?}", other),
    }
}

#[test]
fn decode_failure_is_an_invalid_response_error() {
    match decode_or_error("} not json") {
        Err(e @ AppError::BackendInvalidResponse(_)) => {
            assert!(e.message().starts_with("invalid response from backend: "));
        },
        other => panic!("expected a decode failure, got {:?}", other),
    }
}

#[test]
fn connect_failures_are_backend_unreachable_not_transport() {
    let e = classify_transport_failure(true, "refused".to_string());
    match &e {
        AppError::SocketConnect(d) => assert_eq!(d, "refused"),
        other => panic!("expected unreachable, got {:?}", other),
    }
    assert_eq!(
        e.message(),
        "could not connect to the backend. is it running?: refused"
    );

    let e2 = classify_transport_failure(false, "reset".to_string());
    assert!(matches!(e2, AppError::Socket(_)));
    assert_eq!(e2.message(), "socket error: reset");
}

#[test]
fn error_messages_follow_the_taxonomy() {
    assert_eq!(AppError::Bind.message(), "could not bind to the address");
    assert_eq!(AppError::Params.message(), "invalid parameters");
    assert_eq!(
        AppError::SessionNotFound("42".to_string()).message(),
        "session key not found for user: 42"
    );
    assert_eq!(
        AppError::EnvVar("HOME".to_string()).message(),
        "failed to load an environmental variable: HOME"
    );
    assert_eq!(AppError::OtherInternal.message(), "other error");
    assert_eq!(
        AppError::Database("down".to_string()).message(),
        "database error: down"
    );
    assert_eq!(
        AppError::InvalidAddr("x".to_string()).message(),
        "invalid address: x"
    );
}

#[test]
fn wire_line_appends_one_newline() {
    let req = minichotan::request::RpcRequest::new("abc".to_string());
    assert_eq!(req.payload(), "abc");
    assert_eq!(req.wire_line(), "abc\n");
}
