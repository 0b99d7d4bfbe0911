//! The envelope codec, exercised on concrete wire texts.

use minichotan::emit::to_text;
use minichotan::json::JsonValue;
use minichotan::parse::parse_json_text;
use minichotan::request::encode_request;
use minichotan::response::{decode_response, RpcObject, RpcResponseResult};

fn obj(members: Vec<(&str, JsonValue)>) -> JsonValue {
    JsonValue::Obj(members.into_iter().map(|(k, v)| (k.to_string(), v)).collect())
}

fn s(text: &str) -> JsonValue {
    JsonValue::Str(text.to_string())
}

#[test]
fn encode_is_canonical() {
    let line = encode_request("m", None, "i");
    assert_eq!(line, r#"{"jsonrpc":"2.0","id":"i","method":"m"}"#);
}

#[test]
fn encode_then_decode_generic() {
    let params = obj(vec![
        ("session_key", s("k1")),
        ("limit", JsonValue::Num("42".to_string())),
    ]);
    let line = encode_request("v0.plain", Some(params), "id-123");
    let value = parse_json_text(&line).expect("the encoded line must parse");
    match value {
        JsonValue::Obj(members) => {
            assert_eq!(members.len(), 4);
            assert_eq!(members[0].0, "jsonrpc");
            assert_eq!(members[0].1, s("2.0"));
            assert_eq!(members[1].0, "id");
            assert_eq!(members[1].1, s("id-123"));
            assert_eq!(members[2].0, "method");
            assert_eq!(members[2].1, s("v0.plain"));
            assert_eq!(members[3].0, "params");
            assert_eq!(
                members[3].1,
                obj(vec![
                    ("session_key", s("k1")),
                    ("limit", JsonValue::Num("42".to_string())),
                ])
            );
        },
        other => panic!("expected an object, got {:?}", other),
    }
}

#[test]
fn encode_agrees_with_serde() {
    let params = obj(vec![("session_key", s("k\"1\n"))]);
    let line = encode_request("v0.account.add", Some(params), "xyz");
    let v: serde_json::Value = serde_json::from_str(&line).expect("serde must parse our output");
    assert_eq!(v["jsonrpc"], "2.0");
    assert_eq!(v["id"], "xyz");
    assert_eq!(v["method"], "v0.account.add");
    assert_eq!(v["params"]["session_key"], "k\"1\n");
}

#[test]
fn decode_account_list_result() {
    let resp = decode_response(
        r#"{"id":"1","jsonrpc":"2.0","result":{"owner":"u1","session_keys":{"u1":"k1","u2":"k2"}}}"#,
    )
    .expect("must decode");
    assert_eq!(resp.id, "1");
    assert_eq!(resp.jsonrpc, "2.0");
    match resp.object {
        RpcObject::Result(RpcResponseResult::AccountList { owner, session_keys }) => {
            assert_eq!(owner.as_deref(), Some("u1"));
            assert_eq!(session_keys.len(), 2);
            assert_eq!(session_keys[0], ("u1".to_string(), "k1".to_string()));
            assert_eq!(session_keys[1], ("u2".to_string(), "k2".to_string()));
        },
        other => panic!("expected an account list, got {:?}", other),
    }
}

#[test]
fn decode_error_envelope() {
    let resp = decode_response(r#"{"id":"1","jsonrpc":"2.0","error":{"code":1,"message":"x"}}"#)
        .expect("must decode");
    match resp.object {
        RpcObject::Error(err) => {
            assert_eq!(err.code, 1);
            assert_eq!(err.message, "x");
            assert!(err.data.is_none());
        },
        other => panic!("expected an error, got {:?}", other),
    }
}

#[test]
fn decode_negative_error_code_and_data() {
    let resp = decode_response(
        r#"{"id":"1","jsonrpc":"2.0","error":{"code":-32600,"message":"bad","data":{"k":1}}}"#,
    )
    .expect("must decode");
    match resp.object {
        RpcObject::Error(err) => {
            assert_eq!(err.code, -32600);
            assert_eq!(err.message, "bad");
            assert!(err.data.is_some());
        },
        other => panic!("expected an error, got {:?}", other),
    }
}

#[test]
fn decode_account_add_result() {
    let resp = decode_response(
        r#"{"id":"1","jsonrpc":"2.0","result":{"user_id":"u2","session_key":"k2"}}"#,
    )
    .expect("must decode");
    match resp.object {
        RpcObject::Result(RpcResponseResult::AccountAdd { user_id, session_key }) => {
            assert_eq!(user_id, "u2");
            assert_eq!(session_key, "k2");
        },
        other => panic!("expected an account add, got {:?}", other),
    }
}

#[test]
fn decode_status_result() {
    let resp = decode_response(r#"{"id":"1","jsonrpc":"2.0","result":{"version":"0.1.0"}}"#)
        .expect("must decode");
    match resp.object {
        RpcObject::Result(RpcResponseResult::Status { version }) => {
            assert_eq!(version, "0.1.0");
        },
        other => panic!("expected a status, got {:?}", other),
    }
}

#[test]
fn decode_plain_result_with_meta() {
    let resp = decode_response(
        r#"{"id":"1","jsonrpc":"2.0","result":{"meta":{"api_calls_remaining":5,"api_calls_reset":1700000000},"body":{"a":1}}}"#,
    )
    .expect("must decode");
    match resp.object {
        RpcObject::Result(RpcResponseResult::Plain { meta, body }) => {
            assert_eq!(meta.api_calls_remaining, 5);
            assert_eq!(meta.api_calls_reset, 1700000000);
            assert_eq!(body, obj(vec![("a", JsonValue::Num("1".to_string()))]));
        },
        other => panic!("expected a plain result, got {:?}", other),
    }
}

#[test]
fn plain_matches_before_home_timeline() {
    // The match order is part of the contract: a list body still satisfies
    // the plain shape, which is tried first.
    let resp = decode_response(
        r#"{"id":"1","jsonrpc":"2.0","result":{"meta":{"api_calls_remaining":1,"api_calls_reset":2},"body":[{"text":"hi"}]}}"#,
    )
    .expect("must decode");
    assert!(matches!(
        resp.object,
        RpcObject::Result(RpcResponseResult::Plain { .. })
    ));
}

#[test]
fn envelope_with_both_result_and_error_is_rejected() {
    // the payload is a tagged union: exactly one of result or error
    let line =
        r#"{"id":"1","jsonrpc":"2.0","result":{"version":"v"},"error":{"code":1,"message":"m"}}"#;
    assert!(decode_response(line).is_none());
    let flipped =
        r#"{"id":"1","jsonrpc":"2.0","error":{"code":1,"message":"m"},"result":{"version":"v"}}"#;
    assert!(decode_response(flipped).is_none());
}

#[test]
fn surrogate_pairs_combine_and_lone_halves_fail() {
    let v = parse_json_text(r#""\uD83D\uDE00""#).expect("a surrogate pair must parse");
    assert_eq!(v, JsonValue::Str("\u{1F600}".to_string()));
    // the astral character is no control character, so it is written raw
    assert_eq!(to_text(&v), "\"\u{1F600}\"");
    assert!(parse_json_text(r#""\uD83Dx""#).is_err());
    assert!(parse_json_text(r#""\uD83D""#).is_err());
    assert!(parse_json_text(r#""\uDE00""#).is_err());
    assert!(parse_json_text(r#""\uD83DA""#).is_err());
}

#[test]
fn decode_rejects_malformed_input() {
    assert!(decode_response("").is_none());
    assert!(decode_response("not json").is_none());
    assert!(decode_response(r#"{"id":"1"}"#).is_none());
    assert!(decode_response(r#"{"id":"1","jsonrpc":"2.0"}"#).is_none());
    assert!(decode_response(r#"{"id":"1","jsonrpc":"2.0","result":{"unknown":1}}"#).is_none());
    assert!(decode_response(r#"{"id":1,"jsonrpc":"2.0","result":{"version":"v"}}"#).is_none());
    // a result member that fits no shape fails even if an error member follows
    assert!(
        decode_response(
            r#"{"id":"1","jsonrpc":"2.0","result":{"x":1},"error":{"code":1,"message":"m"}}"#
        )
        .is_none()
    );
}

#[test]
fn decode_rejects_oversized_meta_counter() {
    // one above usize::MAX on 64-bit targets
    let line = r#"{"id":"1","jsonrpc":"2.0","result":{"meta":{"api_calls_remaining":18446744073709551616,"api_calls_reset":0},"body":{}}}"#;
    assert!(decode_response(line).is_none());
}

#[test]
fn decode_tolerates_surrounding_blanks() {
    let resp =
        decode_response(" {\"id\":\"1\",\t\"jsonrpc\": \"2.0\", \"result\": {\"version\":\"v\"}}\n")
            .expect("must decode");
    assert_eq!(resp.id, "1");
}

#[test]
fn number_tokens_round_trip() {
    let line = r#"{"n":-12.5e3}"#;
    let v = parse_json_text(line).expect("must parse");
    assert_eq!(to_text(&v), line);
    match &v {
        JsonValue::Obj(ms) => assert_eq!(ms[0].1, JsonValue::Num("-12.5e3".to_string())),
        other => panic!("expected an object, got {:?}", other),
    }
}

#[test]
fn number_grammar_is_enforced() {
    assert!(parse_json_text(r#"{"n":01}"#).is_err());
    assert!(parse_json_text(r#"{"n":1.}"#).is_err());
    assert!(parse_json_text(r#"{"n":+1}"#).is_err());
    assert!(parse_json_text(r#"{"n":1e}"#).is_err());
    assert!(parse_json_text(r#"{"n":-}"#).is_err());
    assert!(parse_json_text(r#"{"n":0.5e+7}"#).is_ok());
}

#[test]
fn string_escapes_round_trip() {
    let v = parse_json_text(r#""a\n\t\"\\\/bA""#).expect("must parse");
    assert_eq!(v, JsonValue::Str("a\n\t\"\\/bA".to_string()));
    // writing it back escapes the control characters again
    assert_eq!(to_text(&v), r#""a\n\t\"\\/bA""#);
}

#[test]
fn control_characters_are_escaped_on_output() {
    let v = JsonValue::Str("\u{1}".to_string());
    assert_eq!(to_text(&v), r#""\u0001""#);
    assert_eq!(parse_json_text(r#""\u0001""#).expect("must parse"), v);
}

#[test]
fn bad_strings_are_rejected() {
    assert!(parse_json_text("\"raw\ncontrol\"").is_err());
    assert!(parse_json_text(r#""\uD800""#).is_err());
    assert!(parse_json_text(r#""\q""#).is_err());
    assert!(parse_json_text(r#""unterminated"#).is_err());
}

#[test]
fn nested_values_round_trip() {
    let line = r#"{"a":[1,{"b":[true,false,null]},"s"],"c":{}}"#;
    let v = parse_json_text(line).expect("must parse");
    assert_eq!(to_text(&v), line);
}

#[test]
fn unicode_escapes_decode_to_characters() {
    let v = parse_json_text(r#""café""#).expect("must parse");
    assert_eq!(v, JsonValue::Str("café".to_string()));
    // the character is above the control range, so it is written raw
    assert_eq!(to_text(&v), "\"café\"");
}

#[test]
fn unknown_envelope_members_are_ignored() {
    let resp = decode_response(
        r#"{"id":"1","jsonrpc":"2.0","extra":[1,2],"result":{"version":"v"}}"#,
    )
    .expect("must decode");
    assert!(matches!(
        resp.object,
        RpcObject::Result(RpcResponseResult::Status { .. })
    ));
}
