//! The decision half of each request flow.
//!
//! Every endpoint resolves its acting key before any parameters are built:
//! a missing query parameter or an unregistered user id fails here, before
//! anything could reach the backend. The functions below build the exact
//! request line for each call, decide when no call is needed, and apply a
//! decoded result to the registry. The socket and HTTP glue around them
//! performs no logic of its own.

use vstd::prelude::*;

use crate::error::AppError;
use crate::json::{ser, view_members, view_elems, JVal, JsonValue};
use crate::request::{encode_request, fresh_request_id, req_jval, RpcRequest};
use crate::response::{
    decode_spec, decode_response, GObject, GResult, RpcObject, RpcResponse, RpcResponseResult,
};
use crate::session::AccountList;
use vstd::string::StringExecFns;

verus! {

broadcast use vstd::seq::group_seq_axioms, vstd::std_specs::vec::group_vec_axioms;

// ---------------------------------------------------------------------------
// Request parameters, per endpoint
// ---------------------------------------------------------------------------

/// The fixed expansion and field lists the timeline call always requests.
pub open spec fn timeline_params_jval(key: Seq<char>) -> JVal {
    JVal::Obj(
        seq![
            ("session_key"@, JVal::Str(key)),
            (
                "api_params"@,
                JVal::Obj(
                    seq![
                        (
                            "expansions"@,
                            JVal::Str(
                                "author_id,referenced_tweets.id,referenced_tweets.id.author_id,attachments.media_keys"@,
                            ),
                        ),
                        (
                            "media.fields"@,
                            JVal::Str(
                                "media_key,type,preview_image_url,height,width,url,alt_text"@,
                            ),
                        ),
                        (
                            "tweet.fields"@,
                            JVal::Str(
                                "attachments,author_id,conversation_id,created_at,entities,geo,id,in_reply_to_user_id,lang,public_metrics,possibly_sensitive,referenced_tweets,reply_settings,source,text,withheld"@,
                            ),
                        ),
                    ],
                ),
            ),
        ],
    )
}

fn build_timeline_params(key: &String) -> (p: JsonValue)
    ensures
        p@ == timeline_params_jval(key@),
{
    let mut api: Vec<(String, JsonValue)> = Vec::new();
    api.push(
        (
            String::from_str("expansions"),
            JsonValue::Str(
                String::from_str(
                    "author_id,referenced_tweets.id,referenced_tweets.id.author_id,attachments.media_keys",
                ),
            ),
        ),
    );
    api.push(
        (
            String::from_str("media.fields"),
            JsonValue::Str(
                String::from_str("media_key,type,preview_image_url,height,width,url,alt_text"),
            ),
        ),
    );
    api.push(
        (
            String::from_str("tweet.fields"),
            JsonValue::Str(
                String::from_str(
                    "attachments,author_id,conversation_id,created_at,entities,geo,id,in_reply_to_user_id,lang,public_metrics,possibly_sensitive,referenced_tweets,reply_settings,source,text,withheld",
                ),
            ),
        ),
    );
    let api_obj = JsonValue::Obj(api);
    proof {
        assert(view_members(api_obj->Obj_0@) =~= timeline_params_jval(key@)->Obj_0[1].1->Obj_0)
            by {
            reveal_with_fuel(view_members, 5);
        }
    }
    let mut ms: Vec<(String, JsonValue)> = Vec::new();
    ms.push((String::from_str("session_key"), JsonValue::Str(key.clone())));
    ms.push((String::from_str("api_params"), api_obj));
    let p = JsonValue::Obj(ms);
    proof {
        assert(view_members(p->Obj_0@) =~= timeline_params_jval(key@)->Obj_0) by {
            reveal_with_fuel(view_members, 4);
        }
    }
    p
}

/// The generic passthrough call for one user's profile.
pub open spec fn userinfo_params_jval(key: Seq<char>) -> JVal {
    JVal::Obj(
        seq![
            ("session_key"@, JVal::Str(key)),
            ("api_params"@, JVal::Obj(Seq::empty())),
            ("endpoint"@, JVal::Str("users/:id"@)),
            ("http_method"@, JVal::Str("GET"@)),
        ],
    )
}

fn build_userinfo_params(key: &String) -> (p: JsonValue)
    ensures
        p@ == userinfo_params_jval(key@),
{
    let mut ms: Vec<(String, JsonValue)> = Vec::new();
    ms.push((String::from_str("session_key"), JsonValue::Str(key.clone())));
    ms.push((String::from_str("api_params"), JsonValue::Obj(Vec::new())));
    ms.push((String::from_str("endpoint"), JsonValue::Str(String::from_str("users/:id"))));
    ms.push((String::from_str("http_method"), JsonValue::Str(String::from_str("GET"))));
    let p = JsonValue::Obj(ms);
    proof {
        assert(view_members(Seq::<(String, JsonValue)>::empty()) == Seq::<
            (Seq<char>, JVal),
        >::empty());
        assert(view_members(p->Obj_0@) =~= userinfo_params_jval(key@)->Obj_0) by {
            reveal_with_fuel(view_members, 6);
        }
    }
    p
}

/// Account-management calls authenticate with the owner's key, or with null
/// when no owner key is held yet.
pub open spec fn session_key_params_jval(owner_key: Option<Seq<char>>) -> JVal {
    JVal::Obj(
        seq![
            (
                "session_key"@,
                match owner_key {
                    Some(k) => JVal::Str(k),
                    None => JVal::Null,
                },
            ),
        ],
    )
}

fn build_session_key_params(owner_key: Option<String>) -> (p: JsonValue)
    ensures
        p@ == session_key_params_jval(
            match owner_key {
                Some(k) => Some(k@),
                None => None,
            },
        ),
{
    let val = match owner_key {
        Some(k) => JsonValue::Str(k),
        None => JsonValue::Null,
    };
    let mut ms: Vec<(String, JsonValue)> = Vec::new();
    ms.push((String::from_str("session_key"), val));
    let p = JsonValue::Obj(ms);
    proof {
        assert(view_members(p->Obj_0@) =~= seq![("session_key"@, ms@[0].1@)]) by {
            reveal_with_fuel(view_members, 3);
        }
    }
    p
}

// ---------------------------------------------------------------------------
// Request builders: resolve the key, then build the line
// ---------------------------------------------------------------------------

/// The timeline flow. The acting key is resolved first: no `user_id`
/// parameter is a parameter error, an unregistered user id is a missing
/// session key, and only a resolved key produces a request line.
pub fn timeline_request(acct: &AccountList, user_id: Option<&String>, id: &str) -> (r: Result<
    RpcRequest,
    AppError,
>)
    requires
        acct.wf(),
    ensures
        user_id is None ==> (r matches Err(e) && e is Params),
        user_id matches Some(u) ==> {
            &&& !acct.keys_map().contains_key(u@) ==> (r matches Err(e)
                && e matches AppError::SessionNotFound(x) && x@ == u@)
            &&& acct.keys_map().contains_key(u@) ==> (r matches Ok(req) && req@ == ser(
                req_jval(
                    "v0.home_timeline"@,
                    Some(timeline_params_jval(acct.keys_map()[u@])),
                    id@,
                ),
            ))
        },
{
    let u = match user_id {
        Some(u) => u,
        None => {
            return Err(AppError::Params);
        },
    };
    let key = match acct.key_for(u.as_str()) {
        Some(k) => k,
        None => {
            return Err(AppError::SessionNotFound(u.clone()));
        },
    };
    let params = build_timeline_params(&key);
    Ok(RpcRequest::new(encode_request("v0.home_timeline", Some(params), id)))
}

/// The userinfo flow; the same key policy as the timeline flow.
pub fn userinfo_request(acct: &AccountList, user_id: Option<&String>, id: &str) -> (r: Result<
    RpcRequest,
    AppError,
>)
    requires
        acct.wf(),
    ensures
        user_id is None ==> (r matches Err(e) && e is Params),
        user_id matches Some(u) ==> {
            &&& !acct.keys_map().contains_key(u@) ==> (r matches Err(e)
                && e matches AppError::SessionNotFound(x) && x@ == u@)
            &&& acct.keys_map().contains_key(u@) ==> (r matches Ok(req) && req@ == ser(
                req_jval("v0.plain"@, Some(userinfo_params_jval(acct.keys_map()[u@])), id@),
            ))
        },
{
    let u = match user_id {
        Some(u) => u,
        None => {
            return Err(AppError::Params);
        },
    };
    let key = match acct.key_for(u.as_str()) {
        Some(k) => k,
        None => {
            return Err(AppError::SessionNotFound(u.clone()));
        },
    };
    let params = build_userinfo_params(&key);
    Ok(RpcRequest::new(encode_request("v0.plain", Some(params), id)))
}

/// The add-account flow: authenticated with the owner's key when one is
/// held, with null for the very first account.
pub fn add_account_request(acct: &AccountList, id: &str) -> (r: RpcRequest)
    requires
        acct.wf(),
    ensures
        r@ == ser(
            req_jval("v0.account.add"@, Some(session_key_params_jval(acct.spec_owner_key())), id@),
        ),
{
    let owner_key = acct.owner_key();
    let params = build_session_key_params(owner_key);
    RpcRequest::new(encode_request("v0.account.add", Some(params), id))
}

/// What the accounts listing does before any socket is touched.
pub enum AccountsAction {
    /// Not signed in: answer the empty listing without calling the backend.
    EmptyList,
    /// Signed in: send this line and resynchronize from the answer.
    Call(RpcRequest),
}

/// The list-accounts flow: a session with no keys is answered locally; a
/// signed-in session asks the backend, authenticated with the owner's key.
pub fn accounts_request(acct: &AccountList, id: &str) -> (r: AccountsAction)
    requires
        acct.wf(),
    ensures
        !acct.spec_signed_in() ==> r is EmptyList,
        acct.spec_signed_in() ==> (r matches AccountsAction::Call(req) && req@ == ser(
            req_jval("v0.account.list"@, Some(session_key_params_jval(acct.spec_owner_key())), id@),
        )),
{
    if !acct.signed_in() {
        return AccountsAction::EmptyList;
    }
    let owner_key = acct.owner_key();
    let params = build_session_key_params(owner_key);
    AccountsAction::Call(RpcRequest::new(encode_request("v0.account.list", Some(params), id)))
}

// ---------------------------------------------------------------------------
// Builders with a fresh id
// ---------------------------------------------------------------------------

/// As [`timeline_request`], under a freshly drawn request id.
pub fn timeline_request_fresh(acct: &AccountList, user_id: Option<&String>) -> (r: Result<
    RpcRequest,
    AppError,
>)
    requires
        acct.wf(),
    ensures
        user_id is None ==> (r matches Err(e) && e is Params),
        user_id matches Some(u) ==> {
            &&& !acct.keys_map().contains_key(u@) ==> (r matches Err(e)
                && e matches AppError::SessionNotFound(x) && x@ == u@)
            &&& acct.keys_map().contains_key(u@) ==> (r matches Ok(req) && exists|id: Seq<char>|
                id.len() == 36 && req@ == ser(
                    #[trigger] req_jval(
                        "v0.home_timeline"@,
                        Some(timeline_params_jval(acct.keys_map()[u@])),
                        id,
                    ),
                ))
        },
{
    let id = fresh_request_id();
    timeline_request(acct, user_id, id.as_str())
}

/// As [`userinfo_request`], under a freshly drawn request id.
pub fn userinfo_request_fresh(acct: &AccountList, user_id: Option<&String>) -> (r: Result<
    RpcRequest,
    AppError,
>)
    requires
        acct.wf(),
    ensures
        user_id is None ==> (r matches Err(e) && e is Params),
        user_id matches Some(u) ==> {
            &&& !acct.keys_map().contains_key(u@) ==> (r matches Err(e)
                && e matches AppError::SessionNotFound(x) && x@ == u@)
            &&& acct.keys_map().contains_key(u@) ==> (r matches Ok(req) && exists|id: Seq<char>|
                id.len() == 36 && req@ == ser(
                    #[trigger] req_jval(
                        "v0.plain"@,
                        Some(userinfo_params_jval(acct.keys_map()[u@])),
                        id,
                    ),
                ))
        },
{
    let id = fresh_request_id();
    userinfo_request(acct, user_id, id.as_str())
}

/// As [`add_account_request`], under a freshly drawn request id.
pub fn add_account_request_fresh(acct: &AccountList) -> (r: RpcRequest)
    requires
        acct.wf(),
    ensures
        exists|id: Seq<char>|
            id.len() == 36 && r@ == ser(
                #[trigger] req_jval(
                    "v0.account.add"@,
                    Some(session_key_params_jval(acct.spec_owner_key())),
                    id,
                ),
            ),
{
    let id = fresh_request_id();
    add_account_request(acct, id.as_str())
}

/// As [`accounts_request`], under a freshly drawn request id.
pub fn accounts_request_fresh(acct: &AccountList) -> (r: AccountsAction)
    requires
        acct.wf(),
    ensures
        !acct.spec_signed_in() ==> r is EmptyList,
        acct.spec_signed_in() ==> (r matches AccountsAction::Call(req) && exists|id: Seq<char>|
            id.len() == 36 && req@ == ser(
                #[trigger] req_jval(
                    "v0.account.list"@,
                    Some(session_key_params_jval(acct.spec_owner_key())),
                    id,
                ),
            )),
{
    let id = fresh_request_id();
    accounts_request(acct, id.as_str())
}

// ---------------------------------------------------------------------------
// Applying decoded responses
// ---------------------------------------------------------------------------

/// Maps a decode failure to the gateway's decode error.
pub fn decode_or_error(s: &str) -> (r: Result<RpcResponse, AppError>)
    ensures
        match decode_spec(s@) {
            Some(g) => r matches Ok(resp) && resp@ == g,
            None => r matches Err(e) && e is BackendInvalidResponse,
        },
{
    match decode_response(s) {
        Some(resp) => Ok(resp),
        None => Err(
            AppError::BackendInvalidResponse(String::from_str("malformed response envelope")),
        ),
    }
}

/// Splits a decoded envelope: a result is handed on, a backend-reported
/// error becomes the gateway's backend-error value.
pub fn result_of(resp: RpcResponse) -> (r: Result<RpcResponseResult, AppError>)
    ensures
        resp@.object matches GObject::Result(gr) ==> (r matches Ok(res) && res@ == gr),
        resp@.object matches GObject::Error(ge) ==> (r matches Err(e)
            && e matches AppError::RpcResponse(err) && err@ == ge),
{
    match resp.object {
        RpcObject::Result(res) => Ok(res),
        RpcObject::Error(err) => Err(AppError::RpcResponse(err)),
    }
}

/// Applies an add-account answer: the returned pair is stored (latest key
/// per user wins) and the user becomes owner if none was set; any other
/// result shape changes nothing and is an invalid response.
pub fn apply_add_account(acct: &mut AccountList, res: &RpcResponseResult) -> (r: Result<
    String,
    AppError,
>)
    requires
        old(acct).wf(),
    ensures
        final(acct).wf(),
        res@ matches GResult::AccountAdd { user_id, session_key } ==> {
            &&& final(acct).keys_map() == old(acct).keys_map().insert(user_id, session_key)
            &&& final(acct).owner_view() == (match old(acct).owner_view() {
                Some(o) => Some(o),
                None => Some(user_id),
            })
            &&& final(acct).spec_signed_in()
            &&& r matches Ok(uid) && uid@ == user_id
        },
        !(res@ matches GResult::AccountAdd { .. }) ==> *final(acct) == *old(acct) && (r matches
        Err(e) && e is BackendInvalidResponse),
{
    match res {
        RpcResponseResult::AccountAdd { user_id, session_key } => {
            let uid = user_id.clone();
            acct.register_account(user_id.clone(), session_key.clone());
            Ok(uid)
        },
        _ => Err(AppError::BackendInvalidResponse(String::from_str("invalid response type"))),
    }
}

/// Applies an account-list answer: a full resynchronization. The stored map
/// is replaced wholesale with the backend's map — local entries the backend
/// did not report are gone, a repeated user id keeps its last key — and the
/// owner is reset as reported. The resynchronized registry's own user ids
/// are returned for the listing body, one per account.
pub fn apply_account_list(acct: &mut AccountList, res: &RpcResponseResult) -> (r: Result<
    (Option<String>, Vec<String>),
    AppError,
>)
    requires
        old(acct).wf(),
    ensures
        final(acct).wf(),
        res@ matches GResult::AccountList { owner, session_keys } ==> {
            &&& final(acct).keys_map() == crate::session::fold_pairs(session_keys)
            &&& final(acct).owner_view() == owner
            &&& r matches Ok(out) && (match out.0 {
                Some(o) => owner == Some(o@),
                None => owner is None,
            }) && out.1@.len() == final(acct).rpc_session_keys@.len() && (forall|i: int|
                0 <= i < out.1@.len() ==> (#[trigger] out.1@[i])@ == final(acct).rpc_session_keys@[i].0@)
        },
        !(res@ matches GResult::AccountList { .. }) ==> *final(acct) == *old(acct) && (r matches
        Err(e) && e is BackendInvalidResponse),
{
    match res {
        RpcResponseResult::AccountList { owner, session_keys } => {
            let owner_copy: Option<String> = match owner {
                Some(o) => Some(o.clone()),
                None => None,
            };
            let owner_out: Option<String> = match owner {
                Some(o) => Some(o.clone()),
                None => None,
            };
            let mut pairs: Vec<(String, String)> = Vec::new();
            let mut i: usize = 0;
            while i < session_keys.len()
                invariant
                    i <= session_keys@.len(),
                    pairs@.len() == i,
                    forall|a: int|
                        0 <= a < i ==> (#[trigger] pairs@[a]).0@ == session_keys@[a].0@
                            && pairs@[a].1@ == session_keys@[a].1@,
                decreases session_keys@.len() - i,
            {
                pairs.push((session_keys[i].0.clone(), session_keys[i].1.clone()));
                i = i + 1;
            }
            proof {
                crate::session::lemma_view_pairs_len(pairs@);
                crate::session::lemma_view_pairs_len(session_keys@);
                assert forall|a: int|
                    0 <= a < pairs@.len() implies #[trigger] crate::response::view_pairs(
                    pairs@,
                )[a] == crate::response::view_pairs(session_keys@)[a] by {
                    crate::session::lemma_view_pairs_index(pairs@, a);
                    crate::session::lemma_view_pairs_index(session_keys@, a);
                }
                assert(crate::response::view_pairs(pairs@) =~= crate::response::view_pairs(
                    session_keys@,
                ));
            }
            acct.resync_accounts(owner_copy, pairs);
            let ids = acct.user_ids();
            Ok((owner_out, ids))
        },
        _ => Err(AppError::BackendInvalidResponse(String::from_str("invalid response type"))),
    }
}

/// The relay for data-returning endpoints: decodes a response line and, when
/// it carries a result, returns the canonical text of exactly that `result`
/// member, to be sent on as the HTTP body. A backend-reported error becomes
/// the gateway's backend-error value; anything malformed is a decode error.
pub fn relay_result_body(line: &str) -> (r: Result<String, AppError>)
    ensures
        decode_spec(line@) is None ==> (r matches Err(e) && e is BackendInvalidResponse),
        (match decode_spec(line@) {
            Some(g) => g.object matches GObject::Error(ge) ==> (r matches Err(e)
                && e matches AppError::RpcResponse(err) && err@ == ge),
            None => true,
        }),
        (match decode_spec(line@) {
            Some(g) => g.object is Result ==> (r matches Ok(b)
                && crate::parse::json_parse(line@) matches Some(j) && j matches JVal::Obj(ms)
                && crate::json::obj_get(ms, "result"@) matches Some(rv) && b@ == ser(rv)),
            None => true,
        }),
{
    let resp = match decode_response(line) {
        Some(resp) => resp,
        None => {
            return Err(
                AppError::BackendInvalidResponse(String::from_str("malformed response envelope")),
            );
        },
    };
    match resp.object {
        RpcObject::Error(err) => Err(AppError::RpcResponse(err)),
        RpcObject::Result(_) => {
            let parsed = match crate::parse::parse_json_text(line) {
                Ok(v) => v,
                Err(_) => {
                    return Err(
                        AppError::BackendInvalidResponse(
                            String::from_str("malformed response envelope"),
                        ),
                    );
                },
            };
            match &parsed {
                JsonValue::Obj(ms) => {
                    match crate::response::obj_find(ms, "result") {
                        Some(idx) => Ok(crate::emit::to_text(&ms[idx].1)),
                        None => Err(
                            AppError::BackendInvalidResponse(
                                String::from_str("result member vanished"),
                            ),
                        ),
                    }
                },
                _ => Err(
                    AppError::BackendInvalidResponse(String::from_str("not an object envelope")),
                ),
            }
        },
    }
}

// ---------------------------------------------------------------------------
// Listing bodies
// ---------------------------------------------------------------------------

/// The listing answered locally when the session holds no keys.
pub open spec fn empty_accounts_jval() -> JVal {
    JVal::Obj(seq![("owner"@, JVal::Null), ("session_keys"@, JVal::Obj(Seq::empty()))])
}

/// The body of the accounts listing for a session with no keys.
pub fn empty_accounts_body() -> (s: String)
    ensures
        s@ == ser(empty_accounts_jval()),
{
    let mut ms: Vec<(String, JsonValue)> = Vec::new();
    ms.push((String::from_str("owner"), JsonValue::Null));
    ms.push((String::from_str("session_keys"), JsonValue::Obj(Vec::new())));
    let v = JsonValue::Obj(ms);
    proof {
        assert(view_members(Seq::<(String, JsonValue)>::empty()) == Seq::<
            (Seq<char>, JVal),
        >::empty());
        assert(view_members(v->Obj_0@) =~= empty_accounts_jval()->Obj_0) by {
            reveal_with_fuel(view_members, 4);
        }
    }
    crate::emit::to_text(&v)
}

/// The add-account answer body: the registered user id, as one object.
pub open spec fn user_id_body_jval(user_id: Seq<char>) -> JVal {
    JVal::Obj(seq![("user_id"@, JVal::Str(user_id))])
}

/// The body of the add-account answer.
pub fn user_id_body(user_id: &String) -> (s: String)
    ensures
        s@ == ser(user_id_body_jval(user_id@)),
{
    let mut ms: Vec<(String, JsonValue)> = Vec::new();
    ms.push((String::from_str("user_id"), JsonValue::Str(user_id.clone())));
    let v = JsonValue::Obj(ms);
    proof {
        assert(view_members(v->Obj_0@) =~= user_id_body_jval(user_id@)->Obj_0) by {
            reveal_with_fuel(view_members, 3);
        }
    }
    crate::emit::to_text(&v)
}

/// The ids as JSON strings, in order.
pub open spec fn str_arr_jval(ids: Seq<Seq<char>>) -> Seq<JVal>
    decreases ids.len(),
{
    if ids.len() == 0 {
        Seq::empty()
    } else {
        seq![JVal::Str(ids[0])] + str_arr_jval(ids.skip(1))
    }
}

/// The listing built from a resynchronized registry.
pub open spec fn accounts_body_jval(owner: Option<Seq<char>>, ids: Seq<Seq<char>>) -> JVal {
    JVal::Obj(
        seq![
            (
                "owner_id"@,
                match owner {
                    Some(o) => JVal::Str(o),
                    None => JVal::Null,
                },
            ),
            ("user_ids"@, JVal::Arr(str_arr_jval(ids))),
        ],
    )
}

proof fn lemma_view_elems_strs(a: Seq<JsonValue>, b: Seq<Seq<char>>)
    requires
        a.len() == b.len(),
        forall|i: int| 0 <= i < a.len() ==> (#[trigger] a[i])@ == JVal::Str(b[i]),
    ensures
        view_elems(a) == str_arr_jval(b),
    decreases a.len(),
{
    if a.len() > 0 {
        assert forall|i: int| 0 <= i < a.skip(1).len() implies (#[trigger] a.skip(1)[i])@
            == JVal::Str(b.skip(1)[i]) by {
            assert(a.skip(1)[i] == a[i + 1]);
            assert(b.skip(1)[i] == b[i + 1]);
        }
        lemma_view_elems_strs(a.skip(1), b.skip(1));
        assert(a[0]@ == JVal::Str(b[0]));
    } else {
        assert(a =~= Seq::<JsonValue>::empty());
        assert(b =~= Seq::<Seq<char>>::empty());
    }
}

/// The deep model of the id list.
pub open spec fn ids_view(ids: Seq<String>) -> Seq<Seq<char>>
    decreases ids.len(),
{
    if ids.len() == 0 {
        Seq::empty()
    } else {
        seq![ids[0]@] + ids_view(ids.skip(1))
    }
}

pub proof fn lemma_ids_view_index(ids: Seq<String>, i: int)
    requires
        0 <= i < ids.len(),
    ensures
        ids_view(ids).len() == ids.len(),
        ids_view(ids)[i] == ids[i]@,
    decreases ids.len(),
{
    lemma_ids_view_len(ids);
    if i > 0 {
        lemma_ids_view_index(ids.skip(1), i - 1);
    }
}

pub proof fn lemma_ids_view_len(ids: Seq<String>)
    ensures
        ids_view(ids).len() == ids.len(),
    decreases ids.len(),
{
    if ids.len() > 0 {
        lemma_ids_view_len(ids.skip(1));
    }
}

/// The body of the accounts listing after a resynchronization.
pub fn accounts_body(owner: Option<&String>, ids: &Vec<String>) -> (s: String)
    ensures
        s@ == ser(
            accounts_body_jval(
                match owner {
                    Some(o) => Some(o@),
                    None => None,
                },
                ids_view(ids@),
            ),
        ),
{
    let owner_val = match owner {
        Some(o) => JsonValue::Str(o.clone()),
        None => JsonValue::Null,
    };
    let mut items: Vec<JsonValue> = Vec::new();
    let mut i: usize = 0;
    while i < ids.len()
        invariant
            i <= ids@.len(),
            items@.len() == i,
            forall|a: int| 0 <= a < i ==> (#[trigger] items@[a])@ == JVal::Str(ids@[a]@),
        decreases ids@.len() - i,
    {
        items.push(JsonValue::Str(ids[i].clone()));
        i = i + 1;
    }
    proof {
        lemma_ids_view_len(ids@);
        assert forall|a: int| 0 <= a < items@.len() implies (#[trigger] items@[a])@ == JVal::Str(
            ids_view(ids@)[a],
        ) by {
            lemma_ids_view_index(ids@, a);
        }
        lemma_view_elems_strs(items@, ids_view(ids@));
    }
    let mut ms: Vec<(String, JsonValue)> = Vec::new();
    ms.push((String::from_str("owner_id"), owner_val));
    ms.push((String::from_str("user_ids"), JsonValue::Arr(items)));
    let v = JsonValue::Obj(ms);
    proof {
        assert(view_members(v->Obj_0@) =~= accounts_body_jval(
            match owner {
                Some(o) => Some(o@),
                None => None,
            },
            ids_view(ids@),
        )->Obj_0) by {
            reveal_with_fuel(view_members, 4);
        }
    }
    crate::emit::to_text(&v)
}

} // verus!
