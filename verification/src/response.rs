//! The response side of the envelope codec.
//!
//! A response line is parsed into a [`JsonValue`] and then interpreted as a
//! JSON-RPC envelope: `id` and `jsonrpc` are required strings, and the
//! payload is exactly one of a `result` member or an `error` member — an
//! envelope carrying both is malformed and fails to decode. Members beside
//! these four are ignored; the wire contract names no others, and tolerating
//! them keeps the gateway working when the backend grows its envelope. A
//! `result` is matched structurally against a fixed, ordered list of known
//! shapes; the first shape whose required members are all present and
//! type-correct wins, and that order is part of the contract. A well-formed
//! `error` member is a successful decode: it carries a backend-reported
//! error, which the caller must branch on.

use vstd::prelude::*;

use crate::json::{clone_json, obj_get, view_members, JVal, JsonValue};
use crate::num::{spec_parse_isize, spec_parse_usize, parse_isize_lit, parse_usize_lit};
use crate::parse::{json_parse, parse_json_text};
use crate::strutil::str_eq;

verus! {

broadcast use vstd::seq::group_seq_axioms, vstd::std_specs::vec::group_vec_axioms;

/// A post is an opaque JSON value; the gateway enforces no schema on it.
#[derive(Debug)]
pub struct Post(pub JsonValue);

/// The call-budget header that `plain` and `home_timeline` results carry.
#[derive(Clone, Copy, Debug, PartialEq, Eq, Structural)]
pub struct RpcResponsePlainMeta {
    pub api_calls_remaining: usize,
    /// In seconds since the epoch.
    pub api_calls_reset: usize,
}

/// The known result shapes, tried in this order.
#[derive(Debug)]
pub enum RpcResponseResult {
    Plain { meta: RpcResponsePlainMeta, body: JsonValue },
    HomeTimeline { meta: RpcResponsePlainMeta, body: Vec<Post> },
    Status { version: String },
    AccountList { owner: Option<String>, session_keys: Vec<(String, String)> },
    AccountAdd { user_id: String, session_key: String },
}

/// A backend-reported error object.
#[derive(Debug)]
pub struct RpcResponseError {
    pub code: isize,
    pub message: String,
    pub data: Option<JsonValue>,
}

/// Either a result or a backend-reported error.
#[derive(Debug)]
pub enum RpcObject {
    Result(RpcResponseResult),
    Error(RpcResponseError),
}

/// One decoded response envelope.
#[derive(Debug)]
pub struct RpcResponse {
    pub id: String,
    pub jsonrpc: String,
    pub object: RpcObject,
}

// ---------------------------------------------------------------------------
// Models
// ---------------------------------------------------------------------------

pub enum GResult {
    Plain { meta: RpcResponsePlainMeta, body: JVal },
    HomeTimeline { meta: RpcResponsePlainMeta, body: Seq<JVal> },
    Status { version: Seq<char> },
    AccountList { owner: Option<Seq<char>>, session_keys: Seq<(Seq<char>, Seq<char>)> },
    AccountAdd { user_id: Seq<char>, session_key: Seq<char> },
}

pub struct GError {
    pub code: int,
    pub message: Seq<char>,
    pub data: Option<JVal>,
}

pub enum GObject {
    Result(GResult),
    Error(GError),
}

pub struct GResponse {
    pub id: Seq<char>,
    pub jsonrpc: Seq<char>,
    pub object: GObject,
}

impl View for Post {
    type V = JVal;

    open spec fn view(&self) -> JVal {
        self.0@
    }
}

pub open spec fn view_posts(posts: Seq<Post>) -> Seq<JVal>
    decreases posts.len(),
{
    if posts.len() == 0 {
        Seq::empty()
    } else {
        seq![posts[0]@] + view_posts(posts.skip(1))
    }
}

pub open spec fn view_pairs(pairs: Seq<(String, String)>) -> Seq<(Seq<char>, Seq<char>)>
    decreases pairs.len(),
{
    if pairs.len() == 0 {
        Seq::empty()
    } else {
        seq![(pairs[0].0@, pairs[0].1@)] + view_pairs(pairs.skip(1))
    }
}

impl View for RpcResponseResult {
    type V = GResult;

    open spec fn view(&self) -> GResult {
        match self {
            RpcResponseResult::Plain { meta, body } => GResult::Plain { meta: *meta, body: body@ },
            RpcResponseResult::HomeTimeline { meta, body } => GResult::HomeTimeline {
                meta: *meta,
                body: view_posts(body@),
            },
            RpcResponseResult::Status { version } => GResult::Status { version: version@ },
            RpcResponseResult::AccountList { owner, session_keys } => GResult::AccountList {
                owner: match owner {
                    Some(o) => Some(o@),
                    None => None,
                },
                session_keys: view_pairs(session_keys@),
            },
            RpcResponseResult::AccountAdd { user_id, session_key } => GResult::AccountAdd {
                user_id: user_id@,
                session_key: session_key@,
            },
        }
    }
}

impl View for RpcResponseError {
    type V = GError;

    open spec fn view(&self) -> GError {
        GError {
            code: self.code as int,
            message: self.message@,
            data: match self.data {
                Some(d) => Some(d@),
                None => None,
            },
        }
    }
}

impl View for RpcObject {
    type V = GObject;

    open spec fn view(&self) -> GObject {
        match self {
            RpcObject::Result(r) => GObject::Result(r@),
            RpcObject::Error(e) => GObject::Error(e@),
        }
    }
}

impl View for RpcResponse {
    type V = GResponse;

    open spec fn view(&self) -> GResponse {
        GResponse { id: self.id@, jsonrpc: self.jsonrpc@, object: self.object@ }
    }
}

// ---------------------------------------------------------------------------
// Interpretation, specification side
// ---------------------------------------------------------------------------

/// The call-budget header: an object with the two counters as integers.
pub open spec fn g_meta(j: JVal) -> Option<RpcResponsePlainMeta> {
    match j {
        JVal::Obj(ms) => match (obj_get(ms, "api_calls_remaining"@), obj_get(
            ms,
            "api_calls_reset"@,
        )) {
            (Some(JVal::Num(l1)), Some(JVal::Num(l2))) => match (spec_parse_usize(l1),
                spec_parse_usize(l2)) {
                (Some(a), Some(b)) => Some(
                    RpcResponsePlainMeta { api_calls_remaining: a, api_calls_reset: b },
                ),
                _ => None,
            },
            _ => None,
        },
        _ => None,
    }
}

pub open spec fn g_plain(j: JVal) -> Option<GResult> {
    match j {
        JVal::Obj(ms) => match obj_get(ms, "meta"@) {
            Some(m) => match g_meta(m) {
                Some(meta) => match obj_get(ms, "body"@) {
                    Some(b) => Some(GResult::Plain { meta, body: b }),
                    None => None,
                },
                None => None,
            },
            None => None,
        },
        _ => None,
    }
}

pub open spec fn g_timeline(j: JVal) -> Option<GResult> {
    match j {
        JVal::Obj(ms) => match obj_get(ms, "meta"@) {
            Some(m) => match g_meta(m) {
                Some(meta) => match obj_get(ms, "body"@) {
                    Some(JVal::Arr(items)) => Some(GResult::HomeTimeline { meta, body: items }),
                    _ => None,
                },
                None => None,
            },
            None => None,
        },
        _ => None,
    }
}

pub open spec fn g_status(j: JVal) -> Option<GResult> {
    match j {
        JVal::Obj(ms) => match obj_get(ms, "version"@) {
            Some(JVal::Str(v)) => Some(GResult::Status { version: v }),
            _ => None,
        },
        _ => None,
    }
}

/// All member values must be strings.
pub open spec fn str_pairs(ms: Seq<(Seq<char>, JVal)>) -> Option<Seq<(Seq<char>, Seq<char>)>>
    decreases ms.len(),
{
    if ms.len() == 0 {
        Some(Seq::empty())
    } else {
        match ms[0].1 {
            JVal::Str(v) => match str_pairs(ms.skip(1)) {
                Some(rest) => Some(seq![(ms[0].0, v)] + rest),
                None => None,
            },
            _ => None,
        }
    }
}

pub open spec fn g_account_list(j: JVal) -> Option<GResult> {
    match j {
        JVal::Obj(ms) => match obj_get(ms, "session_keys"@) {
            Some(JVal::Obj(sk)) => match str_pairs(sk) {
                Some(pairs) => match obj_get(ms, "owner"@) {
                    None => Some(GResult::AccountList { owner: None, session_keys: pairs }),
                    Some(JVal::Null) => Some(
                        GResult::AccountList { owner: None, session_keys: pairs },
                    ),
                    Some(JVal::Str(o)) => Some(
                        GResult::AccountList { owner: Some(o), session_keys: pairs },
                    ),
                    Some(_) => None,
                },
                None => None,
            },
            _ => None,
        },
        _ => None,
    }
}

pub open spec fn g_account_add(j: JVal) -> Option<GResult> {
    match j {
        JVal::Obj(ms) => match (obj_get(ms, "user_id"@), obj_get(ms, "session_key"@)) {
            (Some(JVal::Str(u)), Some(JVal::Str(k))) => Some(
                GResult::AccountAdd { user_id: u, session_key: k },
            ),
            _ => None,
        },
        _ => None,
    }
}

/// Structural matching of a result payload: the first shape that fits wins.
/// The order — plain, home timeline, status, account list, account add — is
/// part of the wire contract.
pub open spec fn g_result(j: JVal) -> Option<GResult> {
    if g_plain(j).is_some() {
        g_plain(j)
    } else if g_timeline(j).is_some() {
        g_timeline(j)
    } else if g_status(j).is_some() {
        g_status(j)
    } else if g_account_list(j).is_some() {
        g_account_list(j)
    } else {
        g_account_add(j)
    }
}

pub open spec fn g_error(j: JVal) -> Option<GError> {
    match j {
        JVal::Obj(ms) => match (obj_get(ms, "code"@), obj_get(ms, "message"@)) {
            (Some(JVal::Num(lc)), Some(JVal::Str(msg))) => match spec_parse_isize(lc) {
                Some(code) => Some(
                    GError {
                        code: code as int,
                        message: msg,
                        data: match obj_get(ms, "data"@) {
                            None => None,
                            Some(JVal::Null) => None,
                            Some(d) => Some(d),
                        },
                    },
                ),
                None => None,
            },
            _ => None,
        },
        _ => None,
    }
}

/// The whole envelope: required `id` and `jsonrpc` strings, and exactly one
/// of a `result` member or an `error` member. An envelope carrying both is
/// rejected, as the tagged union the protocol promises; any other member is
/// ignored.
pub open spec fn g_envelope(j: JVal) -> Option<GResponse> {
    match j {
        JVal::Obj(ms) => match (obj_get(ms, "id"@), obj_get(ms, "jsonrpc"@)) {
            (Some(JVal::Str(id)), Some(JVal::Str(ver))) => match (obj_get(ms, "result"@), obj_get(
                ms,
                "error"@,
            )) {
                (Some(r), None) => match g_result(r) {
                    Some(res) => Some(
                        GResponse { id, jsonrpc: ver, object: GObject::Result(res) },
                    ),
                    None => None,
                },
                (None, Some(e)) => match g_error(e) {
                    Some(err) => Some(
                        GResponse { id, jsonrpc: ver, object: GObject::Error(err) },
                    ),
                    None => None,
                },
                _ => None,
            },
            _ => None,
        },
        _ => None,
    }
}

/// What a response line means: parse, then interpret the envelope.
pub open spec fn decode_spec(s: Seq<char>) -> Option<GResponse> {
    match json_parse(s) {
        Some(j) => g_envelope(j),
        None => None,
    }
}

/// An envelope whose `result` member matches a known shape, and which
/// carries no `error` member, resolves to a result — never to an error.
pub proof fn lemma_envelope_picks_result(
    ms: Seq<(Seq<char>, JVal)>,
    id: Seq<char>,
    ver: Seq<char>,
    r: JVal,
)
    requires
        obj_get(ms, "id"@) == Some(JVal::Str(id)),
        obj_get(ms, "jsonrpc"@) == Some(JVal::Str(ver)),
        obj_get(ms, "result"@) == Some(r),
        obj_get(ms, "error"@) is None,
        g_result(r).is_some(),
    ensures
        g_envelope(JVal::Obj(ms)) == Some(
            GResponse { id, jsonrpc: ver, object: GObject::Result(g_result(r).unwrap()) },
        ),
{
}

/// An envelope with no `result` member and a well-formed `error` member
/// resolves to a backend-reported error — never to a result. Together with
/// the lemma above: an envelope carrying both members resolves to neither,
/// and one carrying exactly one never crosses to the other.
pub proof fn lemma_envelope_picks_error(
    ms: Seq<(Seq<char>, JVal)>,
    id: Seq<char>,
    ver: Seq<char>,
    e: JVal,
)
    requires
        obj_get(ms, "id"@) == Some(JVal::Str(id)),
        obj_get(ms, "jsonrpc"@) == Some(JVal::Str(ver)),
        obj_get(ms, "result"@) is None,
        obj_get(ms, "error"@) == Some(e),
        g_error(e).is_some(),
    ensures
        g_envelope(JVal::Obj(ms)) == Some(
            GResponse { id, jsonrpc: ver, object: GObject::Error(g_error(e).unwrap()) },
        ),
{
}

// ---------------------------------------------------------------------------
// Interpretation, executable side
// ---------------------------------------------------------------------------

/// First index whose key equals `key`, scanning from `from`.
fn obj_find_from(members: &Vec<(String, JsonValue)>, from: usize, key: &str) -> (r: Option<usize>)
    requires
        from <= members@.len(),
    ensures
        match r {
            Some(idx) => from <= idx < members@.len() && members@[idx as int].0@ == key@ && obj_get(
                view_members(members@.skip(from as int)),
                key@,
            ) == Some(members@[idx as int].1@),
            None => obj_get(view_members(members@.skip(from as int)), key@) is None,
        },
    decreases members@.len() - from,
{
    if from == members.len() {
        proof {
            assert(members@.skip(from as int) =~= Seq::<(String, JsonValue)>::empty());
            assert(view_members(Seq::<(String, JsonValue)>::empty()) == Seq::<
                (Seq<char>, JVal),
            >::empty());
        }
        None
    } else {
        proof {
            crate::json::lemma_view_members_cons(members@.skip(from as int));
            assert(members@.skip(from as int)[0] == members@[from as int]);
            assert(members@.skip(from as int).skip(1) =~= members@.skip(from as int + 1));
        }
        if str_eq(members[from].0.as_str(), key) {
            proof {
                let vm = view_members(members@.skip(from as int));
                assert(vm[0] == (members@[from as int].0@, members@[from as int].1@));
                assert(obj_get(vm, key@) == Some(vm[0].1));
            }
            Some(from)
        } else {
            let r = obj_find_from(members, from + 1, key);
            proof {
                let vm = view_members(members@.skip(from as int));
                assert(vm[0] == (members@[from as int].0@, members@[from as int].1@));
                assert(vm.skip(1) =~= view_members(members@.skip(from as int + 1)));
                assert(obj_get(vm, key@) == obj_get(vm.skip(1), key@));
            }
            r
        }
    }
}

/// First member with key `key`; `None` exactly when the object lacks it.
pub fn obj_find(members: &Vec<(String, JsonValue)>, key: &str) -> (r: Option<usize>)
    ensures
        match r {
            Some(idx) => 0 <= idx < members@.len() && members@[idx as int].0@ == key@ && obj_get(
                view_members(members@),
                key@,
            ) == Some(members@[idx as int].1@),
            None => obj_get(view_members(members@), key@) is None,
        },
{
    let r = obj_find_from(members, 0, key);
    proof {
        assert(members@.skip(0) =~= members@);
    }
    r
}

fn interp_meta(j: &JsonValue) -> (r: Option<RpcResponsePlainMeta>)
    ensures
        r == g_meta(j@),
{
    match j {
        JsonValue::Obj(ms) => {
            let i1 = match obj_find(ms, "api_calls_remaining") {
                Some(i) => i,
                None => {
                    return None;
                },
            };
            let i2 = match obj_find(ms, "api_calls_reset") {
                Some(i) => i,
                None => {
                    return None;
                },
            };
            let l1 = match &ms[i1].1 {
                JsonValue::Num(l) => l,
                _ => {
                    return None;
                },
            };
            let l2 = match &ms[i2].1 {
                JsonValue::Num(l) => l,
                _ => {
                    return None;
                },
            };
            let a = match parse_usize_lit(l1.as_str()) {
                Some(a) => a,
                None => {
                    return None;
                },
            };
            let b = match parse_usize_lit(l2.as_str()) {
                Some(b) => b,
                None => {
                    return None;
                },
            };
            Some(RpcResponsePlainMeta { api_calls_remaining: a, api_calls_reset: b })
        },
        _ => None,
    }
}

fn interp_plain(j: &JsonValue) -> (r: Option<RpcResponseResult>)
    ensures
        match r {
            Some(res) => g_plain(j@) == Some(res@),
            None => g_plain(j@) is None,
        },
{
    match j {
        JsonValue::Obj(ms) => {
            let im = match obj_find(ms, "meta") {
                Some(i) => i,
                None => {
                    return None;
                },
            };
            let meta = match interp_meta(&ms[im].1) {
                Some(m) => m,
                None => {
                    return None;
                },
            };
            let ib = match obj_find(ms, "body") {
                Some(i) => i,
                None => {
                    return None;
                },
            };
            let body = clone_json(&ms[ib].1);
            Some(RpcResponseResult::Plain { meta, body })
        },
        _ => None,
    }
}

fn posts_from(items: &Vec<JsonValue>, k: usize) -> (out: Vec<Post>)
    requires
        k <= items@.len(),
    ensures
        out@.len() == items@.len() - k,
        forall|i: int| 0 <= i < out@.len() ==> (#[trigger] out@[i])@ == items@[k + i]@,
    decreases items@.len() - k,
{
    if k == items.len() {
        Vec::new()
    } else {
        let first = Post(clone_json(&items[k]));
        let mut rest = posts_from(items, k + 1);
        let ghost before = rest@;
        rest.insert(0, first);
        proof {
            assert(rest@ =~= seq![first] + before);
            assert forall|i: int| 0 <= i < rest@.len() implies (#[trigger] rest@[i])@ == items@[k
                + i]@ by {
                if i > 0 {
                    assert(rest@[i] == before[i - 1]);
                    assert(before[i - 1]@ == items@[k + 1 + (i - 1)]@);
                }
            }
        }
        rest
    }
}

proof fn lemma_view_posts_matches(a: Seq<Post>, b: Seq<JsonValue>)
    requires
        a.len() == b.len(),
        forall|i: int| 0 <= i < a.len() ==> (#[trigger] a[i])@ == b[i]@,
    ensures
        view_posts(a) == crate::json::view_elems(b),
    decreases a.len(),
{
    if a.len() > 0 {
        assert forall|i: int| 0 <= i < a.skip(1).len() implies (#[trigger] a.skip(1)[i])@ == b.skip(
            1,
        )[i]@ by {
            assert(a.skip(1)[i] == a[i + 1]);
            assert(b.skip(1)[i] == b[i + 1]);
        }
        lemma_view_posts_matches(a.skip(1), b.skip(1));
        assert(a[0]@ == b[0]@);
    } else {
        assert(a =~= Seq::<Post>::empty());
        assert(b =~= Seq::<JsonValue>::empty());
    }
}

fn interp_timeline(j: &JsonValue) -> (r: Option<RpcResponseResult>)
    ensures
        match r {
            Some(res) => g_timeline(j@) == Some(res@),
            None => g_timeline(j@) is None,
        },
{
    match j {
        JsonValue::Obj(ms) => {
            let im = match obj_find(ms, "meta") {
                Some(i) => i,
                None => {
                    return None;
                },
            };
            let meta = match interp_meta(&ms[im].1) {
                Some(m) => m,
                None => {
                    return None;
                },
            };
            let ib = match obj_find(ms, "body") {
                Some(i) => i,
                None => {
                    return None;
                },
            };
            match &ms[ib].1 {
                JsonValue::Arr(items) => {
                    let posts = posts_from(items, 0);
                    proof {
                        assert forall|i: int| 0 <= i < posts@.len() implies (
                        #[trigger] posts@[i])@ == items@[i]@ by {
                            assert(posts@[i]@ == items@[0 + i]@);
                        }
                        lemma_view_posts_matches(posts@, items@);
                    }
                    Some(RpcResponseResult::HomeTimeline { meta, body: posts })
                },
                _ => None,
            }
        },
        _ => None,
    }
}

fn interp_status(j: &JsonValue) -> (r: Option<RpcResponseResult>)
    ensures
        match r {
            Some(res) => g_status(j@) == Some(res@),
            None => g_status(j@) is None,
        },
{
    match j {
        JsonValue::Obj(ms) => {
            let iv = match obj_find(ms, "version") {
                Some(i) => i,
                None => {
                    return None;
                },
            };
            match &ms[iv].1 {
                JsonValue::Str(v) => Some(RpcResponseResult::Status { version: v.clone() }),
                _ => None,
            }
        },
        _ => None,
    }
}

fn pairs_from(sk: &Vec<(String, JsonValue)>, k: usize) -> (r: Option<Vec<(String, String)>>)
    requires
        k <= sk@.len(),
    ensures
        match r {
            Some(out) => str_pairs(view_members(sk@.skip(k as int))) == Some(view_pairs(out@)),
            None => str_pairs(view_members(sk@.skip(k as int))) is None,
        },
    decreases sk@.len() - k,
{
    if k == sk.len() {
        proof {
            assert(sk@.skip(k as int) =~= Seq::<(String, JsonValue)>::empty());
            assert(view_members(Seq::<(String, JsonValue)>::empty()) == Seq::<
                (Seq<char>, JVal),
            >::empty());
            assert(view_pairs(Seq::<(String, String)>::empty()) == Seq::<
                (Seq<char>, Seq<char>),
            >::empty());
        }
        Some(Vec::new())
    } else {
        proof {
            crate::json::lemma_view_members_cons(sk@.skip(k as int));
            assert(sk@.skip(k as int)[0] == sk@[k as int]);
            assert(sk@.skip(k as int).skip(1) =~= sk@.skip(k as int + 1));
        }
        match &sk[k].1 {
            JsonValue::Str(v) => {
                match pairs_from(sk, k + 1) {
                    Some(mut rest) => {
                        let pair = (sk[k].0.clone(), v.clone());
                        let ghost before = rest@;
                        rest.insert(0, pair);
                        proof {
                            let vm = view_members(sk@.skip(k as int));
                            assert(vm[0] == (sk@[k as int].0@, sk@[k as int].1@));
                            assert(vm.skip(1) =~= view_members(sk@.skip(k as int + 1)));
                            assert(sk@[k as int].1@ == JVal::Str(v@));
                            assert(rest@ =~= seq![pair] + before);
                            assert(view_pairs(rest@) == seq![(pair.0@, pair.1@)] + view_pairs(
                                before,
                            )) by {
                                assert(rest@[0] == pair);
                                assert(rest@.skip(1) =~= before);
                            }
                            assert(str_pairs(vm) == Some(seq![(vm[0].0, v@)] + view_pairs(before)));
                            assert(seq![(vm[0].0, v@)] =~= seq![(pair.0@, pair.1@)]);
                        }
                        Some(rest)
                    },
                    None => {
                        proof {
                            let vm = view_members(sk@.skip(k as int));
                            assert(vm.skip(1) =~= view_members(sk@.skip(k as int + 1)));
                            assert(sk@[k as int].1@ == JVal::Str(v@));
                        }
                        None
                    },
                }
            },
            _ => {
                proof {
                    let vm = view_members(sk@.skip(k as int));
                    assert(vm[0].1 == sk@[k as int].1@);
                    assert(!(sk@[k as int].1@ is Str));
                }
                None
            },
        }
    }
}

fn interp_account_list(j: &JsonValue) -> (r: Option<RpcResponseResult>)
    ensures
        match r {
            Some(res) => g_account_list(j@) == Some(res@),
            None => g_account_list(j@) is None,
        },
{
    match j {
        JsonValue::Obj(ms) => {
            let isk = match obj_find(ms, "session_keys") {
                Some(i) => i,
                None => {
                    return None;
                },
            };
            let sk = match &ms[isk].1 {
                JsonValue::Obj(sk) => sk,
                _ => {
                    return None;
                },
            };
            let pairs = match pairs_from(sk, 0) {
                Some(p) => p,
                None => {
                    proof {
                        assert(sk@.skip(0) =~= sk@);
                    }
                    return None;
                },
            };
            proof {
                assert(sk@.skip(0) =~= sk@);
            }
            let owner: Option<String> = match obj_find(ms, "owner") {
                None => None,
                Some(io) => match &ms[io].1 {
                    JsonValue::Null => None,
                    JsonValue::Str(o) => Some(o.clone()),
                    _ => {
                        return None;
                    },
                },
            };
            Some(RpcResponseResult::AccountList { owner, session_keys: pairs })
        },
        _ => None,
    }
}

fn interp_account_add(j: &JsonValue) -> (r: Option<RpcResponseResult>)
    ensures
        match r {
            Some(res) => g_account_add(j@) == Some(res@),
            None => g_account_add(j@) is None,
        },
{
    match j {
        JsonValue::Obj(ms) => {
            let iu = match obj_find(ms, "user_id") {
                Some(i) => i,
                None => {
                    return None;
                },
            };
            let ik = match obj_find(ms, "session_key") {
                Some(i) => i,
                None => {
                    return None;
                },
            };
            match (&ms[iu].1, &ms[ik].1) {
                (JsonValue::Str(u), JsonValue::Str(sk)) => Some(
                    RpcResponseResult::AccountAdd { user_id: u.clone(), session_key: sk.clone() },
                ),
                _ => None,
            }
        },
        _ => None,
    }
}

/// Matches a result payload against the known shapes, in their fixed order.
fn interp_result(j: &JsonValue) -> (r: Option<RpcResponseResult>)
    ensures
        match r {
            Some(res) => g_result(j@) == Some(res@),
            None => g_result(j@) is None,
        },
{
    if let Some(res) = interp_plain(j) {
        return Some(res);
    }
    if let Some(res) = interp_timeline(j) {
        return Some(res);
    }
    if let Some(res) = interp_status(j) {
        return Some(res);
    }
    if let Some(res) = interp_account_list(j) {
        return Some(res);
    }
    if let Some(res) = interp_account_add(j) {
        return Some(res);
    }
    None
}

fn interp_error(j: &JsonValue) -> (r: Option<RpcResponseError>)
    ensures
        match r {
            Some(err) => g_error(j@) == Some(err@),
            None => g_error(j@) is None,
        },
{
    match j {
        JsonValue::Obj(ms) => {
            let ic = match obj_find(ms, "code") {
                Some(i) => i,
                None => {
                    return None;
                },
            };
            let im = match obj_find(ms, "message") {
                Some(i) => i,
                None => {
                    return None;
                },
            };
            let lc = match &ms[ic].1 {
                JsonValue::Num(l) => l,
                _ => {
                    return None;
                },
            };
            let msg = match &ms[im].1 {
                JsonValue::Str(m) => m,
                _ => {
                    return None;
                },
            };
            let code = match parse_isize_lit(lc.as_str()) {
                Some(c) => c,
                None => {
                    return None;
                },
            };
            let data: Option<JsonValue> = match obj_find(ms, "data") {
                None => None,
                Some(id) => match &ms[id].1 {
                    JsonValue::Null => None,
                    d => Some(clone_json(d)),
                },
            };
            Some(RpcResponseError { code, message: msg.clone(), data })
        },
        _ => None,
    }
}

/// Decodes one response line. Succeeds exactly when [`decode_spec`] accepts
/// the text, and then returns exactly the envelope it denotes.
pub fn decode_response(s: &str) -> (r: Option<RpcResponse>)
    ensures
        match r {
            Some(resp) => decode_spec(s@) == Some(resp@),
            None => decode_spec(s@) is None,
        },
{
    let parsed = match parse_json_text(s) {
        Ok(v) => v,
        Err(_) => {
            return None;
        },
    };
    let ms = match &parsed {
        JsonValue::Obj(ms) => ms,
        _ => {
            return None;
        },
    };
    let iid = match obj_find(ms, "id") {
        Some(i) => i,
        None => {
            return None;
        },
    };
    let iver = match obj_find(ms, "jsonrpc") {
        Some(i) => i,
        None => {
            return None;
        },
    };
    let id = match &ms[iid].1 {
        JsonValue::Str(id) => id.clone(),
        _ => {
            return None;
        },
    };
    let jsonrpc = match &ms[iver].1 {
        JsonValue::Str(v) => v.clone(),
        _ => {
            return None;
        },
    };
    let object: RpcObject = match (obj_find(ms, "result"), obj_find(ms, "error")) {
        (Some(ir), None) => match interp_result(&ms[ir].1) {
            Some(res) => RpcObject::Result(res),
            None => {
                return None;
            },
        },
        (None, Some(ie)) => match interp_error(&ms[ie].1) {
            Some(err) => RpcObject::Error(err),
            None => {
                return None;
            },
        },
        _ => {
            return None;
        },
    };
    Some(RpcResponse { id, jsonrpc, object })
}

} // verus!
