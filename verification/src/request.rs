//! The request side of the envelope codec.
//!
//! A request is one JSON-RPC 2.0 object on one line: protocol version,
//! a fresh opaque id, the method name, and optional parameters. The id is
//! only for log correlation; nothing matches it against the response.

use vstd::prelude::*;

use crate::emit::to_text;
use crate::json::{obj_get, ser, view_members, wf_j, wf_members, JVal, JsonValue};
use crate::parse::json_parse;
use crate::roundtrip::lemma_json_round_trip;
use vstd::string::StringExecFns;

verus! {

broadcast use vstd::seq::group_seq_axioms, vstd::std_specs::vec::group_vec_axioms;

/// The envelope object for a call of `method` with `params` under id `id`:
/// `{"jsonrpc":"2.0","id":id,"method":method,"params":params}`, the params
/// member omitted when there are none.
pub open spec fn req_jval(method: Seq<char>, params: Option<JVal>, id: Seq<char>) -> JVal {
    JVal::Obj(
        seq![
            ("jsonrpc"@, JVal::Str("2.0"@)),
            ("id"@, JVal::Str(id)),
            ("method"@, JVal::Str(method)),
        ] + match params {
            Some(p) => seq![("params"@, p)],
            None => Seq::empty(),
        },
    )
}

pub open spec fn opt_view(params: Option<JsonValue>) -> Option<JVal> {
    match params {
        Some(p) => Some(p@),
        None => None,
    }
}

/// Writes the envelope's canonical one-line text (without the newline).
pub fn encode_request(method: &str, params: Option<JsonValue>, id: &str) -> (r: String)
    ensures
        r@ == ser(req_jval(method@, opt_view(params), id@)),
{
    let ghost gparams = opt_view(params);
    let mut members: Vec<(String, JsonValue)> = Vec::new();
    members.push((String::from_str("jsonrpc"), JsonValue::Str(String::from_str("2.0"))));
    members.push((String::from_str("id"), JsonValue::Str(String::from_str(id))));
    members.push((String::from_str("method"), JsonValue::Str(String::from_str(method))));
    match params {
        Some(p) => {
            members.push((String::from_str("params"), p));
        },
        None => {},
    }
    let v = JsonValue::Obj(members);
    proof {
        let ms = v->Obj_0@;
        let want = match gparams {
            Some(p) => seq![
                ("jsonrpc"@, JVal::Str("2.0"@)),
                ("id"@, JVal::Str(id@)),
                ("method"@, JVal::Str(method@)),
                ("params"@, p),
            ],
            None => seq![
                ("jsonrpc"@, JVal::Str("2.0"@)),
                ("id"@, JVal::Str(id@)),
                ("method"@, JVal::Str(method@)),
            ],
        };
        assert(view_members(ms) =~= want) by {
            reveal_with_fuel(view_members, 6);
            crate::json::lemma_view_members_len(ms);
        }
        assert(v@ == req_jval(method@, gparams, id@)) by {
            assert(want =~= (seq![
                ("jsonrpc"@, JVal::Str("2.0"@)),
                ("id"@, JVal::Str(id@)),
                ("method"@, JVal::Str(method@)),
            ] + match gparams {
                Some(p) => seq![("params"@, p)],
                None => Seq::<(Seq<char>, JVal)>::empty(),
            }));
        }
    }
    to_text(&v)
}

/// One framed request: the payload line that will travel over the socket.
#[derive(Debug)]
pub struct RpcRequest {
    payload: String,
}

impl View for RpcRequest {
    type V = Seq<char>;

    closed spec fn view(&self) -> Seq<char> {
        self.payload@
    }
}

impl RpcRequest {
    pub fn new(payload: String) -> (r: Self)
        ensures
            r@ == payload@,
    {
        RpcRequest { payload }
    }

    /// The payload text, for the transport to write.
    pub fn payload(&self) -> (p: &String)
        ensures
            p@ == self@,
    {
        &self.payload
    }

    /// The payload with the single newline byte that frames it on the wire.
    pub fn wire_line(&self) -> (l: String)
        ensures
            l@ == self@ + "\n"@,
    {
        let mut l = self.payload.clone();
        l.append("\n");
        l
    }
}

/// Relies on `uuid::Uuid::new_v4` and its hyphenated `to_string` form:
/// whatever value is drawn, the text is exactly 36 characters.
#[verifier::external_body]
pub(crate) fn fresh_request_id() -> (r: String)
    ensures
        r@.len() == 36,
{
    uuid::Uuid::new_v4().to_string()
}

/// Round trip of the request envelope: encoding a call of `method` with
/// well-formed `params` under a non-empty `id` and parsing the line back as
/// a generic JSON object yields exactly the envelope object: `jsonrpc` is
/// `"2.0"`, `method` and `params` are returned unchanged, and the id member
/// is the non-empty `id`.
pub proof fn lemma_request_round_trip(method: Seq<char>, params: JVal, id: Seq<char>)
    requires
        wf_j(params),
        id.len() > 0,
    ensures
        ({
            let env = req_jval(method, Some(params), id);
            &&& json_parse(ser(env)) == Some(env)
            &&& obj_get(env->Obj_0, "jsonrpc"@) == Some(JVal::Str("2.0"@))
            &&& obj_get(env->Obj_0, "method"@) == Some(JVal::Str(method))
            &&& obj_get(env->Obj_0, "params"@) == Some(params)
            &&& obj_get(env->Obj_0, "id"@) matches Some(JVal::Str(i)) && i.len() > 0
        }),
{
    let env = req_jval(method, Some(params), id);
    let ms = env->Obj_0;
    let m1 = ms.skip(1);
    let m2 = m1.skip(1);
    let m3 = m2.skip(1);
    assert(ms.len() == 4);
    assert(ms[0] == ("jsonrpc"@, JVal::Str("2.0"@)) && ms[1] == ("id"@, JVal::Str(id)) && ms[2]
        == ("method"@, JVal::Str(method)) && ms[3] == ("params"@, params));
    assert(m1[0] == ms[1] && m2[0] == ms[2] && m3[0] == ms[3]);
    assert(m1.skip(1) =~= m2 && m2.skip(1) =~= m3);
    assert(m3.skip(1) =~= Seq::<(Seq<char>, JVal)>::empty());
    assert(wf_members(Seq::<(Seq<char>, JVal)>::empty()));
    assert(wf_j(JVal::Str("2.0"@)) && wf_j(JVal::Str(id)) && wf_j(JVal::Str(method)));
    assert(wf_members(m3));
    assert(wf_members(m2));
    assert(wf_members(m1));
    assert(wf_members(ms));
    assert(wf_j(env));
    lemma_json_round_trip(env);
    proof_keys_distinct();
    assert(obj_get(ms, "jsonrpc"@) == Some(JVal::Str("2.0"@)));
    assert(obj_get(m1, "id"@) == Some(JVal::Str(id)));
    assert(obj_get(ms, "id"@) == Some(JVal::Str(id)));
    assert(obj_get(m2, "method"@) == Some(JVal::Str(method)));
    assert(obj_get(m1, "method"@) == Some(JVal::Str(method)));
    assert(obj_get(ms, "method"@) == Some(JVal::Str(method)));
    assert(obj_get(m3, "params"@) == Some(params));
    assert(obj_get(m2, "params"@) == Some(params));
    assert(obj_get(m1, "params"@) == Some(params));
    assert(obj_get(ms, "params"@) == Some(params));
}

/// The four envelope member names are pairwise distinct.
proof fn proof_keys_distinct()
    ensures
        "jsonrpc"@ != "id"@,
        "jsonrpc"@ != "method"@,
        "jsonrpc"@ != "params"@,
        "id"@ != "method"@,
        "id"@ != "params"@,
        "method"@ != "params"@,
{
    reveal_strlit("jsonrpc");
    reveal_strlit("id");
    reveal_strlit("method");
    reveal_strlit("params");
    assert("jsonrpc"@.len() == 7);
    assert("id"@.len() == 2);
    assert("method"@.len() == 6);
    assert("params"@.len() == 6);
    assert("method"@[0] == 'm' && "params"@[0] == 'p');
}

} // verus!
