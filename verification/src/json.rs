//! The JSON value model for the gateway's wire protocol.
//!
//! The backend speaks JSON-RPC 2.0, one JSON object per line. The gateway
//! treats that line format as its own wire protocol: values are modelled by
//! [`JsonValue`], serialized by [`to_text`], and parsed back in the `parse`
//! module. Numbers are carried as their literal text (`Num("42")`): the
//! gateway only ever computes with a number after checking it is a plain
//! digit run, and the literal keeps every value exactly representable.

use vstd::prelude::*;

verus! {

broadcast use vstd::seq::group_seq_axioms, vstd::std_specs::vec::group_vec_axioms;

/// A JSON value as it travels over the gateway's wire.
#[derive(Debug, PartialEq)]
pub enum JsonValue {
    Null,
    Bool(bool),
    /// A numeric token, kept as its literal text (for example `"-12.5e3"`).
    Num(String),
    Str(String),
    Arr(Vec<JsonValue>),
    Obj(Vec<(String, JsonValue)>),
}

/// The mathematical model of a JSON value.
pub enum JVal {
    Null,
    Bool(bool),
    Num(Seq<char>),
    Str(Seq<char>),
    Arr(Seq<JVal>),
    Obj(Seq<(Seq<char>, JVal)>),
}

impl View for JsonValue {
    type V = JVal;

    open spec fn view(&self) -> JVal
        decreases self, 0int,
    {
        match self {
            JsonValue::Null => JVal::Null,
            JsonValue::Bool(b) => JVal::Bool(*b),
            JsonValue::Num(s) => JVal::Num(s@),
            JsonValue::Str(s) => JVal::Str(s@),
            JsonValue::Arr(items) => JVal::Arr(view_elems(items@)),
            JsonValue::Obj(members) => JVal::Obj(view_members(members@)),
        }
    }
}

pub open spec fn view_elems(items: Seq<JsonValue>) -> Seq<JVal>
    decreases items, 1int,
{
    if items.len() == 0 {
        Seq::empty()
    } else {
        seq![items[0]@] + view_elems(items.skip(1))
    }
}

pub open spec fn view_members(members: Seq<(String, JsonValue)>) -> Seq<(Seq<char>, JVal)>
    decreases members, 1int,
{
    if members.len() == 0 {
        Seq::empty()
    } else {
        seq![(members[0].0@, members[0].1@)] + view_members(members.skip(1))
    }
}

/// Looks a key up in an object's member list; the first occurrence wins.
pub open spec fn obj_get(members: Seq<(Seq<char>, JVal)>, key: Seq<char>) -> Option<JVal>
    decreases members.len(),
{
    if members.len() == 0 {
        None
    } else if members[0].0 == key {
        Some(members[0].1)
    } else {
        obj_get(members.skip(1), key)
    }
}

pub proof fn lemma_view_elems_cons(s: Seq<JsonValue>)
    requires
        s.len() > 0,
    ensures
        view_elems(s) == seq![s[0]@] + view_elems(s.skip(1)),
{
}

pub proof fn lemma_view_elems_single(s: Seq<JsonValue>)
    requires
        s.len() == 1,
    ensures
        view_elems(s) == seq![s[0]@],
{
    assert(s.skip(1) =~= Seq::<JsonValue>::empty());
    assert(view_elems(Seq::<JsonValue>::empty()) == Seq::<JVal>::empty());
    assert(view_elems(s) =~= seq![s[0]@]);
}

pub proof fn lemma_view_elems_len(s: Seq<JsonValue>)
    ensures
        view_elems(s).len() == s.len(),
    decreases s.len(),
{
    if s.len() > 0 {
        lemma_view_elems_len(s.skip(1));
        assert(view_elems(s) == seq![s[0]@] + view_elems(s.skip(1)));
    } else {
        assert(view_elems(s) == Seq::<JVal>::empty());
    }
}

pub proof fn lemma_view_members_len(s: Seq<(String, JsonValue)>)
    ensures
        view_members(s).len() == s.len(),
    decreases s.len(),
{
    if s.len() > 0 {
        lemma_view_members_len(s.skip(1));
        assert(view_members(s) == seq![(s[0].0@, s[0].1@)] + view_members(s.skip(1)));
    } else {
        assert(view_members(s) == Seq::<(Seq<char>, JVal)>::empty());
    }
}

pub proof fn lemma_view_members_cons(s: Seq<(String, JsonValue)>)
    requires
        s.len() > 0,
    ensures
        view_members(s) == seq![(s[0].0@, s[0].1@)] + view_members(s.skip(1)),
{
}

pub proof fn lemma_view_members_single(s: Seq<(String, JsonValue)>)
    requires
        s.len() == 1,
    ensures
        view_members(s) == seq![(s[0].0@, s[0].1@)],
{
    assert(s.skip(1) =~= Seq::<(String, JsonValue)>::empty());
    assert(view_members(Seq::<(String, JsonValue)>::empty()) == Seq::<(Seq<char>, JVal)>::empty());
    assert(view_members(s) =~= seq![(s[0].0@, s[0].1@)]);
}

pub proof fn lemma_view_elems_pointwise(a: Seq<JsonValue>, b: Seq<JsonValue>)
    requires
        a.len() == b.len(),
        forall|k: int| 0 <= k < a.len() ==> #[trigger] a[k]@ == b[k]@,
    ensures
        view_elems(a) == view_elems(b),
    decreases a.len(),
{
    if a.len() > 0 {
        assert(forall|k: int|
            0 <= k < a.skip(1).len() ==> #[trigger] a.skip(1)[k]@ == b.skip(1)[k]@) by {
            assert(forall|k: int| 0 <= k < a.skip(1).len() ==> a.skip(1)[k] == a[k + 1]);
        }
        lemma_view_elems_pointwise(a.skip(1), b.skip(1));
        assert(a[0]@ == b[0]@);
    } else {
        assert(a =~= Seq::<JsonValue>::empty());
        assert(b =~= Seq::<JsonValue>::empty());
    }
}

pub proof fn lemma_view_members_pointwise(a: Seq<(String, JsonValue)>, b: Seq<(String, JsonValue)>)
    requires
        a.len() == b.len(),
        forall|k: int| 0 <= k < a.len() ==> #[trigger] a[k].0@ == b[k].0@ && a[k].1@ == b[k].1@,
    ensures
        view_members(a) == view_members(b),
    decreases a.len(),
{
    if a.len() > 0 {
        assert(forall|k: int|
            0 <= k < a.skip(1).len() ==> #[trigger] a.skip(1)[k].0@ == b.skip(1)[k].0@ && a.skip(
                1,
            )[k].1@ == b.skip(1)[k].1@) by {
            assert(forall|k: int| 0 <= k < a.skip(1).len() ==> a.skip(1)[k] == a[k + 1]);
            assert(forall|k: int| 0 <= k < b.skip(1).len() ==> b.skip(1)[k] == b[k + 1]);
        }
        lemma_view_members_pointwise(a.skip(1), b.skip(1));
        assert(a[0].0@ == b[0].0@ && a[0].1@ == b[0].1@);
    } else {
        assert(a =~= Seq::<(String, JsonValue)>::empty());
        assert(b =~= Seq::<(String, JsonValue)>::empty());
    }
}

/// A deep copy with the same model.
pub fn clone_json(v: &JsonValue) -> (r: JsonValue)
    ensures
        r@ == v@,
    decreases v, 0int, 0int,
{
    match v {
        JsonValue::Null => JsonValue::Null,
        JsonValue::Bool(b) => JsonValue::Bool(*b),
        JsonValue::Num(s) => JsonValue::Num(s.clone()),
        JsonValue::Str(s) => JsonValue::Str(s.clone()),
        JsonValue::Arr(items) => {
            let out = clone_elems_from(items, 0);
            proof {
                assert forall|k: int| 0 <= k < out@.len() implies #[trigger] out@[k]@
                    == items@[k]@ by {
                    assert(out@[k]@ == items@[0 + k]@);
                }
                lemma_view_elems_pointwise(out@, items@);
            }
            JsonValue::Arr(out)
        },
        JsonValue::Obj(members) => {
            let out = clone_members_from(members, 0);
            proof {
                assert forall|k: int| 0 <= k < out@.len() implies #[trigger] out@[k].0@
                    == members@[k].0@ && out@[k].1@ == members@[k].1@ by {
                    assert(out@[k].0@ == members@[0 + k].0@ && out@[k].1@ == members@[0 + k].1@);
                }
                lemma_view_members_pointwise(out@, members@);
            }
            JsonValue::Obj(out)
        },
    }
}

fn clone_elems_from(items: &Vec<JsonValue>, k: usize) -> (out: Vec<JsonValue>)
    requires
        k <= items@.len(),
    ensures
        out@.len() == items@.len() - k,
        forall|i: int| 0 <= i < out@.len() ==> #[trigger] out@[i]@ == items@[k + i]@,
    decreases items, 1int, items@.len() - k,
{
    if k == items.len() {
        Vec::new()
    } else {
        let first = clone_json(&items[k]);
        let mut rest = clone_elems_from(items, k + 1);
        let ghost before = rest@;
        rest.insert(0, first);
        proof {
            assert(rest@ =~= seq![first] + before);
            assert forall|i: int| 0 <= i < rest@.len() implies #[trigger] rest@[i]@ == items@[k
                + i]@ by {
                if i > 0 {
                    assert(rest@[i] == before[i - 1]);
                    assert(before[i - 1]@ == items@[k + 1 + (i - 1)]@);
                }
            }
        }
        rest
    }
}

fn clone_members_from(members: &Vec<(String, JsonValue)>, k: usize) -> (out: Vec<
    (String, JsonValue),
>)
    requires
        k <= members@.len(),
    ensures
        out@.len() == members@.len() - k,
        forall|i: int|
            0 <= i < out@.len() ==> (#[trigger] out@[i]).0@ == members@[k + i].0@ && out@[i].1@
                == members@[k + i].1@,
    decreases members, 1int, members@.len() - k,
{
    if k == members.len() {
        Vec::new()
    } else {
        let key = members[k].0.clone();
        let val = clone_json(&members[k].1);
        let mut rest = clone_members_from(members, k + 1);
        let ghost before = rest@;
        rest.insert(0, (key, val));
        proof {
            assert(rest@ =~= seq![(key, val)] + before);
            assert forall|i: int| 0 <= i < rest@.len() implies (#[trigger] rest@[i]).0@
                == members@[k + i].0@ && rest@[i].1@ == members@[k + i].1@ by {
                if i > 0 {
                    assert(rest@[i] == before[i - 1]);
                    assert(before[i - 1].0@ == members@[k + 1 + (i - 1)].0@);
                    assert(before[i - 1].1@ == members@[k + 1 + (i - 1)].1@);
                }
            }
        }
        rest
    }
}

// ---------------------------------------------------------------------------
// Number literals
// ---------------------------------------------------------------------------

pub open spec fn is_digit(c: char) -> bool {
    '0' <= c && c <= '9'
}

/// Characters that may occur in a number literal.
pub open spec fn is_num_char(c: char) -> bool {
    is_digit(c) || c == '-' || c == '+' || c == '.' || c == 'e' || c == 'E'
}

/// States of the recogniser for the JSON number grammar
/// `-? (0 | [1-9][0-9]*) (. [0-9]+)? ([eE] [+-]? [0-9]+)?`.
#[derive(Clone, Copy)]
pub enum NumState {
    Start,
    Sign,
    IntZero,
    IntDigits,
    Dot,
    Frac,
    Exp,
    ExpSign,
    ExpDigits,
}

pub open spec fn num_accepting(st: NumState) -> bool {
    match st {
        NumState::IntZero => true,
        NumState::IntDigits => true,
        NumState::Frac => true,
        NumState::ExpDigits => true,
        _ => false,
    }
}

pub fn num_accepting_x(st: NumState) -> (b: bool)
    ensures
        b == num_accepting(st),
{
    match st {
        NumState::IntZero => true,
        NumState::IntDigits => true,
        NumState::Frac => true,
        NumState::ExpDigits => true,
        _ => false,
    }
}

pub open spec fn num_step(st: NumState, c: char) -> Option<NumState> {
    match st {
        NumState::Start => if c == '-' {
            Some(NumState::Sign)
        } else if c == '0' {
            Some(NumState::IntZero)
        } else if is_digit(c) {
            Some(NumState::IntDigits)
        } else {
            None
        },
        NumState::Sign => if c == '0' {
            Some(NumState::IntZero)
        } else if is_digit(c) {
            Some(NumState::IntDigits)
        } else {
            None
        },
        NumState::IntZero => if c == '.' {
            Some(NumState::Dot)
        } else if c == 'e' || c == 'E' {
            Some(NumState::Exp)
        } else {
            None
        },
        NumState::IntDigits => if is_digit(c) {
            Some(NumState::IntDigits)
        } else if c == '.' {
            Some(NumState::Dot)
        } else if c == 'e' || c == 'E' {
            Some(NumState::Exp)
        } else {
            None
        },
        NumState::Dot => if is_digit(c) {
            Some(NumState::Frac)
        } else {
            None
        },
        NumState::Frac => if is_digit(c) {
            Some(NumState::Frac)
        } else if c == 'e' || c == 'E' {
            Some(NumState::Exp)
        } else {
            None
        },
        NumState::Exp => if c == '+' || c == '-' {
            Some(NumState::ExpSign)
        } else if is_digit(c) {
            Some(NumState::ExpDigits)
        } else {
            None
        },
        NumState::ExpSign => if is_digit(c) {
            Some(NumState::ExpDigits)
        } else {
            None
        },
        NumState::ExpDigits => if is_digit(c) {
            Some(NumState::ExpDigits)
        } else {
            None
        },
    }
}

pub open spec fn num_ok_from(s: Seq<char>, i: int, st: NumState) -> bool
    decreases s.len() - i,
    when 0 <= i <= s.len()
{
    if i == s.len() {
        num_accepting(st)
    } else {
        match num_step(st, s[i]) {
            Some(st2) => num_ok_from(s, i + 1, st2),
            None => false,
        }
    }
}

/// `s` is a well-formed JSON number literal.
pub open spec fn is_num_lit(s: Seq<char>) -> bool {
    num_ok_from(s, 0, NumState::Start)
}

/// Every character of a number literal is a number character.
pub proof fn lemma_num_chars(s: Seq<char>, i: int, st: NumState)
    requires
        0 <= i <= s.len(),
        num_ok_from(s, i, st),
    ensures
        forall|k: int| i <= k < s.len() ==> is_num_char(#[trigger] s[k]),
    decreases s.len() - i,
{
    if i < s.len() {
        match num_step(st, s[i]) {
            Some(st2) => {
                lemma_num_chars(s, i + 1, st2);
            },
            None => {},
        }
    }
}

// ---------------------------------------------------------------------------
// Serialization
// ---------------------------------------------------------------------------

/// The hexadecimal digit for `d` (lower case), for `d < 16`.
pub open spec fn hex_char(d: u32) -> char {
    if d == 0 {
        '0'
    } else if d == 1 {
        '1'
    } else if d == 2 {
        '2'
    } else if d == 3 {
        '3'
    } else if d == 4 {
        '4'
    } else if d == 5 {
        '5'
    } else if d == 6 {
        '6'
    } else if d == 7 {
        '7'
    } else if d == 8 {
        '8'
    } else if d == 9 {
        '9'
    } else if d == 10 {
        'a'
    } else if d == 11 {
        'b'
    } else if d == 12 {
        'c'
    } else if d == 13 {
        'd'
    } else if d == 14 {
        'e'
    } else {
        'f'
    }
}

/// How one character of a string is written inside double quotes.
pub open spec fn esc_char(c: char) -> Seq<char> {
    if c == '"' {
        seq!['\\', '"']
    } else if c == '\\' {
        seq!['\\', '\\']
    } else if c == '\u{8}' {
        seq!['\\', 'b']
    } else if c == '\u{c}' {
        seq!['\\', 'f']
    } else if c == '\n' {
        seq!['\\', 'n']
    } else if c == '\r' {
        seq!['\\', 'r']
    } else if c == '\t' {
        seq!['\\', 't']
    } else if (c as u32) < 0x20 {
        seq!['\\', 'u', '0', '0', hex_char((c as u32) / 16), hex_char((c as u32) % 16)]
    } else {
        seq![c]
    }
}

/// The escaped body of a string (without the surrounding quotes).
pub open spec fn ser_str_body(s: Seq<char>) -> Seq<char>
    decreases s.len(),
{
    if s.len() == 0 {
        Seq::empty()
    } else {
        esc_char(s[0]) + ser_str_body(s.skip(1))
    }
}

/// The canonical text of a JSON value: no whitespace, members in order.
pub open spec fn ser(j: JVal) -> Seq<char>
    decreases j, 0int,
{
    match j {
        JVal::Null => seq!['n', 'u', 'l', 'l'],
        JVal::Bool(b) => if b {
            seq!['t', 'r', 'u', 'e']
        } else {
            seq!['f', 'a', 'l', 's', 'e']
        },
        JVal::Num(lit) => lit,
        JVal::Str(s) => seq!['"'] + ser_str_body(s) + seq!['"'],
        JVal::Arr(items) => seq!['['] + ser_elems(items) + seq![']'],
        JVal::Obj(members) => seq!['{'] + ser_members(members) + seq!['}'],
    }
}

pub open spec fn ser_elems(items: Seq<JVal>) -> Seq<char>
    decreases items, 1int,
{
    if items.len() == 0 {
        Seq::empty()
    } else if items.len() == 1 {
        ser(items[0])
    } else {
        ser(items[0]) + seq![','] + ser_elems(items.skip(1))
    }
}

pub open spec fn ser_member(m: (Seq<char>, JVal)) -> Seq<char>
    decreases m, 0int,
{
    seq!['"'] + ser_str_body(m.0) + seq!['"', ':'] + ser(m.1)
}

pub open spec fn ser_members(members: Seq<(Seq<char>, JVal)>) -> Seq<char>
    decreases members, 1int,
{
    if members.len() == 0 {
        Seq::empty()
    } else if members.len() == 1 {
        ser_member(members[0])
    } else {
        ser_member(members[0]) + seq![','] + ser_members(members.skip(1))
    }
}

// ---------------------------------------------------------------------------
// Well-formedness
// ---------------------------------------------------------------------------

/// A value is well formed when every number literal in it obeys the JSON
/// number grammar. Only such values have a faithful wire text.
pub open spec fn wf_j(j: JVal) -> bool
    decreases j, 0int,
{
    match j {
        JVal::Null => true,
        JVal::Bool(_) => true,
        JVal::Num(lit) => is_num_lit(lit),
        JVal::Str(_) => true,
        JVal::Arr(items) => wf_elems(items),
        JVal::Obj(members) => wf_members(members),
    }
}

pub open spec fn wf_elems(items: Seq<JVal>) -> bool
    decreases items, 1int,
{
    if items.len() == 0 {
        true
    } else {
        wf_j(items[0]) && wf_elems(items.skip(1))
    }
}

pub open spec fn wf_members(members: Seq<(Seq<char>, JVal)>) -> bool
    decreases members, 1int,
{
    if members.len() == 0 {
        true
    } else {
        wf_j(members[0].1) && wf_members(members.skip(1))
    }
}

} // verus!
