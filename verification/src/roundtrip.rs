//! Round trip: parsing the canonical text of a well-formed value gives back
//! exactly that value.
//!
//! This is the codec's central law. It is proved by induction over the value,
//! one lemma per syntactic layer: escaped strings, number literals, then
//! values, array elements and object members together.

use vstd::prelude::*;

use crate::json::{
    esc_char, hex_char, is_digit, is_num_char, is_num_lit, num_accepting, num_ok_from, num_step,
    ser, ser_elems, ser_member, ser_members, ser_str_body, wf_elems, wf_j, wf_members, JVal,
    NumState,
};
use crate::parse::{
    hex4, hexv, is_hex, is_ws, json_parse, scan_num, skip_ws, sp_elems, sp_members,
    sp_string_body, sp_value, unesc_short,
};

verus! {

broadcast use vstd::seq::group_seq_axioms;

/// `t` stands letter for letter inside `s`, starting at `i`.
pub open spec fn occurs_at(s: Seq<char>, i: int, t: Seq<char>) -> bool {
    &&& 0 <= i
    &&& i + t.len() <= s.len()
    &&& forall|k: int| 0 <= k < t.len() ==> s[i + k] == t[k]
}

pub proof fn lemma_skip_ws_noop(s: Seq<char>, i: int)
    requires
        0 <= i <= s.len(),
        i == s.len() || !is_ws(s[i]),
    ensures
        skip_ws(s, i) == i,
{
}

/// Parsing the escaped body of `content`, followed by the closing quote,
/// yields `content` and stops just past the quote.
pub proof fn lemma_rt_string(s: Seq<char>, i: int, content: Seq<char>)
    requires
        occurs_at(s, i, ser_str_body(content)),
        i + ser_str_body(content).len() < s.len(),
        s[i + ser_str_body(content).len()] == '"',
    ensures
        sp_string_body(s, i) == Some((content, i + ser_str_body(content).len() + 1)),
    decreases content.len(),
{
    broadcast use vstd::utf8::char_u32_cast, vstd::utf8::char_is_scalar;

    let body = ser_str_body(content);
    if content.len() == 0 {
        assert(body =~= Seq::<char>::empty());
        assert(s[i] == '"');
    } else {
        let c0 = content[0];
        let e = esc_char(c0);
        let rest = ser_str_body(content.skip(1));
        assert(body == e + rest);
        assert forall|k: int| 0 <= k < e.len() implies s[i + k] == e[k] by {
            assert(s[i + k] == body[k]);
            assert(body[k] == e[k]);
        }
        assert forall|k: int| 0 <= k < rest.len() implies s[i + e.len() + k] == rest[k] by {
            assert(s[i + (e.len() + k)] == body[e.len() + k]);
            assert(body[e.len() + k] == rest[k]);
        }
        assert(occurs_at(s, i + e.len(), rest));
        lemma_rt_string(s, i + e.len(), content.skip(1));
        assert(sp_string_body(s, i + e.len()) == Some((content.skip(1), i + body.len() + 1)));
        if c0 == '"' || c0 == '\\' {
            assert(s[i] == '\\' && s[i + 1] == c0);
            assert(unesc_short(c0) == Some(c0));
            assert(seq![c0] + content.skip(1) =~= content);
        } else if c0 == '\u{8}' || c0 == '\u{c}' || c0 == '\n' || c0 == '\r' || c0 == '\t' {
            assert(s[i] == '\\');
            assert(unesc_short(s[i + 1]) == Some(c0));
            assert(seq![c0] + content.skip(1) =~= content);
        } else if (c0 as u32) < 0x20 {
            let u = c0 as u32;
            assert(s[i] == '\\' && s[i + 1] == 'u' && s[i + 2] == '0' && s[i + 3] == '0');
            assert(s[i + 4] == hex_char(u / 16) && s[i + 5] == hex_char(u % 16));
            lemma_hex_char(u / 16);
            lemma_hex_char(u % 16);
            assert(hex4(s, i + 2) == u) by {
                assert(hexv(s[i + 2]) == 0 && hexv(s[i + 3]) == 0);
                assert(hexv(s[i + 4]) == u / 16 && hexv(s[i + 5]) == u % 16);
            }
            vstd::utf8::char_u32_cast(c0, u);
            assert((u as char) == c0);
            assert(seq![c0] + content.skip(1) =~= content);
        } else {
            assert(s[i + 0] == e[0]);
            assert(s[i] == c0);
            assert(c0 != '"' && c0 != '\\' && (c0 as u32) >= 0x20);
            assert(seq![c0] + content.skip(1) =~= content);
        }
    }
}

/// `hex_char` writes a hexadecimal digit, and `hexv` reads it back.
pub proof fn lemma_hex_char(d: u32)
    requires
        d < 16,
    ensures
        is_hex(hex_char(d)),
        hexv(hex_char(d)) == d,
        hex_char(d) != '"',
{
}

pub proof fn lemma_occurs_split(s: Seq<char>, i: int, a: Seq<char>, b: Seq<char>)
    requires
        occurs_at(s, i, a + b),
    ensures
        occurs_at(s, i, a),
        occurs_at(s, i + a.len(), b),
{
    assert forall|k: int| 0 <= k < a.len() implies s[i + k] == a[k] by {
        assert(s[i + k] == (a + b)[k]);
    }
    assert forall|k: int| 0 <= k < b.len() implies s[i + a.len() + k] == b[k] by {
        assert(s[i + (a.len() + k)] == (a + b)[a.len() + k]);
    }
}

pub proof fn lemma_occurs_char(s: Seq<char>, i: int, c: char)
    requires
        occurs_at(s, i, seq![c]),
    ensures
        0 <= i < s.len() && s[i] == c,
{
    assert(s[i + 0] == seq![c][0]);
}

/// A well-formed number literal is not empty and starts with a minus sign or
/// a digit.
pub proof fn lemma_num_head(lit: Seq<char>)
    requires
        is_num_lit(lit),
    ensures
        lit.len() > 0,
        lit[0] == '-' || is_digit(lit[0]),
{
    assert(num_ok_from(lit, 0, NumState::Start));
    if lit.len() == 0 {
        assert(!num_accepting(NumState::Start));
    } else {
        assert(num_step(NumState::Start, lit[0]).is_some());
    }
}

/// Greedy scanning stops exactly at `e` when everything before `e` is a
/// number character and `e` is the end or holds something else.
pub proof fn lemma_scan_exact(s: Seq<char>, i: int, e: int)
    requires
        0 <= i <= e <= s.len(),
        forall|k: int| i <= k < e ==> is_num_char(#[trigger] s[k]),
        e == s.len() || !is_num_char(s[e]),
    ensures
        scan_num(s, i) == e,
    decreases e - i,
{
    if i < e {
        lemma_scan_exact(s, i + 1, e);
    }
}

/// Parsing the text of a well-formed number literal yields the literal.
pub proof fn lemma_rt_num(s: Seq<char>, i: int, lit: Seq<char>)
    requires
        occurs_at(s, i, lit),
        is_num_lit(lit),
        i + lit.len() == s.len() || !is_num_char(s[i + lit.len()]),
    ensures
        sp_value(s, i) == Some((JVal::Num(lit), i + lit.len())),
{
    lemma_num_head(lit);
    crate::json::lemma_num_chars(lit, 0, NumState::Start);
    assert forall|k: int| i <= k < i + lit.len() implies is_num_char(#[trigger] s[k]) by {
        assert(s[i + (k - i)] == lit[k - i]);
    }
    lemma_scan_exact(s, i, i + lit.len());
    assert(s.subrange(i, i + lit.len()) =~= lit);
    assert(s[i + 0] == lit[0]);
    assert(s[i] == '-' || is_digit(s[i]));
}

/// The canonical text of a well-formed value is not empty, and its first
/// character is no blank and no closing delimiter.
pub proof fn lemma_ser_head(j: JVal)
    requires
        wf_j(j),
    ensures
        ser(j).len() > 0,
        !is_ws(ser(j)[0]),
        ser(j)[0] != ']',
        ser(j)[0] != '}',
        ser(j)[0] != ',',
        ser(j)[0] != ':',
{
    match j {
        JVal::Num(lit) => {
            lemma_num_head(lit);
        },
        _ => {},
    }
}

/// Parsing the canonical text of a well-formed value yields that value and
/// stops just past its text. The character after the text, if any, must not
/// be a number character, so that a number's text cannot run on.
pub proof fn lemma_rt_value(s: Seq<char>, i: int, j: JVal)
    requires
        wf_j(j),
        occurs_at(s, i, ser(j)),
        i + ser(j).len() == s.len() || !is_num_char(s[i + ser(j).len()]),
    ensures
        sp_value(s, i) == Some((j, i + ser(j).len())),
    decreases j, 0int,
{
    let t = ser(j);
    match j {
        JVal::Null => {
            assert(s[i + 0] == t[0] && s[i + 1] == t[1] && s[i + 2] == t[2] && s[i + 3] == t[3]);
            assert(sp_value(s, i) == Some((j, i + ser(j).len())));
        },
        JVal::Bool(b) => {
            if b {
                assert(s[i + 0] == t[0] && s[i + 1] == t[1] && s[i + 2] == t[2] && s[i + 3]
                    == t[3]);
            } else {
                assert(s[i + 0] == t[0] && s[i + 1] == t[1] && s[i + 2] == t[2] && s[i + 3] == t[3]
                    && s[i + 4] == t[4]);
            }
            assert(sp_value(s, i) == Some((j, i + ser(j).len())));
        },
        JVal::Num(lit) => {
            lemma_rt_num(s, i, lit);
            assert(sp_value(s, i) == Some((j, i + ser(j).len())));
        },
        JVal::Str(content) => {
            let body = ser_str_body(content);
            assert(t == (seq!['"'] + body) + seq!['"']);
            lemma_occurs_split(s, i, seq!['"'] + body, seq!['"']);
            lemma_occurs_split(s, i, seq!['"'], body);
            lemma_occurs_char(s, i, '"');
            lemma_occurs_char(s, i + 1 + body.len(), '"');
            lemma_rt_string(s, i + 1, content);
            assert(sp_value(s, i) == Some((j, i + ser(j).len())));
        },
        JVal::Arr(items) => {
            if items.len() == 0 {
                assert(items =~= Seq::<JVal>::empty());
                assert(ser_elems(items) == Seq::<char>::empty());
                assert(t =~= seq!['[', ']']);
                assert(s[i + 0] == t[0] && s[i + 1] == t[1]);
                lemma_skip_ws_noop(s, i + 1);
            } else {
                let inner = ser_elems(items);
                assert(t == (seq!['['] + inner) + seq![']']);
                lemma_occurs_split(s, i, seq!['['] + inner, seq![']']);
                lemma_occurs_split(s, i, seq!['['], inner);
                lemma_occurs_char(s, i, '[');
                lemma_occurs_char(s, i + 1 + inner.len(), ']');
                lemma_ser_head(items[0]);
                assert(inner[0] == ser(items[0])[0]);
                assert(s[i + 1 + 0] == inner[0]);
                lemma_skip_ws_noop(s, i + 1);
                lemma_rt_elems(s, i + 1, items);
            }
            assert(sp_value(s, i) == Some((j, i + ser(j).len())));
        },
        JVal::Obj(members) => {
            if members.len() == 0 {
                assert(members =~= Seq::<(Seq<char>, JVal)>::empty());
                assert(ser_members(members) == Seq::<char>::empty());
                assert(t =~= seq!['{', '}']);
                assert(s[i + 0] == t[0] && s[i + 1] == t[1]);
                lemma_skip_ws_noop(s, i + 1);
            } else {
                let inner = ser_members(members);
                assert(t == (seq!['{'] + inner) + seq!['}']);
                lemma_occurs_split(s, i, seq!['{'] + inner, seq!['}']);
                lemma_occurs_split(s, i, seq!['{'], inner);
                lemma_occurs_char(s, i, '{');
                lemma_occurs_char(s, i + 1 + inner.len(), '}');
                assert(inner[0] == ser_member(members[0])[0]);
                assert(inner[0] == '"');
                assert(s[i + 1 + 0] == inner[0]);
                lemma_skip_ws_noop(s, i + 1);
                lemma_rt_members(s, i + 1, members);
            }
            assert(sp_value(s, i) == Some((j, i + ser(j).len())));
        },
    }
}

/// Parsing the serialized elements, followed by the closing bracket, yields
/// exactly those elements.
pub proof fn lemma_rt_elems(s: Seq<char>, i: int, items: Seq<JVal>)
    requires
        items.len() > 0,
        wf_elems(items),
        occurs_at(s, i, ser_elems(items)),
        i + ser_elems(items).len() < s.len(),
        s[i + ser_elems(items).len()] == ']',
    ensures
        sp_elems(s, i) == Some((items, i + ser_elems(items).len() + 1)),
    decreases items, 1int,
{
    let first = ser(items[0]);
    assert(wf_j(items[0]) && wf_elems(items.skip(1)));
    lemma_ser_head(items[0]);
    if items.len() == 1 {
        assert(ser_elems(items) == first);
        lemma_rt_value(s, i, items[0]);
        lemma_skip_ws_noop(s, i + first.len());
        assert(seq![items[0]] =~= items);
    } else {
        let rest = ser_elems(items.skip(1));
        assert(ser_elems(items) == (first + seq![',']) + rest);
        lemma_occurs_split(s, i, first + seq![','], rest);
        lemma_occurs_split(s, i, first, seq![',']);
        lemma_occurs_char(s, i + first.len(), ',');
        lemma_rt_value(s, i, items[0]);
        let k = i + first.len();
        lemma_skip_ws_noop(s, k);
        assert(items.skip(1).len() > 0);
        lemma_ser_head(items.skip(1)[0]);
        assert(rest[0] == ser(items.skip(1)[0])[0]);
        assert(s[k + 1 + 0] == rest[0]);
        lemma_skip_ws_noop(s, k + 1);
        lemma_rt_elems(s, k + 1, items.skip(1));
        assert(seq![items[0]] + items.skip(1) =~= items);
    }
}

/// Parsing the serialized members, followed by the closing brace, yields
/// exactly those members.
pub proof fn lemma_rt_members(s: Seq<char>, i: int, members: Seq<(Seq<char>, JVal)>)
    requires
        members.len() > 0,
        wf_members(members),
        occurs_at(s, i, ser_members(members)),
        i + ser_members(members).len() < s.len(),
        s[i + ser_members(members).len()] == '}',
    ensures
        sp_members(s, i) == Some((members, i + ser_members(members).len() + 1)),
    decreases members, 1int,
{
    let key = members[0].0;
    let v = members[0].1;
    let first = ser_member(members[0]);
    let body = ser_str_body(key);
    assert(wf_j(v) && wf_members(members.skip(1)));
    lemma_ser_head(v);
    assert(first == ((seq!['"'] + body) + seq!['"', ':']) + ser(v));
    if members.len() == 1 {
        assert(ser_members(members) == first);
        lemma_occurs_split(s, i, (seq!['"'] + body) + seq!['"', ':'], ser(v));
        lemma_occurs_split(s, i, seq!['"'] + body, seq!['"', ':']);
        lemma_occurs_split(s, i, seq!['"'], body);
        lemma_occurs_char(s, i, '"');
        let q2 = i + 1 + body.len();
        assert(s[q2 + 0] == '"' && s[q2 + 1] == ':');
        lemma_rt_string(s, i + 1, key);
        lemma_skip_ws_noop(s, q2 + 1);
        let m = q2 + 2;
        lemma_skip_ws_noop(s, m);
        lemma_rt_value(s, m, v);
        lemma_skip_ws_noop(s, m + ser(v).len());
        assert(seq![(key, v)] =~= members);
    } else {
        let rest = ser_members(members.skip(1));
        assert(ser_members(members) == (first + seq![',']) + rest);
        lemma_occurs_split(s, i, first + seq![','], rest);
        lemma_occurs_split(s, i, first, seq![',']);
        lemma_occurs_char(s, i + first.len(), ',');
        lemma_occurs_split(s, i, (seq!['"'] + body) + seq!['"', ':'], ser(v));
        lemma_occurs_split(s, i, seq!['"'] + body, seq!['"', ':']);
        lemma_occurs_split(s, i, seq!['"'], body);
        lemma_occurs_char(s, i, '"');
        let q2 = i + 1 + body.len();
        assert(s[q2 + 0] == '"' && s[q2 + 1] == ':');
        lemma_rt_string(s, i + 1, key);
        lemma_skip_ws_noop(s, q2 + 1);
        let m = q2 + 2;
        lemma_skip_ws_noop(s, m);
        lemma_rt_value(s, m, v);
        let p = m + ser(v).len();
        assert(p == i + first.len());
        lemma_skip_ws_noop(s, p);
        assert(members.skip(1).len() > 0);
        assert(rest[0] == ser_member(members.skip(1)[0])[0]);
        assert(rest[0] == '"');
        assert(s[p + 1 + 0] == rest[0]);
        lemma_skip_ws_noop(s, p + 1);
        lemma_rt_members(s, p + 1, members.skip(1));
        assert(seq![(key, v)] + members.skip(1) =~= members);
    }
}

/// Round trip: the canonical text of a well-formed value parses back to
/// exactly that value.
pub proof fn lemma_json_round_trip(j: JVal)
    requires
        wf_j(j),
    ensures
        json_parse(ser(j)) == Some(j),
{
    let s = ser(j);
    lemma_ser_head(j);
    lemma_skip_ws_noop(s, 0);
    assert(s.subrange(0, s.len() as int) =~= s);
    assert(occurs_at(s, 0, s));
    lemma_rt_value(s, 0, j);
    lemma_skip_ws_noop(s, s.len() as int);
}

} // verus!
