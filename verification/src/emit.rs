//! The executable serializer: it writes exactly the canonical text that the
//! spec function [`ser`] assigns to a value.

use vstd::prelude::*;
use vstd::string::StrSliceExecFns;

use crate::json::{
    esc_char, hex_char, lemma_view_elems_cons, lemma_view_elems_len, lemma_view_members_cons,
    lemma_view_members_len, ser, ser_elems, ser_member, ser_members, ser_str_body, view_elems,
    view_members, JVal, JsonValue,
};
use crate::strutil::chars_to_string;

verus! {

broadcast use vstd::seq::group_seq_axioms, vstd::std_specs::vec::group_vec_axioms;

fn hex_char_x(d: u32) -> (c: char)
    requires
        d < 16,
    ensures
        c == hex_char(d),
{
    if d == 0 {
        '0'
    } else if d == 1 {
        '1'
    } else if d == 2 {
        '2'
    } else if d == 3 {
        '3'
    } else if d == 4 {
        '4'
    } else if d == 5 {
        '5'
    } else if d == 6 {
        '6'
    } else if d == 7 {
        '7'
    } else if d == 8 {
        '8'
    } else if d == 9 {
        '9'
    } else if d == 10 {
        'a'
    } else if d == 11 {
        'b'
    } else if d == 12 {
        'c'
    } else if d == 13 {
        'd'
    } else if d == 14 {
        'e'
    } else {
        'f'
    }
}

fn emit_esc(c: char, out: &mut Vec<char>)
    ensures
        final(out)@ == old(out)@ + esc_char(c),
{
    if c == '"' {
        out.push('\\');
        out.push('"');
    } else if c == '\\' {
        out.push('\\');
        out.push('\\');
    } else if c == '\u{8}' {
        out.push('\\');
        out.push('b');
    } else if c == '\u{c}' {
        out.push('\\');
        out.push('f');
    } else if c == '\n' {
        out.push('\\');
        out.push('n');
    } else if c == '\r' {
        out.push('\\');
        out.push('r');
    } else if c == '\t' {
        out.push('\\');
        out.push('t');
    } else if (c as u32) < 0x20 {
        let u = c as u32;
        out.push('\\');
        out.push('u');
        out.push('0');
        out.push('0');
        out.push(hex_char_x(u / 16));
        out.push(hex_char_x(u % 16));
    } else {
        out.push(c);
    }
    proof {
        assert(out@ =~= old(out)@ + esc_char(c));
    }
}

/// Writes the characters of `s` from position `k` on, escaped.
fn emit_str_from(s: &str, k: usize, out: &mut Vec<char>)
    requires
        k <= s@.len(),
    ensures
        final(out)@ == old(out)@ + ser_str_body(s@.skip(k as int)),
    decreases s@.len() - k,
{
    if k == s.unicode_len() {
        proof {
            assert(s@.skip(k as int) =~= Seq::<char>::empty());
            assert(out@ =~= old(out)@ + ser_str_body(s@.skip(k as int)));
        }
    } else {
        let c = s.get_char(k);
        emit_esc(c, out);
        emit_str_from(s, k + 1, out);
        proof {
            let t = s@.skip(k as int);
            assert(t[0] == c);
            assert(t.skip(1) =~= s@.skip(k as int + 1));
            assert(ser_str_body(t) == esc_char(c) + ser_str_body(s@.skip(k as int + 1)));
            assert(out@ =~= old(out)@ + ser_str_body(t));
        }
    }
}

/// Writes the characters of `s` from position `k` on, verbatim.
fn emit_raw_from(s: &str, k: usize, out: &mut Vec<char>)
    requires
        k <= s@.len(),
    ensures
        final(out)@ == old(out)@ + s@.skip(k as int),
    decreases s@.len() - k,
{
    if k == s.unicode_len() {
        proof {
            assert(out@ =~= old(out)@ + s@.skip(k as int));
        }
    } else {
        let c = s.get_char(k);
        out.push(c);
        emit_raw_from(s, k + 1, out);
        proof {
            assert(out@ =~= old(out)@ + s@.skip(k as int));
        }
    }
}

fn emit_value(v: &JsonValue, out: &mut Vec<char>)
    ensures
        final(out)@ == old(out)@ + ser(v@),
    decreases v, 0int, 0int,
{
    match v {
        JsonValue::Null => {
            out.push('n');
            out.push('u');
            out.push('l');
            out.push('l');
            proof {
                assert(out@ =~= old(out)@ + ser(v@));
            }
        },
        JsonValue::Bool(b) => {
            if *b {
                out.push('t');
                out.push('r');
                out.push('u');
                out.push('e');
            } else {
                out.push('f');
                out.push('a');
                out.push('l');
                out.push('s');
                out.push('e');
            }
            proof {
                assert(out@ =~= old(out)@ + ser(v@));
            }
        },
        JsonValue::Num(lit) => {
            emit_raw_from(lit.as_str(), 0, out);
            proof {
                assert(lit@.skip(0) =~= lit@);
                assert(out@ =~= old(out)@ + ser(v@));
            }
        },
        JsonValue::Str(s) => {
            out.push('"');
            emit_str_from(s.as_str(), 0, out);
            out.push('"');
            proof {
                assert(s@.skip(0) =~= s@);
                assert(out@ =~= old(out)@ + ser(v@));
            }
        },
        JsonValue::Arr(items) => {
            out.push('[');
            if items.len() > 0 {
                emit_elems_from(items, 0, out);
            }
            out.push(']');
            proof {
                if items@.len() == 0 {
                    assert(view_elems(items@) =~= Seq::<JVal>::empty());
                } else {
                    assert(items@.skip(0) =~= items@);
                }
                assert(out@ =~= old(out)@ + ser(v@));
            }
        },
        JsonValue::Obj(members) => {
            out.push('{');
            if members.len() > 0 {
                emit_members_from(members, 0, out);
            }
            out.push('}');
            proof {
                if members@.len() == 0 {
                    assert(view_members(members@) =~= Seq::<(Seq<char>, JVal)>::empty());
                } else {
                    assert(members@.skip(0) =~= members@);
                }
                assert(out@ =~= old(out)@ + ser(v@));
            }
        },
    }
}

fn emit_elems_from(items: &Vec<JsonValue>, k: usize, out: &mut Vec<char>)
    requires
        k < items@.len(),
    ensures
        final(out)@ == old(out)@ + ser_elems(view_elems(items@.skip(k as int))),
    decreases items, 1int, items@.len() - k,
{
    proof {
        lemma_view_elems_len(items@.skip(k as int));
        lemma_view_elems_cons(items@.skip(k as int));
        assert(items@.skip(k as int)[0] == items@[k as int]);
        assert(items@.skip(k as int).skip(1) =~= items@.skip(k as int + 1));
    }
    emit_value(&items[k], out);
    if k < items.len() - 1 {
        out.push(',');
        emit_elems_from(items, k + 1, out);
        proof {
            let t = view_elems(items@.skip(k as int));
            assert(t.skip(1) =~= view_elems(items@.skip(k as int + 1)));
            assert(ser_elems(t) == ser(t[0]) + seq![','] + ser_elems(t.skip(1)));
            assert(out@ =~= old(out)@ + ser_elems(t));
        }
    } else {
        proof {
            let t = view_elems(items@.skip(k as int));
            assert(t.len() == 1);
            assert(ser_elems(t) == ser(t[0]));
            assert(out@ =~= old(out)@ + ser_elems(t));
        }
    }
}

fn emit_members_from(members: &Vec<(String, JsonValue)>, k: usize, out: &mut Vec<char>)
    requires
        k < members@.len(),
    ensures
        final(out)@ == old(out)@ + ser_members(view_members(members@.skip(k as int))),
    decreases members, 1int, members@.len() - k,
{
    proof {
        lemma_view_members_len(members@.skip(k as int));
        lemma_view_members_cons(members@.skip(k as int));
        assert(members@.skip(k as int)[0] == (members@[k as int].0, members@[k as int].1));
        assert(members@.skip(k as int).skip(1) =~= members@.skip(k as int + 1));
    }
    out.push('"');
    emit_str_from(members[k].0.as_str(), 0, out);
    out.push('"');
    out.push(':');
    emit_value(&members[k].1, out);
    proof {
        let m0 = view_members(members@.skip(k as int))[0];
        assert(members@[k as int].0@.skip(0) =~= members@[k as int].0@);
        assert(out@ =~= old(out)@ + ser_member(m0));
    }
    if k < members.len() - 1 {
        out.push(',');
        emit_members_from(members, k + 1, out);
        proof {
            let t = view_members(members@.skip(k as int));
            assert(t.skip(1) =~= view_members(members@.skip(k as int + 1)));
            assert(ser_members(t) == ser_member(t[0]) + seq![','] + ser_members(t.skip(1)));
            assert(out@ =~= old(out)@ + ser_members(t));
        }
    } else {
        proof {
            let t = view_members(members@.skip(k as int));
            assert(t.len() == 1);
            assert(ser_members(t) == ser_member(t[0]));
            assert(out@ =~= old(out)@ + ser_members(t));
        }
    }
}

/// The canonical wire text of a value.
pub fn to_text(v: &JsonValue) -> (s: String)
    ensures
        s@ == ser(v@),
{
    let mut out: Vec<char> = Vec::new();
    emit_value(v, &mut out);
    chars_to_string(&out)
}

} // verus!
