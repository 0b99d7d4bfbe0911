//! The specification-level parser for the wire format.
//!
//! `sp_value` and its companions define, as one total function, which
//! character sequences are accepted and which value each one denotes; the
//! executable parser below them returns exactly what these functions say.
//! Between tokens the parser skips blanks; inside tokens it follows the
//! JSON grammar: a `\u` escape must denote a Unicode scalar value, with a
//! high and low surrogate pair combining into one astral character and a
//! lone surrogate half rejected.

use vstd::prelude::*;

use crate::json::{
    is_digit, is_num_char, is_num_lit, num_ok_from, view_elems, view_members, JVal, JsonValue,
    NumState,
};
use crate::strutil::{chars_to_string, char_from_u32, copy_range, str_chars};

verus! {

broadcast use vstd::seq::group_seq_axioms;

pub open spec fn is_ws(c: char) -> bool {
    c == ' ' || c == '\t' || c == '\n' || c == '\r'
}

/// The first index at or after `i` that does not hold a blank.
pub open spec fn skip_ws(s: Seq<char>, i: int) -> int
    decreases s.len() - i,
    when 0 <= i <= s.len()
{
    if i < s.len() && is_ws(s[i]) {
        skip_ws(s, i + 1)
    } else {
        i
    }
}

pub proof fn lemma_skip_ws(s: Seq<char>, i: int)
    requires
        0 <= i <= s.len(),
    ensures
        i <= skip_ws(s, i) <= s.len(),
        skip_ws(s, i) == s.len() || !is_ws(s[skip_ws(s, i)]),
        forall|k: int| i <= k < skip_ws(s, i) ==> is_ws(#[trigger] s[k]),
    decreases s.len() - i,
{
    if i < s.len() && is_ws(s[i]) {
        lemma_skip_ws(s, i + 1);
    }
}

/// The first index at or after `i` that does not hold a number character.
pub open spec fn scan_num(s: Seq<char>, i: int) -> int
    decreases s.len() - i,
    when 0 <= i <= s.len()
{
    if i < s.len() && is_num_char(s[i]) {
        scan_num(s, i + 1)
    } else {
        i
    }
}

pub proof fn lemma_scan_num(s: Seq<char>, i: int)
    requires
        0 <= i <= s.len(),
    ensures
        i <= scan_num(s, i) <= s.len(),
        scan_num(s, i) == s.len() || !is_num_char(s[scan_num(s, i)]),
        forall|k: int| i <= k < scan_num(s, i) ==> is_num_char(#[trigger] s[k]),
    decreases s.len() - i,
{
    if i < s.len() && is_num_char(s[i]) {
        lemma_scan_num(s, i + 1);
    }
}

pub open spec fn is_hex(c: char) -> bool {
    is_digit(c) || ('a' <= c && c <= 'f') || ('A' <= c && c <= 'F')
}

/// The value of one hexadecimal digit.
pub open spec fn hexv(c: char) -> u32 {
    if is_digit(c) {
        ((c as u32) - 48) as u32
    } else if 'a' <= c && c <= 'f' {
        ((c as u32) - 87) as u32
    } else {
        ((c as u32) - 55) as u32
    }
}

/// The character written after a backslash for each short escape.
pub open spec fn unesc_short(e: char) -> Option<char> {
    if e == '"' {
        Some('"')
    } else if e == '\\' {
        Some('\\')
    } else if e == '/' {
        Some('/')
    } else if e == 'b' {
        Some('\u{8}')
    } else if e == 'f' {
        Some('\u{c}')
    } else if e == 'n' {
        Some('\n')
    } else if e == 'r' {
        Some('\r')
    } else if e == 't' {
        Some('\t')
    } else {
        None
    }
}

/// The scalar value of a `\uXXXX` escape at `i` (the index of the first
/// hexadecimal digit), assuming all four digits are present.
pub open spec fn hex4(s: Seq<char>, i: int) -> u32 {
    ((hexv(s[i]) * 4096 + hexv(s[i + 1]) * 256 + hexv(s[i + 2]) * 16 + hexv(s[i + 3])) as u32)
}

/// The scalar a surrogate pair denotes.
pub open spec fn pair_scalar(hi: u32, lo: u32) -> u32
    recommends
        0xD800 <= hi < 0xDC00,
        0xDC00 <= lo < 0xE000,
{
    ((0x10000 + (hi - 0xD800) * 0x400 + (lo - 0xDC00)) as u32)
}

/// What stands after `\u`, with `i` the index of the first hexadecimal
/// digit: the decoded character and the index just past the escape. A high
/// surrogate must be followed at once by a low surrogate escape, the pair
/// denoting one astral character; a lone surrogate half denotes nothing.
pub open spec fn sp_u_escape(s: Seq<char>, i: int) -> Option<(char, int)> {
    if i + 4 <= s.len() && is_hex(s[i]) && is_hex(s[i + 1]) && is_hex(s[i + 2]) && is_hex(
        s[i + 3],
    ) {
        let u = hex4(s, i);
        if 0xDC00 <= u < 0xE000 {
            None
        } else if 0xD800 <= u < 0xDC00 {
            if i + 10 <= s.len() && s[i + 4] == '\\' && s[i + 5] == 'u' && is_hex(s[i + 6])
                && is_hex(s[i + 7]) && is_hex(s[i + 8]) && is_hex(s[i + 9]) {
                let u2 = hex4(s, i + 6);
                if 0xDC00 <= u2 < 0xE000 {
                    Some((pair_scalar(u, u2) as char, i + 10))
                } else {
                    None
                }
            } else {
                None
            }
        } else {
            Some((u as char, i + 4))
        }
    } else {
        None
    }
}

/// Parses a string body starting right after the opening quote; returns the
/// decoded characters and the index just past the closing quote. A high
/// surrogate escape must be followed at once by a low surrogate escape, and
/// the pair denotes one astral character; a lone surrogate half is rejected.
pub open spec fn sp_string_body(s: Seq<char>, i: int) -> Option<(Seq<char>, int)>
    decreases s.len() - i,
    when 0 <= i <= s.len()
{
    if i >= s.len() {
        None
    } else {
        let c = s[i];
        if c == '"' {
            Some((Seq::empty(), i + 1))
        } else if c == '\\' {
            if i + 2 > s.len() {
                None
            } else if s[i + 1] == 'u' {
                match sp_u_escape(s, i + 2) {
                    Some((ch, j2)) => if i < j2 <= s.len() {
                        match sp_string_body(s, j2) {
                            Some((rest, j)) => Some((seq![ch] + rest, j)),
                            None => None,
                        }
                    } else {
                        None
                    },
                    None => None,
                }
            } else {
                match unesc_short(s[i + 1]) {
                    Some(c2) => match sp_string_body(s, i + 2) {
                        Some((rest, j)) => Some((seq![c2] + rest, j)),
                        None => None,
                    },
                    None => None,
                }
            }
        } else if (c as u32) < 0x20 {
            None
        } else {
            match sp_string_body(s, i + 1) {
                Some((rest, j)) => Some((seq![c] + rest, j)),
                None => None,
            }
        }
    }
}

/// Parses one value whose first character stands at `i`; no leading blanks.
/// Returns the value and the index just past its text.
pub open spec fn sp_value(s: Seq<char>, i: int) -> Option<(JVal, int)>
    decreases s.len() - i, 0int,
    when 0 <= i <= s.len()
{
    if i >= s.len() {
        None
    } else {
        let c = s[i];
        if c == 'n' {
            if i + 4 <= s.len() && s[i + 1] == 'u' && s[i + 2] == 'l' && s[i + 3] == 'l' {
                Some((JVal::Null, i + 4))
            } else {
                None
            }
        } else if c == 't' {
            if i + 4 <= s.len() && s[i + 1] == 'r' && s[i + 2] == 'u' && s[i + 3] == 'e' {
                Some((JVal::Bool(true), i + 4))
            } else {
                None
            }
        } else if c == 'f' {
            if i + 5 <= s.len() && s[i + 1] == 'a' && s[i + 2] == 'l' && s[i + 3] == 's'
                && s[i + 4] == 'e' {
                Some((JVal::Bool(false), i + 5))
            } else {
                None
            }
        } else if c == '"' {
            match sp_string_body(s, i + 1) {
                Some((cs, j)) => Some((JVal::Str(cs), j)),
                None => None,
            }
        } else if c == '-' || is_digit(c) {
            let j = scan_num(s, i);
            if i < j <= s.len() && is_num_lit(s.subrange(i, j)) {
                Some((JVal::Num(s.subrange(i, j)), j))
            } else {
                None
            }
        } else if c == '[' {
            let k = skip_ws(s, i + 1);
            if k < s.len() && s[k] == ']' {
                Some((JVal::Arr(Seq::empty()), k + 1))
            } else if i < k && k <= s.len() {
                match sp_elems(s, k) {
                    Some((items, j)) => Some((JVal::Arr(items), j)),
                    None => None,
                }
            } else {
                None
            }
        } else if c == '{' {
            let k = skip_ws(s, i + 1);
            if k < s.len() && s[k] == '}' {
                Some((JVal::Obj(Seq::empty()), k + 1))
            } else if i < k && k <= s.len() {
                match sp_members(s, k) {
                    Some((members, j)) => Some((JVal::Obj(members), j)),
                    None => None,
                }
            } else {
                None
            }
        } else {
            None
        }
    }
}

/// Parses `value (, value)* ]` starting at the first character of the first
/// element; returns the elements and the index just past the bracket.
pub open spec fn sp_elems(s: Seq<char>, i: int) -> Option<(Seq<JVal>, int)>
    decreases s.len() - i, 1int,
    when 0 <= i <= s.len()
{
    match sp_value(s, i) {
        None => None,
        Some((v, j)) => {
            if !(i < j <= s.len()) {
                None
            } else {
                let k = skip_ws(s, j);
                if k < s.len() && s[k] == ',' {
                    let m = skip_ws(s, k + 1);
                    if i < m && m <= s.len() {
                        match sp_elems(s, m) {
                            Some((rest, e)) => Some((seq![v] + rest, e)),
                            None => None,
                        }
                    } else {
                        None
                    }
                } else if k < s.len() && s[k] == ']' {
                    Some((seq![v], k + 1))
                } else {
                    None
                }
            }
        },
    }
}

/// Parses `"key" : value (, "key" : value)* }` starting at the opening quote
/// of the first key; returns the members and the index just past the brace.
pub open spec fn sp_members(s: Seq<char>, i: int) -> Option<(Seq<(Seq<char>, JVal)>, int)>
    decreases s.len() - i, 1int,
    when 0 <= i <= s.len()
{
    if i >= s.len() || s[i] != '"' {
        None
    } else {
        match sp_string_body(s, i + 1) {
            None => None,
            Some((key, j)) => {
                if !(i < j <= s.len()) {
                    None
                } else {
                    let k = skip_ws(s, j);
                    if !(k < s.len() && s[k] == ':') {
                        None
                    } else {
                        let m = skip_ws(s, k + 1);
                        if !(i < m && m <= s.len()) {
                            None
                        } else {
                            match sp_value(s, m) {
                                None => None,
                                Some((v, p)) => {
                                    if !(m < p <= s.len()) {
                                        None
                                    } else {
                                        let q = skip_ws(s, p);
                                        if q < s.len() && s[q] == ',' {
                                            let r = skip_ws(s, q + 1);
                                            if i < r && r <= s.len() {
                                                match sp_members(s, r) {
                                                    Some((rest, e)) => Some(
                                                        (seq![(key, v)] + rest, e),
                                                    ),
                                                    None => None,
                                                }
                                            } else {
                                                None
                                            }
                                        } else if q < s.len() && s[q] == '}' {
                                            Some((seq![(key, v)], q + 1))
                                        } else {
                                            None
                                        }
                                    }
                                },
                            }
                        }
                    }
                }
            },
        }
    }
}

/// The whole text denotes one value, with blanks allowed around it.
pub open spec fn json_parse(s: Seq<char>) -> Option<JVal> {
    let i = skip_ws(s, 0);
    if 0 <= i <= s.len() {
        match sp_value(s, i) {
            Some((v, j)) => if 0 <= j <= s.len() && skip_ws(s, j) == s.len() {
                Some(v)
            } else {
                None
            },
            None => None,
        }
    } else {
        None
    }
}

// ---------------------------------------------------------------------------
// Executable parser
// ---------------------------------------------------------------------------

fn ws_x(c: char) -> (b: bool)
    ensures
        b == is_ws(c),
{
    c == ' ' || c == '\t' || c == '\n' || c == '\r'
}

fn digit_x(c: char) -> (b: bool)
    ensures
        b == is_digit(c),
{
    '0' <= c && c <= '9'
}

fn num_char_x(c: char) -> (b: bool)
    ensures
        b == is_num_char(c),
{
    digit_x(c) || c == '-' || c == '+' || c == '.' || c == 'e' || c == 'E'
}

fn hex_x(c: char) -> (b: bool)
    ensures
        b == is_hex(c),
{
    digit_x(c) || ('a' <= c && c <= 'f') || ('A' <= c && c <= 'F')
}

fn hexv_x(c: char) -> (v: u32)
    requires
        is_hex(c),
    ensures
        v == hexv(c),
        v < 16,
{
    let u = c as u32;
    if '0' <= c && c <= '9' {
        u - 48
    } else if 'a' <= c && c <= 'f' {
        u - 87
    } else {
        u - 55
    }
}

fn unesc_x(e: char) -> (r: Option<char>)
    ensures
        r == unesc_short(e),
{
    if e == '"' {
        Some('"')
    } else if e == '\\' {
        Some('\\')
    } else if e == '/' {
        Some('/')
    } else if e == 'b' {
        Some('\u{8}')
    } else if e == 'f' {
        Some('\u{c}')
    } else if e == 'n' {
        Some('\n')
    } else if e == 'r' {
        Some('\r')
    } else if e == 't' {
        Some('\t')
    } else {
        None
    }
}

fn x_skip_ws(s: &Vec<char>, i: usize) -> (j: usize)
    requires
        i <= s@.len(),
    ensures
        j as int == skip_ws(s@, i as int),
        i <= j <= s@.len(),
    decreases s@.len() - i,
{
    let mut j = i;
    while j < s.len() && ws_x(s[j])
        invariant
            i <= j <= s@.len(),
            skip_ws(s@, i as int) == skip_ws(s@, j as int),
        decreases s@.len() - j,
    {
        j = j + 1;
    }
    j
}

fn x_scan_num(s: &Vec<char>, i: usize) -> (j: usize)
    requires
        i <= s@.len(),
    ensures
        j as int == scan_num(s@, i as int),
        i <= j <= s@.len(),
    decreases s@.len() - i,
{
    let mut j = i;
    while j < s.len() && num_char_x(s[j])
        invariant
            i <= j <= s@.len(),
            scan_num(s@, i as int) == scan_num(s@, j as int),
        decreases s@.len() - j,
    {
        j = j + 1;
    }
    j
}

fn num_step_x(st: NumState, c: char) -> (r: Option<NumState>)
    ensures
        r == crate::json::num_step(st, c),
{
    match st {
        NumState::Start => if c == '-' {
            Some(NumState::Sign)
        } else if c == '0' {
            Some(NumState::IntZero)
        } else if digit_x(c) {
            Some(NumState::IntDigits)
        } else {
            None
        },
        NumState::Sign => if c == '0' {
            Some(NumState::IntZero)
        } else if digit_x(c) {
            Some(NumState::IntDigits)
        } else {
            None
        },
        NumState::IntZero => if c == '.' {
            Some(NumState::Dot)
        } else if c == 'e' || c == 'E' {
            Some(NumState::Exp)
        } else {
            None
        },
        NumState::IntDigits => if digit_x(c) {
            Some(NumState::IntDigits)
        } else if c == '.' {
            Some(NumState::Dot)
        } else if c == 'e' || c == 'E' {
            Some(NumState::Exp)
        } else {
            None
        },
        NumState::Dot => if digit_x(c) {
            Some(NumState::Frac)
        } else {
            None
        },
        NumState::Frac => if digit_x(c) {
            Some(NumState::Frac)
        } else if c == 'e' || c == 'E' {
            Some(NumState::Exp)
        } else {
            None
        },
        NumState::Exp => if c == '+' || c == '-' {
            Some(NumState::ExpSign)
        } else if digit_x(c) {
            Some(NumState::ExpDigits)
        } else {
            None
        },
        NumState::ExpSign => if digit_x(c) {
            Some(NumState::ExpDigits)
        } else {
            None
        },
        NumState::ExpDigits => if digit_x(c) {
            Some(NumState::ExpDigits)
        } else {
            None
        },
    }
}

fn num_check(v: &Vec<char>, k: usize, st: NumState) -> (b: bool)
    requires
        k <= v@.len(),
    ensures
        b == num_ok_from(v@, k as int, st),
    decreases v@.len() - k,
{
    if k == v.len() {
        crate::json::num_accepting_x(st)
    } else {
        match num_step_x(st, v[k]) {
            Some(st2) => num_check(v, k + 1, st2),
            None => false,
        }
    }
}

fn p_u_escape(s: &Vec<char>, i: usize) -> (r: Result<(char, usize), ()>)
    requires
        i <= s@.len(),
    ensures
        r matches Ok(p) ==> sp_u_escape(s@, i as int) == Some((p.0, p.1 as int)) && i < p.1
            <= s@.len(),
        r is Err ==> sp_u_escape(s@, i as int) is None,
{
    if s.len() - i < 4 {
        return Err(());
    }
    if !(hex_x(s[i]) && hex_x(s[i + 1]) && hex_x(s[i + 2]) && hex_x(s[i + 3])) {
        return Err(());
    }
    let u: u32 = hexv_x(s[i]) * 4096 + hexv_x(s[i + 1]) * 256 + hexv_x(s[i + 2]) * 16 + hexv_x(
        s[i + 3],
    );
    proof {
        assert(u == hex4(s@, i as int));
    }
    if 0xDC00 <= u && u < 0xE000 {
        return Err(());
    }
    if 0xD800 <= u && u < 0xDC00 {
        if s.len() - i < 10 {
            return Err(());
        }
        if !(s[i + 4] == '\\' && s[i + 5] == 'u' && hex_x(s[i + 6]) && hex_x(s[i + 7]) && hex_x(
            s[i + 8],
        ) && hex_x(s[i + 9])) {
            return Err(());
        }
        let u2: u32 = hexv_x(s[i + 6]) * 4096 + hexv_x(s[i + 7]) * 256 + hexv_x(s[i + 8]) * 16
            + hexv_x(s[i + 9]);
        proof {
            assert(u2 == hex4(s@, i + 6));
        }
        if !(0xDC00 <= u2 && u2 < 0xE000) {
            return Err(());
        }
        let cp: u32 = 0x10000 + (u - 0xD800) * 0x400 + (u2 - 0xDC00);
        proof {
            assert(cp == pair_scalar(u, u2));
        }
        let ch = char_from_u32(cp).unwrap();
        proof {
            vstd::utf8::char_u32_cast(ch, cp);
        }
        Ok((ch, i + 10))
    } else {
        let ch = char_from_u32(u).unwrap();
        proof {
            vstd::utf8::char_u32_cast(ch, u);
        }
        Ok((ch, i + 4))
    }
}

fn p_string_body(s: &Vec<char>, i: usize) -> (r: Result<(Vec<char>, usize), ()>)
    requires
        i <= s@.len(),
    ensures
        r matches Ok(p) ==> sp_string_body(s@, i as int) == Some((p.0@, p.1 as int)) && i < p.1
            <= s@.len(),
        r is Err ==> sp_string_body(s@, i as int) is None,
    decreases s@.len() - i,
{
    if i >= s.len() {
        return Err(());
    }
    let c = s[i];
    if c == '"' {
        let empty: Vec<char> = Vec::new();
        return Ok((empty, i + 1));
    }
    if c == '\\' {
        if s.len() - i < 2 {
            return Err(());
        }
        let e = s[i + 1];
        if e == 'u' {
            match p_u_escape(s, i + 2) {
                Ok((ch, j2)) => match p_string_body(s, j2) {
                    Ok((mut rest, j)) => {
                        let ghost before = rest@;
                        rest.insert(0, ch);
                        proof {
                            assert(rest@ =~= seq![ch] + before);
                        }
                        Ok((rest, j))
                    },
                    Err(e2) => Err(e2),
                },
                Err(e2) => Err(e2),
            }
        } else {
            match unesc_x(e) {
                Some(c2) => match p_string_body(s, i + 2) {
                    Ok((mut rest, j)) => {
                        let ghost before = rest@;
                        rest.insert(0, c2);
                        proof {
                            assert(rest@ =~= seq![c2] + before);
                        }
                        Ok((rest, j))
                    },
                    Err(e2) => Err(e2),
                },
                None => Err(()),
            }
        }
    } else if (c as u32) < 0x20 {
        Err(())
    } else {
        match p_string_body(s, i + 1) {
            Ok((mut rest, j)) => {
                let ghost before = rest@;
                rest.insert(0, c);
                proof {
                    assert(rest@ =~= seq![c] + before);
                }
                Ok((rest, j))
            },
            Err(e2) => Err(e2),
        }
    }
}

fn p_value(s: &Vec<char>, i: usize) -> (r: Result<(JsonValue, usize), ()>)
    requires
        i <= s@.len(),
    ensures
        r matches Ok(p) ==> sp_value(s@, i as int) == Some((p.0@, p.1 as int)) && i < p.1
            <= s@.len(),
        r is Err ==> sp_value(s@, i as int) is None,
    decreases s@.len() - i, 0int,
{
    if i >= s.len() {
        return Err(());
    }
    let c = s[i];
    if c == 'n' {
        if s.len() - i >= 4 && s[i + 1] == 'u' && s[i + 2] == 'l' && s[i + 3] == 'l' {
            Ok((JsonValue::Null, i + 4))
        } else {
            Err(())
        }
    } else if c == 't' {
        if s.len() - i >= 4 && s[i + 1] == 'r' && s[i + 2] == 'u' && s[i + 3] == 'e' {
            Ok((JsonValue::Bool(true), i + 4))
        } else {
            Err(())
        }
    } else if c == 'f' {
        if s.len() - i >= 5 && s[i + 1] == 'a' && s[i + 2] == 'l' && s[i + 3] == 's' && s[i + 4]
            == 'e' {
            Ok((JsonValue::Bool(false), i + 5))
        } else {
            Err(())
        }
    } else if c == '"' {
        match p_string_body(s, i + 1) {
            Ok((cs, j)) => {
                let st = chars_to_string(&cs);
                Ok((JsonValue::Str(st), j))
            },
            Err(e) => Err(e),
        }
    } else if c == '-' || digit_x(c) {
        let j = x_scan_num(s, i);
        proof {
            lemma_scan_num(s@, i as int);
        }
        if j == i {
            return Err(());
        }
        let lex = copy_range(s, i, j);
        if num_check(&lex, 0, NumState::Start) {
            let st = chars_to_string(&lex);
            Ok((JsonValue::Num(st), j))
        } else {
            Err(())
        }
    } else if c == '[' {
        let k = x_skip_ws(s, i + 1);
        if k < s.len() && s[k] == ']' {
            let empty: Vec<JsonValue> = Vec::new();
            Ok((JsonValue::Arr(empty), k + 1))
        } else {
            match p_elems(s, k) {
                Ok((items, j)) => Ok((JsonValue::Arr(items), j)),
                Err(e) => Err(e),
            }
        }
    } else if c == '{' {
        let k = x_skip_ws(s, i + 1);
        if k < s.len() && s[k] == '}' {
            let empty: Vec<(String, JsonValue)> = Vec::new();
            Ok((JsonValue::Obj(empty), k + 1))
        } else {
            match p_members(s, k) {
                Ok((members, j)) => Ok((JsonValue::Obj(members), j)),
                Err(e) => Err(e),
            }
        }
    } else {
        Err(())
    }
}

fn p_elems(s: &Vec<char>, i: usize) -> (r: Result<(Vec<JsonValue>, usize), ()>)
    requires
        i <= s@.len(),
    ensures
        r matches Ok(p) ==> sp_elems(s@, i as int) == Some((view_elems(p.0@), p.1 as int)) && i
            < p.1 <= s@.len(),
        r is Err ==> sp_elems(s@, i as int) is None,
    decreases s@.len() - i, 1int,
{
    match p_value(s, i) {
        Err(e) => Err(e),
        Ok((v, j)) => {
            let k = x_skip_ws(s, j);
            if k < s.len() && s[k] == ',' {
                let m = x_skip_ws(s, k + 1);
                match p_elems(s, m) {
                    Ok((mut rest, e)) => {
                        let ghost before = rest@;
                        rest.insert(0, v);
                        proof {
                            assert(rest@ =~= seq![v] + before);
                            crate::json::lemma_view_elems_cons(rest@);
                            assert(rest@.skip(1) =~= before);
                            assert(view_elems(rest@) =~= seq![v@] + view_elems(before));
                        }
                        Ok((rest, e))
                    },
                    Err(e2) => Err(e2),
                }
            } else if k < s.len() && s[k] == ']' {
                let mut out: Vec<JsonValue> = Vec::new();
                out.push(v);
                proof {
                    crate::json::lemma_view_elems_single(out@);
                    assert(view_elems(out@) =~= seq![v@]);
                }
                Ok((out, k + 1))
            } else {
                Err(())
            }
        },
    }
}

fn p_members(s: &Vec<char>, i: usize) -> (r: Result<(Vec<(String, JsonValue)>, usize), ()>)
    requires
        i <= s@.len(),
    ensures
        r matches Ok(p) ==> sp_members(s@, i as int) == Some((view_members(p.0@), p.1 as int))
            && i < p.1 <= s@.len(),
        r is Err ==> sp_members(s@, i as int) is None,
    decreases s@.len() - i, 1int,
{
    if i >= s.len() || s[i] != '"' {
        return Err(());
    }
    match p_string_body(s, i + 1) {
        Err(e) => Err(e),
        Ok((key_chars, j)) => {
            let key = chars_to_string(&key_chars);
            let k = x_skip_ws(s, j);
            if !(k < s.len() && s[k] == ':') {
                return Err(());
            }
            let m = x_skip_ws(s, k + 1);
            match p_value(s, m) {
                Err(e) => Err(e),
                Ok((v, p)) => {
                    let q = x_skip_ws(s, p);
                    if q < s.len() && s[q] == ',' {
                        let r2 = x_skip_ws(s, q + 1);
                        match p_members(s, r2) {
                            Ok((mut rest, e)) => {
                                let ghost before = rest@;
                                rest.insert(0, (key, v));
                                proof {
                                    assert(rest@ =~= seq![(key, v)] + before);
                                    crate::json::lemma_view_members_cons(rest@);
                                    assert(rest@.skip(1) =~= before);
                                    assert(view_members(rest@) =~= seq![(key@, v@)]
                                        + view_members(before));
                                }
                                Ok((rest, e))
                            },
                            Err(e2) => Err(e2),
                        }
                    } else if q < s.len() && s[q] == '}' {
                        let mut out: Vec<(String, JsonValue)> = Vec::new();
                        out.push((key, v));
                        proof {
                            crate::json::lemma_view_members_single(out@);
                            assert(view_members(out@) =~= seq![(key@, v@)]);
                        }
                        Ok((out, q + 1))
                    } else {
                        Err(())
                    }
                },
            }
        },
    }
}

/// Parses a whole text as one JSON value, allowing blanks around it.
/// Succeeds exactly when [`json_parse`] accepts the text, and then returns
/// exactly the value it denotes.
pub fn parse_json_text(s: &str) -> (r: Result<JsonValue, ()>)
    ensures
        r matches Ok(v) ==> json_parse(s@) == Some(v@),
        r is Err ==> json_parse(s@) is None,
{
    let cs = str_chars(s);
    let i = x_skip_ws(&cs, 0);
    match p_value(&cs, i) {
        Ok((v, j)) => {
            let e = x_skip_ws(&cs, j);
            if e == cs.len() {
                Ok(v)
            } else {
                Err(())
            }
        },
        Err(_) => Err(()),
    }
}

} // verus!
