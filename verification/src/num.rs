//! Reading integer values out of number literals.
//!
//! The envelope decoder needs two integer readings: call-budget fields as
//! `usize`, and the backend error code as `isize`. A literal is accepted
//! exactly when it is a plain digit run (with one optional leading minus for
//! `isize`) whose value fits the target type; anything else fails the shape,
//! as the wire contract demands.

use vstd::prelude::*;
use vstd::string::StrSliceExecFns;

use crate::json::is_digit;

verus! {

broadcast use vstd::seq::group_seq_axioms;

pub open spec fn all_digits(s: Seq<char>) -> bool {
    forall|k: int| 0 <= k < s.len() ==> is_digit(#[trigger] s[k])
}

/// The value of a digit run, most significant digit first.
pub open spec fn digits_val(s: Seq<char>) -> int
    decreases s.len(),
{
    if s.len() == 0 {
        0
    } else {
        digits_val(s.drop_last()) * 10 + (s.last() as u32 - 48)
    }
}

pub proof fn lemma_digits_val_nonneg(s: Seq<char>)
    requires
        all_digits(s),
    ensures
        digits_val(s) >= 0,
    decreases s.len(),
{
    if s.len() > 0 {
        assert(all_digits(s.drop_last()));
        lemma_digits_val_nonneg(s.drop_last());
    }
}

/// A digit run's value only grows as digits are appended.
pub proof fn lemma_digits_val_prefix(s: Seq<char>, k: int)
    requires
        all_digits(s),
        0 <= k <= s.len(),
    ensures
        digits_val(s.take(k)) <= digits_val(s),
    decreases s.len() - k,
{
    if k < s.len() {
        lemma_digits_val_prefix(s, k + 1);
        let t = s.take(k + 1);
        assert(t.drop_last() =~= s.take(k));
        assert(all_digits(t.drop_last()));
        lemma_digits_val_nonneg(t.drop_last());
        assert(digits_val(t) == digits_val(s.take(k)) * 10 + (t.last() as u32 - 48));
        assert(digits_val(s.take(k)) <= digits_val(t)) by (nonlinear_arith)
            requires
                digits_val(s.take(k)) >= 0,
                digits_val(t) == digits_val(s.take(k)) * 10 + (t.last() as u32 - 48),
                is_digit(t.last()),
        ;
    } else {
        assert(s.take(k) =~= s);
    }
}

/// The reading of a digit-run literal as a `usize`, when it has one.
pub open spec fn spec_parse_usize(s: Seq<char>) -> Option<usize> {
    if s.len() > 0 && all_digits(s) && digits_val(s) <= usize::MAX {
        Some(digits_val(s) as usize)
    } else {
        None
    }
}

/// The reading of an optionally negated digit-run literal as an `isize`.
pub open spec fn spec_parse_isize(s: Seq<char>) -> Option<isize> {
    if s.len() > 0 && s[0] == '-' {
        let m = s.skip(1);
        if m.len() > 0 && all_digits(m) && -digits_val(m) >= isize::MIN {
            Some((-digits_val(m)) as isize)
        } else {
            None
        }
    } else if s.len() > 0 && all_digits(s) && digits_val(s) <= isize::MAX {
        Some(digits_val(s) as isize)
    } else {
        None
    }
}

/// Reads the digit run `s[from..]` as a `usize` value, if it fits.
fn parse_digits(s: &str, from: usize) -> (r: Option<usize>)
    requires
        from < s@.len(),
    ensures
        ({
            let t = s@.skip(from as int);
            match r {
                Some(v) => t.len() > 0 && all_digits(t) && digits_val(t) == v,
                None => !(t.len() > 0 && all_digits(t) && digits_val(t) <= usize::MAX),
            }
        }),
{
    let ghost t = s@.skip(from as int);
    let n = s.unicode_len();
    let mut acc: usize = 0;
    let mut i: usize = from;
    while i < n
        invariant
            from <= i <= n,
            n == s@.len(),
            from < s@.len(),
            t == s@.skip(from as int),
            all_digits(t.take(i - from)),
            acc == digits_val(t.take(i - from)),
        decreases n - i,
    {
        let c = s.get_char(i);
        let u = c as u32;
        if !(48 <= u && u <= 57) {
            proof {
                assert(t[i - from] == s@[i as int]);
                assert(!is_digit(t[i - from]));
            }
            return None;
        }
        let d = (u - 48) as usize;
        if acc > (usize::MAX - d) / 10 {
            proof {
                let k = i - from;
                assert(t[k] == s@[i as int]);
                assert(t.take(k + 1).drop_last() =~= t.take(k));
                assert(t.take(k + 1).last() == t[k]);
                assert(digits_val(t.take(k + 1)) == acc * 10 + d);
                assert(acc * 10 + d > usize::MAX) by (nonlinear_arith)
                    requires
                        acc > (usize::MAX - d) / 10,
                        0 <= d <= 9,
                        acc >= 0,
                ;
                if all_digits(t) {
                    lemma_digits_val_prefix(t, k + 1);
                }
            }
            return None;
        }
        proof {
            let k = i - from;
            assert(t[k] == s@[i as int]);
            assert(t.take(k + 1).drop_last() =~= t.take(k));
            assert(t.take(k + 1).last() == t[k]);
            assert(all_digits(t.take(k + 1)));
            assert(acc * 10 + d <= usize::MAX) by (nonlinear_arith)
                requires
                    acc <= (usize::MAX - d) / 10,
                    0 <= d <= 9,
                    acc >= 0,
            ;
            assert(digits_val(t.take(k + 1)) == acc * 10 + d);
        }
        acc = acc * 10 + d;
        i = i + 1;
    }
    proof {
        assert(t.take(n - from) =~= t);
    }
    if n == from {
        None
    } else {
        Some(acc)
    }
}

/// Reads a whole literal as a `usize`; returns exactly what
/// [`spec_parse_usize`] says.
pub fn parse_usize_lit(s: &str) -> (r: Option<usize>)
    ensures
        r == spec_parse_usize(s@),
{
    if s.unicode_len() == 0 {
        return None;
    }
    let r = parse_digits(s, 0);
    proof {
        assert(s@.skip(0) =~= s@);
    }
    r
}

/// Reads a whole literal as an `isize`; returns exactly what
/// [`spec_parse_isize`] says.
pub fn parse_isize_lit(s: &str) -> (r: Option<isize>)
    ensures
        r == spec_parse_isize(s@),
{
    let n = s.unicode_len();
    if n == 0 {
        return None;
    }
    if s.get_char(0) == '-' {
        if n == 1 {
            proof {
                assert(s@.skip(1).len() == 0);
            }
            return None;
        }
        match parse_digits(s, 1) {
            Some(m) => {
                let top = isize::MAX as usize;
                if m <= top {
                    proof {
                        assert(-(m as int) >= isize::MIN);
                    }
                    Some(-(m as isize))
                } else if m == top + 1 {
                    Some(isize::MIN)
                } else {
                    proof {
                        assert(-digits_val(s@.skip(1)) < isize::MIN);
                    }
                    None
                }
            },
            None => None,
        }
    } else {
        match parse_digits(s, 0) {
            Some(v) => {
                proof {
                    assert(s@.skip(0) =~= s@);
                }
                if v <= isize::MAX as usize {
                    Some(v as isize)
                } else {
                    None
                }
            },
            None => {
                proof {
                    assert(s@.skip(0) =~= s@);
                }
                None
            },
        }
    }
}

} // verus!
