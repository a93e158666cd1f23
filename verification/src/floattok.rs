//! Verified recognizer for the processing-time fields.
//!
//! The three time fields carry decimal floating-point text.  The record
//! keeps the token verbatim, so the library only decides acceptance: a token
//! is accepted exactly when it matches the standard floating-point literal
//! shape - an optional sign, then `inf`, `infinity` or `nan` in any letter
//! case, or a digit string with an optional point and an optional exponent.

use vstd::prelude::*;
use crate::chars::digits_end;
use crate::chars::scan_digits;

verus! {

/// Case-insensitive match of one letter.
pub open spec fn ci_eq(c: char, lo: char, up: char) -> bool {
    c == lo || c == up
}

/// Does `inf` stand at `p` and end the string?
pub open spec fn is_inf_at(s: Seq<char>, p: int) -> bool {
    &&& s.len() - p == 3
    &&& ci_eq(s[p], 'i', 'I')
    &&& ci_eq(s[p + 1], 'n', 'N')
    &&& ci_eq(s[p + 2], 'f', 'F')
}

/// Does `infinity` stand at `p` and end the string?
pub open spec fn is_infinity_at(s: Seq<char>, p: int) -> bool {
    &&& s.len() - p == 8
    &&& ci_eq(s[p], 'i', 'I')
    &&& ci_eq(s[p + 1], 'n', 'N')
    &&& ci_eq(s[p + 2], 'f', 'F')
    &&& ci_eq(s[p + 3], 'i', 'I')
    &&& ci_eq(s[p + 4], 'n', 'N')
    &&& ci_eq(s[p + 5], 'i', 'I')
    &&& ci_eq(s[p + 6], 't', 'T')
    &&& ci_eq(s[p + 7], 'y', 'Y')
}

/// Does `nan` stand at `p` and end the string?
pub open spec fn is_nan_at(s: Seq<char>, p: int) -> bool {
    &&& s.len() - p == 3
    &&& ci_eq(s[p], 'n', 'N')
    &&& ci_eq(s[p + 1], 'a', 'A')
    &&& ci_eq(s[p + 2], 'n', 'N')
}

/// Does an exponent part (`e` or `E`, an optional sign, one or more digits)
/// stand at `p` and end the string?
pub open spec fn is_exp_at(s: Seq<char>, p: int) -> bool {
    &&& p < s.len()
    &&& (s[p] == 'e' || s[p] == 'E')
    &&& {
        let q = if p + 1 < s.len() && (s[p + 1] == '+' || s[p + 1] == '-') {
            p + 2
        } else {
            p + 1
        };
        q < s.len() && digits_end(s, q) == s.len()
    }
}

/// Does a number (digits, an optional point, an optional exponent) stand at
/// `p` and end the string?
pub open spec fn is_number_at(s: Seq<char>, p: int) -> bool {
    let e1 = digits_end(s, p);
    if e1 == s.len() {
        e1 > p
    } else if s[e1] == '.' {
        let e2 = digits_end(s, e1 + 1);
        (e1 > p || e2 > e1 + 1) && (e2 == s.len() || is_exp_at(s, e2))
    } else {
        e1 > p && is_exp_at(s, e1)
    }
}

/// Is `s` a floating-point literal?
pub open spec fn is_float_token(s: Seq<char>) -> bool {
    let p: int = if s.len() > 0 && (s[0] == '+' || s[0] == '-') {
        1
    } else {
        0
    };
    is_inf_at(s, p) || is_infinity_at(s, p) || is_nan_at(s, p) || is_number_at(s, p)
}

/// Executable test for an exponent part at `p`.
fn check_exp_at(s: &str, n: usize, p: usize) -> (r: bool)
    requires
        n == s@.len(),
        p <= n,
    ensures
        r == is_exp_at(s@, p as int),
{
    if p >= n {
        return false;
    }
    let c = s.get_char(p);
    if c != 'e' && c != 'E' {
        return false;
    }
    let q = if p + 1 < n {
        let c1 = s.get_char(p + 1);
        if c1 == '+' || c1 == '-' {
            p + 2
        } else {
            p + 1
        }
    } else {
        p + 1
    };
    if q >= n {
        return false;
    }
    scan_digits(s, q) == n
}

/// Executable test for one of the spelled special values at `p`.
fn check_special_at(s: &str, n: usize, p: usize) -> (r: bool)
    requires
        n == s@.len(),
        p <= n,
    ensures
        r == (is_inf_at(s@, p as int) || is_infinity_at(s@, p as int) || is_nan_at(
            s@,
            p as int,
        )),
{
    if n - p == 3 {
        let c0 = s.get_char(p);
        let c1 = s.get_char(p + 1);
        let c2 = s.get_char(p + 2);
        ((c0 == 'i' || c0 == 'I') && (c1 == 'n' || c1 == 'N') && (c2 == 'f' || c2 == 'F')) || ((c0
            == 'n' || c0 == 'N') && (c1 == 'a' || c1 == 'A') && (c2 == 'n' || c2 == 'N'))
    } else if n - p == 8 {
        let c0 = s.get_char(p);
        let c1 = s.get_char(p + 1);
        let c2 = s.get_char(p + 2);
        let c3 = s.get_char(p + 3);
        let c4 = s.get_char(p + 4);
        let c5 = s.get_char(p + 5);
        let c6 = s.get_char(p + 6);
        let c7 = s.get_char(p + 7);
        (c0 == 'i' || c0 == 'I') && (c1 == 'n' || c1 == 'N') && (c2 == 'f' || c2 == 'F') && (c3
            == 'i' || c3 == 'I') && (c4 == 'n' || c4 == 'N') && (c5 == 'i' || c5 == 'I') && (c6
            == 't' || c6 == 'T') && (c7 == 'y' || c7 == 'Y')
    } else {
        false
    }
}

/// Is `s` a floating-point literal?  Equal to [`is_float_token`].
pub fn is_float_literal(s: &str) -> (r: bool)
    ensures
        r == is_float_token(s@),
{
    let n = s.unicode_len();
    let p: usize = if n > 0 {
        let c = s.get_char(0);
        if c == '+' || c == '-' {
            1
        } else {
            0
        }
    } else {
        0
    };
    if check_special_at(s, n, p) {
        return true;
    }
    let e1 = scan_digits(s, p);
    if e1 == n {
        return e1 > p;
    }
    if s.get_char(e1) == '.' {
        let e2 = scan_digits(s, e1 + 1);
        (e1 > p || e2 > e1 + 1) && (e2 == n || check_exp_at(s, n, e2))
    } else {
        e1 > p && check_exp_at(s, n, e1)
    }
}

} // verus!
