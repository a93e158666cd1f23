//! Verified decimal parsers for the unsigned integer fields.
//!
//! A token is accepted only when it is a non-empty run of ASCII digits whose
//! value fits the target width; a sign character, separators, or trailing
//! text all reject the token.

use vstd::prelude::*;
use crate::chars::digit_value;
use crate::chars::digits_val;
use crate::chars::is_ascii_digit_char;
use crate::chars::is_digit_char;
use crate::chars::lemma_digits_val_bounds;
use crate::chars::lemma_digits_val_prefix;

verus! {

/// Does `s` consist only of digits?
pub open spec fn all_digits(s: Seq<char>) -> bool {
    forall|k: int| 0 <= k < s.len() ==> is_digit_char(#[trigger] s[k])
}

/// Is `s` a decimal token whose value fits in 64 bits?
pub open spec fn is_u64_token(s: Seq<char>) -> bool {
    s.len() > 0 && all_digits(s) && digits_val(s) <= u64::MAX
}

/// What the parser returns for a 64-bit field token.
pub open spec fn spec_parse_u64(s: Seq<char>) -> Option<u64> {
    if is_u64_token(s) {
        Some(digits_val(s) as u64)
    } else {
        None
    }
}

/// Is `s` a decimal token whose value fits in 16 bits?
pub open spec fn is_u16_token(s: Seq<char>) -> bool {
    s.len() > 0 && all_digits(s) && digits_val(s) <= u16::MAX
}

/// What the parser returns for a 16-bit field token.
pub open spec fn spec_parse_u16(s: Seq<char>) -> Option<u16> {
    if is_u16_token(s) {
        Some(digits_val(s) as u16)
    } else {
        None
    }
}

/// Parse a base-ten `u64`, rejecting signs, separators and overflow.
pub fn parse_u64(s: &str) -> (r: Option<u64>)
    ensures
        r == spec_parse_u64(s@),
{
    let n = s.unicode_len();
    if n == 0 {
        return None;
    }
    let mut acc: u64 = 0;
    let mut i: usize = 0;
    while i < n
        invariant
            0 <= i <= n,
            n == s@.len(),
            all_digits(s@.take(i as int)),
            acc == digits_val(s@.take(i as int)),
        decreases n - i,
    {
        let c = s.get_char(i);
        if !is_ascii_digit_char(c) {
            return None;
        }
        let d = digit_value(c);
        proof {
            assert(s@.take(i + 1).drop_last() =~= s@.take(i as int));
            lemma_digits_val_bounds(s@.take(i as int));
        }
        let acc10 = match acc.checked_mul(10) {
            Some(v) => v,
            None => {
                proof {
                    lemma_digits_val_prefix_overflow(s@, i + 1);
                }
                return None;
            },
        };
        acc = match acc10.checked_add(d as u64) {
            Some(v) => v,
            None => {
                proof {
                    lemma_digits_val_prefix_overflow(s@, i + 1);
                }
                return None;
            },
        };
        i = i + 1;
    }
    proof {
        assert(s@.take(n as int) =~= s@);
    }
    Some(acc)
}

/// If some prefix of a digit string already exceeds `u64::MAX`, the whole
/// string does too, so the token is rejected.
proof fn lemma_digits_val_prefix_overflow(s: Seq<char>, j: int)
    requires
        0 <= j <= s.len(),
        all_digits(s.take(j)),
        digits_val(s.take(j)) > u64::MAX,
    ensures
        !is_u64_token(s),
{
    if all_digits(s) {
        lemma_digits_val_prefix(s, j);
    } else {
        assert(!is_u64_token(s));
    }
}

/// Parse a base-ten `u16`, rejecting signs, separators and overflow.
pub fn parse_u16(s: &str) -> (r: Option<u16>)
    ensures
        r == spec_parse_u16(s@),
{
    match parse_u64(s) {
        Some(v) => {
            proof {
                assert(is_u64_token(s@));
                lemma_digits_val_bounds(s@);
                assert(v == digits_val(s@));
            }
            if v <= 65535 {
                proof {
                    assert(is_u16_token(s@));
                }
                Some(v as u16)
            } else {
                proof {
                    assert(!is_u16_token(s@));
                }
                None
            }
        },
        None => {
            proof {
                if is_u16_token(s@) {
                    assert(is_u64_token(s@));
                }
            }
            None
        },
    }
}

} // verus!
