//! Verified parser for IPv4 endpoints of the form `a.b.c.d:port`.
//!
//! Each octet is written without a leading zero (`0` itself excepted) in at
//! most three digits and lies in `0..=255`; the port is a decimal number in
//! `0..=65535`, leading zeros allowed.  Nothing may precede or follow the
//! endpoint inside the token.

use vstd::prelude::*;
use crate::chars::digits_end;
use crate::chars::digits_val;
use crate::chars::lemma_digits_end;
use crate::chars::lemma_digits_val_bounds;
use crate::chars::scan_digits;
use crate::numbers::all_digits;
use crate::numbers::is_u16_token;
use crate::numbers::is_u64_token;
use crate::numbers::parse_u16;
use crate::numbers::parse_u64;

verus! {

/// An IPv4 socket endpoint: four address octets and a port.
#[derive(PartialEq, Eq, Structural, Clone, Copy, Debug)]
pub struct EndpointV4 {
    pub a: u8,
    pub b: u8,
    pub c: u8,
    pub d: u8,
    pub port: u16,
}

/// Is `seg` a well-formed address octet?
pub open spec fn octet_ok(seg: Seq<char>) -> bool {
    &&& 1 <= seg.len() <= 3
    &&& all_digits(seg)
    &&& seg.len() > 1 ==> seg[0] != '0'
    &&& digits_val(seg) <= 255
}

/// Is `t` a well-formed `a.b.c.d:port` token?
pub open spec fn is_endpoint_token(t: Seq<char>) -> bool {
    let e1 = digits_end(t, 0);
    let e2 = digits_end(t, e1 + 1);
    let e3 = digits_end(t, e2 + 1);
    let e4 = digits_end(t, e3 + 1);
    &&& e1 < t.len() && t[e1] == '.'
    &&& e2 < t.len() && t[e2] == '.'
    &&& e3 < t.len() && t[e3] == '.'
    &&& e4 < t.len() && t[e4] == ':'
    &&& octet_ok(t.subrange(0, e1))
    &&& octet_ok(t.subrange(e1 + 1, e2))
    &&& octet_ok(t.subrange(e2 + 1, e3))
    &&& octet_ok(t.subrange(e3 + 1, e4))
    &&& is_u16_token(t.subrange(e4 + 1, t.len() as int))
}

/// The endpoint denoted by a well-formed token.
pub open spec fn spec_endpoint_of(t: Seq<char>) -> EndpointV4 {
    let e1 = digits_end(t, 0);
    let e2 = digits_end(t, e1 + 1);
    let e3 = digits_end(t, e2 + 1);
    let e4 = digits_end(t, e3 + 1);
    EndpointV4 {
        a: digits_val(t.subrange(0, e1)) as u8,
        b: digits_val(t.subrange(e1 + 1, e2)) as u8,
        c: digits_val(t.subrange(e2 + 1, e3)) as u8,
        d: digits_val(t.subrange(e3 + 1, e4)) as u8,
        port: digits_val(t.subrange(e4 + 1, t.len() as int)) as u16,
    }
}

/// What the parser returns for an endpoint field token.
pub open spec fn spec_parse_endpoint(t: Seq<char>) -> Option<EndpointV4> {
    if is_endpoint_token(t) {
        Some(spec_endpoint_of(t))
    } else {
        None
    }
}

/// Parse the address octet spanning `start..e`, where `e` is the end of the
/// digit run that starts at `start`.
fn parse_octet_at(s: &str, start: usize, e: usize) -> (r: Option<u8>)
    requires
        start <= e <= s@.len(),
        e == digits_end(s@, start as int),
    ensures
        match r {
            Some(v) => octet_ok(s@.subrange(start as int, e as int)) && v == digits_val(
                s@.subrange(start as int, e as int),
            ),
            None => !octet_ok(s@.subrange(start as int, e as int)),
        },
{
    let ghost seg = s@.subrange(start as int, e as int);
    proof {
        lemma_digits_end(s@, start as int);
        assert(all_digits(seg));
        lemma_digits_val_bounds(seg);
    }
    let len = e - start;
    if len < 1 || len > 3 {
        return None;
    }
    if len > 1 && s.get_char(start) == '0' {
        proof {
            assert(seg[0] == s@[start as int]);
        }
        return None;
    }
    let sub = s.substring_char(start, e);
    proof {
        assert(sub@ =~= seg);
    }
    match parse_u64(sub) {
        Some(v) => {
            if v <= 255 {
                Some(v as u8)
            } else {
                None
            }
        },
        None => {
            proof {
                if octet_ok(seg) {
                    assert(is_u64_token(seg));
                }
            }
            None
        },
    }
}

/// Parse an `a.b.c.d:port` token; `None` on any malformed part.
pub fn parse_endpoint(s: &str) -> (r: Option<EndpointV4>)
    ensures
        r == spec_parse_endpoint(s@),
{
    let n = s.unicode_len();
    let e1 = scan_digits(s, 0);
    if e1 >= n || s.get_char(e1) != '.' {
        return None;
    }
    let e2 = scan_digits(s, e1 + 1);
    if e2 >= n || s.get_char(e2) != '.' {
        return None;
    }
    let e3 = scan_digits(s, e2 + 1);
    if e3 >= n || s.get_char(e3) != '.' {
        return None;
    }
    let e4 = scan_digits(s, e3 + 1);
    if e4 >= n || s.get_char(e4) != ':' {
        return None;
    }
    let a = match parse_octet_at(s, 0, e1) {
        Some(v) => v,
        None => {
            return None;
        },
    };
    let b = match parse_octet_at(s, e1 + 1, e2) {
        Some(v) => v,
        None => {
            return None;
        },
    };
    let c = match parse_octet_at(s, e2 + 1, e3) {
        Some(v) => v,
        None => {
            return None;
        },
    };
    let d = match parse_octet_at(s, e3 + 1, e4) {
        Some(v) => v,
        None => {
            return None;
        },
    };
    let port_str = s.substring_char(e4 + 1, n);
    let port = match parse_u16(port_str) {
        Some(p) => p,
        None => {
            return None;
        },
    };
    proof {
        lemma_digits_val_bounds(s@.subrange(e4 + 1, s@.len() as int));
    }
    Some(EndpointV4 { a, b, c, d, port })
}

} // verus!
