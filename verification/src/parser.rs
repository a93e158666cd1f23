//! The line parser: one raw log line in, one record or one aggregated
//! failure out.
//!
//! A line is split on spaces into positional tokens.  Positions 0 and 2-10
//! are typed fields, parsed independently and in positional order; every
//! failure is collected, never short-circuited.  Positions 1, 11, 12 and 13
//! are textual fields and cannot fail; 11 and 13 lose at most one leading
//! and one trailing double quote.  A record is produced exactly when no
//! typed field failed; otherwise the failure lists one tagged error per
//! malformed field, in field order, together with the verbatim line.

use vstd::prelude::*;
use vstd::string::StringExecFns;
use crate::endpoint::EndpointV4;
use crate::endpoint::parse_endpoint;
use crate::endpoint::spec_parse_endpoint;
use crate::floattok::is_float_literal;
use crate::floattok::is_float_token;
use crate::numbers::is_u16_token;
use crate::numbers::is_u64_token;
use crate::numbers::parse_u16;
use crate::numbers::parse_u64;
use crate::numbers::spec_parse_u16;
use crate::numbers::spec_parse_u64;
use crate::timestamp::Timestamp;
use crate::timestamp::parse_timestamp;
use crate::timestamp::spec_parse_timestamp;
use crate::tokenize::spec_split;
use crate::tokenize::split_spaces;

verus! {

pub const TIMESTAMP: &'static str = "timestamp";

pub const CLIENT_ADDRESS: &'static str = "client address";

pub const BACKEND_ADDRESS: &'static str = "backend address";

pub const REQUEST_PROCESSING_TIME: &'static str = "request processing time";

pub const BACKEND_PROCESSING_TIME: &'static str = "backend processing time";

pub const RESPONSE_PROCESSING_TIME: &'static str = "response processing time";

pub const ELB_STATUS_CODE: &'static str = "ELB status code";

pub const BE_STATUS_CODE: &'static str = "backend status code";

pub const RECEIVED_BYTES: &'static str = "received bytes";

pub const SENT_BYTES: &'static str = "sent bytes";

/// The successful parse of one line.  The three processing-time fields keep
/// their decimal text, already checked against the floating-point literal
/// shape; callers convert at the edge.
#[derive(Debug)]
pub struct ELBLogEntry {
    pub timestamp: Timestamp,
    pub elb_name: String,
    pub client_address: EndpointV4,
    pub backend_address: EndpointV4,
    pub request_processing_time: String,
    pub backend_processing_time: String,
    pub response_processing_time: String,
    pub elb_status_code: u16,
    pub backend_status_code: u16,
    pub received_bytes: u64,
    pub sent_bytes: u64,
    pub request_method: String,
    pub request_url: String,
    pub request_http_version: String,
}

/// Mathematical image of a record.
#[verifier::ext_equal]
pub struct LogEntryV {
    pub timestamp: Timestamp,
    pub elb_name: Seq<char>,
    pub client_address: EndpointV4,
    pub backend_address: EndpointV4,
    pub request_processing_time: Seq<char>,
    pub backend_processing_time: Seq<char>,
    pub response_processing_time: Seq<char>,
    pub elb_status_code: u16,
    pub backend_status_code: u16,
    pub received_bytes: u64,
    pub sent_bytes: u64,
    pub request_method: Seq<char>,
    pub request_url: Seq<char>,
    pub request_http_version: Seq<char>,
}

impl View for ELBLogEntry {
    type V = LogEntryV;

    open spec fn view(&self) -> LogEntryV {
        LogEntryV {
            timestamp: self.timestamp,
            elb_name: self.elb_name@,
            client_address: self.client_address,
            backend_address: self.backend_address,
            request_processing_time: self.request_processing_time@,
            backend_processing_time: self.backend_processing_time@,
            response_processing_time: self.response_processing_time@,
            elb_status_code: self.elb_status_code,
            backend_status_code: self.backend_status_code,
            received_bytes: self.received_bytes,
            sent_bytes: self.sent_bytes,
            request_method: self.request_method@,
            request_url: self.request_url@,
            request_http_version: self.request_http_version@,
        }
    }
}

/// One field-level failure: the field's fixed tag and a cause description.
#[derive(Debug)]
pub struct ParsingError {
    pub property: &'static str,
    pub inner_description: String,
}

/// Mathematical image of a field-level failure.
#[verifier::ext_equal]
pub struct ParsingErrorV {
    pub property: Seq<char>,
    pub inner_description: Seq<char>,
}

impl View for ParsingError {
    type V = ParsingErrorV;

    open spec fn view(&self) -> ParsingErrorV {
        ParsingErrorV { property: self.property@, inner_description: self.inner_description@ }
    }
}

/// The failed parse of one line: the verbatim line and one error per
/// malformed typed field, ordered by field position.
#[derive(Debug)]
pub struct ParsingErrors {
    pub record: String,
    pub errors: Vec<ParsingError>,
}

/// Mathematical image of a line failure.
#[verifier::ext_equal]
pub struct ParsingErrorsV {
    pub record: Seq<char>,
    pub errors: Seq<ParsingErrorV>,
}

impl View for ParsingErrors {
    type V = ParsingErrorsV;

    open spec fn view(&self) -> ParsingErrorsV {
        ParsingErrorsV {
            record: self.record@,
            errors: self.errors@.map_values(|e: ParsingError| e@),
        }
    }
}

/// Token at position `i`; a position past the end reads as empty, which no
/// typed field accepts.
pub open spec fn spec_token(toks: Seq<Seq<char>>, i: int) -> Seq<char> {
    if 0 <= i < toks.len() {
        toks[i]
    } else {
        Seq::empty()
    }
}

/// At most one leading and at most one trailing double quote are removed;
/// nothing else changes.
pub open spec fn spec_strip_quotes(s: Seq<char>) -> Seq<char> {
    let t = if s.len() > 0 && s[0] == '"' {
        s.subrange(1, s.len() as int)
    } else {
        s
    };
    if t.len() > 0 && t[t.len() - 1] == '"' {
        t.subrange(0, t.len() - 1)
    } else {
        t
    }
}

/// The positions of the typed fields, in order.
pub open spec fn typed_positions() -> Seq<int> {
    seq![0int, 2, 3, 4, 5, 6, 7, 8, 9, 10]
}

/// Does the typed field at position `j` parse?
pub open spec fn typed_field_ok(toks: Seq<Seq<char>>, j: int) -> bool {
    if j == 0 {
        spec_parse_timestamp(spec_token(toks, 0)) is Some
    } else if j == 2 || j == 3 {
        spec_parse_endpoint(spec_token(toks, j)) is Some
    } else if j == 4 || j == 5 || j == 6 {
        is_float_token(spec_token(toks, j))
    } else if j == 7 || j == 8 {
        is_u16_token(spec_token(toks, j))
    } else {
        is_u64_token(spec_token(toks, j))
    }
}

/// The fixed tag of the typed field at position `j`.
pub open spec fn spec_tag(j: int) -> Seq<char> {
    if j == 0 {
        TIMESTAMP@
    } else if j == 2 {
        CLIENT_ADDRESS@
    } else if j == 3 {
        BACKEND_ADDRESS@
    } else if j == 4 {
        REQUEST_PROCESSING_TIME@
    } else if j == 5 {
        BACKEND_PROCESSING_TIME@
    } else if j == 6 {
        RESPONSE_PROCESSING_TIME@
    } else if j == 7 {
        ELB_STATUS_CODE@
    } else if j == 8 {
        BE_STATUS_CODE@
    } else if j == 9 {
        RECEIVED_BYTES@
    } else {
        SENT_BYTES@
    }
}

/// The cause text reported for the typed field at position `j`.
pub open spec fn spec_cause(j: int) -> Seq<char> {
    if j == 0 {
        "invalid timestamp"@
    } else if j == 2 || j == 3 {
        "invalid IPv4 endpoint"@
    } else if j == 4 || j == 5 || j == 6 {
        "invalid 32-bit float"@
    } else if j == 7 || j == 8 {
        "invalid unsigned 16-bit integer"@
    } else {
        "invalid unsigned 64-bit integer"@
    }
}

/// The error reported for the typed field at position `j`.
pub open spec fn spec_field_error(toks: Seq<Seq<char>>, j: int) -> ParsingErrorV {
    ParsingErrorV { property: spec_tag(j), inner_description: spec_cause(j) }
}

/// The errors contributed by position `j`: none if the field parses, one
/// otherwise.
pub open spec fn err_opt(toks: Seq<Seq<char>>, j: int) -> Seq<ParsingErrorV> {
    if typed_field_ok(toks, j) {
        Seq::empty()
    } else {
        seq![spec_field_error(toks, j)]
    }
}

/// Does the typed field at `j` fail?
pub open spec fn field_fails(toks: Seq<Seq<char>>) -> spec_fn(int) -> bool {
    |j: int| !typed_field_ok(toks, j)
}

/// The error for position `j`, as a function.
pub open spec fn field_err_fn(toks: Seq<Seq<char>>) -> spec_fn(int) -> ParsingErrorV {
    |j: int| spec_field_error(toks, j)
}

/// The positions of the malformed typed fields, in field order.
pub open spec fn spec_failed_positions(toks: Seq<Seq<char>>) -> Seq<int> {
    typed_positions().filter(field_fails(toks))
}

/// All errors of a line: one per malformed typed field, in field order.
pub open spec fn spec_errors(toks: Seq<Seq<char>>) -> Seq<ParsingErrorV> {
    spec_failed_positions(toks).map_values(field_err_fn(toks))
}

/// Does every typed field of the line parse?
pub open spec fn spec_line_ok(line: Seq<char>) -> bool {
    spec_errors(spec_split(line)).len() == 0
}

/// The record of a line whose typed fields all parse.
pub open spec fn spec_record_of(line: Seq<char>) -> LogEntryV {
    let toks = spec_split(line);
    LogEntryV {
        timestamp: spec_parse_timestamp(spec_token(toks, 0))->Some_0,
        elb_name: spec_token(toks, 1),
        client_address: spec_parse_endpoint(spec_token(toks, 2))->Some_0,
        backend_address: spec_parse_endpoint(spec_token(toks, 3))->Some_0,
        request_processing_time: spec_token(toks, 4),
        backend_processing_time: spec_token(toks, 5),
        response_processing_time: spec_token(toks, 6),
        elb_status_code: spec_parse_u16(spec_token(toks, 7))->Some_0,
        backend_status_code: spec_parse_u16(spec_token(toks, 8))->Some_0,
        received_bytes: spec_parse_u64(spec_token(toks, 9))->Some_0,
        sent_bytes: spec_parse_u64(spec_token(toks, 10))->Some_0,
        request_method: spec_strip_quotes(spec_token(toks, 11)),
        request_url: spec_token(toks, 12),
        request_http_version: spec_strip_quotes(spec_token(toks, 13)),
    }
}

/// The failure of a line with at least one malformed typed field.
pub open spec fn spec_failure_of(line: Seq<char>) -> ParsingErrorsV {
    ParsingErrorsV { record: line, errors: spec_errors(spec_split(line)) }
}

/// What the parser returns, as a function of the line alone.
pub open spec fn spec_parse_line(line: Seq<char>) -> Result<LogEntryV, ParsingErrorsV> {
    if spec_line_ok(line) {
        Ok(spec_record_of(line))
    } else {
        Err(spec_failure_of(line))
    }
}

/// Filtering the failed positions, then mapping to errors, grows by one step
/// exactly as the error list of one more field does.
proof fn lemma_filter_map_step(toks: Seq<Seq<char>>, ps: Seq<int>, j: int)
    ensures
        ps.push(j).filter(field_fails(toks)).map_values(field_err_fn(toks)) == ps.filter(
            field_fails(toks),
        ).map_values(field_err_fn(toks)) + err_opt(toks, j),
{
    reveal_with_fuel(Seq::<int>::filter, 2);
    let q = ps.push(j);
    assert(q.drop_last() =~= ps);
    assert(q.last() == j);
    if field_fails(toks)(j) {
        assert(q.filter(field_fails(toks)) == ps.filter(field_fails(toks)).push(j));
        assert(q.filter(field_fails(toks)).map_values(field_err_fn(toks)) =~~= ps.filter(
            field_fails(toks),
        ).map_values(field_err_fn(toks)) + err_opt(toks, j));
    } else {
        assert(q.filter(field_fails(toks)) == ps.filter(field_fails(toks)));
        assert(q.filter(field_fails(toks)).map_values(field_err_fn(toks)) =~~= ps.filter(
            field_fails(toks),
        ).map_values(field_err_fn(toks)) + err_opt(toks, j));
    }
}

/// The error list of a line, written as the concatenation of the ten
/// per-field contributions in field order.
proof fn lemma_spec_errors_unroll(toks: Seq<Seq<char>>)
    ensures
        spec_errors(toks) == Seq::<ParsingErrorV>::empty() + err_opt(toks, 0) + err_opt(toks, 2)
            + err_opt(toks, 3) + err_opt(toks, 4) + err_opt(toks, 5) + err_opt(toks, 6) + err_opt(
            toks,
            7,
        ) + err_opt(toks, 8) + err_opt(toks, 9) + err_opt(toks, 10),
{
    let p0: Seq<int> = Seq::empty();
    let p1 = p0.push(0);
    let p2 = p1.push(2);
    let p3 = p2.push(3);
    let p4 = p3.push(4);
    let p5 = p4.push(5);
    let p6 = p5.push(6);
    let p7 = p6.push(7);
    let p8 = p7.push(8);
    let p9 = p8.push(9);
    let p10 = p9.push(10);
    assert(p0.filter(field_fails(toks)).map_values(field_err_fn(toks)) =~~= Seq::<
        ParsingErrorV,
    >::empty());
    lemma_filter_map_step(toks, p0, 0);
    lemma_filter_map_step(toks, p1, 2);
    lemma_filter_map_step(toks, p2, 3);
    lemma_filter_map_step(toks, p3, 4);
    lemma_filter_map_step(toks, p4, 5);
    lemma_filter_map_step(toks, p5, 6);
    lemma_filter_map_step(toks, p6, 7);
    lemma_filter_map_step(toks, p7, 8);
    lemma_filter_map_step(toks, p8, 9);
    lemma_filter_map_step(toks, p9, 10);
    assert(typed_positions() =~= p10);
    assert(spec_errors(toks) =~~= Seq::<ParsingErrorV>::empty() + err_opt(toks, 0) + err_opt(
        toks,
        2,
    ) + err_opt(toks, 3) + err_opt(toks, 4) + err_opt(toks, 5) + err_opt(toks, 6) + err_opt(
        toks,
        7,
    ) + err_opt(toks, 8) + err_opt(toks, 9) + err_opt(toks, 10));
}

/// Every element of a filtered sequence occurs in the sequence it was
/// filtered from.
proof fn lemma_filter_in(s: Seq<int>, pred: spec_fn(int) -> bool)
    ensures
        forall|i: int|
            0 <= i < s.filter(pred).len() ==> s.contains(#[trigger] s.filter(pred)[i]),
    decreases s.len(),
{
    reveal_with_fuel(Seq::<_>::filter, 2);
    if s.len() > 0 {
        let d = s.drop_last();
        lemma_filter_in(d, pred);
        assert forall|i: int| 0 <= i < s.filter(pred).len() implies s.contains(
            #[trigger] s.filter(pred)[i],
        ) by {
            let f = s.filter(pred);
            if pred(s.last()) && i == f.len() - 1 {
                assert(f[i] == s.last());
                assert(s[s.len() - 1] == s.last());
            } else {
                assert(f[i] == d.filter(pred)[i]);
                assert(d.contains(f[i]));
                let k = choose|k: int| 0 <= k < d.len() && d[k] == f[i];
                assert(s[k] == f[i]);
            }
        }
    }
}

/// Filtering a strictly increasing sequence leaves a strictly increasing
/// sequence.
proof fn lemma_filter_sorted(s: Seq<int>, pred: spec_fn(int) -> bool)
    requires
        forall|a: int, b: int| 0 <= a < b < s.len() ==> s[a] < s[b],
    ensures
        forall|a: int, b: int|
            0 <= a < b < s.filter(pred).len() ==> s.filter(pred)[a] < s.filter(pred)[b],
    decreases s.len(),
{
    reveal_with_fuel(Seq::<_>::filter, 2);
    if s.len() > 0 {
        let d = s.drop_last();
        assert(forall|a: int, b: int| 0 <= a < b < d.len() ==> d[a] < d[b]);
        lemma_filter_sorted(d, pred);
        lemma_filter_in(d, pred);
        let f = s.filter(pred);
        if pred(s.last()) {
            assert forall|a: int| 0 <= a < d.filter(pred).len() implies d.filter(pred)[a]
                < s.last() by {
                let x = d.filter(pred)[a];
                assert(d.contains(x));
                let k = choose|k: int| 0 <= k < d.len() && d[k] == x;
                assert(s[k] == x);
                assert(s[k] < s[s.len() - 1]);
            }
        }
    }
}

/// Error completeness: the failure of a line lists exactly one error per
/// malformed typed field, its tag drawn from the fixed tag set, ordered by
/// field position.
pub proof fn lemma_error_completeness(toks: Seq<Seq<char>>)
    ensures
        spec_errors(toks).len() == spec_failed_positions(toks).len(),
        forall|i: int|
            0 <= i < spec_errors(toks).len() ==> #[trigger] spec_errors(toks)[i]
                == spec_field_error(toks, spec_failed_positions(toks)[i]),
        forall|i: int|
            0 <= i < spec_failed_positions(toks).len() ==> !typed_field_ok(
                toks,
                #[trigger] spec_failed_positions(toks)[i],
            ) && typed_positions().contains(spec_failed_positions(toks)[i]),
        forall|a: int, b: int|
            0 <= a < b < spec_failed_positions(toks).len() ==> spec_failed_positions(toks)[a]
                < spec_failed_positions(toks)[b],
{
    broadcast use vstd::seq_lib::group_filter_ensures;

    let ps = typed_positions();
    lemma_filter_in(ps, field_fails(toks));
    assert(forall|a: int, b: int| 0 <= a < b < ps.len() ==> ps[a] < ps[b]);
    lemma_filter_sorted(ps, field_fails(toks));
}

/// Purity: equal lines parse to equal outcomes.
pub proof fn lemma_parse_line_pure(l1: Seq<char>, l2: Seq<char>)
    requires
        l1 == l2,
    ensures
        spec_parse_line(l1) == spec_parse_line(l2),
{
}

/// Quote stripping removes at most one leading and at most one trailing
/// double quote and alters no inner character: the result is a contiguous
/// span of the token.
pub proof fn lemma_strip_quotes_span(s: Seq<char>)
    ensures
        exists|i: int, j: int|
            0 <= i <= 1 && i <= j <= s.len() && s.len() - j <= 1 && spec_strip_quotes(s)
                == s.subrange(i, j),
{
    let i: int = if s.len() > 0 && s[0] == '"' {
        1
    } else {
        0
    };
    let t = if s.len() > 0 && s[0] == '"' {
        s.subrange(1, s.len() as int)
    } else {
        s
    };
    let j: int = if t.len() > 0 && t[t.len() - 1] == '"' {
        s.len() - 1
    } else {
        s.len() as int
    };
    assert(spec_strip_quotes(s) =~= s.subrange(i, j));
    assert(0 <= i <= 1 && i <= j <= s.len() && s.len() - j <= 1 && spec_strip_quotes(s)
        == s.subrange(i, j));
}

/// Token at position `i` of the split line, or the empty string for a
/// position past the end.
fn token_at<'a>(toks: &'a Vec<String>, i: usize) -> (r: &'a str)
    ensures
        r@ == spec_token(toks@.map_values(|t: String| t@), i as int),
{
    if i < toks.len() {
        toks[i].as_str()
    } else {
        let r = "";
        proof {
            reveal_strlit("");
            assert(r@ =~= Seq::<char>::empty());
        }
        r
    }
}

/// Remove at most one leading and at most one trailing double quote.
pub fn strip_quotes(s: &str) -> (r: String)
    ensures
        r@ == spec_strip_quotes(s@),
{
    let n = s.unicode_len();
    let start: usize = if n > 0 && s.get_char(0) == '"' {
        1
    } else {
        0
    };
    let end: usize = if n > start && s.get_char(n - 1) == '"' {
        n - 1
    } else {
        n
    };
    let r = s.substring_char(start, end).to_owned();
    proof {
        assert(r@ =~= spec_strip_quotes(s@));
    }
    r
}

/// Record the outcome of one typed field: push its tagged error when the
/// field failed, leave the list unchanged when it parsed.
fn note_field(
    errors: &mut Vec<ParsingError>,
    Ghost(tv): Ghost<Seq<Seq<char>>>,
    Ghost(j): Ghost<int>,
    ok: bool,
    tag: &'static str,
    cause: &'static str,
)
    requires
        ok == typed_field_ok(tv, j),
        tag@ == spec_tag(j),
        cause@ == spec_cause(j),
    ensures
        final(errors)@.map_values(|e: ParsingError| e@) == old(errors)@.map_values(
            |e: ParsingError| e@,
        ) + err_opt(tv, j),
{
    if !ok {
        errors.push(ParsingError { property: tag, inner_description: cause.to_owned() });
        proof {
            assert(errors@.map_values(|e: ParsingError| e@) =~~= old(errors)@.map_values(
                |e: ParsingError| e@,
            ) + err_opt(tv, j));
        }
    } else {
        proof {
            assert(errors@.map_values(|e: ParsingError| e@) =~~= old(errors)@.map_values(
                |e: ParsingError| e@,
            ) + err_opt(tv, j));
        }
    }
}

/// Parse one log line: a record when every typed field parses, otherwise
/// the verbatim line with one error per malformed typed field, in field
/// order.  Total and pure: the result is a function of the line alone.
#[verifier::rlimit(100)]
pub fn parse_line(line: &String) -> (r: Result<ELBLogEntry, ParsingErrors>)
    ensures
        r is Ok <==> spec_line_ok(line@),
        r matches Ok(entry) ==> entry@ == spec_record_of(line@),
        r matches Err(f) ==> f@ == spec_failure_of(line@) && f@.errors.len() > 0,
{
    let toks = split_spaces(line.as_str());
    let ghost tv = toks@.map_values(|t: String| t@);
    let mut errors: Vec<ParsingError> = Vec::new();
    proof {
        assert(errors@.map_values(|e: ParsingError| e@) =~~= Seq::<ParsingErrorV>::empty());
    }
    let ts_o = parse_timestamp(token_at(&toks, 0));
    note_field(&mut errors, Ghost(tv), Ghost(0), ts_o.is_some(), TIMESTAMP, "invalid timestamp");
    let clnt_o = parse_endpoint(token_at(&toks, 2));
    note_field(
        &mut errors,
        Ghost(tv),
        Ghost(2),
        clnt_o.is_some(),
        CLIENT_ADDRESS,
        "invalid IPv4 endpoint",
    );
    let be_o = parse_endpoint(token_at(&toks, 3));
    note_field(
        &mut errors,
        Ghost(tv),
        Ghost(3),
        be_o.is_some(),
        BACKEND_ADDRESS,
        "invalid IPv4 endpoint",
    );
    let f4 = is_float_literal(token_at(&toks, 4));
    note_field(
        &mut errors,
        Ghost(tv),
        Ghost(4),
        f4,
        REQUEST_PROCESSING_TIME,
        "invalid 32-bit float",
    );
    let f5 = is_float_literal(token_at(&toks, 5));
    note_field(
        &mut errors,
        Ghost(tv),
        Ghost(5),
        f5,
        BACKEND_PROCESSING_TIME,
        "invalid 32-bit float",
    );
    let f6 = is_float_literal(token_at(&toks, 6));
    note_field(
        &mut errors,
        Ghost(tv),
        Ghost(6),
        f6,
        RESPONSE_PROCESSING_TIME,
        "invalid 32-bit float",
    );
    let elb_sc_o = parse_u16(token_at(&toks, 7));
    note_field(
        &mut errors,
        Ghost(tv),
        Ghost(7),
        elb_sc_o.is_some(),
        ELB_STATUS_CODE,
        "invalid unsigned 16-bit integer",
    );
    let be_sc_o = parse_u16(token_at(&toks, 8));
    note_field(
        &mut errors,
        Ghost(tv),
        Ghost(8),
        be_sc_o.is_some(),
        BE_STATUS_CODE,
        "invalid unsigned 16-bit integer",
    );
    let recv_o = parse_u64(token_at(&toks, 9));
    note_field(
        &mut errors,
        Ghost(tv),
        Ghost(9),
        recv_o.is_some(),
        RECEIVED_BYTES,
        "invalid unsigned 64-bit integer",
    );
    let sent_o = parse_u64(token_at(&toks, 10));
    note_field(
        &mut errors,
        Ghost(tv),
        Ghost(10),
        sent_o.is_some(),
        SENT_BYTES,
        "invalid unsigned 64-bit integer",
    );
    proof {
        lemma_spec_errors_unroll(tv);
        assert(errors@.map_values(|e: ParsingError| e@) == spec_errors(tv));
    }
    if errors.len() == 0 {
        proof {
            assert(typed_field_ok(tv, 0) && typed_field_ok(tv, 2) && typed_field_ok(tv, 3)
                && typed_field_ok(tv, 4) && typed_field_ok(tv, 5) && typed_field_ok(tv, 6)
                && typed_field_ok(tv, 7) && typed_field_ok(tv, 8) && typed_field_ok(tv, 9)
                && typed_field_ok(tv, 10));
        }
        let entry = ELBLogEntry {
            timestamp: ts_o.unwrap(),
            elb_name: token_at(&toks, 1).to_owned(),
            client_address: clnt_o.unwrap(),
            backend_address: be_o.unwrap(),
            request_processing_time: token_at(&toks, 4).to_owned(),
            backend_processing_time: token_at(&toks, 5).to_owned(),
            response_processing_time: token_at(&toks, 6).to_owned(),
            elb_status_code: elb_sc_o.unwrap(),
            backend_status_code: be_sc_o.unwrap(),
            received_bytes: recv_o.unwrap(),
            sent_bytes: sent_o.unwrap(),
            request_method: strip_quotes(token_at(&toks, 11)),
            request_url: token_at(&toks, 12).to_owned(),
            request_http_version: strip_quotes(token_at(&toks, 13)),
        };
        proof {
            assert(entry@ =~~= spec_record_of(line@));
        }
        Ok(entry)
    } else {
        let failure = ParsingErrors { record: line.clone(), errors };
        proof {
            assert(failure@ =~~= spec_failure_of(line@));
        }
        Err(failure)
    }
}

/// The records of the lines that parse, in file order.
pub open spec fn spec_records(lines: Seq<Seq<char>>) -> Seq<LogEntryV>
    decreases lines.len(),
{
    if lines.len() == 0 {
        Seq::empty()
    } else if spec_line_ok(lines.last()) {
        spec_records(lines.drop_last()).push(spec_record_of(lines.last()))
    } else {
        spec_records(lines.drop_last())
    }
}

/// The failures of the lines that do not parse, in file order.
pub open spec fn spec_failures(lines: Seq<Seq<char>>) -> Seq<ParsingErrorsV>
    decreases lines.len(),
{
    if lines.len() == 0 {
        Seq::empty()
    } else if spec_line_ok(lines.last()) {
        spec_failures(lines.drop_last())
    } else {
        spec_failures(lines.drop_last()).push(spec_failure_of(lines.last()))
    }
}

/// Parse a batch of lines: the records and the failures, each in line
/// order.  Every line lands in exactly one of the two, so the counts add
/// up to the number of lines.
pub fn parse_lines(lines: &Vec<String>) -> (r: (Vec<ELBLogEntry>, Vec<ParsingErrors>))
    ensures
        r.0@.map_values(|e: ELBLogEntry| e@) == spec_records(lines@.map_values(|l: String| l@)),
        r.1@.map_values(|f: ParsingErrors| f@) == spec_failures(
            lines@.map_values(|l: String| l@),
        ),
        r.0@.len() + r.1@.len() == lines@.len(),
{
    let ghost lv = lines@.map_values(|l: String| l@);
    let mut recs: Vec<ELBLogEntry> = Vec::new();
    let mut fails: Vec<ParsingErrors> = Vec::new();
    proof {
        assert(lv.take(0) =~= Seq::<Seq<char>>::empty());
    }
    let n = lines.len();
    let mut i: usize = 0;
    while i < n
        invariant
            i <= n,
            n == lines.len(),
            lv == lines@.map_values(|l: String| l@),
            recs@.map_values(|e: ELBLogEntry| e@) == spec_records(lv.take(i as int)),
            fails@.map_values(|f: ParsingErrors| f@) == spec_failures(lv.take(i as int)),
            recs@.len() + fails@.len() == i,
        decreases n - i,
    {
        proof {
            assert(lv.take(i + 1).drop_last() =~= lv.take(i as int));
            assert(lv.take(i + 1).last() == lv[i as int]);
        }
        match parse_line(&lines[i]) {
            Ok(e) => {
                recs.push(e);
                proof {
                    assert(recs@.map_values(|e: ELBLogEntry| e@) =~~= spec_records(
                        lv.take(i + 1),
                    ));
                }
            },
            Err(f) => {
                fails.push(f);
                proof {
                    assert(fails@.map_values(|f: ParsingErrors| f@) =~~= spec_failures(
                        lv.take(i + 1),
                    ));
                }
            },
        }
        i = i + 1;
    }
    proof {
        assert(lv.take(n as int) =~= lv);
    }
    (recs, fails)
}

} // verus!

