//! Boundary cases, error aggregation, quote stripping and the timestamp
//! round trip, exercised on concrete values.

use chrono::Datelike;
use chrono::Timelike;
use elb_logs::endpoint::parse_endpoint;
use elb_logs::numbers::parse_u16;
use elb_logs::numbers::parse_u64;
use elb_logs::parser::parse_line;
use elb_logs::parser::parse_lines;
use elb_logs::parser::strip_quotes;
use elb_logs::timestamp::parse_timestamp;
use elb_logs::walk::file_list;

fn line_with(elb_status: &str, sent: &str) -> String {
    format!(
        "2015-08-15T23:43:05.302180Z elb-name 172.16.1.6:54814 172.16.1.5:9000 \
         0.000039 0.145507 0.00003 {} 200 0 {} \"GET http://host/ HTTP/1.1\"",
        elb_status, sent
    )
}

#[test]
fn empty_line_fails_on_every_typed_field() {
    let failure = parse_line(&"".to_string()).unwrap_err();

    assert_eq!(failure.record, "");
    assert_eq!(failure.errors.len(), 10);
    assert_eq!(failure.errors[0].property, "timestamp");
}

#[test]
fn sent_bytes_at_the_unsigned_64_bit_maximum_parses() {
    let entry = parse_line(&line_with("200", "18446744073709551615")).unwrap();

    assert_eq!(entry.sent_bytes, 18446744073709551615);
}

#[test]
fn sent_bytes_one_above_the_maximum_fails() {
    let failure = parse_line(&line_with("200", "18446744073709551616")).unwrap_err();

    assert_eq!(failure.errors.len(), 1);
    assert_eq!(failure.errors[0].property, "sent bytes");
}

#[test]
fn status_code_999_parses_and_65536_fails() {
    let entry = parse_line(&line_with("999", "7582")).unwrap();
    assert_eq!(entry.elb_status_code, 999);

    let failure = parse_line(&line_with("65536", "7582")).unwrap_err();
    assert_eq!(failure.errors.len(), 1);
    assert_eq!(failure.errors[0].property, "ELB status code");
}

#[test]
fn a_status_code_word_is_the_only_reported_error() {
    let failure = parse_line(&line_with("two-hundred", "7582")).unwrap_err();

    assert_eq!(failure.errors.len(), 1);
    assert_eq!(failure.errors[0].property, "ELB status code");
}

#[test]
fn float_zero_parses_as_zero() {
    let line = "2015-08-15T23:43:05.302180Z elb-name 172.16.1.6:54814 172.16.1.5:9000 \
                0 0.145507 0.00003 200 200 0 7582 \"GET http://host/ HTTP/1.1\"";
    let entry = parse_line(&line.to_string()).unwrap();

    assert_eq!(entry.request_processing_time.parse::<f32>().unwrap(), 0.0);
}

#[test]
fn two_malformed_fields_give_two_errors_in_field_order() {
    let line = "bad-timestamp elb-name 172.16.1.6:54814 172.16.1.5:9000 \
                0.000039 0.145507 0.00003 200 200 0 wrong \"GET http://host/ HTTP/1.1\"";
    let failure = parse_line(&line.to_string()).unwrap_err();

    assert_eq!(failure.errors.len(), 2);
    assert_eq!(failure.errors[0].property, "timestamp");
    assert_eq!(failure.errors[1].property, "sent bytes");
}

#[test]
fn timestamp_round_trips_through_parse_and_format() {
    let token = "2015-08-15T23:43:05.302180Z";
    let ts = parse_timestamp(token).unwrap();

    assert_eq!(ts.to_text(), token);
}

#[test]
fn timestamp_components_agree_with_chrono() {
    let token = "2015-08-15T23:43:05.302180Z";
    let ts = parse_timestamp(token).unwrap();
    let reference: chrono::DateTime<chrono::Utc> = token.parse().unwrap();

    assert_eq!(ts.year as i32, reference.year());
    assert_eq!(ts.month as u32, reference.month());
    assert_eq!(ts.day as u32, reference.day());
    assert_eq!(ts.hour as u32, reference.hour());
    assert_eq!(ts.minute as u32, reference.minute());
    assert_eq!(ts.second as u32, reference.second());
    assert_eq!(ts.micro as u32, reference.timestamp_subsec_micros());
}

#[test]
fn timestamp_respects_leap_years() {
    assert!(parse_timestamp("2016-02-29T00:00:00.000000Z").is_some());
    assert!(parse_timestamp("2015-02-29T00:00:00.000000Z").is_none());
    assert!(parse_timestamp("1900-02-29T00:00:00.000000Z").is_none());
    assert!(parse_timestamp("2000-02-29T00:00:00.000000Z").is_some());
}

#[test]
fn timestamp_rejects_other_shapes() {
    assert!(parse_timestamp("2015-08-15T23:43:05Z").is_none());
    assert!(parse_timestamp("2015-08-15 23:43:05.302180Z").is_none());
    assert!(parse_timestamp("2015-13-15T23:43:05.302180Z").is_none());
    assert!(parse_timestamp("2015-08-15T24:43:05.302180Z").is_none());
}

#[test]
fn quote_stripping_takes_at_most_one_from_each_end() {
    assert_eq!(strip_quotes("\"GET"), "GET");
    assert_eq!(strip_quotes("HTTP/1.1\""), "HTTP/1.1");
    assert_eq!(strip_quotes("\"both\""), "both");
    assert_eq!(strip_quotes("\"\"double\"\""), "\"double\"");
    assert_eq!(strip_quotes("in\"ner"), "in\"ner");
    assert_eq!(strip_quotes("\""), "");
    assert_eq!(strip_quotes("\"\""), "");
}

#[test]
fn endpoints_reject_bad_octets_and_ports() {
    assert!(parse_endpoint("172.16.1.6:54814").is_some());
    assert!(parse_endpoint("01.2.3.4:80").is_none());
    assert!(parse_endpoint("256.2.3.4:80").is_none());
    assert!(parse_endpoint("1.2.3.4:65536").is_none());
    assert!(parse_endpoint("1.2.3.4:080").is_some());
    assert!(parse_endpoint("1.2.3.4").is_none());
    assert!(parse_endpoint("1.2.3.4:").is_none());
    let e = parse_endpoint("0.255.3.4:65535").unwrap();
    assert_eq!((e.a, e.b, e.c, e.d, e.port), (0, 255, 3, 4, 65535));
}

#[test]
fn integers_reject_signs_and_separators() {
    assert_eq!(parse_u64("7582"), Some(7582));
    assert!(parse_u64("+7582").is_none());
    assert!(parse_u64("-1").is_none());
    assert!(parse_u64("7_582").is_none());
    assert!(parse_u64("7582 ").is_none());
    assert!(parse_u64("").is_none());
    assert_eq!(parse_u16("999"), Some(999));
    assert!(parse_u16("65536").is_none());
}

#[test]
fn parse_lines_counts_records_and_failures_separately() {
    let good = "2015-08-15T23:43:05.302180Z elb-name 172.16.1.6:54814 172.16.1.5:9000 \
                0.000039 0.145507 0.00003 200 200 0 7582 \"GET http://host/ HTTP/1.1\"";
    let lines = vec![good.to_string(), "not a log line".to_string()];
    let (records, failures) = parse_lines(&lines);

    assert_eq!(records.len(), 1);
    assert_eq!(failures.len(), 1);
    assert_eq!(failures[0].record, "not a log line");
}

#[test]
fn file_list_surfaces_a_traversal_error_on_a_missing_root() {
    let mut entries = Vec::new();
    let result = file_list(std::path::Path::new("this-directory-does-not-exist"), &mut entries);

    assert!(result.is_err());
    assert_eq!(entries.len(), 0);
}
