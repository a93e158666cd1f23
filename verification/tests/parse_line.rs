//! The canonical sample line parses into a record with every field as
//! written on the wire.

use elb_logs::endpoint::parse_endpoint;
use elb_logs::parser::parse_line;

const TEST_LINE: &'static str = "2015-08-15T23:43:05.302180Z elb-name 172.16.1.6:54814 \
    172.16.1.5:9000 0.000039 0.145507 0.00003 200 200 0 7582 \
    \"GET http://some.domain.com:80/path0/path1?param0=p0&param1=p1 HTTP/1.1\" \
    ";

#[test]
fn parse_line_returns_a_log_entry_with_the_request_http_version() {
    let elb_log_entry = parse_line(&TEST_LINE.to_string()).unwrap();

    assert_eq!(elb_log_entry.request_http_version, "HTTP/1.1")
}

#[test]
fn parse_line_returns_a_log_entry_with_the_request_url() {
    let elb_log_entry = parse_line(&TEST_LINE.to_string()).unwrap();

    assert_eq!(
        elb_log_entry.request_url,
        "http://some.domain.com:80/path0/path1?param0=p0&param1=p1"
    )
}

#[test]
fn parse_line_returns_a_log_entry_with_the_request_method() {
    let elb_log_entry = parse_line(&TEST_LINE.to_string()).unwrap();

    assert_eq!(elb_log_entry.request_method, "GET")
}

#[test]
fn parse_line_returns_a_log_entry_with_the_sent_bytes() {
    let elb_log_entry = parse_line(&TEST_LINE.to_string()).unwrap();

    assert_eq!(elb_log_entry.sent_bytes, 7582)
}

#[test]
fn parse_line_returns_a_log_entry_with_the_received_bytes() {
    let elb_log_entry = parse_line(&TEST_LINE.to_string()).unwrap();

    assert_eq!(elb_log_entry.received_bytes, 0)
}

#[test]
fn parse_line_returns_a_log_entry_with_the_backend_status_code() {
    let elb_log_entry = parse_line(&TEST_LINE.to_string()).unwrap();

    assert_eq!(elb_log_entry.backend_status_code, 200)
}

#[test]
fn parse_line_returns_a_log_entry_with_the_elb_status_code() {
    let elb_log_entry = parse_line(&TEST_LINE.to_string()).unwrap();

    assert_eq!(elb_log_entry.elb_status_code, 200)
}

#[test]
fn parse_line_returns_a_log_entry_with_the_response_processing_time() {
    let elb_log_entry = parse_line(&TEST_LINE.to_string()).unwrap();

    assert_eq!(
        elb_log_entry.response_processing_time.parse::<f32>().unwrap(),
        0.00003
    )
}

#[test]
fn parse_line_returns_a_log_entry_with_the_backend_processing_time() {
    let elb_log_entry = parse_line(&TEST_LINE.to_string()).unwrap();

    assert_eq!(
        elb_log_entry.backend_processing_time.parse::<f32>().unwrap(),
        0.145507
    )
}

#[test]
fn parse_line_returns_a_log_entry_with_the_request_processing_time() {
    let elb_log_entry = parse_line(&TEST_LINE.to_string()).unwrap();

    assert_eq!(
        elb_log_entry.request_processing_time.parse::<f32>().unwrap(),
        0.000039
    )
}

#[test]
fn parse_line_returns_a_log_entry_with_the_backend_address() {
    let elb_log_entry = parse_line(&TEST_LINE.to_string()).unwrap();

    assert_eq!(
        elb_log_entry.backend_address,
        parse_endpoint("172.16.1.5:9000").unwrap()
    )
}

#[test]
fn parse_line_returns_a_log_entry_with_the_client_address() {
    let elb_log_entry = parse_line(&TEST_LINE.to_string()).unwrap();

    assert_eq!(
        elb_log_entry.client_address,
        parse_endpoint("172.16.1.6:54814").unwrap()
    )
}

#[test]
fn parse_line_returns_a_log_entry_with_the_timestamp() {
    let elb_log_entry = parse_line(&TEST_LINE.to_string()).unwrap();

    assert_eq!(elb_log_entry.timestamp.to_text(), "2015-08-15T23:43:05.302180Z")
}

#[test]
fn parse_line_returns_a_log_entry_with_the_elb_name() {
    let elb_log_entry = parse_line(&TEST_LINE.to_string()).unwrap();

    assert_eq!(elb_log_entry.elb_name, "elb-name")
}
