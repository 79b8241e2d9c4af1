use http::http_request::{
    process_header_line, process_req_line, HttpRequest, Method, ParseError, Resource, Version,
};
use std::collections::HashMap;

fn header_map(req: &HttpRequest) -> HashMap<String, String> {
    req.headers.iter().cloned().collect()
}

#[test]
fn test_method_into() {
    let m: Method = "GET".into();
    assert_eq!(m, Method::Get);
}

#[test]
fn test_version_into() {
    let v1: Version = "HTTP/1.1".into();
    assert_eq!(v1, Version::V1_1);

    let v2: Version = "HTTP/2.0".into();
    assert_eq!(v2, Version::V2_0);
}

#[test]
fn test_read_http() {
    let s: String = String::from("GET /greeting HTTP/1.1\r\nHost: localhost:3000\r\nUser-Agent: curl/7.64.1\r\nAccept: */*\r\n\r\n");
    let mut headers_expected = HashMap::new();
    headers_expected.insert("Host".to_string(), "localhost:3000".to_string());
    headers_expected.insert("Accept".to_string(), "*/*".to_string());
    headers_expected.insert("User-Agent".to_string(), "curl/7.64.1".to_string());
    let req = HttpRequest::parse(&s).unwrap();
    assert_eq!(Method::Get, req.method);
    assert_eq!(Version::V1_1, req.version);
    assert_eq!(Resource::Path("/greeting".to_string()), req.resource);
    assert_eq!(headers_expected, header_map(&req));
}

#[test]
fn test_read_http2() {
    let s: String = String::from("GET /api HTTP/2.0\r\nHost: example.com\r\nUser-Agent: chrome/91.0\r\nAccept: application/json\r\n\r\n");
    let mut headers_expected = HashMap::new();
    headers_expected.insert("Host".to_string(), "example.com".to_string());
    headers_expected.insert("Accept".to_string(), "application/json".to_string());
    headers_expected.insert("User-Agent".to_string(), "chrome/91.0".to_string());
    let req = HttpRequest::parse(&s).unwrap();
    assert_eq!(Method::Get, req.method);
    assert_eq!(Version::V2_0, req.version);
    assert_eq!(Resource::Path("/api".to_string()), req.resource);
    assert_eq!(headers_expected, header_map(&req));
}

#[test]
fn test_http_request_creation() {
    let s = String::from("GET /api HTTP/2.0\r\nHost: example.com\r\nUser-Agent: rust-test\r\n\r\n");
    let req = HttpRequest::parse(&s).unwrap();

    assert_eq!(req.method, Method::Get);
    assert_eq!(req.version, Version::V2_0);
    assert_eq!(req.resource, Resource::Path("/api".to_string()));

    let mut expected_headers = HashMap::new();
    expected_headers.insert("Host".to_string(), "example.com".to_string());
    expected_headers.insert("User-Agent".to_string(), "rust-test".to_string());

    assert_eq!(header_map(&req), expected_headers);
}

#[test]
fn unknown_tokens_degrade_to_uninitialized() {
    let m: Method = "DELETE".into();
    assert_eq!(m, Method::Uninitialized);
    let p: Method = "POST".into();
    assert_eq!(p, Method::Post);
    let v: Version = "HTTP/3".into();
    assert_eq!(v, Version::Uninitialized);
    let lower: Method = "get".into();
    assert_eq!(lower, Method::Uninitialized);
}

#[test]
fn two_token_request_line_is_malformed() {
    let r = HttpRequest::parse("GET HTTP/1.1");
    assert_eq!(r.unwrap_err(), ParseError::MalformedRequestLine);
    let r2 = HttpRequest::parse("Host: a\r\nHTTP/2.0\r\n\r\n");
    assert_eq!(r2.unwrap_err(), ParseError::MalformedRequestLine);
}

#[test]
fn request_line_round_trips_without_body() {
    let req = HttpRequest::parse("POST /items/7 HTTP/1.1").unwrap();
    assert_eq!(req.method, Method::Post);
    assert_eq!(req.version, Version::V1_1);
    assert_eq!(req.resource, Resource::Path("/items/7".to_string()));
    assert!(req.headers.is_empty());
    assert_eq!(req.msg_body, "");
}

#[test]
fn empty_text_gives_defaults() {
    let req = HttpRequest::parse("").unwrap();
    assert_eq!(req.method, Method::Uninitialized);
    assert_eq!(req.version, Version::Uninitialized);
    assert_eq!(req.resource, Resource::Path(String::new()));
    assert!(req.headers.is_empty());
    assert_eq!(req.msg_body, "");
}

#[test]
fn later_header_overwrites_earlier() {
    let req = HttpRequest::parse("GET / HTTP/1.1\r\nX: 1\r\nY: 2\r\nX: 3\r\n\r\n").unwrap();
    assert_eq!(req.headers.len(), 2);
    let mut expected = HashMap::new();
    expected.insert("X".to_string(), "3".to_string());
    expected.insert("Y".to_string(), "2".to_string());
    assert_eq!(header_map(&req), expected);
}

#[test]
fn header_order_does_not_change_the_mapping() {
    let a = HttpRequest::parse("GET / HTTP/1.1\r\nA: 1\r\nB: 2\r\nC: 3\r\n").unwrap();
    let b = HttpRequest::parse("GET / HTTP/1.1\r\nC: 3\r\nA: 1\r\nB: 2\r\n").unwrap();
    assert_eq!(header_map(&a), header_map(&b));
}

#[test]
fn header_keys_are_case_sensitive() {
    let req = HttpRequest::parse("GET / HTTP/1.1\r\nhost: a\r\nHost: b\r\n").unwrap();
    assert_eq!(req.headers.len(), 2);
}

#[test]
fn last_body_line_wins() {
    let req = HttpRequest::parse("POST /x HTTP/1.1\r\nHost: h\r\n\r\nfirst line\r\nsecond line").unwrap();
    assert_eq!(req.msg_body, "second line");
    assert_eq!(req.method, Method::Post);
}

#[test]
fn header_line_splits_at_first_colon_and_trims() {
    let (k, v) = process_header_line("  Host :  localhost:3000  ");
    assert_eq!(k, "Host");
    assert_eq!(v, "localhost:3000");
    let (k2, v2) = process_header_line(" no colon here ");
    assert_eq!(k2, "no colon here");
    assert_eq!(v2, "");
}

#[test]
fn request_line_tokens_split_on_any_whitespace() {
    let (m, r, v) = process_req_line("  GET\t/a/b   HTTP/2.0 extra").unwrap();
    assert_eq!(m, Method::Get);
    assert_eq!(r, Resource::Path("/a/b".to_string()));
    assert_eq!(v, Version::V2_0);
    assert_eq!(process_req_line("GET /").unwrap_err(), ParseError::MalformedRequestLine);
}

#[test]
fn bare_newlines_and_trailing_carriage_return() {
    let req = HttpRequest::parse("GET /p HTTP/1.1\nA: b\r\nbody\r").unwrap();
    assert_eq!(req.resource, Resource::Path("/p".to_string()));
    assert_eq!(req.msg_body, "body\r");
}
