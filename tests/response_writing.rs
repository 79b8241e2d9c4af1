use http::http_response::{HttpResponse, HttpVersion};

fn text_html() -> Option<Vec<(String, String)>> {
    Some(vec![("Content-Type".to_string(), "text/html".to_string())])
}

#[test]
fn test_response_struct_creation_200_http1_1() {
    let response_actual = HttpResponse::new(
        HttpVersion::Http1_1,
        "200".to_string(),
        None,
        Some("Item was shipped on 21st Dec 2020".into()),
    );
    let response_expected = HttpResponse {
        version: HttpVersion::Http1_1,
        status_code: "200".to_string(),
        status_text: "OK".to_string(),
        headers: text_html(),
        body: Some("Item was shipped on 21st Dec 2020".into()),
    };
    assert_eq!(response_actual, response_expected);
}

#[test]
fn test_response_struct_creation_404_http2_0() {
    let response_actual = HttpResponse::new(
        HttpVersion::Http2_0,
        "404".to_string(),
        None,
        Some("Item was shipped on 21st Dec 2020".into()),
    );
    let response_expected = HttpResponse {
        version: HttpVersion::Http2_0,
        status_code: "404".to_string(),
        status_text: "Not Found".to_string(),
        headers: text_html(),
        body: Some("Item was shipped on 21st Dec 2020".into()),
    };
    assert_eq!(response_actual, response_expected);
}

#[test]
fn test_http_response_creation_http1_1() {
    let response_expected = HttpResponse {
        version: HttpVersion::Http1_1,
        status_code: "404".to_string(),
        status_text: "Not Found".to_string(),
        headers: text_html(),
        body: Some("Item was shipped on 21st Dec 2020".into()),
    };
    let http_string: String = response_expected.into();
    let response_actual = "HTTP/1.1 404 Not Found\r\nContent-Type:text/html\r\nContent-Length: 33\r\n\r\nItem was shipped on 21st Dec 2020";
    assert_eq!(http_string, response_actual);
}

#[test]
fn test_http_response_creation_http2_0() {
    let response_expected = HttpResponse {
        version: HttpVersion::Http2_0,
        status_code: "404".to_string(),
        status_text: "Not Found".to_string(),
        headers: text_html(),
        body: Some("Item was shipped on 21st Dec 2020".into()),
    };
    let http_string: String = response_expected.into();
    let response_actual = ":status: 404\r\nContent-Type:text/html\r\ncontent-length: 33\r\n\r\nItem was shipped on 21st Dec 2020";
    assert_eq!(http_string, response_actual);
}

#[test]
fn status_texts_follow_the_table() {
    let t = |c: &str| HttpResponse::new(HttpVersion::Http1_1, c.to_string(), None, None).status_text;
    assert_eq!(t("200"), "OK");
    assert_eq!(t("400"), "Bad Request");
    assert_eq!(t("404"), "Not Found");
    assert_eq!(t("500"), "Internal Server Error");
    assert_eq!(t("302"), "Not Found");
    assert_eq!(t(""), "Not Found");
}

#[test]
fn given_headers_are_kept_as_they_are() {
    let h = vec![("X-A".to_string(), "1".to_string())];
    let r = HttpResponse::new(HttpVersion::Http1_1, "200".to_string(), Some(h.clone()), None);
    assert_eq!(r.headers, Some(h));
}

#[test]
fn absent_body_states_zero_length() {
    let r = HttpResponse::new(HttpVersion::Http1_1, "200".to_string(), None, None);
    assert_eq!(r.to_wire(), "HTTP/1.1 200 OK\r\nContent-Type:text/html\r\nContent-Length: 0\r\n\r\n");
    assert_eq!(r.body(), "");
}

#[test]
fn empty_body_states_zero_length() {
    let r = HttpResponse::new(HttpVersion::Http2_0, "500".to_string(), Some(vec![]), Some(String::new()));
    assert_eq!(r.to_wire(), ":status: 500\r\ncontent-length: 0\r\n\r\n");
}

#[test]
fn content_length_counts_bytes() {
    let r = HttpResponse::new(HttpVersion::Http1_1, "200".to_string(), Some(vec![]), Some("héllo".to_string()));
    assert_eq!(r.to_wire(), "HTTP/1.1 200 OK\r\nContent-Length: 6\r\n\r\nhéllo");
    assert_eq!(r.body(), "héllo");
}

#[test]
fn headers_are_written_in_order() {
    let h = vec![
        ("A".to_string(), "1".to_string()),
        ("B".to_string(), "2".to_string()),
    ];
    let body = "x".repeat(1234);
    let r = HttpResponse::new(HttpVersion::Http1_1, "400".to_string(), Some(h), Some(body.clone()));
    assert_eq!(
        r.to_wire(),
        format!("HTTP/1.1 400 Bad Request\r\nA:1\r\nB:2\r\nContent-Length: 1234\r\n\r\n{}", body)
    );
}

#[test]
fn default_response_is_200_ok() {
    let r = HttpResponse::default();
    assert_eq!(r.version, HttpVersion::Http1_1);
    assert_eq!(r.status_code, "200");
    assert_eq!(r.status_text, "OK");
    assert_eq!(r.headers, None);
    assert_eq!(r.body, None);
    assert_eq!(HttpVersion::default(), HttpVersion::Http1_1);
}

#[test]
fn send_response_appends_to_a_string_sink() {
    let r = HttpResponse::new(HttpVersion::Http2_0, "404".to_string(), None, Some("nope".to_string()));
    let mut out = String::from("> ");
    r.send_response(&mut out).unwrap();
    assert_eq!(out, "> :status: 404\r\nContent-Type:text/html\r\ncontent-length: 4\r\n\r\nnope");
}
