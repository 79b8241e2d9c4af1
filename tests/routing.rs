use http::http_request::HttpRequest;
use http::router::{HandlerCategory, Router};

fn route_text(s: &str) -> HandlerCategory {
    Router::route(&HttpRequest::parse(s).unwrap())
}

#[test]
fn api_on_http2_goes_to_web_service() {
    let req = HttpRequest::parse("GET /api HTTP/2.0\r\nHost: example.com\r\n\r\n").unwrap();
    assert_eq!(req.version, http::http_request::Version::V2_0);
    assert_eq!(req.resource, http::http_request::Resource::Path("/api".to_string()));
    assert_eq!(Router::route(&req), HandlerCategory::WebService);
}

#[test]
fn get_routes_by_second_segment() {
    assert_eq!(route_text("GET /api/shipping/orders HTTP/1.1"), HandlerCategory::WebService);
    assert_eq!(route_text("GET / HTTP/1.1"), HandlerCategory::StaticPage);
    assert_eq!(route_text("GET /index.html HTTP/1.1"), HandlerCategory::StaticPage);
    assert_eq!(route_text("GET /apis HTTP/1.1"), HandlerCategory::StaticPage);
    assert_eq!(route_text("GET //api HTTP/1.1"), HandlerCategory::StaticPage);
    assert_eq!(route_text("GET api HTTP/1.1"), HandlerCategory::StaticPage);
}

#[test]
fn post_routes_to_not_found() {
    assert_eq!(route_text("POST /api HTTP/1.1"), HandlerCategory::NotFound);
    assert_eq!(route_text("POST / HTTP/1.1"), HandlerCategory::NotFound);
}

#[test]
fn unknown_method_routes_to_not_found() {
    assert_eq!(route_text("PUT /api HTTP/1.1"), HandlerCategory::NotFound);
    assert_eq!(route_text(""), HandlerCategory::NotFound);
}
