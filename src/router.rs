use vstd::prelude::*;

use crate::http_request::{HttpRequest, Method, Resource};
use crate::text::{chars_of, find_char, find_from, lemma_find_from, same_chars, slice_chars};

verus! {

/// The kind of handler that answers a request.
#[derive(PartialEq, Eq, Structural, Clone, Copy, Debug)]
pub enum HandlerCategory {
    WebService,
    StaticPage,
    NotFound,
}

/// The part of `path` between its first and second `'/'` (or the end), if it has a `'/'`.
pub open spec fn second_segment(path: Seq<char>) -> Option<Seq<char>> {
    let a = find_from(path, '/', 0);
    if a < path.len() {
        Some(path.subrange(a + 1, find_from(path, '/', a + 1)))
    } else {
        None
    }
}

/// The handler for a method and path: a GET whose second segment is `api` goes to the web
/// service, any other GET to a static page, and any other method to "not found".
pub open spec fn route_of(method: Method, path: Seq<char>) -> HandlerCategory {
    if method == Method::Get {
        if second_segment(path) == Some("api"@) {
            HandlerCategory::WebService
        } else {
            HandlerCategory::StaticPage
        }
    } else {
        HandlerCategory::NotFound
    }
}

/// Sends each request to a kind of handler.
pub struct Router;

impl Router {
    /// The handler for `req`, chosen by its method and path.
    pub fn route(req: &HttpRequest) -> (r: HandlerCategory)
        ensures
            r == route_of(req@.method, req@.path),
    {
        match req.method {
            Method::Get => {
                let Resource::Path(p) = &req.resource;
                let cs = chars_of(p.as_str());
                let a = find_char(&cs, '/', 0);
                if a >= cs.len() {
                    return HandlerCategory::StaticPage;
                }
                proof {
                    lemma_find_from(cs@, '/', 0);
                }
                let b = find_char(&cs, '/', a + 1);
                if same_chars(&slice_chars(&cs, a + 1, b), &chars_of("api")) {
                    HandlerCategory::WebService
                } else {
                    HandlerCategory::StaticPage
                }
            },
            _ => HandlerCategory::NotFound,
        }
    }
}

/// Routing is total and depends on method and path alone: a GET whose second path segment
/// is `api` goes to the web service, any other GET (an empty or missing segment included)
/// to a static page, and every other method to "not found", whatever the path.
pub proof fn law_route_total(method: Method, path: Seq<char>)
    ensures
        method == Method::Get && second_segment(path) == Some("api"@) ==> route_of(method, path)
            == HandlerCategory::WebService,
        method == Method::Get && second_segment(path) != Some("api"@) ==> route_of(method, path)
            == HandlerCategory::StaticPage,
        method != Method::Get ==> route_of(method, path) == HandlerCategory::NotFound,
        forall|other: Seq<char>|
            method != Method::Get ==> route_of(method, path) == #[trigger] route_of(method, other),
{
}

} // verus!
