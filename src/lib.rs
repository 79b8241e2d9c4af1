use vstd::prelude::*;

pub mod text;
pub mod http_request;
pub mod http_response;
pub mod router;

verus! {

} // verus!
