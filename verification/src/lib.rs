//! Request parsing, response building and connection bookkeeping for a small
//! HTTP/1.x server that also speaks a restricted HTTP/0.9 dialect.
//!
//! Every function in this crate carries a contract over plain mathematical
//! models (byte sequences, integers), and the contracts are machine-checked.
//! Socket I/O, timers and task scheduling live outside of it: the crate is
//! handed bytes and clock readings and hands back decisions and bytes.

use vstd::prelude::*;

pub mod bytes;
pub mod errors;
pub mod http;
pub mod limits;
pub mod server;

pub use crate::errors::ErrorKind;
pub use crate::http::query;
pub use crate::http::request::{Parser, Request};
pub use crate::http::response::{Handled, Response, ResponseState};
pub use crate::http::types::{Header, HeaderMap, Method, StatusCode, Url, Version};
pub use crate::http::write::{BodyWriter, WriteBuffer};
pub use crate::server::admission::{refusal, route, Admission, Refusal, Route};
pub use crate::server::connection::{Connection, ConnectionData, HttpConnection};

verus! {

/// Runs `f` on a fresh request and a fresh response, as a handler would be
/// run on the first request of a connection.
pub fn run_test<F: FnOnce(&Request, &mut Response) -> Handled>(f: F)
    requires
        forall|request: &Request, response: &mut Response|
            request.is_clear() && response.is_fresh() ==> #[trigger] call_requires(
                f,
                (request, response),
            ),
    ensures
        exists|request: &Request, response: &mut Response, handled: Handled|
            request.is_clear() && response.is_fresh() && #[trigger] call_ensures(
                f,
                (request, response),
                handled,
            ),
{
    let request = Request::new(&crate::limits::ReqLimits::default());
    let mut response = Response::new(&crate::limits::RespLimits::default());
    let _ = f(&request, &mut response);
}

} // verus!
