//! One connection: its buffers, its limits, its age and its request count.

use crate::errors::ErrorKind;
use crate::http::request::{Parser, Request};
use crate::http::response::Response;
use crate::http::types::Version;
use crate::limits::{
    longer, nanos, since, ConnLimits, Http09Limits, ReqLimits, RespLimits, ServerLimits,
};
use std::time::Duration;
use vstd::prelude::*;

verus! {

/// State that a user of the server keeps for each connection, across the
/// requests of that connection.
pub trait ConnectionData: Sized {
    /// Whether the state is as `new` makes it. A kind of state that does
    /// not say what that means is taken at its word.
    open spec fn is_fresh(&self) -> bool {
        true
    }

    /// A fresh instance. Called once for each worker, when the server is
    /// built.
    fn new() -> (r: Self)
        ensures
            r.is_fresh(),
    ;

    /// Makes the instance as good as fresh. Called when a worker takes a
    /// new connection.
    fn reset(&mut self)
        ensures
            final(self).is_fresh(),
    ;
}

impl ConnectionData for () {
    fn new() -> (r: Self) {
        ()
    }

    fn reset(&mut self) {
    }
}

/// When a connection was taken, and how many requests it has served.
#[derive(Debug, Clone, Copy)]
pub struct Connection {
    /// The reading of the clock when the connection was taken.
    pub created: Duration,
    /// The number of requests served.
    pub request_count: usize,
}

impl Connection {
    /// A connection taken at `now` that has served nothing.
    pub fn new(now: Duration) -> (r: Self)
        ensures
            r.created == now,
            r.request_count == 0,
    {
        Self { created: now, request_count: 0 }
    }

    /// Makes the connection one taken at `now` that has served nothing.
    pub fn reset(&mut self, now: Duration)
        ensures
            final(self).created == now,
            final(self).request_count == 0,
    {
        self.created = now;
        self.request_count = 0;
    }
}

/// All that a worker keeps for the connection it serves. It is made once and
/// used for one connection after the other.
pub struct HttpConnection<S: ConnectionData> {
    /// The user's state.
    pub connection_data: S,
    /// Age and request count.
    pub connection: Connection,
    /// The request buffer.
    pub parser: Parser,
    /// The request parsed last.
    pub request: Request,
    /// The response under construction.
    pub response: Response,
    /// The limits of the server.
    pub server_limits: ServerLimits,
    /// The limits of an HTTP/1.x connection.
    pub conn_limits: ConnLimits,
    /// The limits of an HTTP/0.9+ connection; `None` where the server does
    /// not speak HTTP/0.9+.
    pub http_09_limits: Option<Http09Limits>,
    /// The limits of a request, precalculated.
    pub req_limits: ReqLimits,
    /// The limits of the response buffer.
    pub resp_limits: RespLimits,
}

impl<S: ConnectionData> HttpConnection<S> {
    /// The buffers are sound and the request limits are precalculated.
    pub open spec fn wf(&self) -> bool {
        &&& self.parser.wf()
        &&& self.request.url.wf()
        &&& self.response.wf()
        &&& self.req_limits.is_precalculated()
    }

    /// The number of requests that a connection may serve, by the version
    /// of the response written last.
    pub open spec fn max_requests(&self) -> usize {
        match (self.response.version, self.http_09_limits) {
            (Version::Http09, Some(limits)) => limits.max_requests_per_connection,
            _ => self.conn_limits.max_requests_per_connection,
        }
    }

    /// The age up to which a connection takes requests, by the version of
    /// the response written last.
    pub open spec fn lifetime(&self) -> Duration {
        match (self.response.version, self.http_09_limits) {
            (Version::Http09, Some(limits)) => limits.connection_lifetime,
            _ => self.conn_limits.connection_lifetime,
        }
    }

    /// The largest number of requests that any connection may serve:
    /// the limit of HTTP/1.x or, where the server speaks HTTP/0.9+, the
    /// larger of the two limits.
    pub open spec fn request_cap(&self) -> usize {
        match self.http_09_limits {
            Some(limits) => if limits.max_requests_per_connection
                > self.conn_limits.max_requests_per_connection {
                limits.max_requests_per_connection
            } else {
                self.conn_limits.max_requests_per_connection
            },
            None => self.conn_limits.max_requests_per_connection,
        }
    }

    /// The age of the connection at `now`; nothing where the clock has gone
    /// backwards.
    pub open spec fn age(&self, now: Duration) -> nat {
        if nanos(now) >= nanos(self.connection.created) {
            (nanos(now) - nanos(self.connection.created)) as nat
        } else {
            0
        }
    }

    /// Whether the connection takes no further request at `now`: the last
    /// response closes it, it has served as many requests as it may, or it
    /// is older than it may get.
    pub open spec fn expired(&self, now: Duration) -> bool {
        ||| !self.response.keep_alive
        ||| self.connection.request_count >= self.max_requests()
        ||| self.age(now) > nanos(self.lifetime())
    }

    /// What a worker keeps for its connections, made for the given limits
    /// at the time `now`.
    pub fn new(
        server_limits: ServerLimits,
        conn_limits: ConnLimits,
        http_09_limits: Option<Http09Limits>,
        req_limits: ReqLimits,
        resp_limits: RespLimits,
        now: Duration,
    ) -> (r: Self)
        requires
            req_limits.is_precalculated(),
        ensures
            r.wf(),
            r.connection_data.is_fresh(),
            r.connection.created == now,
            r.connection.request_count == 0,
            r.parser.is_fresh(req_limits.precalc.buffer as nat),
            r.request.is_clear(),
            r.response.is_fresh(),
            r.server_limits == server_limits,
            r.conn_limits == conn_limits,
            r.http_09_limits == http_09_limits,
            r.req_limits == req_limits,
            r.resp_limits == resp_limits,
    {
        Self {
            connection_data: S::new(),
            connection: Connection::new(now),
            parser: Parser::new(&req_limits),
            request: Request::new(&req_limits),
            response: Response::new(&resp_limits),
            server_limits,
            conn_limits,
            http_09_limits,
            req_limits,
            resp_limits,
        }
    }

    /// Makes parser, request and response as good as new, for the next
    /// request.
    pub fn reset_request_response(&mut self)
        requires
            old(self).req_limits.is_precalculated(),
        ensures
            final(self).wf(),
            final(self).parser.is_fresh(old(self).parser.buffer@.len()),
            final(self).request.is_clear(),
            final(self).response.is_fresh(),
            *final(self) == (HttpConnection {
                parser: final(self).parser,
                request: final(self).request,
                response: final(self).response,
                ..*old(self)
            }),
    {
        self.parser.reset();
        self.request.reset();
        self.response.reset(&self.resp_limits);
    }

    /// Takes a new connection at the time `now`: the age and the request
    /// count start over, and the user's state, the parser, the request and
    /// the response are reset.
    pub fn begin(&mut self, now: Duration)
        requires
            old(self).req_limits.is_precalculated(),
        ensures
            final(self).wf(),
            final(self).connection_data.is_fresh(),
            final(self).connection.created == now,
            final(self).connection.request_count == 0,
            final(self).parser.is_fresh(old(self).parser.buffer@.len()),
            final(self).request.is_clear(),
            final(self).response.is_fresh(),
            !final(self).expired(now) <==> 0 < final(self).conn_limits.max_requests_per_connection,
            *final(self) == (HttpConnection {
                connection_data: final(self).connection_data,
                connection: final(self).connection,
                parser: final(self).parser,
                request: final(self).request,
                response: final(self).response,
                ..*old(self)
            }),
    {
        self.connection.reset(now);
        self.connection_data.reset();
        self.reset_request_response();
    }

    /// Whether the connection takes no further request at `now`. A response
    /// of HTTP/0.9+ on a server that does not speak it is an error.
    pub fn is_expired(&self, now: Duration) -> (r: Result<bool, ErrorKind>)
        ensures
            r == if self.response.version == Version::Http09 && !self.http09() {
                Err::<bool, ErrorKind>(ErrorKind::UnsupportedVersion)
            } else {
                Ok::<bool, ErrorKind>(self.expired(now))
            },
    {
        let age = since(&now, &self.connection.created);
        match (self.response.version, &self.http_09_limits) {
            (Version::Http09, Some(limits)) => Ok(
                !self.response.keep_alive || self.connection.request_count
                    >= limits.max_requests_per_connection || longer(
                    &age,
                    &limits.connection_lifetime,
                ),
            ),
            (Version::Http09, None) => Err(ErrorKind::UnsupportedVersion),
            _ => Ok(
                !self.response.keep_alive || self.connection.request_count
                    >= self.conn_limits.max_requests_per_connection || longer(
                    &age,
                    &self.conn_limits.connection_lifetime,
                ),
            ),
        }
    }

    /// Decides at the time `now` whether the connection takes one more
    /// request, and if so makes parser, request and response ready for it.
    pub fn next_request(&mut self, now: Duration) -> (r: Result<bool, ErrorKind>)
        requires
            old(self).req_limits.is_precalculated(),
        ensures
            r == match old(self).is_expired_at(now) {
                Ok(expired) => Ok::<bool, ErrorKind>(!expired),
                Err(e) => Err::<bool, ErrorKind>(e),
            },
            r == Ok::<bool, ErrorKind>(true) ==> {
                &&& final(self).wf()
                &&& old(self).connection.request_count < old(self).max_requests()
                &&& old(self).connection.request_count < old(self).request_cap()
                &&& old(self).age(now) <= nanos(old(self).lifetime())
                &&& final(self).parser.is_fresh(old(self).parser.buffer@.len())
                &&& final(self).request.is_clear()
                &&& final(self).response.is_fresh()
                &&& *final(self) == (HttpConnection {
                    parser: final(self).parser,
                    request: final(self).request,
                    response: final(self).response,
                    ..*old(self)
                })
            },
            r != Ok::<bool, ErrorKind>(true) ==> *final(self) == *old(self),
    {
        if self.is_expired(now)? {
            return Ok(false);
        }
        self.reset_request_response();
        Ok(true)
    }

    /// What `is_expired` returns at `now`.
    pub open spec fn is_expired_at(&self, now: Duration) -> Result<bool, ErrorKind> {
        if self.response.version == Version::Http09 && !self.http09() {
            Err(ErrorKind::UnsupportedVersion)
        } else {
            Ok(self.expired(now))
        }
    }

    /// The response that reports `error` to the peer: written for the
    /// version of the request, with a JSON body where the server limits ask
    /// for one. A failure of reading or writing is reported to nobody.
    pub fn error_response(&self, error: &ErrorKind) -> (r: Option<Vec<u8>>)
        ensures
            match r {
                Some(bytes) => *error !is Io && bytes@ == error.response(
                    self.request.version,
                    self.server_limits.json_errors,
                ),
                None => *error is Io,
            },
    {
        match error {
            ErrorKind::Io => None,
            _ => Some(error.as_http(self.request.version, self.server_limits.json_errors)),
        }
    }

    /// Counts the request that was just answered, unless its response closes
    /// the connection. Returns whether the connection stays open.
    pub fn finish_request(&mut self) -> (r: bool)
        requires
            old(self).connection.request_count < old(self).request_cap(),
        ensures
            r == old(self).response.keep_alive,
            final(self).connection.request_count <= final(self).request_cap(),
            *final(self) == (HttpConnection {
                connection: Connection {
                    request_count: if r {
                        (old(self).connection.request_count + 1) as usize
                    } else {
                        old(self).connection.request_count
                    },
                    ..old(self).connection
                },
                ..*old(self)
            }),
    {
        if !self.response.keep_alive {
            return false;
        }
        self.connection.request_count += 1;
        true
    }
}

} // verus!
