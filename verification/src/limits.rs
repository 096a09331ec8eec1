//! Limits and timeouts: what a server, a connection and a request may use.

use std::time::Duration;
use vstd::prelude::*;

verus! {

/// The length of a `Duration` in nanoseconds, as `Duration::as_nanos`
/// returns it.
pub uninterp spec fn nanos(d: Duration) -> nat;

/// Calls `Duration::from_secs`, which makes a duration of that many whole
/// seconds.
#[verifier::external_body]
pub(crate) fn seconds(secs: u64) -> (d: Duration)
    ensures
        nanos(d) == secs * 1_000_000_000,
{
    Duration::from_secs(secs)
}

/// Calls `Duration::from_micros`, which makes a duration of that many
/// microseconds.
#[verifier::external_body]
pub(crate) fn microseconds(micros: u64) -> (d: Duration)
    ensures
        nanos(d) == micros * 1_000,
{
    Duration::from_micros(micros)
}

/// Compares two durations with `>`, which orders them by their length.
#[verifier::external_body]
pub(crate) fn longer(a: &Duration, b: &Duration) -> (r: bool)
    ensures
        r == (nanos(*a) > nanos(*b)),
{
    a > b
}

/// Calls `Duration::saturating_sub`, which subtracts one duration from
/// another and gives zero where the result would be negative.
#[verifier::external_body]
pub(crate) fn since(now: &Duration, then: &Duration) -> (d: Duration)
    ensures
        nanos(d) == if nanos(*now) >= nanos(*then) {
            (nanos(*now) - nanos(*then)) as nat
        } else {
            0
        },
{
    now.saturating_sub(*then)
}

/// How an idle worker waits for the next connection.
#[derive(Debug, Clone, Copy)]
pub enum WaitStrategy {
    /// Give the scheduler a turn between two looks at the queue.
    Yield,
    /// Sleep for the given time between two looks at the queue.
    Sleep(Duration),
}

/// Limits of the server as a whole.
#[derive(Debug, Clone, Copy)]
pub struct ServerLimits {
    /// Number of connections served at the same time, which is the number of
    /// workers.
    pub max_connections: usize,
    /// Number of accepted connections that may wait for a worker.
    pub max_pending_connections: usize,
    /// How an idle worker waits.
    pub wait_strategy: WaitStrategy,
    /// Number of tasks that answer `503` to connections over the limit;
    /// with `0` such connections are dropped.
    pub count_503_handlers: usize,
    /// Whether error responses carry a JSON body.
    pub json_errors: bool,
}

impl Default for ServerLimits {
    fn default() -> (r: Self)
        ensures
            r.max_connections == 100,
            r.max_pending_connections == 250,
            r.wait_strategy matches WaitStrategy::Sleep(d) && nanos(d) == 50_000,
            r.count_503_handlers == 1,
            r.json_errors,
    {
        Self {
            max_connections: 100,
            max_pending_connections: 250,
            wait_strategy: WaitStrategy::Sleep(microseconds(50)),
            count_503_handlers: 1,
            json_errors: true,
        }
    }
}

/// Limits of one HTTP/1.x connection.
#[derive(Debug, Clone, Copy)]
pub struct ConnLimits {
    /// Longest wait for the bytes of a request.
    pub socket_read_timeout: Duration,
    /// Longest wait for a response to be written.
    pub socket_write_timeout: Duration,
    /// Number of requests served on one connection.
    pub max_requests_per_connection: usize,
    /// Age after which a connection takes no further request.
    pub connection_lifetime: Duration,
}

impl Default for ConnLimits {
    fn default() -> (r: Self)
        ensures
            nanos(r.socket_read_timeout) == 2_000_000_000,
            nanos(r.socket_write_timeout) == 3_000_000_000,
            nanos(r.connection_lifetime) == 120_000_000_000,
            r.max_requests_per_connection == 100,
    {
        Self {
            socket_read_timeout: seconds(2),
            socket_write_timeout: seconds(3),
            connection_lifetime: seconds(120),
            max_requests_per_connection: 100,
        }
    }
}

/// Limits of one HTTP/0.9+ connection. A server that is given these limits
/// accepts HTTP/0.9+ requests.
#[derive(Debug, Clone, Copy)]
pub struct Http09Limits {
    /// Number of requests served on one connection.
    pub max_requests_per_connection: usize,
    /// Age after which a connection takes no further request.
    pub connection_lifetime: Duration,
}

impl Default for Http09Limits {
    fn default() -> (r: Self)
        ensures
            r.max_requests_per_connection == 250,
            nanos(r.connection_lifetime) == 30_000_000_000,
    {
        Self { max_requests_per_connection: 250, connection_lifetime: seconds(30) }
    }
}

/// Sizes derived from the request limits.
#[derive(Debug, Clone, Copy, Default)]
pub struct ReqLimitsPrecalc {
    /// Size of the request buffer.
    pub buffer: usize,
    /// Size of the longest first line.
    pub first_line: usize,
    /// Size of the request buffer without the body.
    pub req_without_body: usize,
    /// Size of the longest header line.
    pub h_line: usize,
}

/// Limits of one request.
#[derive(Debug, Clone, Copy)]
pub struct ReqLimits {
    /// Longest URL, path and query together.
    pub url_size: usize,
    /// Number of segments in a path.
    pub url_parts: usize,
    /// Longest query string, its `?` included.
    pub url_query_size: usize,
    /// Number of query parameters.
    pub url_query_parts: usize,
    /// Number of headers, `content-length` and `connection` not counted.
    pub header_count: usize,
    /// Longest header name.
    pub header_name_size: usize,
    /// Longest header value.
    pub header_value_size: usize,
    /// Longest body.
    pub body_size: usize,
    /// The derived sizes; `precalculate` fills them in.
    pub precalc: ReqLimitsPrecalc,
}

impl Default for ReqLimits {
    fn default() -> (r: Self)
        ensures
            r.url_size == 256,
            r.url_parts == 8,
            r.url_query_size == 128,
            r.url_query_parts == 8,
            r.header_count == 16,
            r.header_name_size == 64,
            r.header_value_size == 512,
            r.body_size == 4096,
            r.precalc == (ReqLimitsPrecalc { buffer: 0, first_line: 0, req_without_body: 0, h_line: 0 }),
    {
        Self {
            url_size: 256,
            url_parts: 8,
            url_query_size: 128,
            url_query_parts: 8,
            header_count: 16,
            header_name_size: 64,
            header_value_size: 512,
            body_size: 4096,
            precalc: ReqLimitsPrecalc { buffer: 0, first_line: 0, req_without_body: 0, h_line: 0 },
        }
    }
}

impl ReqLimits {
    /// Size of the longest first line: a method of seven bytes, a space, the
    /// URL, a space, a version of eight bytes and the line break.
    pub open spec fn spec_first_line(&self) -> int {
        19 + self.url_size
    }

    /// Size of the longest header line: name, `": "`, value and the line
    /// break.
    pub open spec fn spec_h_line(&self) -> int {
        self.header_name_size + self.header_value_size + 4
    }

    /// Size of the request buffer: the first line, the header lines, the
    /// blank line and the body.
    pub open spec fn spec_buffer(&self) -> int {
        self.spec_first_line() + self.header_count * self.spec_h_line() + 2 + self.body_size
    }

    /// Whether all derived sizes can be held in a `usize`.
    pub open spec fn spec_fits(&self) -> bool {
        self.spec_h_line() <= usize::MAX && self.spec_buffer() <= usize::MAX
    }

    /// Whether the derived sizes are filled in.
    pub open spec fn is_precalculated(&self) -> bool {
        &&& self.spec_fits()
        &&& self.precalc.first_line == self.spec_first_line()
        &&& self.precalc.h_line == self.spec_h_line()
        &&& self.precalc.buffer == self.spec_buffer()
        &&& self.precalc.req_without_body == self.spec_buffer() - self.body_size
    }

    /// Whether all derived sizes can be held in a `usize`.
    pub fn fits(&self) -> (r: bool)
        ensures
            r == self.spec_fits(),
    {
        let first_line = match self.url_size.checked_add(19) {
            Some(v) => v,
            None => {
                return false;
            },
        };
        let names_values = match self.header_name_size.checked_add(self.header_value_size) {
            Some(v) => v,
            None => {
                return false;
            },
        };
        let h_line = match names_values.checked_add(4) {
            Some(v) => v,
            None => {
                return false;
            },
        };
        let headers = match self.header_count.checked_mul(h_line) {
            Some(v) => v,
            None => {
                return false;
            },
        };
        let head = match first_line.checked_add(headers) {
            Some(v) => v,
            None => {
                return false;
            },
        };
        let head_end = match head.checked_add(2) {
            Some(v) => v,
            None => {
                return false;
            },
        };
        head_end.checked_add(self.body_size).is_some()
    }

    /// The size of the buffer that a request under these limits needs.
    pub fn estimated_buffer_size(self) -> (r: usize)
        requires
            self.spec_fits(),
        ensures
            r == self.spec_buffer(),
    {
        self.precalculate().precalc.buffer
    }

    /// The same limits with the derived sizes filled in.
    pub fn precalculate(self) -> (r: Self)
        requires
            self.spec_fits(),
        ensures
            r.is_precalculated(),
            r == (ReqLimits { precalc: r.precalc, ..self }),
    {
        let mut r = self;
        r.precalc.first_line = r.first_line();
        r.precalc.h_line = r.h_line();
        r.precalc.buffer = r.buffer();
        r.precalc.req_without_body = r.precalc.buffer - r.body_size;
        r
    }

    /// Size of the request buffer, from the derived line sizes.
    fn buffer(&self) -> (r: usize)
        requires
            self.spec_fits(),
            self.precalc.first_line == self.spec_first_line(),
            self.precalc.h_line == self.spec_h_line(),
        ensures
            r == self.spec_buffer(),
    {
        self.precalc.first_line + self.header_count * self.precalc.h_line + 2 + self.body_size
    }

    /// Size of the longest first line.
    fn first_line(&self) -> (r: usize)
        requires
            self.spec_fits(),
        ensures
            r == self.spec_first_line(),
    {
        19 + self.url_size
    }

    /// Size of the longest header line.
    fn h_line(&self) -> (r: usize)
        requires
            self.spec_fits(),
        ensures
            r == self.spec_h_line(),
    {
        self.header_name_size + self.header_value_size + 4
    }
}

/// Limits of the response buffer.
#[derive(Debug, Clone, Copy)]
pub struct RespLimits {
    /// Capacity that a fresh response buffer is given.
    pub default_capacity: usize,
    /// Capacity above which a used response buffer is replaced by a fresh
    /// one.
    pub max_capacity: usize,
}

impl Default for RespLimits {
    fn default() -> (r: Self)
        ensures
            r.default_capacity == 1024,
            r.max_capacity == 8192,
    {
        Self { default_capacity: 1024, max_capacity: 8192 }
    }
}

} // verus!
