use maker_web::limits::{ConnLimits, Http09Limits, ReqLimits, RespLimits, ServerLimits};
use maker_web::{
    refusal, route, Admission, Connection, ConnectionData, ErrorKind, HttpConnection, Refusal,
    Request, Response, ResponseState, Route, StatusCode, Version,
};
use std::time::Duration;

fn connection(http09: Option<Http09Limits>) -> HttpConnection<()> {
    HttpConnection::new(
        ServerLimits::default(),
        ConnLimits::default(),
        http09,
        ReqLimits::default().precalculate(),
        RespLimits::default(),
        Duration::from_secs(10),
    )
}

#[test]
fn new_connection() {
    let t = connection(None);
    let limits = ReqLimits::default().precalculate();

    assert_eq!(t.connection.created, Duration::from_secs(10));
    assert_eq!(t.connection.request_count, 0);
    assert_eq!(t.parser.buffer.len(), limits.precalc.buffer);
    assert_eq!(t.request, Request::new(&limits));
    assert!(t.response.buffer().is_empty());
    assert!(t.http_09_limits.is_none());
    assert_eq!(t.is_expired(Duration::from_secs(10)), Ok(false));
}

#[test]
fn connection_meta() {
    let mut meta = Connection::new(Duration::from_secs(1));
    assert_eq!(meta.created, Duration::from_secs(1));
    assert_eq!(meta.request_count, 0);
    meta.request_count = 7;
    meta.reset(Duration::from_secs(5));
    assert_eq!(meta.created, Duration::from_secs(5));
    assert_eq!(meta.request_count, 0);
}

#[test]
fn expiry_by_keep_alive() {
    let mut t = connection(None);
    assert_eq!(t.is_expired(Duration::from_secs(10)), Ok(false));
    t.response.keep_alive = false;
    assert_eq!(t.is_expired(Duration::from_secs(10)), Ok(true));
}

#[test]
fn expiry_by_request_count() {
    let mut t = connection(None);
    t.connection.request_count = 99;
    assert_eq!(t.is_expired(Duration::from_secs(10)), Ok(false));
    t.connection.request_count = 100;
    assert_eq!(t.is_expired(Duration::from_secs(10)), Ok(true));
    t.connection.request_count = 101;
    assert_eq!(t.is_expired(Duration::from_secs(10)), Ok(true));
}

#[test]
fn expiry_by_age() {
    let t = connection(None);
    assert_eq!(t.is_expired(Duration::from_secs(130)), Ok(false));
    assert_eq!(t.is_expired(Duration::new(130, 1)), Ok(true));
    assert_eq!(t.is_expired(Duration::from_secs(1000)), Ok(true));
    // A clock that has gone backwards ages nothing.
    assert_eq!(t.is_expired(Duration::from_secs(1)), Ok(false));
}

#[test]
fn expiry_of_http09() {
    let mut t = connection(None);
    t.response.version = Version::Http09;
    assert_eq!(t.is_expired(Duration::from_secs(10)), Err(ErrorKind::UnsupportedVersion));

    let mut t = connection(Some(Http09Limits::default()));
    t.response.version = Version::Http09;
    assert_eq!(t.is_expired(Duration::from_secs(40)), Ok(false));
    assert_eq!(t.is_expired(Duration::new(40, 1)), Ok(true));
    t.connection.request_count = 249;
    assert_eq!(t.is_expired(Duration::from_secs(10)), Ok(false));
    t.connection.request_count = 250;
    assert_eq!(t.is_expired(Duration::from_secs(10)), Ok(true));

    // HTTP/1.x goes by its own limits on the same server.
    t.response.version = Version::Http11;
    t.connection.request_count = 100;
    assert_eq!(t.is_expired(Duration::from_secs(10)), Ok(true));
    t.connection.request_count = 99;
    assert_eq!(t.is_expired(Duration::from_secs(41)), Ok(false));
}

#[test]
fn reset_request_response() {
    let mut t = connection(None);
    let limits = t.req_limits;
    t.parser.receive(b"POST /a?b=c HTTP/1.0\r\nName: value\r\nContent-Length: 1\r\n\r\nz");
    assert_eq!(t.parse(), Ok(Version::Http10));
    t.response.status(StatusCode::OK).close().body("done");

    t.reset_request_response();

    assert_eq!(t.request, Request::new(&limits));
    assert_eq!(t.parser, maker_web::Parser::new(&limits));
    let fresh = Response::new(&t.resp_limits);
    assert_eq!(t.response.buffer, fresh.buffer);
    assert_eq!(t.response.version, Version::Http11);
    assert!(t.response.keep_alive);
    assert_eq!(t.response.state(), ResponseState::Clean);
    assert_eq!(t.response.posit_length, 0);
    assert_eq!(t.response.start_body, 0);
}

#[derive(Debug, PartialEq)]
struct Counter(u32);

impl ConnectionData for Counter {
    fn new() -> Self {
        Counter(0)
    }

    fn reset(&mut self) {
        self.0 = 0;
    }
}

#[test]
fn serving_a_connection() {
    let conn_limits = ConnLimits { max_requests_per_connection: 3, ..ConnLimits::default() };
    let mut t: HttpConnection<Counter> = HttpConnection::new(
        ServerLimits::default(),
        conn_limits,
        None,
        ReqLimits::default().precalculate(),
        RespLimits::default(),
        Duration::ZERO,
    );
    t.connection_data.0 = 41;
    t.response.keep_alive = false;
    t.connection.request_count = 17;

    let now = Duration::from_secs(100);
    t.begin(now);
    assert_eq!(t.connection_data, Counter(0));
    assert_eq!(t.connection.created, now);
    assert_eq!(t.connection.request_count, 0);
    assert!(t.response.keep_alive);

    let mut served = 0;
    while t.next_request(now) == Ok(true) {
        assert!(t.connection.request_count < 3);
        t.parser.receive(b"GET / HTTP/1.1\r\n\r\n");
        assert_eq!(t.parse(), Ok(Version::Http11));
        t.connection_data.0 += 1;
        t.response.status(StatusCode::OK).body("ok");
        assert!(t.finish_request());
        served += 1;
        assert_eq!(t.connection.request_count, served);
        assert!(t.connection.request_count <= 3);
    }
    assert_eq!(served, 3);
    assert_eq!(t.connection_data, Counter(3));
    assert_eq!(t.next_request(now), Ok(false));
    // A refused turn leaves the last response in place.
    assert_eq!(t.response.state(), ResponseState::Complete);
}

#[test]
fn a_closing_response_ends_the_connection() {
    let mut t = connection(None);
    t.begin(Duration::ZERO);
    assert_eq!(t.next_request(Duration::ZERO), Ok(true));
    t.parser.receive(b"GET / HTTP/1.1\r\nConnection: close\r\n\r\n");
    assert_eq!(t.parse(), Ok(Version::Http11));
    t.response.status(StatusCode::OK).body("bye");
    assert!(!t.finish_request());
    assert_eq!(t.connection.request_count, 0);
    assert_eq!(t.next_request(Duration::ZERO), Ok(false));
}

#[test]
fn no_request_begins_after_the_lifetime() {
    let mut t = connection(None);
    let start = Duration::from_secs(50);
    t.begin(start);
    assert_eq!(t.next_request(start + Duration::from_secs(120)), Ok(true));
    t.parser.receive(b"GET / HTTP/1.1\r\n\r\n");
    assert_eq!(t.parse(), Ok(Version::Http11));
    t.response.status(StatusCode::OK).body("ok");
    assert!(t.finish_request());
    assert_eq!(t.next_request(start + Duration::new(120, 1)), Ok(false));
}

#[test]
fn admission() {
    let limits = ServerLimits::default();
    assert_eq!(route(0, &limits), Route::Pending);
    assert_eq!(route(249, &limits), Route::Pending);
    assert_eq!(route(250, &limits), Route::Refused);
    assert_eq!(route(251, &limits), Route::Refused);
    assert_eq!(route(usize::MAX, &limits), Route::Refused);

    let none = ServerLimits { max_pending_connections: 0, ..ServerLimits::default() };
    assert_eq!(route(0, &none), Route::Refused);

    assert_eq!(refusal(&limits), Refusal::Respond(1));
    let many = ServerLimits { count_503_handlers: 4, ..ServerLimits::default() };
    assert_eq!(refusal(&many), Refusal::Respond(4));
    let quiet = ServerLimits { count_503_handlers: 0, ..ServerLimits::default() };
    assert_eq!(refusal(&quiet), Refusal::Drop);
}

#[test]
fn admission_queues() {
    let limits = ServerLimits { max_pending_connections: 2, ..ServerLimits::default() };
    let mut admission = Admission::new(limits);
    assert_eq!(admission.next_pending(), None);
    assert_eq!(admission.next_refused(), None);

    assert_eq!(admission.offer(10), Route::Pending);
    assert_eq!(admission.offer(11), Route::Pending);
    assert_eq!(admission.offer(12), Route::Refused);
    assert_eq!(admission.offer(13), Route::Refused);
    assert_eq!(admission.pending.len(), 2);
    assert_eq!(admission.refused.len(), 2);

    // The one that has waited longest is served first.
    assert_eq!(admission.next_pending(), Some(10));
    assert_eq!(admission.offer(14), Route::Pending);
    assert_eq!(admission.offer(15), Route::Refused);
    assert_eq!(admission.next_pending(), Some(11));
    assert_eq!(admission.next_pending(), Some(14));
    assert_eq!(admission.next_pending(), None);

    assert_eq!(admission.next_refused(), Some(12));
    assert_eq!(admission.next_refused(), Some(13));
    assert_eq!(admission.next_refused(), Some(15));
    assert_eq!(admission.next_refused(), None);
}

#[test]
fn nothing_waits_where_nothing_may() {
    let limits = ServerLimits { max_pending_connections: 0, ..ServerLimits::default() };
    let mut admission = Admission::new(limits);
    assert_eq!(admission.offer(1), Route::Refused);
    assert_eq!(admission.next_pending(), None);
    assert_eq!(admission.next_refused(), Some(1));
}
