use maker_web::limits::{ConnLimits, Http09Limits, ReqLimits, RespLimits, ServerLimits};
use maker_web::query::Error as Qerror;
use maker_web::{ErrorKind, HttpConnection, Method, Parser, Request, Version};
use std::str::from_utf8;
use std::time::Duration;

fn str(value: Option<&[u8]>) -> Option<&str> {
    Some(from_utf8(value?).unwrap())
}

fn str_op(value: &[u8]) -> &str {
    from_utf8(value).unwrap()
}

fn from_req<V: AsRef<[u8]>>(value: V) -> HttpConnection<()> {
    let req_limits = ReqLimits::default().precalculate();
    let mut t: HttpConnection<()> = HttpConnection::new(
        ServerLimits::default(),
        ConnLimits::default(),
        None,
        req_limits,
        RespLimits::default(),
        Duration::ZERO,
    );
    t.parser = Parser::from(&req_limits, value.as_ref());
    t
}

/// The same text with every line feed that no carriage return precedes
/// turned into a full line break.
fn with_crlf(text: &str) -> String {
    text.replace("\r\n", "\n").replace('\n', "\r\n")
}

fn has_bare_lf(text: &str) -> bool {
    text.replace("\r\n", "").contains('\n')
}

#[test]
fn request_reset() {
    let limits = ReqLimits::default();
    let mut t = from_req("OPTIONS /qwe&q=1 HTTP/1.0\r\nHost: 127.0.0.1\r\n\r\n");

    assert_eq!(t.parse(), Ok(Version::Http10));
    t.request.reset();
    assert_eq!(Request::new(&limits), t.request);
}

#[test]
fn reset() {
    let limits = ReqLimits::default().precalculate();
    let mut parser = Parser::new(&limits);

    parser.position = 5;
    parser.len = 10;
    parser.buffer[0] = b'X';

    parser.reset();

    assert_eq!(Parser::new(&limits), parser);
}

#[test]
fn parse_method() {
    let cases = [
        ("GET /url",   Some(Method::Get)),
        ("GET ",       Some(Method::Get)),
        ("PUT ",       Some(Method::Put)),
        ("POST ",      Some(Method::Post)),
        ("HEAD ",      Some(Method::Head)),
        ("PATCH ",     Some(Method::Patch)),
        ("DELETE ",    Some(Method::Delete)),
        ("OPTIONS ",   Some(Method::Options)),

        ("GET",        None),
        ("PYU ",       None),
        ("GETGETGET ", None),
    ];

    for (method, expected) in cases {
        let mut t = from_req(method);

        if let Some(expected) = expected {
            assert_eq!(t.parse_method(), Ok(()));
            assert_eq!(t.request.method(), expected);
        } else {
            assert_eq!(t.parse_method(), Err(ErrorKind::InvalidMethod));
        }
    }
}

#[test]
fn parse_method_moves_position() {
    let cases = [("GET /", 4), ("POST /", 5), ("PATCH /", 6), ("DELETE /", 7), ("OPTIONS /", 8)];
    for (text, position) in cases {
        let mut t = from_req(text);
        assert_eq!(t.parse_method(), Ok(()));
        assert_eq!(t.parser.position, position);
    }
}

#[test]
fn rejected_methods() {
    for text in ["TRACE / HTTP/1.1\r\n\r\n", "CONNECT / HTTP/1.1\r\n\r\n", "get / HTTP/1.1\r\n\r\n"] {
        assert_eq!(from_req(text).parse(), Err(ErrorKind::InvalidMethod));
    }
}

#[test]
fn parse_url() {
    let cases: Vec<(&str, Result<(Vec<&str>, Vec<(&str, &str)>), ErrorKind>)> = vec![
        ("/ ",             Ok((vec![], vec![]))),
        ("/// ",           Err(ErrorKind::DoubleSlash)),
        ("/? ",            Ok((vec![], vec![]))),
        ("/?/ ",           Ok((vec![], vec![]))),
        ("/?? ",           Ok((vec![], vec![]))),
        ("/???? ",         Ok((vec![], vec![]))),

        ("/api/user ",     Ok((vec!["api", "user"], vec![]))),
        ("///api//user ",  Err(ErrorKind::DoubleSlash)),
        ("/api/qwe/name/len ",  Ok((vec!["api", "qwe", "name", "len"], vec![]))),
        ("/api//user/// ", Err(ErrorKind::DoubleSlash)),
        ("/api//user//? ", Err(ErrorKind::DoubleSlash)),

        ("/api ",          Ok((vec!["api"], vec![]))),
        ("///api ",        Err(ErrorKind::DoubleSlash)),
        ("/api// ",        Err(ErrorKind::DoubleSlash)),
        ("//api///? ",     Err(ErrorKind::DoubleSlash)),

        (
            "/api/find?user=qwe&id=223 ", Ok((vec!["api", "find"],
                vec![("user", "qwe"), ("id", "223")]
            ))
        ),
        (
            "/?user=qwe&id=223 ", Ok((vec![],
                vec![("user", "qwe"), ("id", "223")]
            ))
        ),
        (
            "/?debug&name=&=Qwe&key=sda&&id=123 ", Ok((vec![],
                vec![
                    ("debug", ""), ("name", ""), ("", "Qwe"),
                    ("key", "sda"), ("", "Qwe"), ("id", "123")
                ]
            ))
        ),
        (
            "/?a=1&a=2&a=3 ",
            Ok((vec![], vec![("a", "1"), ("a", "1"), ("a", "1")]))
        ),
        (
            "/?very=long=value=with=equals ",
            Ok((vec![], vec![("very", "long=value=with=equals")]))
        ),

        ("qwe ",           Err(ErrorKind::InvalidUrl)),
        (" ",              Err(ErrorKind::InvalidUrl)),
        ("qwe/qwe ",       Err(ErrorKind::InvalidUrl)),
        ("/qwe",           Err(ErrorKind::InvalidUrl)),
    ];

    for (url, expected) in cases {
        let mut t = from_req(url);

        match expected {
            Ok((url, query)) => {
                assert_eq!(t.parse_url(), Ok(()));

                url.iter().enumerate().for_each(|(i, value)| {
                    assert_eq!(str(t.request.url().path_segment(i)), Some(*value));
                });
                assert_eq!(str(t.request.url().path_segment(url.len())), None);

                query.iter().for_each(|(name, value)| {
                    assert_eq!(str(t.request.url().query(name.as_bytes())), Some(*value));
                });
            }
            Err(e) => assert_eq!(t.parse_url(), Err(e)),
        }
    }
}

#[test]
fn parse_url_full() {
    let mut t = from_req("/api/users/123?sort=name&debug ");
    let segments = &[b"api" as &[u8], b"users" as &[u8], b"123" as &[u8]] as &[&[u8]];

    assert_eq!(t.parse_url(), Ok(()));

    assert_eq!(
        str_op(t.request.url().target()),
        "/api/users/123?sort=name&debug"
    );
    assert_eq!(str_op(t.request.url().path()), "/api/users/123");

    assert!(t.request.url().matches(segments));
    assert!(t.request.url().starts_with(segments));
    assert!(t.request.url().starts_with(&segments[..1]));
    assert!(t.request.url().starts_with(&[]));
    assert!(t.request.url().ends_with(segments));
    assert!(t.request.url().ends_with(&segments[1..]));
    assert!(t.request.url().ends_with(&[]));

    assert_eq!(t.request.url().path_segments(), segments);
    assert_eq!(str(t.request.url().path_segment(0)), Some("api"));
    assert_eq!(str(t.request.url().path_segment(1)), Some("users"));
    assert_eq!(str(t.request.url().path_segment(2)), Some("123"));
    assert_eq!(str(t.request.url().path_segment(3)), None);

    assert_eq!(str(t.request.url().query_full()), Some("?sort=name&debug"));
    assert_eq!(str(t.request.url().query(b"sort")), Some("name"));
    assert_eq!(str(t.request.url().query(b"debug")), Some(""));
}

#[test]
fn url_patterns() {
    let mut t = from_req("/api/users/123?sort=name&debug ");
    assert_eq!(t.parse_url(), Ok(()));
    let url = t.request.url();

    assert!(!url.matches(&[b"api"]));
    assert!(!url.matches(&[b"api", b"users"]));
    assert!(!url.matches(&[b"api", b"users", b"123", b"name"]));
    assert!(!url.matches(&[b"users", b"123"]));

    assert!(url.starts_with(&[b"api", b"users"]));
    assert!(!url.starts_with(&[b"api", b"users", b"123", b"name"]));
    assert!(!url.starts_with(&[b"users", b"123"]));

    assert!(!url.ends_with(&[b"api"]));
    assert!(!url.ends_with(&[b"api", b"users"]));
    assert!(url.ends_with(&[b"users", b"123"]));

    assert_eq!(str(url.query(b"something")), None);
}

#[test]
fn target_is_path_and_query() {
    for text in ["/ ", "/a/b ", "/a/b/ ", "/a?x=1 ", "/?x ", "/a/b?x=1&y=2 "] {
        let mut t = from_req(text);
        assert_eq!(t.parse_url(), Ok(()));
        let url = t.request.url();

        let mut joined = url.path().to_vec();
        joined.extend_from_slice(url.query_full().unwrap_or(b""));
        assert_eq!(url.target(), joined.as_slice());
        assert_eq!(url.path()[0], b'/');
        assert!(!url.path().windows(2).any(|w| w == b"//"));
        assert_eq!(t.parser.position, text.len());
    }
}

#[test]
fn query_size_limit() {
    let limits = ReqLimits::default();
    let fits = format!("/?{} ", "q".repeat(limits.url_query_size - 1));
    let mut t = from_req(&fits);
    assert_eq!(t.parse_url(), Ok(()));
    assert_eq!(t.request.url().query_full().unwrap().len(), limits.url_query_size);

    let too_long = format!("/?{} ", "q".repeat(limits.url_query_size));
    assert_eq!(from_req(&too_long).parse_url(), Err(ErrorKind::InvalidUrl));
}

#[test]
fn check_version() {
    let cases = [
        ("HTTP/1.1\r\n e", Ok(Version::Http11)),
        ("HTTP/1.1\r\n",   Ok(Version::Http11)),
        ("HTTP/1.0\r\n",   Ok(Version::Http10)),
        // A bare line feed ends no line.
        ("HTTP/1.1\n",     Err(ErrorKind::InvalidVersion)),
        ("HTTP/1.0\n",     Err(ErrorKind::InvalidVersion)),

        ("HTTP/2.0\r\n",   Err(ErrorKind::UnsupportedVersion)),
        ("HTTP/0.9\r\n",   Err(ErrorKind::UnsupportedVersion)),
        ("http/1.1\r\n",   Err(ErrorKind::UnsupportedVersion)),

        ("HTTP/1.15\r\n",  Err(ErrorKind::InvalidVersion)),
        (" HTTP/1.1\r\n",  Err(ErrorKind::InvalidVersion)),
        ("HTTP/1.1\r \n",  Err(ErrorKind::InvalidVersion)),
        ("HTTP/1.1\r",     Err(ErrorKind::InvalidVersion)),
        ("HTTP/1.0\r",     Err(ErrorKind::InvalidVersion)),
        ("HTTP/1.\n",      Err(ErrorKind::InvalidVersion)),
        ("HTTP/1.1 ",      Err(ErrorKind::InvalidVersion)),
        ("HTTP/1.1",       Err(ErrorKind::InvalidVersion)),
        ("HTTP/1.",        Err(ErrorKind::InvalidVersion)),
        ("\r\n",           Err(ErrorKind::InvalidVersion)),
        ("\r",             Err(ErrorKind::InvalidVersion)),
        ("\n",             Err(ErrorKind::InvalidVersion)),
        (" ",              Err(ErrorKind::InvalidVersion)),
        ("",               Err(ErrorKind::InvalidVersion)),
    ];

    for (value, expected) in cases {
        let mut t = from_req(value);

        if let Ok(version) = expected {
            assert_eq!(t.check_version(), Ok(()));

            assert_eq!(t.request.version, version);
            assert_eq!(t.response.version, version);
            assert_eq!(t.parser.position, 10);

            match t.request.version {
                Version::Http11 => assert!(t.response.keep_alive),
                Version::Http10 => assert!(!t.response.keep_alive),
                Version::Http09 => assert!(!t.response.keep_alive),
            }
        } else if let Err(e) = expected {
            assert_eq!(t.check_version(), Err(e));
        }
    }
}

#[test]
fn parse_header() {
    let cases = [
        ("HEADER: value\r\n", Some(("header", "value"))),
        ("Header: value\r\n", Some(("header", "value"))),
        ("header: value\r\n", Some(("header", "value"))),
        ("header: \r\n",      Some(("header", ""))),

        // A bare line feed ends no line.
        ("HEADER: value\n",   None),
        ("Header: value\n",   None),
        ("header: value\n",   None),
        ("header: \n",        None),
        ("Header : v\r\n",    Some(("header ", "v"))),
        ("Header : v\n",      None),

        ("Header: value\r",   None),
        ("Header: value",     None),
        ("header:value\n",    None),
        ("header:\n",         None),
        (": value\r\n",       None),
        (": \r\n",            None),
        (": value\n",         None),
        (": \n",              None),
        ("header:value\r\n",  None),
        ("header:\r\n",       None),

        // The line break is no part of the value.
        ("HEADER: value\r\n", Some(("header", "value"))),
        ("Header: value\r\n", Some(("header", "value"))),
        ("header: value\r\n", Some(("header", "value"))),
        ("header: \r\n",      Some(("header", ""))),
    ];

    for (header, expected) in cases {
        let mut t = from_req(header);

        if let Some((name, value)) = expected {
            let header = t.parse_header().unwrap().unwrap();

            assert_eq!(str_op(&header.name), name);
            assert_eq!(str_op(&header.value), value);
        } else {
            assert_eq!(t.parse_header(), Err(ErrorKind::InvalidHeader));
        }
    }
}

#[test]
fn parse_header_blank_line() {
    let mut t = from_req("\r\nrest");
    assert_eq!(t.parse_header(), Ok(None));
    assert_eq!(t.parser.position, 2);
}

#[test]
fn parse_headers() {
    let cases = [
        (
            "HEADER: value\r\n\r\n",
            Some((vec!["HEADER", "HeAdEr", "header"], "value")),
        ),
        (
            "HEADER: value\n\n",
            None,
        ),
        (
            "HEADER: value\r\nQwE: value\r\nasd: value\r\n\r\n",
            Some((vec!["header", "qwe", "asd"], "value")),
        ),
        (
            "HEADER: value\nQwE: value\nasd: value\n\n",
            None,
        ),
        (
            "Empty-Value: \r\n\r\n",
            Some((vec!["empty-value"], "")),
        ),
        (
            "Space-Value:   \r\n\r\n",
            Some((vec!["space-value"], "  ")),
        ),
        (
            "Multi: value1\r\nMulti: value2\r\n\r\n",
            Some((vec!["multi"], "value1")),
        ),

        (": empty-name\r\n\r\n", None),
        ("No-Colon value\r\n\r\n", None),
        (
            "Valid: ok\r\nInvalidname\r\nNext: value\r\n\r\n",
            None,
        ),
        ("Header: value\n\n", None),
        ("No-Colon value\r\n\r\n", None),
        (
            "Valid: ok\r\nInvalidname\r\nNext: value\r\n\r\n",
            None,
        ),
    ];

    for (headers, expected) in cases {
        let mut t = from_req(headers);

        if let Some((names, value)) = expected {
            assert_eq!(t.parse_headers(), Ok(()));

            for name in names {
                assert_eq!(str(t.request.header(name.as_bytes())), Some(value));
            }
            assert_eq!(t.parser.position, headers.len());
        } else {
            assert_eq!(t.parse_headers(), Err(ErrorKind::InvalidHeader));
        }
    }
}

#[test]
fn parse_special_header() {
    let cases = [
        ("content-length: 1256\n\n", Ok((Some(1256), None))),
        ("content-length: 4096\n\n", Ok((Some(4096), None))),
        (
            "content-length: 1256\nconnection: keep-alive\n\n",
            Ok((Some(1256), Some(true)))
        ),
        ("connection: keep-alive\n\n", Ok((None, Some(true)))),
        (
            "content-length: 1256\nconnection: close\n\n",
            Ok((Some(1256), Some(false)))
        ),
        ("connection: close\n\n", Ok((None, Some(false)))),


        ("connection: keep_alive\n\n", Err(ErrorKind::InvalidConnection)),
        ("connection: qwerrew\n\n", Err(ErrorKind::InvalidConnection)),
        ("content-length: 12asd\n\n", Err(ErrorKind::InvalidContentLength)),
        ("content-length: 123u64\n\n", Err(ErrorKind::InvalidContentLength)),
        ("content-length: 4097\n\n", Err(ErrorKind::BodyTooLarge)),
        ("content-length: 123.9435\n\n", Err(ErrorKind::InvalidContentLength)),
        (
            "content-length: 999999999999999999999\n\n",
            Err(ErrorKind::InvalidContentLength)
        ),
    ];

    for (headers, result) in cases {
        // Lines that end in a bare line feed are no header lines.
        assert_eq!(from_req(headers).parse_headers(), Err(ErrorKind::InvalidHeader));

        let mut t = from_req(with_crlf(headers));

        if let Ok((content_length, keep_alive)) = result {
            assert_eq!(t.parse_headers(), Ok(()));
            assert!(t.request.headers.headers.is_empty());

            if let Some(len) = content_length {
                assert_eq!(t.request.headers.content_length, Some(len));
            }
            if let Some(keep_alive) = keep_alive {
                assert_eq!(t.response.keep_alive, keep_alive);
            }
        } else if let Err(e) = result {
            assert_eq!(t.parse_headers(), Err(e));
        }
    }
}

#[test]
fn connection_header_is_matched_whole() {
    for (value, expected) in [
        ("Keep-Alive", Ok(true)),
        ("CLOSE", Ok(false)),
        ("keep-alive-please", Err(ErrorKind::InvalidConnection)),
        ("closed", Err(ErrorKind::InvalidConnection)),
        ("", Err(ErrorKind::InvalidConnection)),
    ] {
        let mut t = from_req(format!("Connection: {value}\r\n\r\n"));
        match expected {
            Ok(keep_alive) => {
                assert_eq!(t.parse_headers(), Ok(()));
                assert_eq!(t.response.keep_alive, keep_alive);
            }
            Err(e) => assert_eq!(t.parse_headers(), Err(e)),
        }
    }
}

type Expected<'a> = (Method, &'a str, Version, Vec<(&'a str, &'a str)>, Option<&'a [u8]>, bool);

fn parse_request(req: &str, result: Result<Expected, ErrorKind>) {
    let mut t = from_req(req);

    match result {
        Ok(result) => {
            assert_eq!(t.parse(), Ok(result.2));

            assert_eq!(t.request.method(), result.0);
            assert_eq!(str_op(t.request.url().target()), result.1);
            assert_eq!(t.response.version, result.2);

            for (name, value) in result.3 {
                assert_eq!(
                    str(t.request.header(name.as_bytes())),
                    Some(value.to_string()).as_deref()
                );
            }
            assert_eq!(t.request.body(), result.4);
            assert_eq!(t.response.keep_alive, result.5);
        }
        Err(e) => assert_eq!(t.parse(), Err(e)),
    }
}

/// Runs one case. A request whose lines end in bare line feeds is refused as
/// it stands, and gives the listed result once its lines end in full line
/// breaks.
fn parse_case(req: &str, result: Result<Expected, ErrorKind>, refused_with: ErrorKind) {
    if has_bare_lf(req) {
        assert_eq!(from_req(req).parse(), Err(refused_with));
        parse_request(&with_crlf(req), result);
    } else {
        parse_request(req, result);
    }
}

#[test]
fn parse_valid_request() {
    let cases: Vec<(&str, Result<Expected, ErrorKind>)> = vec![
        (
            "GET / HTTP/1.1\r\n\r\n",
            Ok((
                Method::Get, "/", Version::Http11,
                vec![],
                None, true
            )),
        ),
        (
            "GET /api/qwe/name/len/qwe HTTP/1.1\r\n\r\n",
            Ok((
                Method::Get, "/api/qwe/name/len/qwe", Version::Http11,
                vec![],
                None, true
            )),
        ),
        (
            "GET / HTTP/1.1\n\n",
            Ok((
                Method::Get, "/", Version::Http11,
                vec![],
                None, true
            )),
        ),
        (
            "POST /test HTTP/1.1\r\nHOST: 127.0.0.1\r\n\r\n",
            Ok((
                Method::Post, "/test", Version::Http11,
                vec![("host", "127.0.0.1")],
                None, true,
            )),
        ),
        (
            "PUT /qwe HTTP/1.1\r\nHoSt: 127.0.0.1\r\nUser-Agent: curl\r\n\r\n",
            Ok((
                Method::Put, "/qwe", Version::Http11,
                vec![("host", "127.0.0.1"), ("user-agent", "curl")],
                None, true,
            )),
        ),
        (
            "GET /file HTTP/1.1\ncontent-length: 12\n\nHello world!",
            Ok((
                Method::Get, "/file", Version::Http11,
                vec![],
                Some(b"Hello world!" as &[u8]), true,
            )),
        ),
        (
            "HEAD / HTTP/1.1\r\nConnection: keep-alive\r\n\r\n",
            Ok((
                Method::Head, "/", Version::Http11,
                vec![],
                None, true
            )),
        ),
        (
            "OPTIONS / HTTP/1.1\r\nCoNNEctIon: close\r\n\r\n",
            Ok((
                Method::Options, "/", Version::Http11,
                vec![],
                None, false
            )),
        ),
        (
            "PATCH / HTTP/1.0\r\nconnection: keep-alive\r\n\r\n",
            Ok((
                Method::Patch, "/", Version::Http10,
                vec![],
                None, true
            )),
        ),
        (
            "DELETE / HTTP/1.0\r\nConnection: close\r\n\r\n",
            Ok((
                Method::Delete, "/", Version::Http10,
                vec![],
                None, false
            )),
        ),
        (
            "GET / HTTP/1.0\r\n\r\n",
            Ok((
                Method::Get, "/", Version::Http10,
                vec![],
                None, false
            )),
        ),
        (
"POST /upload HTTP/1.1\r\nContent-Type: application/json\r
Content-Length: 17\r\n\r\n{\"data\": \"value\"}",
            Ok((
                Method::Post, "/upload", Version::Http11,
                vec![("content-type", "application/json")],
                Some(b"{\"data\": \"value\"}" as &[u8]), true,
            )),
        ),
        (
            "GET /empty HTTP/1.1\r\nX-Empty: \r\nX-Space: \r\n\r\n",
            Ok((
                Method::Get, "/empty", Version::Http11,
                vec![("x-empty", ""), ("x-space", "")],
                None, true,
            )),
        ),
    ];

    for (req, result) in cases {
        parse_case(req, result, ErrorKind::InvalidVersion);
    }
}

#[test]
fn parse_invalid_request() {
    let cases: Vec<(&str, Result<Expected, ErrorKind>)> = vec![
        (
            "GET / HTTP/1.1\r\nHost: 127.0.0.1\r\n\r\n",
            Ok((
                Method::Get, "/", Version::Http11,
                vec![("Host", "127.0.0.1")],
                None::<&[u8]>, true
            )),
        ),
        (
            " GET/ HTTP/1.1\r\nHost: 127.0.0.1\r\n\r\n",
            Err(ErrorKind::InvalidMethod)
        ),
        (
            "GET/ HTTP/1.1\r\nHost: 127.0.0.1\r\n\r\n",
            Err(ErrorKind::InvalidMethod)
        ),
        (
            "GET",
            Err(ErrorKind::InvalidMethod)
        ),
        (
            "GET ",
            Err(ErrorKind::InvalidUrl)
        ),
        (
            "GET  HTTP/1.1\r\nHost: 127.0.0.1\r\n\r\n",
            Err(ErrorKind::InvalidUrl)
        ),
        (
            "GET /\r\n", // A request of HTTP/0.9+, which this server does not speak
            Err(ErrorKind::UnsupportedVersion)
        ),
        (
            "GET /HTTP/1.1\r\nHost: 127.0.0.1\r\n\r\n",
            Err(ErrorKind::InvalidVersion)
        ),
        (
            "GET / HTTP/1.1 \r\nHost: 127.0.0.1\r\n\r\n",
            Err(ErrorKind::InvalidVersion)
        ),
        (
            "GET /HTTP/1.1\r\nHost: 127.0.0.1\r\n\r\n",
            Err(ErrorKind::InvalidVersion)
        ),
        (
            "GET / HTTP/1.1\r\nHost: 127.0.0.1\n\r\n",
            Err(ErrorKind::InvalidHeader)
        ),
        (
            "GET / HTTP/1.1\nHost: 127.0.0.1\r\n\r\n", // The request line ends in a bare line feed
            Err(ErrorKind::InvalidVersion)
        ),
        (
            "GET / HTTP/1.1\r\nHost: 127.0.0.1\nq: w\r\n\r\n",
            Err(ErrorKind::InvalidHeader)
        ),
        (
            "GET /empty HTTP/1.1\r\nX-Empty:\r\nX-Space: \r\n\r\n",
            Err(ErrorKind::InvalidHeader)
        ),
        (
            "GET / HTTP/1.1\r\nQ: w\n\n",
            Err(ErrorKind::InvalidHeader)
        ),
        (
            "GET / HTTP/1.1\r\nQ: w\r\nW: w\n\n",
            Err(ErrorKind::InvalidHeader)
        ),
        (
            "POST / HTTP/1.1\r\nContent-Length: 10\r\n\r\nshort",
            Err(ErrorKind::BodyMismatch { expected: 10, available: 5 }),
        ),
        (
            "POST / HTTP/1.1\r\nContent-Length: 999999999\r\n\r\nbody",
            Err(ErrorKind::BodyTooLarge),
        ),
        (
            "POST / HTTP/1.1\r\nContent-Length: invalid\r\n\r\nbody",
            Err(ErrorKind::InvalidContentLength),
        ),
    ];

    for (req, result) in cases {
        parse_request(req, result);
    }
}

#[test]
fn parse_http09() {
    let cases = vec![
        (
            "GET / HTTP/1.1\r\nHost: 127.0.0.1\r\n\r\n",
            Ok((Version::Http11, "/", true)),
        ),
        (
            "GET /qwe HTTP/1.1\r\nHost: 127.0.0.1\r\n\r\n",
            Ok((Version::Http11, "/qwe", true)),
        ),

        (
            "GET /qwe\r\n", Ok((Version::Http09, "/qwe", false))
        ),
        (
            "GET /q/w/r\r\n", Ok((Version::Http09, "/q/w/r", false))
        ),
        (
            "GET /q/w/r/\r\n", Ok((Version::Http09, "/q/w/r/", false))
        ),
        (
            "GET /\r\n", Ok((Version::Http09, "/", false))
        ),
        (
            "GET /keep_alive/\r\n", Ok((Version::Http09, "/", true))
        ),
        (
            "GET /keep_alive/url\r\n", Ok((Version::Http09, "/url", true))
        ),
        (
            "GET /keep_alive//double/slash\r\n", // No path holds two slashes in a row
            Err(ErrorKind::DoubleSlash)
        ),
        (
            "GET /keep_alive/%20encoded\r\n",
            Ok((Version::Http09, "/%20encoded", true))
        ),
        (
            "GET /path?query=1\r\n",
            Ok((Version::Http09, "/path?query=1", false))
        ),
        (
            "GET /keep_alive/path?query=1&q=2\r\n",
            Ok((Version::Http09, "/path?query=1&q=2", true))
        ),
        (
            "GET /?query\r\n",
            Ok((Version::Http09, "/?query", false))
        ),

        (
            "GET \r\n",  Err(ErrorKind::InvalidUrl)
        ),
        (
            "GET /keep_alive\r\n",  Err(ErrorKind::InvalidUrl)
        ),
        (
            "GET /keep_alive\r\npath\r\n", Err(ErrorKind::InvalidUrl)
        ),
    ];

    for (req, result) in cases {
        let mut t = from_req(req);
        t.http_09_limits = Some(Http09Limits::default());

        if let Ok(result) = result {
            assert_eq!(t.parse(), Ok(result.0));

            assert_eq!(t.request.method(), Method::Get);
            assert_eq!(str_op(t.request.url().target()), result.1);
            assert_eq!(t.response.version, result.0);
            assert_eq!(t.response.keep_alive, result.2);
        } else if let Err(e) = result {
            assert_eq!(t.parse(), Err(e));
        }
    }

    // HTTP/0.9+ takes every method.
    let mut t = from_req("POST /path\r\n");
    t.http_09_limits = Some(Http09Limits::default());
    assert_eq!(t.parse(), Ok(Version::Http09));
    assert_eq!(t.request.method(), Method::Post);
    assert_eq!(str_op(t.request.url().target()), "/path");
    assert_eq!(t.response.version, Version::Http09);
    assert_eq!(t.response.keep_alive, false);
}

#[test]
fn http09_keep_alive_marker_is_hidden() {
    let mut t = from_req("GET /keep_alive/ping\r\n");
    t.http_09_limits = Some(Http09Limits::default());

    assert_eq!(t.parse(), Ok(Version::Http09));
    assert_eq!(t.request.version(), Version::Http09);
    assert!(t.response.keep_alive);
    assert!(t.request.url.skip_first_segment);
    assert_eq!(str_op(t.request.url().path()), "/ping");
    assert_eq!(str_op(t.request.url().target()), "/ping");
    assert_eq!(t.request.url().path_segments(), &[b"ping".to_vec()]);
    assert_eq!(str(t.request.url().path_segment(0)), Some("ping"));
    assert_eq!(str(t.request.url().path_segment(1)), None);
    assert!(t.request.url().matches(&[b"ping"]));
    assert_eq!(t.request.body(), None);
    assert_eq!(t.parser.position, t.parser.len);

    // The fields hold the URL as it was sent.
    assert_eq!(str_op(&t.request.url.path), "/keep_alive/ping");
    assert_eq!(t.request.url.parts.len(), 2);
}

#[test]
fn http09_marker_must_be_the_whole_segment() {
    let mut t = from_req("GET /keep_alivefoo/bar\r\n");
    t.http_09_limits = Some(Http09Limits::default());

    assert_eq!(t.parse(), Ok(Version::Http09));
    assert!(!t.response.keep_alive);
    assert_eq!(str_op(t.request.url().target()), "/keep_alivefoo/bar");

    // The marker means nothing to HTTP/1.x.
    let mut t = from_req("GET /keep_alive/ping HTTP/1.0\r\n\r\n");
    t.http_09_limits = Some(Http09Limits::default());
    assert_eq!(t.parse(), Ok(Version::Http10));
    assert!(!t.response.keep_alive);
    assert_eq!(str_op(t.request.url().path()), "/keep_alive/ping");
}

#[test]
fn http09_url_size_limit() {
    let limits = ReqLimits::default();
    let fits = format!("GET /{}\r\n", "q".repeat(limits.url_size - 1));
    let mut t = from_req(&fits);
    t.http_09_limits = Some(Http09Limits::default());
    assert_eq!(t.parse(), Ok(Version::Http09));

    let too_long = format!("GET /{}\r\n", "q".repeat(limits.url_size));
    let mut t = from_req(&too_long);
    t.http_09_limits = Some(Http09Limits::default());
    assert_eq!(t.parse(), Err(ErrorKind::InvalidUrl));
}

#[test]
fn check_http09() {
    let mut t = from_req("GET /\r\n");
    assert_eq!(t.check_http09(), Ok(false));

    t.request.version = Version::Http09;
    assert_eq!(t.check_http09(), Err(ErrorKind::UnsupportedVersion));

    t.http_09_limits = Some(Http09Limits::default());
    t.parser.position = 5;
    assert_eq!(t.check_http09(), Ok(true));
    assert_eq!(t.parser.position, 7);

    let mut t = from_req("GET /\r");
    t.request.version = Version::Http09;
    t.http_09_limits = Some(Http09Limits::default());
    assert_eq!(t.check_http09(), Err(ErrorKind::InvalidVersion));
}

#[test]
fn check_limits() {
    let limits = ReqLimits::default().precalculate();

    let def_url = "/".to_string();
    let url_size = format!("/{}", "q".repeat(limits.url_size - 1));
    let url_parts = "/q".repeat(limits.url_parts);
    let url_query_parts = format!("/?{}", vec!["q=w"; limits.url_query_parts].join("&"));

    let h_name = "N".repeat(limits.header_name_size);
    let h_value = "v".repeat(limits.header_value_size);

    let body = "b".repeat(limits.body_size);
    let cases: Vec<(String, Result<Expected, ErrorKind>)> = vec![
        (
            format!("GET {} HTTP/1.1\n\n", url_size),
            Ok((
                Method::Get, &url_size, Version::Http11,
                vec![],
                None, true
            )),
        ),
        (
            format!("GET {url_size}e HTTP/1.1\n\n"),
            Err(ErrorKind::InvalidUrl),
        ),
        (
            format!("GET {} HTTP/1.1\r\n\r\n",  url_parts),
            Ok((
                Method::Get, &url_parts, Version::Http11,
                vec![],
                None, true
            )),
        ),
        (
            format!("GET {url_parts}/e HTTP/1.1\r\n\r\n"),
            Err(ErrorKind::InvalidUrl),
        ),
        (
            format!("GET {} HTTP/1.1\n\n", url_query_parts),
            Ok((
                Method::Get, &url_query_parts, Version::Http11,
                vec![],
                None, true
            )),
        ),
        (
            format!(
                "GET /?{} HTTP/1.1\n\n",
                vec!["q=w"; limits.url_query_parts + 1].join("&")
            ),
            Err(ErrorKind::Query(
                Qerror::OverLimit(limits.url_query_parts)
            )),
        ),

        (
            format!("GET / HTTP/1.1\r\n{h_name}: {h_value}\r\n\r\n"),
            Ok((
                Method::Get, &def_url, Version::Http11,
                vec![(&h_name, &h_value)],
                None, true
            )),
        ),
        (
            format!("GET / HTTP/1.1\r\n{h_name}e: value\r\n\n"),
            Err(ErrorKind::InvalidHeader),
        ),
        (
            format!("GET / HTTP/1.1\r\nName: {h_value}e\r\n\r\n"),
            Err(ErrorKind::InvalidHeader),
        ),
        (
            format!(
                "GET / HTTP/1.1\r\n{}\r\n",
                format!("{h_name}: {h_value}\r\n")
                    .repeat(limits.header_count)
            ),
            Ok((
                Method::Get, &def_url, Version::Http11,
                vec![(&h_name, &h_value); limits.header_count],
                None, true
            )),
        ),
        (
            format!(
                "GET / HTTP/1.1\r\n{}\r\n",
                format!("{h_name}: {h_value}\r\n")
                    .repeat(limits.header_count + 1)
            ),
            Err(ErrorKind::TooManyHeaders),
        ),

        (
            format!(
                "GET / HTTP/1.1\nContent-Length: {}\n\n{body}",
                limits.body_size
            ),
            Ok((
                Method::Get, &def_url, Version::Http11,
                vec![],
                Some(body.as_bytes()), true
            )),
        ),
        (
            format!(
                "GET / HTTP/1.1\nContent-Length: {}\n\n{body}e",
                limits.body_size + 1,
            ),
            Err(ErrorKind::BodyTooLarge),
        ),

        (
            format!(
"OPTIONS {url_size} HTTP/1.1\r\nContent-Length: {}\r\n{}\r\n{body}",
                limits.body_size,
                &format!("{h_name}: {h_value}\r\n")
                    .repeat(limits.header_count - 1)[22..]
            ),
            Ok((
                Method::Options, &url_size, Version::Http11,
                vec![(&h_name, &h_value); limits.header_count - 1],
                Some(body.as_bytes()), true
            ))
        )
    ];

    for (req, result) in cases {
        // A request line that ends in a bare line feed is refused for that,
        // unless its URL is refused first.
        let refused_with = match &result {
            Err(ErrorKind::InvalidUrl) => ErrorKind::InvalidUrl,
            Err(ErrorKind::Query(e)) => ErrorKind::Query(*e),
            Err(ErrorKind::InvalidHeader) => ErrorKind::InvalidHeader,
            _ => ErrorKind::InvalidVersion,
        };
        parse_case(&req, result, refused_with);
    }
}

#[test]
fn special_headers_do_not_count() {
    let limits = ReqLimits::default();
    let request = format!(
        "GET / HTTP/1.1\r\nContent-Length: 0\r\nConnection: close\r\n{}\r\n",
        "Name: value\r\n".repeat(limits.header_count)
    );
    let mut t = from_req(&request);
    assert_eq!(t.parse(), Ok(Version::Http11));
    assert_eq!(t.request.headers.headers.len(), limits.header_count);
    assert_eq!(t.request.header(b"content-length"), None);
    assert_eq!(t.request.header(b"connection"), None);
    assert_eq!(t.request.content_length(), Some(0));
    assert_eq!(t.request.body(), Some(b"".as_ref()));
    assert!(!t.response.keep_alive);
}

#[test]
fn body_rules() {
    let cases: Vec<(&str, Result<Option<&[u8]>, ErrorKind>)> = vec![
        ("GET / HTTP/1.1\r\n\r\n", Ok(None)),
        ("GET / HTTP/1.1\r\nContent-Length: 0\r\n\r\n", Ok(Some(b""))),
        ("GET / HTTP/1.1\r\nContent-Length: 4\r\n\r\nbody", Ok(Some(b"body"))),
        (
            "GET / HTTP/1.1\r\nContent-Length: 3\r\n\r\nbody",
            Err(ErrorKind::BodyMismatch { expected: 3, available: 4 }),
        ),
        (
            "GET / HTTP/1.1\r\nContent-Length: 5\r\n\r\nbody",
            Err(ErrorKind::BodyMismatch { expected: 5, available: 4 }),
        ),
        ("GET / HTTP/1.1\r\n\r\nbody", Err(ErrorKind::UnexpectedBody(4))),
    ];

    for (req, expected) in cases {
        let mut t = from_req(req);
        match expected {
            Ok(body) => {
                assert_eq!(t.parse(), Ok(Version::Http11));
                assert_eq!(t.request.body(), body);
                assert_eq!(
                    t.request.body().map_or(0, |b| b.len()),
                    t.request.content_length().unwrap_or(0)
                );
                // The head and the body make up the request.
                assert_eq!(
                    t.parser.position + t.request.body().map_or(0, |b| b.len()),
                    req.len()
                );
            }
            Err(e) => assert_eq!(t.parse(), Err(e)),
        }
    }
}

#[test]
fn body_is_taken_literally() {
    let mut t = from_req(
        "POST /upload HTTP/1.1\r\nContent-Type: application/json\r\nContent-Length: 16\r\n\r\n{\"data\":\"value\"}",
    );
    assert_eq!(t.parse(), Ok(Version::Http11));
    assert_eq!(t.request.body(), Some(b"{\"data\":\"value\"}".as_ref()));
    assert_eq!(str(t.request.header(b"Content-Type")), Some("application/json"));
}

#[test]
fn head_must_be_utf8() {
    let mut t = from_req(b"GET / HTTP/1.1\r\nName: \xff\xfe\r\n\r\n");
    assert_eq!(t.parse(), Err(ErrorKind::InvalidEncoding));

    let mut t = from_req(b"GET /\xc3\x28 HTTP/1.1\r\n\r\n");
    assert_eq!(t.parse(), Err(ErrorKind::InvalidEncoding));

    let mut t = from_req("GET /\u{e9} HTTP/1.1\r\nName: \u{4f60}\u{597d}\r\n\r\n");
    assert_eq!(t.parse(), Ok(Version::Http11));
    assert_eq!(str(t.request.header(b"name")), Some("\u{4f60}\u{597d}"));

    // The body is not text.
    let mut t = from_req(b"POST / HTTP/1.1\r\nContent-Length: 2\r\n\r\n\xff\xfe");
    assert_eq!(t.parse(), Ok(Version::Http11));
    assert_eq!(t.request.body(), Some(b"\xff\xfe".as_ref()));

    // The encoding is checked before the body is.
    let mut t = from_req(b"POST / HTTP/1.1\r\nName: \xff\r\n\r\nbody");
    assert_eq!(t.parse(), Err(ErrorKind::InvalidEncoding));

    let mut t = from_req(b"GET /\xff\r\n");
    t.http_09_limits = Some(Http09Limits::default());
    assert_eq!(t.parse(), Err(ErrorKind::InvalidEncoding));
}

#[test]
fn double_slash_is_refused() {
    assert_eq!(from_req("GET //api HTTP/1.1\r\n\r\n").parse(), Err(ErrorKind::DoubleSlash));
    assert_eq!(from_req("GET /api//v1 HTTP/1.1\r\n\r\n").parse(), Err(ErrorKind::DoubleSlash));
    // Behind the `?` slashes are part of the query string.
    let mut t = from_req("GET /api?next=//home HTTP/1.1\r\n\r\n");
    assert_eq!(t.parse(), Ok(Version::Http11));
    assert_eq!(str(t.request.url().query(b"next")), Some("//home"));
}

#[test]
fn parse_starts_over() {
    let mut t = from_req("POST /a/b?x=1 HTTP/1.0\r\nName: value\r\nContent-Length: 1\r\n\r\nz");
    assert_eq!(t.parse(), Ok(Version::Http10));
    let first = t.request.clone();
    assert_eq!(t.parse(), Ok(Version::Http10));
    assert_eq!(t.request, first);

    let limits = t.req_limits;
    t.parser = Parser::from(&limits, b"GET / HTTP/1.1\r\n\r\n");
    assert_eq!(t.parse(), Ok(Version::Http11));
    assert_eq!(t.request.url().path_segments().len(), 0);
    assert_eq!(t.request.header(b"name"), None);
    assert_eq!(t.request.content_length(), None);
    assert_eq!(t.request.body(), None);
}

#[test]
fn request_getters() {
    let mut t = from_req("PUT /x HTTP/1.0\r\nA: b\r\nContent-Length: 2\r\n\r\nhi");
    assert_eq!(t.parse(), Ok(Version::Http10));
    assert_eq!(t.request.method(), Method::Put);
    assert_eq!(t.request.version(), Version::Http10);
    assert_eq!(str_op(t.request.url().target()), "/x");
    assert_eq!(str(t.request.header(b"a")), Some("b"));
    assert_eq!(str(t.request.header(b"A")), Some("b"));
    assert_eq!(t.request.header(b"b"), None);
    assert_eq!(t.request.content_length(), Some(2));
    assert_eq!(t.request.body(), Some(b"hi".as_ref()));
}

#[test]
fn line_breaks_belong_at_line_ends() {
    // A carriage return or a line feed inside the request line.
    for text in [
        "GET /a\rb HTTP/1.1\r\n\r\n",
        "GET /a\nb HTTP/1.1\r\n\r\n",
        "GET /x\r\nHost: HTTP/1.1\r\n\r\n",
        "GET /x\r\n HTTP/1.1\r\n\r\n",
    ] {
        assert_eq!(from_req(text).parse(), Err(ErrorKind::InvalidVersion));
        let mut t = from_req(text);
        t.http_09_limits = Some(Http09Limits::default());
        assert_eq!(t.parse(), Err(ErrorKind::InvalidVersion));
    }

    // A carriage return inside a header line.
    for text in [
        "GET / HTTP/1.1\r\nA: b\rc\r\n\r\n",
        "GET / HTTP/1.1\r\nA: b\r\r\n\r\n",
        "GET / HTTP/1.1\r\nA\r: b\r\n\r\n",
        "GET / HTTP/1.1\r\n\r\r\n",
    ] {
        assert_eq!(from_req(text).parse(), Err(ErrorKind::InvalidHeader));
    }

    // A carriage return inside a request line of HTTP/0.9+.
    let mut t = from_req("GET /a\rb\r\n");
    t.http_09_limits = Some(Http09Limits::default());
    assert_eq!(t.parse(), Err(ErrorKind::InvalidUrl));
}

#[test]
fn segment_limit() {
    let limits = ReqLimits::default();
    let fits = format!("{} ", "/q".repeat(limits.url_parts));
    let mut t = from_req(&fits);
    assert_eq!(t.parse_url(), Ok(()));
    assert_eq!(t.request.url().path_segments().len(), limits.url_parts);

    // A slash at the end opens no further segment.
    let fits = format!("{}/ ", "/q".repeat(limits.url_parts));
    let mut t = from_req(&fits);
    assert_eq!(t.parse_url(), Ok(()));
    assert_eq!(t.request.url().path_segments().len(), limits.url_parts);

    let one_more = format!("{} ", "/q".repeat(limits.url_parts + 1));
    assert_eq!(from_req(&one_more).parse_url(), Err(ErrorKind::InvalidUrl));

    let mut t = from_req("/a/b ");
    t.req_limits.url_parts = 1;
    assert_eq!(t.parse_url(), Err(ErrorKind::InvalidUrl));
    let mut t = from_req("/a ");
    t.req_limits.url_parts = 1;
    assert_eq!(t.parse_url(), Ok(()));
    let mut t = from_req("/a ");
    t.req_limits.url_parts = 0;
    assert_eq!(t.parse_url(), Err(ErrorKind::InvalidUrl));
    let mut t = from_req("/?a ");
    t.req_limits.url_parts = 0;
    assert_eq!(t.parse_url(), Ok(()));
}

#[test]
fn refused_requests_leave_what_was_read() {
    let limits = ReqLimits::default();

    let mut t = from_req("GET / HTTP/1.1\r\nContent-Length: 999999999\r\n\r\nbody");
    assert_eq!(t.parse(), Err(ErrorKind::BodyTooLarge));
    assert_eq!(t.request.body(), None);
    assert_eq!(t.request.content_length(), None);

    let mut t = from_req("POST / HTTP/1.1\r\nContent-Length: 10\r\n\r\nshort");
    assert_eq!(
        t.parse(),
        Err(ErrorKind::BodyMismatch { expected: 10, available: 5 })
    );
    assert_eq!(t.request.body(), None);
    assert_eq!(t.request.content_length(), Some(10));
    assert_eq!(t.request.method(), Method::Post);

    let mut t = from_req(
        "PUT /a?b=c HTTP/1.0\r\nA: b\r\nContent-Length: 3\r\nConnection: zzz\r\nC: d\r\n\r\nxyz",
    );
    assert_eq!(t.parse(), Err(ErrorKind::InvalidConnection));
    assert_eq!(t.request.method(), Method::Put);
    assert_eq!(t.request.version(), Version::Http10);
    assert_eq!(str_op(t.request.url().target()), "/a?b=c");
    assert_eq!(str(t.request.header(b"a")), Some("b"));
    assert_eq!(t.request.header(b"c"), None);
    assert_eq!(t.request.headers.headers.len(), 1);
    assert_eq!(t.request.content_length(), Some(3));
    assert_eq!(t.request.body(), None);
    assert_eq!(t.response.version, Version::Http10);
    assert!(!t.response.keep_alive);

    // A refused request line leaves an empty request, whatever was parsed
    // before.
    let mut t = from_req("POST /a HTTP/1.0\r\nA: b\r\nContent-Length: 1\r\n\r\nx");
    assert_eq!(t.parse(), Ok(Version::Http10));
    t.parser = Parser::from(&limits.precalculate(), b"BREW /pot HTTP/1.1\r\n\r\n");
    assert_eq!(t.parse(), Err(ErrorKind::InvalidMethod));
    assert_eq!(t.request, Request::new(&limits));
    assert_eq!(t.response.version, Version::Http10);

    let mut t = from_req("DELETE //a HTTP/1.0\r\n\r\n");
    assert_eq!(t.parse(), Err(ErrorKind::DoubleSlash));
    assert_eq!(t.request.method(), Method::Delete);
    assert_eq!(t.request.version(), Version::Http11);
    assert_eq!(t.request.url().target(), b"");

    let mut t = from_req("GET /a HTTP/1.0\r\nA: b\r\n\r\nrest");
    assert_eq!(t.parse(), Err(ErrorKind::UnexpectedBody(4)));
    assert_eq!(str(t.request.header(b"a")), Some("b"));
    assert_eq!(t.request.body(), None);

    // The answer to a refused request is written for its version.
    let mut t = from_req("GET /a HTTP/1.0\r\nA\r\n\r\n");
    t.server_limits.json_errors = false;
    assert_eq!(t.parse(), Err(ErrorKind::InvalidHeader));
    assert_eq!(
        t.error_response(&ErrorKind::InvalidHeader).unwrap(),
        b"HTTP/1.0 400 Bad Request\r\nconnection: close\r\ncontent-length: 0\r\n\r\n"
    );
    assert_eq!(t.error_response(&ErrorKind::Io), None);
}
