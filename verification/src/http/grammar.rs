//! What a request is: the syntax of the request line and of the headers, as
//! functions from the received bytes to what they mean or to the error they
//! are refused with.

use crate::bytes::{find, lemma_find, lower_seq, COLON, CR, LF, QUESTION, SLASH, SP};
use crate::errors::ErrorKind;
use crate::http::query::{pairs_of, Error};
use crate::http::types::{marker, marker_prefix, usize_of, Method, Version};
use crate::limits::ReqLimits;
use vstd::prelude::*;
use vstd::string::StringSliceAdditionalSpecFns;

verus! {

/// The bytes of `input` from `from` on, `limit` of them at most.
pub open spec fn window(input: Seq<u8>, from: int, limit: int) -> Seq<u8> {
    input.subrange(
        from,
        if from + limit <= input.len() {
            from + limit
        } else {
            input.len() as int
        },
    )
}

/// Whether what follows the method is a request line of HTTP/0.9+: a URL
/// that is not empty, no longer than the limit and free of line breaks, and
/// then the line break that ends the input.
pub open spec fn is_bare_line(input: Seq<u8>, from: int, limits: ReqLimits) -> bool {
    let url = input.subrange(from, input.len() - 2);
    &&& from + 2 < input.len()
    &&& input[input.len() - 2] == CR
    &&& input[input.len() - 1] == LF
    &&& url.len() <= limits.url_size
    &&& !has_line_break(url)
}

/// Whether `text` holds a carriage return or a line feed.
pub open spec fn has_line_break(text: Seq<u8>) -> bool {
    find(text, CR) < text.len() || find(text, LF) < text.len()
}

/// The length of the URL that begins at `from`, and whether the request line
/// is one of HTTP/0.9+.
///
/// The URL ends at the first space within `url_size + 1` bytes, and the
/// version follows; a line that breaks before that space names no version.
/// Without such a space the line can only be one of HTTP/0.9+, which is
/// refused as an unsupported version where the server does not speak it.
pub open spec fn url_extent(input: Seq<u8>, from: int, limits: ReqLimits, http09: bool) -> Result<
    (int, bool),
    ErrorKind,
> {
    let ahead = window(input, from, limits.url_size + 1);
    if find(ahead, SP) < ahead.len() {
        if has_line_break(ahead.take(find(ahead, SP))) {
            Err(ErrorKind::InvalidVersion)
        } else {
            Ok((find(ahead, SP), false))
        }
    } else if is_bare_line(input, from, limits) {
        if http09 {
            Ok((input.len() - 2 - from, true))
        } else {
            Err(ErrorKind::UnsupportedVersion)
        }
    } else {
        Err(ErrorKind::InvalidUrl)
    }
}

/// Whether `path` holds two `/` in a row.
pub open spec fn has_double_slash(path: Seq<u8>) -> bool {
    exists|i: int| 0 <= i && i + 1 < path.len() && path[i] == SLASH && #[trigger] path[i + 1]
        == SLASH
}

/// The segments of a path without its leading `/`: `rest` is cut at every
/// `/`, and a `/` at the very end opens no further segment.
pub open spec fn segments_of(rest: Seq<u8>) -> Seq<Seq<u8>>
    decreases rest.len(),
{
    proof {
        lemma_find(rest, SLASH);
    }
    if rest.len() == 0 {
        Seq::empty()
    } else if find(rest, SLASH) < rest.len() {
        seq![rest.take(find(rest, SLASH))] + segments_of(rest.skip(find(rest, SLASH) + 1))
    } else {
        seq![rest]
    }
}

/// A URL taken apart.
pub struct UrlModel {
    /// Path and query string.
    pub target: Seq<u8>,
    /// The target up to the query string.
    pub path: Seq<u8>,
    /// The segments of the path.
    pub segments: Seq<Seq<u8>>,
    /// The query string with its `?`, where there is one.
    pub query: Option<Seq<u8>>,
    /// The parameters of the query string.
    pub pairs: Seq<(Seq<u8>, Seq<u8>)>,
    /// Whether the first segment is the keep-alive marker of HTTP/0.9+.
    pub skip: bool,
}

/// Takes a URL apart, or says why it is refused.
///
/// The URL begins with `/`. Its path ends at the first `?`, holds no two `/`
/// in a row and at most `url_parts` segments. The query
/// string, from the `?` on, is no longer than `url_query_size` and holds at
/// most `url_query_parts` parameters. On a request line of HTTP/0.9+
/// (`bare`) a first segment `keep_alive` is the keep-alive marker, and
/// something must follow it.
pub open spec fn analyze(url: Seq<u8>, limits: ReqLimits, bare: bool) -> Result<
    UrlModel,
    ErrorKind,
> {
    let q = find(url, QUESTION);
    let path = url.take(q);
    let segments = segments_of(path.skip(1));
    let skip = bare && segments.len() > 0 && segments[0] == marker();
    if url.len() == 0 || url[0] != SLASH {
        Err(ErrorKind::InvalidUrl)
    } else if has_double_slash(path) {
        Err(ErrorKind::DoubleSlash)
    } else if segments.len() > limits.url_parts {
        Err(ErrorKind::InvalidUrl)
    } else if q < url.len() && url.len() - q > limits.url_query_size {
        Err(ErrorKind::InvalidUrl)
    } else if q < url.len() && pairs_of(url.skip(q + 1)).len() > limits.url_query_parts {
        Err(ErrorKind::Query(Error::OverLimit(limits.url_query_parts)))
    } else if skip && path.len() == marker_prefix().len() {
        Err(ErrorKind::InvalidUrl)
    } else {
        Ok(
            UrlModel {
                target: url,
                path,
                segments,
                query: if q < url.len() {
                    Some(url.skip(q))
                } else {
                    None
                },
                pairs: if q < url.len() {
                    pairs_of(url.skip(q + 1))
                } else {
                    Seq::empty()
                },
                skip,
            },
        )
    }
}

/// The version that the request line names from `from` on, and whether such
/// a connection is kept alive by default. The token is `HTTP/1.0` or
/// `HTTP/1.1`, and the line break follows it at once.
pub open spec fn version_line(input: Seq<u8>, from: int) -> Result<(Version, bool), ErrorKind> {
    let ahead = window(input, from, 10);
    if find(ahead, LF) != 9 || ahead.len() != 10 || ahead[8] != CR {
        Err(ErrorKind::InvalidVersion)
    } else {
        match Version::named(ahead.take(8)) {
            Some(v) => Ok(v),
            None => Err(ErrorKind::UnsupportedVersion),
        }
    }
}

/// One line of the header section.
pub enum Line {
    /// The blank line that ends the headers.
    Blank,
    /// A header, its name in lower case.
    Field {
        /// The name, in lower case.
        name: Seq<u8>,
        /// The value.
        value: Seq<u8>,
    },
}

/// Where the line that begins at `from` ends: behind its line feed.
pub open spec fn line_end(input: Seq<u8>, from: int, limits: ReqLimits) -> int {
    from + find(window(input, from, limits.spec_h_line()), LF) + 1
}

/// The line of the header section that begins at `from`.
///
/// The line ends with a line break within `h_line` bytes and holds no
/// carriage return before it. It is empty, or it is a name, a colon, a space
/// and a value. The name is not empty and no longer than `header_name_size`;
/// the value is no longer than `header_value_size`.
pub open spec fn line_at(input: Seq<u8>, from: int, limits: ReqLimits) -> Result<Line, ErrorKind> {
    let ahead = window(input, from, limits.spec_h_line());
    let end = find(ahead, LF);
    let line = ahead.take(end - 1);
    let split = find(line, COLON);
    if end >= ahead.len() || end < 1 || ahead[end - 1] != CR {
        Err(ErrorKind::InvalidHeader)
    } else if find(line, CR) < line.len() {
        Err(ErrorKind::InvalidHeader)
    } else if split >= line.len() {
        if line.len() == 0 {
            Ok(Line::Blank)
        } else {
            Err(ErrorKind::InvalidHeader)
        }
    } else if split + 1 >= line.len() || line[split + 1] != SP {
        Err(ErrorKind::InvalidHeader)
    } else if split > limits.header_name_size || line.len() - split - 2
        > limits.header_value_size {
        Err(ErrorKind::InvalidHeader)
    } else if split == 0 {
        Err(ErrorKind::InvalidHeader)
    } else {
        Ok(Line::Field { name: lower_seq(line.take(split)), value: line.skip(split + 2) })
    }
}

/// What the headers read so far have told.
pub struct Fields {
    /// The headers other than `content-length` and `connection`.
    pub headers: Seq<(Seq<u8>, Seq<u8>)>,
    /// The value of `content-length`.
    pub content_length: Option<usize>,
    /// Whether the connection is to be kept alive.
    pub keep_alive: bool,
}

/// What a value of the `connection` header asks for: `keep-alive` to keep
/// the connection, `close` to close it, in letters of either case.
pub open spec fn connection_choice(value: Seq<u8>) -> Option<bool> {
    if lower_seq(value) == lower_seq("keep-alive".spec_bytes()) {
        Some(true)
    } else if lower_seq(value) == lower_seq("close".spec_bytes()) {
        Some(false)
    } else {
        None
    }
}

/// Whether a header of this name is read by the parser itself and kept out
/// of the list of headers.
pub open spec fn is_special(name: Seq<u8>) -> bool {
    name == "content-length".spec_bytes() || name == "connection".spec_bytes()
}

/// What is known after one more header.
///
/// `content-length` sets the length of the body, which must be a number no
/// larger than `body_size`. `connection` decides whether the connection is
/// kept alive. Any other header joins the list, which holds `header_count`
/// headers at most.
pub open spec fn with_field(fields: Fields, name: Seq<u8>, value: Seq<u8>, limits: ReqLimits)
    -> Result<Fields, ErrorKind> {
    if name == "content-length".spec_bytes() {
        match usize_of(value) {
            None => Err(ErrorKind::InvalidContentLength),
            Some(n) => if n > limits.body_size {
                Err(ErrorKind::BodyTooLarge)
            } else {
                Ok(Fields { content_length: Some(n), ..fields })
            },
        }
    } else if name == "connection".spec_bytes() {
        match connection_choice(value) {
            Some(keep) => Ok(Fields { keep_alive: keep, ..fields }),
            None => Err(ErrorKind::InvalidConnection),
        }
    } else if fields.headers.len() >= limits.header_count {
        Err(ErrorKind::TooManyHeaders)
    } else {
        Ok(Fields { headers: fields.headers.push((name, value)), ..fields })
    }
}

/// The header section that begins at `from`, read line by line up to its
/// blank line: what the headers tell on top of `fields`, and where the
/// section ends.
pub open spec fn header_section(
    input: Seq<u8>,
    from: int,
    limits: ReqLimits,
    fields: Fields,
) -> Result<(Fields, int), ErrorKind>
    decreases input.len() - from,
{
    proof {
        lemma_find(window(input, from, limits.spec_h_line()), LF);
    }
    if from < 0 || from > input.len() {
        Err(ErrorKind::InvalidHeader)
    } else {
        match line_at(input, from, limits) {
            Err(e) => Err(e),
            Ok(Line::Blank) => Ok((fields, line_end(input, from, limits))),
            Ok(Line::Field { name, value }) => match with_field(fields, name, value, limits) {
                Err(e) => Err(e),
                Ok(next) => header_section(input, line_end(input, from, limits), limits, next),
            },
        }
    }
}

/// What the header lines from `from` on have told, on top of `fields`, when
/// reading stops: at the blank line, or before the line that is refused.
pub open spec fn header_reach(input: Seq<u8>, from: int, limits: ReqLimits, fields: Fields)
    -> Fields
    decreases input.len() - from,
{
    proof {
        lemma_find(window(input, from, limits.spec_h_line()), LF);
    }
    if from < 0 || from > input.len() {
        fields
    } else {
        match line_at(input, from, limits) {
            Err(_) => fields,
            Ok(Line::Blank) => fields,
            Ok(Line::Field { name, value }) => match with_field(fields, name, value, limits) {
                Err(_) => fields,
                Ok(next) => header_reach(input, line_end(input, from, limits), limits, next),
            },
        }
    }
}

/// The body of a request whose headers end at `from`.
///
/// With `content-length` exactly that many bytes follow the headers, and
/// they are the body. Without it nothing follows, and there is no body.
pub open spec fn body_at(input: Seq<u8>, from: int, content_length: Option<usize>) -> Result<
    Option<Seq<u8>>,
    ErrorKind,
> {
    let available = input.len() - from;
    match content_length {
        Some(expected) => if expected == available {
            Ok(Some(input.skip(from)))
        } else {
            Err(ErrorKind::BodyMismatch { expected, available: available as usize })
        },
        None => if available == 0 {
            Ok(None)
        } else {
            Err(ErrorKind::UnexpectedBody(available as usize))
        },
    }
}

/// A request taken apart.
pub struct Parsed {
    /// The method.
    pub method: Method,
    /// The version.
    pub version: Version,
    /// Whether the connection is to be kept alive.
    pub keep_alive: bool,
    /// The URL.
    pub url: UrlModel,
    /// The headers other than `content-length` and `connection`.
    pub headers: Seq<(Seq<u8>, Seq<u8>)>,
    /// The value of `content-length`.
    pub content_length: Option<usize>,
    /// The body.
    pub body: Option<Seq<u8>>,
    /// Where the head of the request ends and its body begins.
    pub head_len: int,
}

/// What parsing has made of a request when it stops, be it at the end of
/// the request or at the error that refuses it.
pub struct Reached {
    /// The method; `GET` until one is read.
    pub method: Method,
    /// The URL; empty until one is accepted.
    pub url: UrlModel,
    /// The version; HTTP/1.1 until one is read.
    pub version: Version,
    /// The headers accepted, `content-length` and `connection` left out.
    pub headers: Seq<(Seq<u8>, Seq<u8>)>,
    /// The value of `content-length`, where one was accepted.
    pub content_length: Option<usize>,
    /// The body; none unless the whole request is accepted.
    pub body: Option<Seq<u8>>,
    /// The version and `keep_alive` that the answer is to have, once the
    /// request line has told them.
    pub answer: Option<(Version, bool)>,
}

/// The URL that holds nothing.
pub open spec fn empty_url() -> UrlModel {
    UrlModel {
        target: Seq::empty(),
        path: Seq::empty(),
        segments: Seq::empty(),
        query: None,
        pairs: Seq::empty(),
        skip: false,
    }
}

/// What parsing has made of a request before any of it is read.
pub open spec fn nothing_reached() -> Reached {
    Reached {
        method: Method::Get,
        url: empty_url(),
        version: Version::Http11,
        headers: Seq::empty(),
        content_length: None,
        body: None,
        answer: None,
    }
}

/// What parsing makes of `input`, accepted or refused.
///
/// Each stage that is passed leaves what it has read: the method, then the
/// URL, then the version, then header by header what the headers tell. The
/// stage that refuses the request leaves nothing, and the body is taken only
/// where the whole request is accepted.
pub open spec fn reached(input: Seq<u8>, limits: ReqLimits, http09: bool) -> Reached {
    match Method::leading(input) {
        None => nothing_reached(),
        Some(method) => reached_line(input, limits, http09, method),
    }
}

/// What parsing makes of a request whose method was read.
pub open spec fn reached_line(input: Seq<u8>, limits: ReqLimits, http09: bool, method: Method)
    -> Reached {
    let at_url = method.token().len() as int;
    match url_extent(input, at_url, limits, http09) {
        Err(_) => Reached { method, ..nothing_reached() },
        Ok((url_len, bare)) => match analyze(
            input.subrange(at_url, at_url + url_len),
            limits,
            bare,
        ) {
            Err(_) => Reached { method, ..nothing_reached() },
            Ok(url) => if bare {
                Reached {
                    method,
                    url,
                    version: Version::Http09,
                    answer: Some((Version::Http09, url.skip)),
                    ..nothing_reached()
                }
            } else {
                reached_full(input, limits, method, url, at_url + url_len + 1)
            },
        },
    }
}

/// What parsing makes of a request of HTTP/1.x, given its method and URL and
/// the place where its version stands.
pub open spec fn reached_full(
    input: Seq<u8>,
    limits: ReqLimits,
    method: Method,
    url: UrlModel,
    at_version: int,
) -> Reached {
    match version_line(input, at_version) {
        Err(_) => Reached { method, url, ..nothing_reached() },
        Ok((version, keep_alive)) => {
            let fields = header_reach(
                input,
                at_version + 10,
                limits,
                Fields { headers: Seq::empty(), content_length: None, keep_alive },
            );
            Reached {
                method,
                url,
                version,
                headers: fields.headers,
                content_length: fields.content_length,
                body: match full_request(input, limits, method, url, at_version) {
                    Ok(p) => p.body,
                    Err(_) => None,
                },
                answer: Some((version, fields.keep_alive)),
            }
        },
    }
}

/// The request that `input` holds, or the error that it is refused with.
///
/// The stages are tried in order and the first error is the result: the
/// method, the URL, the version with its line break, the headers, the
/// encoding of all that as UTF-8, and the body. A request line of HTTP/0.9+
/// is the whole request.
pub open spec fn parsed(input: Seq<u8>, limits: ReqLimits, http09: bool) -> Result<
    Parsed,
    ErrorKind,
> {
    match Method::leading(input) {
        None => Err(ErrorKind::InvalidMethod),
        Some(method) => request_line(input, limits, http09, method),
    }
}

/// The request that `input` holds, given its method, or the error that it
/// is refused with.
pub open spec fn request_line(input: Seq<u8>, limits: ReqLimits, http09: bool, method: Method)
    -> Result<Parsed, ErrorKind> {
    let at_url = method.token().len() as int;
    match url_extent(input, at_url, limits, http09) {
        Err(e) => Err(e),
        Ok((url_len, bare)) => match analyze(
            input.subrange(at_url, at_url + url_len),
            limits,
            bare,
        ) {
            Err(e) => Err(e),
            Ok(url) => if bare {
                bare_request(input, method, url)
            } else {
                full_request(input, limits, method, url, at_url + url_len + 1)
            },
        },
    }
}

/// The request of HTTP/0.9+ that `input` holds, given its method and URL:
/// the request line is all of it, and it must be valid UTF-8.
pub open spec fn bare_request(input: Seq<u8>, method: Method, url: UrlModel) -> Result<
    Parsed,
    ErrorKind,
> {
    if vstd::utf8::valid_utf8(input) {
        Ok(
            Parsed {
                method,
                version: Version::Http09,
                keep_alive: url.skip,
                url,
                headers: Seq::empty(),
                content_length: None,
                body: None,
                head_len: input.len() as int,
            },
        )
    } else {
        Err(ErrorKind::InvalidEncoding)
    }
}

/// The request of HTTP/1.x that `input` holds, given its method and URL and
/// the place where its version stands.
pub open spec fn full_request(
    input: Seq<u8>,
    limits: ReqLimits,
    method: Method,
    url: UrlModel,
    at_version: int,
) -> Result<Parsed, ErrorKind> {
    match version_line(input, at_version) {
        Err(e) => Err(e),
        Ok((version, keep_alive)) => match header_section(
            input,
            at_version + 10,
            limits,
            Fields { headers: Seq::empty(), content_length: None, keep_alive },
        ) {
            Err(e) => Err(e),
            Ok((fields, head_len)) => if !vstd::utf8::valid_utf8(input.take(head_len)) {
                Err(ErrorKind::InvalidEncoding)
            } else {
                match body_at(input, head_len, fields.content_length) {
                    Err(e) => Err(e),
                    Ok(body) => Ok(
                        Parsed {
                            method,
                            version,
                            keep_alive: fields.keep_alive,
                            url,
                            headers: fields.headers,
                            content_length: fields.content_length,
                            body,
                            head_len,
                        },
                    ),
                }
            },
        },
    }
}

/// The path of a URL as a handler sees it: without the keep-alive marker.
pub open spec fn shown_path(url: UrlModel) -> Seq<u8> {
    if url.skip {
        url.path.skip(marker_prefix().len() as int)
    } else {
        url.path
    }
}

/// The target of a URL as a handler sees it: without the keep-alive marker.
pub open spec fn shown_target(url: UrlModel) -> Seq<u8> {
    if url.skip {
        url.target.skip(marker_prefix().len() as int)
    } else {
        url.target
    }
}

/// The query string of a URL, or nothing where it has none.
pub open spec fn query_or_nothing(url: UrlModel) -> Seq<u8> {
    match url.query {
        Some(query) => query,
        None => Seq::empty(),
    }
}

/// Every URL that is accepted is its path followed by its query string. Its
/// path begins with `/` and holds no two `/` in a row. The same holds of
/// what a handler sees of it.
pub proof fn lemma_url_shape(url: Seq<u8>, limits: ReqLimits, bare: bool)
    requires
        analyze(url, limits, bare) is Ok,
    ensures
        ({
            let model = analyze(url, limits, bare)->Ok_0;
            &&& model.target == model.path + query_or_nothing(model)
            &&& model.path.len() > 0
            &&& model.path[0] == SLASH
            &&& !has_double_slash(model.path)
            &&& shown_target(model) == shown_path(model) + query_or_nothing(model)
            &&& shown_path(model).len() > 0
            &&& shown_path(model)[0] == SLASH
            &&& !has_double_slash(shown_path(model))
        }),
{
    let model = analyze(url, limits, bare)->Ok_0;
    lemma_find(url, QUESTION);
    let q = find(url, QUESTION);
    let path = url.take(q);
    assert(q >= 1);
    assert(model.target =~= model.path + query_or_nothing(model));
    if model.skip {
        let hidden = marker_prefix().len() as int;
        let rest = path.skip(1);
        lemma_find(rest, SLASH);
        let k = find(rest, SLASH);
        assert(segments_of(rest)[0] == marker());
        if k < rest.len() {
            assert(rest.take(k) == marker());
            assert(rest.take(k).len() == k);
        } else {
            assert(rest == marker());
        }
        assert(hidden == 1 + marker().len());
        assert(k == marker().len());
        assert(path.len() > hidden);
        assert(path[hidden] == rest[k]);
        let shown = shown_path(model);
        assert(shown[0] == SLASH);
        assert(shown_target(model) =~= shown + query_or_nothing(model));
        if has_double_slash(shown) {
            let i = choose|i: int|
                0 <= i && i + 1 < shown.len() && shown[i] == SLASH && #[trigger] shown[i + 1]
                    == SLASH;
            assert(path[hidden + i] == SLASH && path[(hidden + i) + 1] == SLASH);
            assert(false);
        }
    }
}

/// Every URL that is accepted keeps to the limits: its path has at most
/// `url_parts` segments, and its query string is no longer than
/// `url_query_size` and holds at most `url_query_parts` parameters.
pub proof fn lemma_url_bounds(url: Seq<u8>, limits: ReqLimits, bare: bool)
    requires
        analyze(url, limits, bare) is Ok,
    ensures
        ({
            let model = analyze(url, limits, bare)->Ok_0;
            &&& model.segments.len() <= limits.url_parts
            &&& query_or_nothing(model).len() <= limits.url_query_size
            &&& model.pairs.len() <= limits.url_query_parts
        }),
{
    lemma_find(url, QUESTION);
}

/// A header section that is accepted ends within the input, behind the
/// place where it begins.
pub proof fn lemma_header_section_bounds(
    input: Seq<u8>,
    from: int,
    limits: ReqLimits,
    fields: Fields,
)
    requires
        header_section(input, from, limits, fields) is Ok,
    ensures
        from < header_section(input, from, limits, fields)->Ok_0.1 <= input.len(),
        0 <= from,
    decreases input.len() - from,
{
    lemma_find(window(input, from, limits.spec_h_line()), LF);
    match line_at(input, from, limits) {
        Ok(Line::Field { name, value }) => {
            let next = with_field(fields, name, value, limits)->Ok_0;
            lemma_header_section_bounds(input, line_end(input, from, limits), limits, next);
        },
        _ => {},
    }
}

/// A request that is accepted is its head followed by its body, and nothing
/// else: the head ends within the input, what follows it is the body, and
/// the body is as long as `content-length` says, or empty without that
/// header.
pub proof fn lemma_request_is_head_and_body(input: Seq<u8>, limits: ReqLimits, http09: bool)
    requires
        parsed(input, limits, http09) is Ok,
    ensures
        ({
            let p = parsed(input, limits, http09)->Ok_0;
            let body = match p.body {
                Some(body) => body,
                None => Seq::empty(),
            };
            &&& 0 <= p.head_len <= input.len()
            &&& input == input.take(p.head_len) + body
            &&& vstd::utf8::valid_utf8(input.take(p.head_len))
            &&& p.content_length is Some ==> p.body is Some && p.content_length->0 == body.len()
            &&& p.content_length is None ==> p.body is None
        }),
{
    let p = parsed(input, limits, http09)->Ok_0;
    let method = Method::leading(input)->0;
    let at_url = method.token().len() as int;
    let extent = url_extent(input, at_url, limits, http09)->Ok_0;
    if extent.1 {
        assert(input.take(input.len() as int) =~= input);
        assert(input =~= input.take(p.head_len) + Seq::<u8>::empty());
    } else {
        let at_version = at_url + extent.0 + 1;
        let keep_alive = version_line(input, at_version)->Ok_0.1;
        let start = Fields { headers: Seq::empty(), content_length: None, keep_alive };
        lemma_header_section_bounds(input, at_version + 10, limits, start);
        lemma_find(window(input, at_url, limits.url_size + 1), SP);
        match p.body {
            Some(body) => {
                assert(input =~= input.take(p.head_len) + body);
            },
            None => {
                assert(input =~= input.take(p.head_len) + Seq::<u8>::empty());
            },
        }
    }
}

/// Whether every line break of `text` is a carriage return followed by a
/// line feed: no line feed stands without a carriage return before it, and
/// no carriage return without a line feed behind it.
pub open spec fn breaks_are_whole(text: Seq<u8>) -> bool {
    forall|i: int|
        0 <= i < text.len() ==> {
            &&& #[trigger] text[i] == LF ==> i > 0 && text[i - 1] == CR
            &&& text[i] == CR ==> i + 1 < text.len() && text[i + 1] == LF
        }
}

/// Whether `text` holds neither a carriage return nor a line feed from
/// place `from` up to place `to`.
pub open spec fn unbroken(text: Seq<u8>, from: int, to: int) -> bool {
    forall|i: int| from <= i < to ==> #[trigger] text[i] != CR && text[i] != LF
}

/// Whether all line breaks of `text` from place `from` up to place `to` are
/// whole, the last of them ending right before `to`.
pub open spec fn whole_between(text: Seq<u8>, from: int, to: int) -> bool {
    forall|i: int|
        from <= i < to ==> {
            &&& #[trigger] text[i] == LF ==> i > from && text[i - 1] == CR
            &&& text[i] == CR ==> i + 1 < to && text[i + 1] == LF
        }
}

/// A text that is plain ASCII letters, digits and punctuation holds no line
/// break.
proof fn lemma_literal_unbroken(text: &str)
    requires
        vstd::string::is_ascii(text),
        forall|i: int| 0 <= i < text@.len() ==> text@[i] != '\r' && text@[i] != '\n',
    ensures
        unbroken(text.spec_bytes(), 0, text.spec_bytes().len() as int),
{
    vstd::string::is_ascii_spec_bytes(text);
    let bytes = text.spec_bytes();
    assert forall|i: int| 0 <= i < bytes.len() implies #[trigger] bytes[i] != CR && bytes[i]
        != LF by {
        let c = text@[i];
        assert(bytes[i] == c as u8);
        assert('\0' <= c <= '\u{7f}');
        assert(c != '\r' && c != '\n');
    }
}

/// The name of a method and the space behind it hold no line break.
proof fn lemma_token_unbroken(method: Method)
    ensures
        unbroken(method.token(), 0, method.token().len() as int),
{
    reveal_strlit("GET ");
    reveal_strlit("PUT ");
    reveal_strlit("POST ");
    reveal_strlit("HEAD ");
    reveal_strlit("PATCH ");
    reveal_strlit("DELETE ");
    reveal_strlit("OPTIONS ");
    match method {
        Method::Get => lemma_literal_unbroken("GET "),
        Method::Put => lemma_literal_unbroken("PUT "),
        Method::Post => lemma_literal_unbroken("POST "),
        Method::Head => lemma_literal_unbroken("HEAD "),
        Method::Patch => lemma_literal_unbroken("PATCH "),
        Method::Delete => lemma_literal_unbroken("DELETE "),
        Method::Options => lemma_literal_unbroken("OPTIONS "),
    }
}

/// The name of a version holds no line break.
proof fn lemma_version_unbroken(token: Seq<u8>)
    requires
        Version::named(token) is Some,
    ensures
        unbroken(token, 0, token.len() as int),
{
    reveal_strlit("HTTP/1.1");
    reveal_strlit("HTTP/1.0");
    lemma_literal_unbroken("HTTP/1.1");
    lemma_literal_unbroken("HTTP/1.0");
}

/// A text without carriage return and line feed is unbroken.
proof fn lemma_no_break_unbroken(text: Seq<u8>)
    requires
        !has_line_break(text),
    ensures
        unbroken(text, 0, text.len() as int),
{
    lemma_find(text, CR);
    lemma_find(text, LF);
}

/// In a header section that is accepted every line break is whole.
proof fn lemma_section_breaks(input: Seq<u8>, from: int, limits: ReqLimits, fields: Fields)
    requires
        header_section(input, from, limits, fields) is Ok,
    ensures
        whole_between(input, from, header_section(input, from, limits, fields)->Ok_0.1),
    decreases input.len() - from,
{
    let ahead = window(input, from, limits.spec_h_line());
    lemma_find(ahead, LF);
    let end = find(ahead, LF);
    let line = ahead.take(end - 1);
    lemma_find(line, CR);
    let next = line_end(input, from, limits);
    let last = header_section(input, from, limits, fields)->Ok_0.1;
    lemma_header_section_bounds(input, from, limits, fields);
    assert forall|i: int| from <= i < next implies {
        &&& #[trigger] input[i] == LF ==> i > from && input[i - 1] == CR
        &&& input[i] == CR ==> i + 1 < next && input[i + 1] == LF
    } by {
        assert(input[i] == ahead[i - from]);
        if i - from < end - 1 {
            assert(line[i - from] == ahead[i - from]);
        } else if i - from == end - 1 {
            assert(input[i + 1] == ahead[end]);
        } else {
            assert(input[i - 1] == ahead[end - 1]);
        }
    }
    match line_at(input, from, limits) {
        Ok(Line::Field { name, value }) => {
            let more = with_field(fields, name, value, limits)->Ok_0;
            lemma_section_breaks(input, next, limits, more);
            lemma_header_section_bounds(input, next, limits, more);
            assert forall|i: int| from <= i < last implies {
                &&& #[trigger] input[i] == LF ==> i > from && input[i - 1] == CR
                &&& input[i] == CR ==> i + 1 < last && input[i + 1] == LF
            } by {
                if i >= next {
                    assert(whole_between(input, next, last));
                }
            }
        },
        _ => {},
    }
}

/// The line breaks of a request line of HTTP/0.9+: where method and URL hold
/// none, the one at the end is the only one.
proof fn lemma_bare_breaks(input: Seq<u8>)
    requires
        input.len() >= 2,
        unbroken(input, 0, input.len() - 2),
        input[input.len() - 2] == CR,
        input[input.len() - 1] == LF,
    ensures
        breaks_are_whole(input),
{
}

/// The line breaks of the head of a request of HTTP/1.x: where method, URL
/// and version hold none, they are the one behind the version and those of
/// the header section.
proof fn lemma_full_breaks(input: Seq<u8>, at_version: int, head_len: int)
    requires
        0 <= at_version,
        at_version + 10 <= head_len <= input.len(),
        unbroken(input, 0, at_version + 8),
        input[at_version + 8] == CR,
        input[at_version + 9] == LF,
        whole_between(input, at_version + 10, head_len),
    ensures
        breaks_are_whole(input.take(head_len)),
{
    let head = input.take(head_len);
    assert forall|i: int| 0 <= i < head.len() implies {
        &&& #[trigger] head[i] == LF ==> i > 0 && head[i - 1] == CR
        &&& head[i] == CR ==> i + 1 < head.len() && head[i + 1] == LF
    } by {
        assert(head[i] == input[i]);
        if i < at_version + 8 {
        } else if i == at_version + 8 {
            assert(head[i + 1] == input[i + 1]);
        } else if i == at_version + 9 {
            assert(head[i - 1] == input[i - 1]);
        } else {
            if input[i] == LF {
                assert(head[i - 1] == input[i - 1]);
            }
            if input[i] == CR {
                assert(head[i + 1] == input[i + 1]);
            }
        }
    }
}

/// Method, URL and the space between URL and version hold no line break.
proof fn lemma_line_start_unbroken(input: Seq<u8>, limits: ReqLimits, http09: bool)
    requires
        Method::leading(input) is Some,
        url_extent(input, Method::leading(input)->0.token().len() as int, limits, http09) is Ok,
    ensures
        ({
            let at_url = Method::leading(input)->0.token().len() as int;
            let extent = url_extent(input, at_url, limits, http09)->Ok_0;
            &&& 0 <= extent.0
            &&& at_url + extent.0 <= input.len()
            &&& unbroken(input, 0, at_url + extent.0)
            &&& !extent.1 ==> at_url + extent.0 < input.len() && input[at_url + extent.0] == SP
            &&& extent.1 ==> at_url + extent.0 + 2 == input.len() && input[input.len() - 2] == CR
                && input[input.len() - 1] == LF
        }),
{
    let method = Method::leading(input)->0;
    let token = method.token();
    let at_url = token.len() as int;
    let extent = url_extent(input, at_url, limits, http09)->Ok_0;
    let url = input.subrange(at_url, at_url + extent.0);
    let ahead = window(input, at_url, limits.url_size + 1);
    lemma_token_unbroken(method);
    assert(token =~= input.subrange(0, at_url));
    lemma_find(ahead, SP);
    if !extent.1 {
        assert(url =~= ahead.take(extent.0));
        assert(input[at_url + extent.0] == ahead[extent.0]);
    }
    lemma_no_break_unbroken(url);
    assert forall|i: int| 0 <= i < at_url + extent.0 implies #[trigger] input[i] != CR && input[i]
        != LF by {
        if i < at_url {
            assert(input[i] == token[i]);
        } else {
            assert(input[i] == url[i - at_url]);
        }
    }
}

/// The version and the line break behind it.
proof fn lemma_version_breaks(input: Seq<u8>, at_version: int)
    requires
        0 <= at_version <= input.len(),
        version_line(input, at_version) is Ok,
    ensures
        at_version + 10 <= input.len(),
        unbroken(input, at_version, at_version + 8),
        input[at_version + 8] == CR,
        input[at_version + 9] == LF,
{
    let line = window(input, at_version, 10);
    lemma_find(line, LF);
    let name = line.take(8);
    lemma_version_unbroken(name);
    assert(input[at_version + 8] == line[8]);
    assert(input[at_version + 9] == line[9]);
    assert forall|i: int| at_version <= i < at_version + 8 implies #[trigger] input[i] != CR
        && input[i] != LF by {
        assert(input[i] == name[i - at_version]);
    }
}

/// What the stages of an accepted request have found.
pub struct Stages {
    /// Where the URL begins.
    pub at_url: int,
    /// The length of the URL.
    pub url_len: int,
    /// Whether the request line is one of HTTP/0.9+.
    pub bare: bool,
    /// Where the head ends.
    pub head_len: int,
}

/// The stages of a request.
pub open spec fn stages_of(input: Seq<u8>, limits: ReqLimits, http09: bool) -> Stages {
    let at_url = Method::leading(input)->0.token().len() as int;
    let extent = url_extent(input, at_url, limits, http09)->Ok_0;
    Stages {
        at_url,
        url_len: extent.0,
        bare: extent.1,
        head_len: parsed(input, limits, http09)->Ok_0.head_len,
    }
}

/// A request that is accepted has passed every stage: its method and its
/// URL were found, and then either the line ended the request, or the
/// version and the header section were found as well.
pub proof fn lemma_stages(input: Seq<u8>, limits: ReqLimits, http09: bool)
    requires
        parsed(input, limits, http09) is Ok,
    ensures
        ({
            let s = stages_of(input, limits, http09);
            let at_version = s.at_url + s.url_len + 1;
            &&& Method::leading(input) is Some
            &&& url_extent(input, s.at_url, limits, http09) is Ok
            &&& s.bare ==> s.head_len == input.len()
            &&& !s.bare ==> {
                &&& version_line(input, at_version) is Ok
                &&& header_section(
                    input,
                    at_version + 10,
                    limits,
                    Fields {
                        headers: Seq::empty(),
                        content_length: None,
                        keep_alive: version_line(input, at_version)->Ok_0.1,
                    },
                ) is Ok
                &&& header_section(
                    input,
                    at_version + 10,
                    limits,
                    Fields {
                        headers: Seq::empty(),
                        content_length: None,
                        keep_alive: version_line(input, at_version)->Ok_0.1,
                    },
                )->Ok_0.1 == s.head_len
            }
        }),
{
}

/// In the head of a request that is accepted every line break is a carriage
/// return followed by a line feed.
#[verifier::rlimit(40)]
pub proof fn lemma_head_breaks_are_whole(input: Seq<u8>, limits: ReqLimits, http09: bool)
    requires
        parsed(input, limits, http09) is Ok,
    ensures
        breaks_are_whole(input.take(parsed(input, limits, http09)->Ok_0.head_len)),
{
    let s = stages_of(input, limits, http09);
    lemma_stages(input, limits, http09);
    lemma_line_start_unbroken(input, limits, http09);
    if s.bare {
        assert(input.take(input.len() as int) =~= input);
        lemma_bare_breaks(input);
    } else {
        let at_version = s.at_url + s.url_len + 1;
        lemma_version_breaks(input, at_version);
        let start = Fields {
            headers: Seq::empty(),
            content_length: None,
            keep_alive: version_line(input, at_version)->Ok_0.1,
        };
        lemma_section_breaks(input, at_version + 10, limits, start);
        lemma_header_section_bounds(input, at_version + 10, limits, start);
        assert(unbroken(input, 0, at_version + 8));
        assert(whole_between(input, at_version + 10, s.head_len));
        lemma_full_breaks(input, at_version, s.head_len);
    }
}

/// Where a header section is accepted, what its lines have told when
/// reading stops is what the section tells.
pub proof fn lemma_reach_of_section(input: Seq<u8>, from: int, limits: ReqLimits, fields: Fields)
    requires
        header_section(input, from, limits, fields) is Ok,
    ensures
        header_reach(input, from, limits, fields) == header_section(
            input,
            from,
            limits,
            fields,
        )->Ok_0.0,
    decreases input.len() - from,
{
    lemma_find(window(input, from, limits.spec_h_line()), LF);
    match line_at(input, from, limits) {
        Ok(Line::Field { name, value }) => {
            let next = with_field(fields, name, value, limits)->Ok_0;
            lemma_reach_of_section(input, line_end(input, from, limits), limits, next);
        },
        _ => {},
    }
}

/// Where a request is accepted, what parsing has reached is the request.
pub proof fn lemma_reached_when_accepted(input: Seq<u8>, limits: ReqLimits, http09: bool)
    requires
        parsed(input, limits, http09) is Ok,
    ensures
        ({
            let p = parsed(input, limits, http09)->Ok_0;
            reached(input, limits, http09) == (Reached {
                method: p.method,
                url: p.url,
                version: p.version,
                headers: p.headers,
                content_length: p.content_length,
                body: p.body,
                answer: Some((p.version, p.keep_alive)),
            })
        }),
{
    let s = stages_of(input, limits, http09);
    lemma_stages(input, limits, http09);
    if !s.bare {
        let at_version = s.at_url + s.url_len + 1;
        let start = Fields {
            headers: Seq::empty(),
            content_length: None,
            keep_alive: version_line(input, at_version)->Ok_0.1,
        };
        lemma_reach_of_section(input, at_version + 10, limits, start);
    }
}

/// Where a request is refused, no body is taken.
pub proof fn lemma_refused_takes_no_body(input: Seq<u8>, limits: ReqLimits, http09: bool)
    requires
        parsed(input, limits, http09) is Err,
    ensures
        reached(input, limits, http09).body is None,
{
}

} // verus!
