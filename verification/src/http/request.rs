//! The request as a handler sees it, the buffer that a request is parsed
//! from, and the parser itself.

use crate::bytes::{
    find, find_byte, has_suffix, lemma_find, same_bytes, COLON, CR, LF, QUESTION, SLASH, SP,
};
use crate::errors::ErrorKind;
use crate::http::grammar::{
    analyze, bare_request, body_at, connection_choice, empty_url, full_request, has_double_slash,
    header_reach, header_section, is_bare_line, is_special, line_at, line_end, nothing_reached,
    parsed, reached, reached_full, reached_line, request_line, segments_of, url_extent,
    version_line, window, with_field, Fields, Line, Parsed, Reached, UrlModel,
};
use crate::http::query::{pairs_of, Query, QueryCollector};
use crate::http::types::{
    marker, marker_prefix, pair_views_of, same_caseless, slice_to_usize, views_of, Header,
    HeaderMap, Method, Url, Version,
};
use crate::limits::ReqLimits;
use crate::server::connection::{ConnectionData, HttpConnection};
use vstd::prelude::*;
use vstd::string::StringSliceAdditionalSpecFns;

verus! {

/// A parsed request.
#[derive(Debug, Clone, PartialEq)]
pub struct Request {
    /// The method.
    pub method: Method,
    /// The URL.
    pub url: Url,
    /// The version.
    pub version: Version,
    /// The headers.
    pub headers: HeaderMap,
    /// The body, where the request declares one.
    pub body: Option<Vec<u8>>,
}

impl Request {
    /// Whether the request holds nothing, as before one is parsed.
    pub open spec fn is_clear(&self) -> bool {
        &&& self.method == Method::Get
        &&& self.url.is_clear()
        &&& self.version == Version::Http11
        &&& self.headers.headers@.len() == 0
        &&& self.headers.content_length is None
        &&& self.body is None
    }

    /// The body, where the request declares one.
    pub open spec fn spec_body(&self) -> Option<Seq<u8>> {
        match self.body {
            Some(b) => Some(b@),
            None => None,
        }
    }

    /// An empty request with room for what the limits allow.
    pub fn new(limits: &ReqLimits) -> (r: Self)
        ensures
            r.is_clear(),
            r.url.wf(),
    {
        Request {
            method: Method::Get,
            url: Url::new(limits),
            version: Version::Http11,
            headers: HeaderMap::new(limits.header_count),
            body: None,
        }
    }

    /// Makes the request what `new` returns.
    pub fn reset(&mut self)
        ensures
            final(self).is_clear(),
            final(self).url.wf(),
    {
        self.method = Method::Get;
        self.url.clear();
        self.version = Version::Http11;
        self.headers.reset();
        self.body = None;
    }

    /// The method.
    pub fn method(&self) -> (r: Method)
        ensures
            r == self.method,
    {
        self.method
    }

    /// The URL.
    pub fn url(&self) -> (r: &Url)
        ensures
            *r == self.url,
    {
        &self.url
    }

    /// The version.
    pub fn version(&self) -> (r: Version)
        ensures
            r == self.version,
    {
        self.version
    }

    /// The value of the first header named `name`, letters compared without
    /// regard to case. The headers `content-length` and `connection` are not
    /// found here.
    pub fn header(&self, name: &[u8]) -> (r: Option<&[u8]>)
        ensures
            match r {
                Some(v) => crate::http::types::lookup_caseless(self.headers.pairs(), name@) == Some(
                    v@,
                ),
                None => crate::http::types::lookup_caseless(self.headers.pairs(), name@) is None,
            },
    {
        self.headers.get(name)
    }

    /// The value of the `content-length` header, where the request has one.
    pub fn content_length(&self) -> (r: Option<usize>)
        ensures
            r == self.headers.content_length,
    {
        self.headers.content_length
    }

    /// The body, where the request declares one.
    pub fn body(&self) -> (r: Option<&[u8]>)
        ensures
            match r {
                Some(b) => self.spec_body() == Some(b@),
                None => self.spec_body() is None,
            },
    {
        match &self.body {
            Some(b) => Some(b.as_slice()),
            None => None,
        }
    }
}

/// The buffer that a request is received into and parsed from. It is as
/// large as the largest request that the limits allow; `len` bytes of it are
/// the request, and `position` is how far parsing has come.
#[derive(Debug, Clone, PartialEq)]
pub struct Parser {
    /// How far parsing has come.
    pub position: usize,
    /// The number of bytes received.
    pub len: usize,
    /// The buffer; bytes behind `len` are not part of the request.
    pub buffer: Vec<u8>,
}

/// A buffer of `n` zero bytes.
pub open spec fn zeros(n: nat) -> Seq<u8> {
    Seq::new(n, |i: int| 0u8)
}

impl Parser {
    /// Whether the parser is as `new` makes it for a buffer of `size` bytes:
    /// nothing received, nothing parsed, and the buffer zeroed.
    pub open spec fn is_fresh(&self, size: nat) -> bool {
        &&& self.position == 0
        &&& self.len == 0
        &&& self.buffer@ == zeros(size)
    }

    /// The received bytes lie within the buffer, and parsing has not gone
    /// beyond them.
    pub open spec fn wf(&self) -> bool {
        self.position <= self.len <= self.buffer@.len()
    }

    /// The received bytes.
    pub open spec fn input(&self) -> Seq<u8> {
        self.buffer@.subrange(0, self.len as int)
    }

    /// What is searched for a delimiter: the `step` bytes of the buffer from
    /// `position` on.
    pub open spec fn ahead(&self, step: int) -> Seq<u8> {
        self.buffer@.subrange(self.position as int, self.position + step)
    }

    /// The received bytes.
    pub fn received(&self) -> (r: &[u8])
        requires
            self.len <= self.buffer@.len(),
        ensures
            r@ == self.input(),
    {
        vstd::slice::slice_subrange(self.buffer.as_slice(), 0, self.len)
    }

    /// An empty parser with a zeroed buffer of the size that the limits
    /// were precalculated to.
    pub fn new(limits: &ReqLimits) -> (r: Self)
        ensures
            r.is_fresh(limits.precalc.buffer as nat),
            r.wf(),
    {
        let buffer: Vec<u8> = vec![0u8; limits.precalc.buffer];
        assert(buffer@ =~= zeros(limits.precalc.buffer as nat));
        Parser { position: 0, len: 0, buffer }
    }

    /// A parser that has received `value`.
    pub fn from(limits: &ReqLimits, value: &[u8]) -> (r: Self)
        requires
            value@.len() <= limits.precalc.buffer,
        ensures
            r.position == 0,
            r.len == value@.len(),
            r.buffer@ == value@ + zeros((limits.precalc.buffer - value@.len()) as nat),
            r.input() == value@,
            r.wf(),
    {
        let mut r = Parser::new(limits);
        r.receive(value);
        r
    }

    /// Takes `value` as the bytes received: copies it to the front of the
    /// buffer and sets `len`. What lies behind it in the buffer stays.
    pub fn receive(&mut self, value: &[u8])
        requires
            value@.len() <= old(self).buffer@.len(),
        ensures
            final(self).position == old(self).position,
            final(self).len == value@.len(),
            final(self).buffer@ == value@ + old(self).buffer@.skip(value@.len() as int),
            final(self).input() == value@,
    {
        let n: usize = value.len();
        let mut i: usize = 0;
        while i < n
            invariant
                n == value@.len(),
                n <= self.buffer@.len(),
                self.buffer@.len() == old(self).buffer@.len(),
                self.position == old(self).position,
                i <= n,
                forall|j: int| 0 <= j < i ==> self.buffer@[j] == value@[j],
                forall|j: int| i <= j < self.buffer@.len() ==> self.buffer@[j] == old(self).buffer@[j],
            decreases n - i,
        {
            self.buffer[i] = value[i];
            i += 1;
        }
        self.len = n;
        assert(self.buffer@ =~= value@ + old(self).buffer@.skip(value@.len() as int));
        assert(self.input() =~= value@);
    }

    /// Makes the parser what `new` returns: the marks at `0` and the buffer
    /// zeroed.
    pub fn reset(&mut self)
        ensures
            final(self).is_fresh(old(self).buffer@.len()),
            final(self).wf(),
    {
        self.position = 0;
        self.len = 0;
        let n: usize = self.buffer.len();
        let mut i: usize = 0;
        while i < n
            invariant
                n == self.buffer@.len(),
                n == old(self).buffer@.len(),
                self.position == 0,
                self.len == 0,
                i <= n,
                forall|j: int| 0 <= j < i ==> self.buffer@[j] == 0u8,
            decreases n - i,
        {
            self.buffer[i] = 0;
            i += 1;
        }
        assert(self.buffer@ =~= zeros(old(self).buffer@.len()));
    }

    /// Finds `delimiter` within `limit` bytes from `position`, moves
    /// `position` behind it and returns what stands before it.
    pub fn find_slice(&mut self, limit: usize, delimiter: u8) -> (r: Option<&[u8]>)
        ensures
            final(self).len == old(self).len,
            final(self).buffer == old(self).buffer,
            match r {
                Some(s) => {
                    &&& old(self).position + limit <= old(self).buffer@.len()
                    &&& s@.len() == find(old(self).ahead(limit as int), delimiter)
                    &&& s@.len() < limit
                    &&& s@ == old(self).ahead(s@.len() as int)
                    &&& final(self).position == old(self).position + s@.len() + 1
                },
                None => {
                    &&& final(self).position == old(self).position
                    &&& old(self).position + limit > old(self).buffer@.len() || find(
                        old(self).ahead(limit as int),
                        delimiter,
                    ) == limit
                },
            },
    {
        let step = match self.find_char(limit, delimiter) {
            Some(step) => step,
            None => {
                return None;
            },
        };
        let total: usize = self.buffer.len();
        assert(self.position + step + 1 <= total);
        let last_index = self.update_position(step);
        self.get_slice(last_index, step)
    }

    /// Where `delimiter` first stands within `step` bytes from `position`,
    /// counted from `position`. `None` where it does not stand there, or
    /// where the buffer ends before `step` bytes.
    pub fn find_char(&self, step: usize, delimiter: u8) -> (r: Option<usize>)
        ensures
            match r {
                Some(i) => {
                    &&& self.position + step <= self.buffer@.len()
                    &&& i < step
                    &&& i == find(self.ahead(step as int), delimiter)
                },
                None => self.position + step > self.buffer@.len() || find(
                    self.ahead(step as int),
                    delimiter,
                ) == step,
            },
    {
        let slice = match self.get_slice(self.position, step) {
            Some(slice) => slice,
            None => {
                return None;
            },
        };
        proof {
            lemma_find(slice@, delimiter);
        }
        find_byte(delimiter, slice)
    }

    /// The `step` bytes of the buffer from `start` on; `None` where the
    /// buffer ends before them.
    pub fn get_slice(&self, start: usize, step: usize) -> (r: Option<&[u8]>)
        ensures
            match r {
                Some(s) => start + step <= self.buffer@.len() && s@ == self.buffer@.subrange(
                    start as int,
                    start + step,
                ),
                None => start + step > self.buffer@.len(),
            },
    {
        let total: usize = self.buffer.len();
        if start <= total && step <= total - start {
            Some(vstd::slice::slice_subrange(self.buffer.as_slice(), start, start + step))
        } else {
            None
        }
    }

    /// The `step` bytes of the buffer from `start` on, for writing; `None`
    /// where the buffer ends before them.
    pub fn get_slice_mut(&mut self, start: usize, step: usize) -> (r: Option<&mut [u8]>)
        ensures
            final(self).position == old(self).position,
            final(self).len == old(self).len,
            match r {
                Some(s) => {
                    &&& start + step <= old(self).buffer@.len()
                    &&& s@ == old(self).buffer@.subrange(start as int, start + step)
                    &&& final(self).buffer@ == old(self).buffer@.subrange(0, start as int)
                        + final(s)@ + old(self).buffer@.skip(start + step)
                },
                None => start + step > old(self).buffer@.len() && final(self).buffer == old(self).buffer,
            },
    {
        let total: usize = self.buffer.len();
        if start <= total && step <= total - start {
            let whole = self.buffer.as_mut_slice();
            let (_, rest) = whole.split_at_mut(start);
            let (middle, _) = rest.split_at_mut(step);
            Some(middle)
        } else {
            None
        }
    }

    /// Moves `position` forward by `step` bytes and one more, for the
    /// delimiter, and returns where it stood.
    pub fn update_position(&mut self, step: usize) -> (r: usize)
        requires
            old(self).position + step + 1 <= usize::MAX,
        ensures
            r == old(self).position,
            final(self).position == old(self).position + step + 1,
            final(self).len == old(self).len,
            final(self).buffer == old(self).buffer,
    {
        let last = self.position;
        self.position += step + 1;
        last
    }

    /// A copy of the `step` bytes of the buffer from `start` on; `None`
    /// where the buffer ends before them.
    pub fn copy_slice(&self, start: usize, step: usize) -> (r: Option<Vec<u8>>)
        ensures
            match r {
                Some(v) => start + step <= self.buffer@.len() && v@ == self.buffer@.subrange(
                    start as int,
                    start + step,
                ),
                None => start + step > self.buffer@.len(),
            },
    {
        match self.get_slice(start, step) {
            Some(s) => Some(vstd::slice::slice_to_vec(s)),
            None => None,
        }
    }
}

/// Calls `core::str::from_utf8`, which accepts a byte string exactly when it
/// is valid UTF-8, and tells whether it did.
#[verifier::external_body]
fn is_utf8(bytes: &[u8]) -> (r: bool)
    ensures
        r == vstd::utf8::valid_utf8(bytes@),
{
    core::str::from_utf8(bytes).is_ok()
}

/// Whether `path` holds two `/` in a row.
fn double_slash(path: &[u8]) -> (r: bool)
    ensures
        r == has_double_slash(path@),
{
    let n: usize = path.len();
    let mut i: usize = 1;
    while i < n
        invariant
            n == path@.len(),
            1 <= i,
            forall|j: int| 0 <= j && j + 1 < i ==> !(path@[j] == SLASH && #[trigger] path@[j + 1]
                == SLASH),
        decreases n - i,
    {
        if path[i - 1] == SLASH && path[i] == SLASH {
            assert(path@[(i - 1) as int] == SLASH && path@[(i - 1) + 1] == SLASH);
            return true;
        }
        i += 1;
    }
    false
}

/// One step of cutting a path at its `/`.
proof fn lemma_segments_step(rest: Seq<u8>, start: int, end: int)
    requires
        0 <= start < rest.len(),
        start <= end <= rest.len(),
        end - start == find(rest.skip(start), SLASH),
    ensures
        end < rest.len() ==> segments_of(rest.skip(start)) == seq![rest.subrange(start, end)]
            + segments_of(rest.skip(end + 1)),
        end == rest.len() ==> segments_of(rest.skip(start)) == seq![rest.skip(start)],
{
    let tail = rest.skip(start);
    if end < rest.len() {
        assert(tail.take(end - start) =~= rest.subrange(start, end));
        assert(tail.skip(end - start + 1) =~= rest.skip(end + 1));
    }
}

/// Cuts a path without its leading `/` into its segments, unless it holds
/// more than `limit` of them.
fn split_segments(rest: &[u8], limit: usize) -> (r: Option<Vec<Vec<u8>>>)
    ensures
        match r {
            Some(parts) => segments_of(rest@).len() <= limit && views_of(parts@) == segments_of(
                rest@,
            ),
            None => segments_of(rest@).len() > limit,
        },
{
    let n: usize = rest.len();
    let mut parts: Vec<Vec<u8>> = Vec::new();
    let mut start: usize = 0;
    assert(rest@.skip(0) =~= rest@);
    assert(views_of(parts@) + segments_of(rest@.skip(0)) =~= segments_of(rest@));
    while start < n
        invariant
            n == rest@.len(),
            start <= n,
            parts@.len() <= limit,
            segments_of(rest@) == views_of(parts@) + segments_of(rest@.skip(start as int)),
        decreases n - start,
    {
        let tail = vstd::slice::slice_subrange(rest, start, n);
        let end: usize = match find_byte(SLASH, tail) {
            Some(pos) => start + pos,
            None => n,
        };
        proof {
            lemma_find(tail@, SLASH);
            lemma_segments_step(rest@, start as int, end as int);
        }
        if parts.len() >= limit {
            return None;
        }
        let ghost before = views_of(parts@);
        let piece = vstd::slice::slice_to_vec(vstd::slice::slice_subrange(rest, start, end));
        parts.push(piece);
        proof {
            assert(views_of(parts@) =~= before.push(rest@.subrange(start as int, end as int)));
            if end < n {
                assert(before + (seq![rest@.subrange(start as int, end as int)] + segments_of(
                    rest@.skip(end + 1),
                )) =~= before.push(rest@.subrange(start as int, end as int)) + segments_of(
                    rest@.skip(end + 1),
                ));
            } else {
                assert(rest@.skip(start as int) =~= rest@.subrange(start as int, end as int));
                assert(rest@.skip(n as int) =~= Seq::<u8>::empty());
                assert(before + seq![rest@.skip(start as int)] =~= views_of(parts@) + segments_of(
                    rest@.skip(n as int),
                ));
            }
        }
        start = if end < n {
            end + 1
        } else {
            n
        };
    }
    proof {
        assert(rest@.skip(n as int) =~= Seq::<u8>::empty());
        assert(views_of(parts@) + Seq::<Seq<u8>>::empty() =~= views_of(parts@));
    }
    Some(parts)
}

/// Copies borrowed pairs into owned ones.
fn owned_pairs(pairs: &Vec<(&[u8], &[u8])>) -> (r: Vec<(Vec<u8>, Vec<u8>)>)
    ensures
        pair_views_of(r@) == pairs.pairs(),
{
    let n: usize = pairs.len();
    let mut r: Vec<(Vec<u8>, Vec<u8>)> = Vec::with_capacity(n);
    let mut i: usize = 0;
    while i < n
        invariant
            n == pairs@.len(),
            i <= n,
            r@.len() == i,
            forall|j: int| 0 <= j < i ==> r@[j].0@ == pairs@[j].0@ && r@[j].1@ == pairs@[j].1@,
        decreases n - i,
    {
        let key = vstd::slice::slice_to_vec(pairs[i].0);
        let value = vstd::slice::slice_to_vec(pairs[i].1);
        r.push((key, value));
        i += 1;
    }
    assert(pair_views_of(r@) =~= pairs.pairs());
    r
}

/// Whether `url` holds what `model` says.
pub open spec fn url_is(url: Url, model: UrlModel) -> bool {
    &&& url.target@ == model.target
    &&& url.path@ == model.path
    &&& views_of(url.parts@) == model.segments
    &&& url.spec_query() == model.query
    &&& url.spec_query_pairs() == model.pairs
    &&& url.skip_first_segment == model.skip
}

/// Where the first segment of a path is the marker, the path begins with
/// the marker behind its `/`.
proof fn lemma_marker_leads(path: Seq<u8>)
    requires
        path.len() > 0,
        path[0] == SLASH,
        segments_of(path.skip(1)).len() > 0,
        segments_of(path.skip(1))[0] == marker(),
    ensures
        marker_prefix().is_prefix_of(path),
{
    let rest = path.skip(1);
    lemma_find(rest, SLASH);
    let k = find(rest, SLASH);
    if k < rest.len() {
        assert(rest.take(k) == marker());
        assert(path.subrange(0, 1 + k) =~= seq![SLASH] + rest.take(k));
    } else {
        assert(rest == marker());
        assert(path.subrange(0, path.len() as int) =~= seq![SLASH] + rest);
    }
}

/// Takes a URL apart.
fn read_url(url: &[u8], limits: &ReqLimits, bare: bool) -> (r: Result<Url, ErrorKind>)
    ensures
        match analyze(url@, *limits, bare) {
            Ok(model) => r is Ok && url_is(r->Ok_0, model) && r->Ok_0.wf(),
            Err(e) => r == Err::<Url, ErrorKind>(e),
        },
{
    let n: usize = url.len();
    if n == 0 || url[0] != SLASH {
        return Err(ErrorKind::InvalidUrl);
    }
    proof {
        lemma_find(url@, QUESTION);
    }
    let q: usize = match find_byte(QUESTION, url) {
        Some(q) => q,
        None => n,
    };
    let path = vstd::slice::slice_subrange(url, 0, q);
    assert(path@ == url@.take(q as int));
    if double_slash(path) {
        return Err(ErrorKind::DoubleSlash);
    }
    let rest = vstd::slice::slice_subrange(path, 1, q);
    assert(rest@ == path@.skip(1));
    let parts = match split_segments(rest, limits.url_parts) {
        Some(parts) => parts,
        None => {
            return Err(ErrorKind::InvalidUrl);
        },
    };
    let mut query: Option<Vec<u8>> = None;
    let mut query_parts: Vec<(Vec<u8>, Vec<u8>)> = Vec::new();
    if q < n {
        let text = vstd::slice::slice_subrange(url, q, n);
        assert(text@ == url@.skip(q as int));
        if text.len() > limits.url_query_size {
            return Err(ErrorKind::InvalidUrl);
        }
        let mut found: Vec<(&[u8], &[u8])> = Vec::new();
        assert(found.pairs() =~= Seq::<(Seq<u8>, Seq<u8>)>::empty());
        assert(crate::http::query::body_of(text@) =~= url@.skip(q + 1));
        match Query::parse_into(&mut found, text, limits.url_query_parts) {
            Ok(_) => {},
            Err(e) => {
                return Err(ErrorKind::Query(e));
            },
        }
        assert(found.pairs() =~= pairs_of(url@.skip(q + 1)));
        query_parts = owned_pairs(&found);
        query = Some(vstd::slice::slice_to_vec(text));
    } else {
        assert(pair_views_of(query_parts@) =~= Seq::<(Seq<u8>, Seq<u8>)>::empty());
    }
    let skip = bare && parts.len() > 0 && same_bytes(
        parts[0].as_slice(),
        "keep_alive".as_bytes(),
    );
    assert(skip == (bare && segments_of(path@.skip(1)).len() > 0 && segments_of(path@.skip(1))[0]
        == marker()));
    assert(q >= 1);
    if skip && q - 1 == "keep_alive".as_bytes().len() {
        return Err(ErrorKind::InvalidUrl);
    }
    let result = Url {
        target: vstd::slice::slice_to_vec(url),
        path: vstd::slice::slice_to_vec(path),
        parts,
        query,
        query_parts,
        skip_first_segment: skip,
    };
    proof {
        if skip {
            lemma_marker_leads(path@);
            assert(marker_prefix().is_prefix_of(url@)) by {
                assert(url@.subrange(0, marker_prefix().len() as int) =~= path@.subrange(
                    0,
                    marker_prefix().len() as int,
                ));
            }
        }
    }
    Ok(result)
}

/// The URL stage: where the URL ends, whether the line is one of HTTP/0.9+,
/// and the URL taken apart.
pub open spec fn url_stage(input: Seq<u8>, from: int, limits: ReqLimits, http09: bool) -> Result<
    (UrlModel, int, bool),
    ErrorKind,
> {
    match url_extent(input, from, limits, http09) {
        Err(e) => Err(e),
        Ok((n, bare)) => match analyze(input.subrange(from, from + n), limits, bare) {
            Err(e) => Err(e),
            Ok(model) => Ok((model, n, bare)),
        },
    }
}

/// Whether `request` holds what `p` says.
pub open spec fn request_is(request: Request, p: Parsed) -> bool {
    &&& request.method == p.method
    &&& request.version == p.version
    &&& url_is(request.url, p.url)
    &&& request.headers.pairs() == p.headers
    &&& request.headers.content_length == p.content_length
    &&& request.spec_body() == p.body
}

/// Whether `request` holds what parsing has reached.
pub open spec fn request_reached(request: Request, reach: Reached) -> bool {
    &&& request.method == reach.method
    &&& request.version == reach.version
    &&& url_is(request.url, reach.url)
    &&& request.headers.pairs() == reach.headers
    &&& request.headers.content_length == reach.content_length
    &&& request.spec_body() == reach.body
}

/// Whether version and `keep_alive` of the response `after` are what the
/// request line and the headers have told, or those of `before` where the
/// request line has told none.
pub open spec fn answer_reached(
    before: crate::http::response::Response,
    after: crate::http::response::Response,
    reach: Reached,
) -> bool {
    match reach.answer {
        Some((version, keep_alive)) => after.version == version && after.keep_alive
            == keep_alive,
        None => after.version == before.version && after.keep_alive == before.keep_alive,
    }
}

impl<S: ConnectionData> HttpConnection<S> {
    /// Whether the server speaks HTTP/0.9+.
    pub open spec fn http09(&self) -> bool {
        self.http_09_limits is Some
    }

    /// What the headers read so far have told.
    pub open spec fn fields(&self) -> Fields {
        Fields {
            headers: self.request.headers.pairs(),
            content_length: self.request.headers.content_length,
            keep_alive: self.response.keep_alive,
        }
    }

    /// Parses the request in the buffer into `request`, sets version and
    /// `keep_alive` of the response, and returns the version.
    ///
    /// The request is emptied first. A request that is refused leaves in
    /// `request` what was read before the stage that refused it, and no
    /// body.
    pub fn parse(&mut self) -> (r: Result<Version, ErrorKind>)
        requires
            old(self).parser.len <= old(self).parser.buffer@.len(),
            old(self).req_limits.is_precalculated(),
        ensures
            final(self).parser.buffer == old(self).parser.buffer,
            final(self).parser.len == old(self).parser.len,
            final(self).parser.wf(),
            final(self).request.url.wf(),
            old(self).response.wf() ==> final(self).wf(),
            *final(self) == (HttpConnection {
                request: final(self).request,
                parser: final(self).parser,
                response: crate::http::response::Response {
                    version: final(self).response.version,
                    keep_alive: final(self).response.keep_alive,
                    ..old(self).response
                },
                ..*old(self)
            }),
            match parsed(old(self).parser.input(), old(self).req_limits, old(self).http09()) {
                Err(e) => r == Err::<Version, ErrorKind>(e) && final(self).request.spec_body()
                    is None,
                Ok(p) => {
                    &&& r == Ok::<Version, ErrorKind>(p.version)
                    &&& request_is(final(self).request, p)
                    &&& final(self).response.version == p.version
                    &&& final(self).response.keep_alive == p.keep_alive
                    &&& final(self).parser.position == p.head_len
                },
            },
            request_reached(
                final(self).request,
                reached(old(self).parser.input(), old(self).req_limits, old(self).http09()),
            ),
            answer_reached(
                old(self).response,
                final(self).response,
                reached(old(self).parser.input(), old(self).req_limits, old(self).http09()),
            ),
    {
        self.request.reset();
        self.parser.position = 0;
        assert(self.request.headers.pairs() =~= Seq::<(Seq<u8>, Seq<u8>)>::empty());
        assert(url_is(self.request.url, empty_url())) by {
            assert(self.request.url.target@ =~= Seq::<u8>::empty());
            assert(self.request.url.path@ =~= Seq::<u8>::empty());
            assert(views_of(self.request.url.parts@) =~= Seq::<Seq<u8>>::empty());
            assert(self.request.url.spec_query_pairs() =~= Seq::<(Seq<u8>, Seq<u8>)>::empty());
        }
        self.parse_method()?;
        self.parse_line()
    }

    /// Completes the parsing of a request whose method was read.
    fn parse_line(&mut self) -> (r: Result<Version, ErrorKind>)
        requires
            old(self).parser.wf(),
            old(self).req_limits.is_precalculated(),
            Method::leading(old(self).parser.input()) == Some(old(self).request.method),
            old(self).parser.position == old(self).request.method.token().len(),
            old(self).request.version == Version::Http11,
            url_is(old(self).request.url, empty_url()),
            old(self).request.url.wf(),
            old(self).request.headers.headers@.len() == 0,
            old(self).request.headers.content_length is None,
            old(self).request.body is None,
        ensures
            final(self).parser == (Parser {
                position: final(self).parser.position,
                ..old(self).parser
            }),
            final(self).parser.wf(),
            final(self).request.url.wf(),
            *final(self) == (HttpConnection {
                request: final(self).request,
                parser: final(self).parser,
                response: crate::http::response::Response {
                    version: final(self).response.version,
                    keep_alive: final(self).response.keep_alive,
                    ..old(self).response
                },
                ..*old(self)
            }),
            request_reached(
                final(self).request,
                reached_line(
                    old(self).parser.input(),
                    old(self).req_limits,
                    old(self).http09(),
                    old(self).request.method,
                ),
            ),
            answer_reached(
                old(self).response,
                final(self).response,
                reached_line(
                    old(self).parser.input(),
                    old(self).req_limits,
                    old(self).http09(),
                    old(self).request.method,
                ),
            ),
            match request_line(
                old(self).parser.input(),
                old(self).req_limits,
                old(self).http09(),
                old(self).request.method,
            ) {
                Err(e) => r == Err::<Version, ErrorKind>(e) && final(self).request.spec_body()
                    is None,
                Ok(p) => {
                    &&& r == Ok::<Version, ErrorKind>(p.version)
                    &&& request_is(final(self).request, p)
                    &&& final(self).response.version == p.version
                    &&& final(self).response.keep_alive == p.keep_alive
                    &&& final(self).parser.position == p.head_len
                },
            },
    {
        let ghost input = self.parser.input();
        let ghost limits = self.req_limits;
        let ghost http09 = self.http09();
        let ghost method = self.request.method;
        let ghost at_url = self.parser.position as int;
        assert(self.request.headers.pairs() =~= Seq::<(Seq<u8>, Seq<u8>)>::empty());
        self.parse_url()?;
        let ghost stage = url_stage(input, at_url, limits, http09);
        let ghost model = stage->Ok_0.0;
        let ghost url_len = stage->Ok_0.1;
        let ghost bare = stage->Ok_0.2;
        assert(stage is Ok && url_extent(input, at_url, limits, http09) == Ok::<
            (int, bool),
            ErrorKind,
        >((url_len, bare)) && analyze(input.subrange(at_url, at_url + url_len), limits, bare)
            == Ok::<UrlModel, ErrorKind>(model));
        assert(request_line(input, limits, http09, method) == if bare {
            bare_request(input, method, model)
        } else {
            full_request(input, limits, method, model, at_url + url_len + 1)
        });
        assert(reached_line(input, limits, http09, method) == if bare {
            Reached {
                method,
                url: model,
                version: Version::Http09,
                answer: Some((Version::Http09, model.skip)),
                ..nothing_reached()
            }
        } else {
            reached_full(input, limits, method, model, at_url + url_len + 1)
        });
        proof {
            if bare {
                let rest = input.skip(self.parser.position as int);
                assert(rest =~= seq![LF]);
                assert(rest.subrange(0, 1) =~= seq![LF]);
            }
            assert(self.request.headers.pairs() =~= Seq::<(Seq<u8>, Seq<u8>)>::empty());
        }
        if self.check_http09()? {
            if !is_utf8(self.parser.received()) {
                return Err(ErrorKind::InvalidEncoding);
            }
            return Ok(self.request.version);
        }
        self.parse_full(Ghost(model))
    }

    /// Completes the parsing of a request of HTTP/1.x whose URL was read.
    fn parse_full(&mut self, Ghost(model): Ghost<UrlModel>) -> (r: Result<Version, ErrorKind>)
        requires
            old(self).parser.wf(),
            old(self).req_limits.is_precalculated(),
            old(self).request.version == Version::Http11,
            url_is(old(self).request.url, model),
            old(self).request.headers.headers@.len() == 0,
            old(self).request.headers.content_length is None,
            old(self).request.body is None,
        ensures
            final(self).parser == (Parser {
                position: final(self).parser.position,
                ..old(self).parser
            }),
            final(self).parser.wf(),
            final(self).request.url == old(self).request.url,
            *final(self) == (HttpConnection {
                request: final(self).request,
                parser: final(self).parser,
                response: crate::http::response::Response {
                    version: final(self).response.version,
                    keep_alive: final(self).response.keep_alive,
                    ..old(self).response
                },
                ..*old(self)
            }),
            request_reached(
                final(self).request,
                reached_full(
                    old(self).parser.input(),
                    old(self).req_limits,
                    old(self).request.method,
                    model,
                    old(self).parser.position as int,
                ),
            ),
            answer_reached(
                old(self).response,
                final(self).response,
                reached_full(
                    old(self).parser.input(),
                    old(self).req_limits,
                    old(self).request.method,
                    model,
                    old(self).parser.position as int,
                ),
            ),
            match full_request(
                old(self).parser.input(),
                old(self).req_limits,
                old(self).request.method,
                model,
                old(self).parser.position as int,
            ) {
                Err(e) => r == Err::<Version, ErrorKind>(e) && final(self).request.spec_body()
                    is None,
                Ok(p) => {
                    &&& r == Ok::<Version, ErrorKind>(p.version)
                    &&& request_is(final(self).request, p)
                    &&& final(self).response.version == p.version
                    &&& final(self).response.keep_alive == p.keep_alive
                    &&& final(self).parser.position == p.head_len
                },
            },
    {
        let ghost input = self.parser.input();
        let ghost limits = self.req_limits;
        let ghost at_version = self.parser.position as int;
        assert(self.request.headers.pairs() =~= Seq::<(Seq<u8>, Seq<u8>)>::empty());
        self.check_version()?;
        let ghost version = self.request.version;
        let ghost keep_alive = self.response.keep_alive;
        assert(version_line(input, at_version) == Ok::<(Version, bool), ErrorKind>(
            (version, keep_alive),
        ));
        let ghost start = Fields { headers: Seq::empty(), content_length: None, keep_alive };
        assert(self.parser.position == at_version + 10);
        assert(self.request.headers.pairs() =~= Seq::<(Seq<u8>, Seq<u8>)>::empty());
        assert(self.fields() == start);
        self.parse_headers()?;
        let ghost section = header_section(input, at_version + 10, limits, start);
        let ghost fields = self.fields();
        let ghost head_len = self.parser.position as int;
        assert(section == Ok::<(Fields, int), ErrorKind>((fields, head_len)));
        self.check_encoding()?;
        self.check_body()?;
        Ok(self.request.version)
    }

    /// Reads the method at the start of the buffer and moves `position`
    /// behind it and its space.
    pub fn parse_method(&mut self) -> (r: Result<(), ErrorKind>)
        requires
            old(self).parser.len <= old(self).parser.buffer@.len(),
        ensures
            match Method::leading(old(self).parser.input()) {
                Some(m) => {
                    &&& r is Ok
                    &&& final(self).parser.wf()
                    &&& *final(self) == (HttpConnection {
                        request: Request { method: m, ..old(self).request },
                        parser: Parser { position: m.token().len() as usize, ..old(self).parser },
                        ..*old(self)
                    })
                },
                None => r == Err::<(), ErrorKind>(ErrorKind::InvalidMethod) && *final(self) == *old(self),
            },
    {
        let (method, position) = Method::from_bytes(self.parser.received())?;
        self.request.method = method;
        self.parser.position = position;
        Ok(())
    }

    /// Reads the URL at `position` into `request.url` and moves `position`
    /// behind it and the byte that ends it. A request line of HTTP/0.9+ also
    /// sets the version of request and response, and `keep_alive` by the
    /// marker.
    pub fn parse_url(&mut self) -> (r: Result<(), ErrorKind>)
        requires
            old(self).parser.wf(),
            old(self).req_limits.url_size < usize::MAX,
        ensures
            match url_stage(
                old(self).parser.input(),
                old(self).parser.position as int,
                old(self).req_limits,
                old(self).http09(),
            ) {
                Err(e) => r == Err::<(), ErrorKind>(e) && *final(self) == *old(self),
                Ok((model, n, bare)) => {
                    &&& r is Ok
                    &&& 0 <= n
                    &&& old(self).parser.position + n + 1 <= old(self).parser.len
                    &&& url_is(final(self).request.url, model)
                    &&& final(self).request.url.wf()
                    &&& final(self).parser.wf()
                    &&& *final(self) == (HttpConnection {
                        request: Request {
                            url: final(self).request.url,
                            version: if bare {
                                Version::Http09
                            } else {
                                old(self).request.version
                            },
                            ..old(self).request
                        },
                        parser: Parser {
                            position: (old(self).parser.position + n + 1) as usize,
                            ..old(self).parser
                        },
                        response: if bare {
                            crate::http::response::Response {
                                version: Version::Http09,
                                keep_alive: model.skip,
                                ..old(self).response
                            }
                        } else {
                            old(self).response
                        },
                        ..*old(self)
                    })
                },
            },
    {
        let position: usize = self.parser.position;
        let ahead: usize = self.parser.len - position;
        let step: usize = if self.req_limits.url_size + 1 <= ahead {
            self.req_limits.url_size + 1
        } else {
            ahead
        };
        assert(self.parser.ahead(step as int) =~= window(
            self.parser.input(),
            position as int,
            self.req_limits.url_size + 1,
        ));
        let (start, n, bare): (usize, usize, bool) = match self.parser.find_char(step, SP) {
            Some(n) => {
                let text = vstd::slice::slice_subrange(
                    self.parser.buffer.as_slice(),
                    position,
                    position + n,
                );
                assert(text@ =~= self.parser.ahead(step as int).take(n as int));
                if find_byte(CR, text).is_some() || find_byte(LF, text).is_some() {
                    return Err(ErrorKind::InvalidVersion);
                }
                (position, n, false)
            },
            None => {
                if self.is_http_09() {
                    let range = self.get_range_url_http_09()?;
                    (range[0], range[1], true)
                } else if self.ends_bare() {
                    return Err(ErrorKind::UnsupportedVersion);
                } else {
                    return Err(ErrorKind::InvalidUrl);
                }
            },
        };
        let text = vstd::slice::slice_subrange(self.parser.buffer.as_slice(), start, start + n);
        assert(text@ =~= self.parser.input().subrange(position as int, position + n));
        let url = read_url(text, &self.req_limits, bare)?;
        if bare {
            self.response.keep_alive = url.skip_first_segment;
            self.response.version = Version::Http09;
            self.request.version = Version::Http09;
        }
        self.request.url = url;
        self.parser.position = position + n + 1;
        Ok(())
    }

    /// Reads the version at `position` and the line break behind it, sets
    /// the version of request and response, and `keep_alive` as the version
    /// has it by default.
    pub fn check_version(&mut self) -> (r: Result<(), ErrorKind>)
        requires
            old(self).parser.wf(),
        ensures
            match version_line(old(self).parser.input(), old(self).parser.position as int) {
                Err(e) => r == Err::<(), ErrorKind>(e) && *final(self) == *old(self),
                Ok((version, keep_alive)) => {
                    &&& r is Ok
                    &&& old(self).parser.position + 10 <= old(self).parser.len
                    &&& final(self).parser.wf()
                    &&& *final(self) == (HttpConnection {
                        request: Request { version, ..old(self).request },
                        parser: Parser {
                            position: (old(self).parser.position + 10) as usize,
                            ..old(self).parser
                        },
                        response: crate::http::response::Response {
                            version,
                            keep_alive,
                            ..old(self).response
                        },
                        ..*old(self)
                    })
                },
            },
    {
        let position: usize = self.parser.position;
        let ahead: usize = self.parser.len - position;
        let step: usize = if 10 <= ahead {
            10
        } else {
            ahead
        };
        assert(self.parser.ahead(step as int) =~= window(
            self.parser.input(),
            position as int,
            10,
        ));
        let end = match self.parser.find_char(step, LF) {
            Some(end) => end,
            None => {
                return Err(ErrorKind::InvalidVersion);
            },
        };
        if end != 9 {
            return Err(ErrorKind::InvalidVersion);
        }
        let line = match self.parser.get_slice(position, 9) {
            Some(line) => line,
            None => {
                return Err(ErrorKind::InvalidVersion);
            },
        };
        if line[8] != CR {
            return Err(ErrorKind::InvalidVersion);
        }
        let token = vstd::slice::slice_subrange(line, 0, 8);
        assert(token@ =~= self.parser.ahead(step as int).take(8));
        let (version, keep_alive) = Version::from_bytes(token)?;
        self.response.version = version;
        self.response.keep_alive = keep_alive;
        self.request.version = version;
        self.parser.update_position(9);
        Ok(())
    }

    /// Whether what stands at `position` is a request line of HTTP/0.9+.
    fn ends_bare(&self) -> (r: bool)
        requires
            self.parser.wf(),
        ensures
            r == is_bare_line(self.parser.input(), self.parser.position as int, self.req_limits),
    {
        let input = self.parser.received();
        let len: usize = input.len();
        let from: usize = self.parser.position;
        if len - from <= 2 || input[len - 2] != CR || input[len - 1] != LF {
            return false;
        }
        let url = vstd::slice::slice_subrange(input, from, len - 2);
        url.len() <= self.req_limits.url_size && find_byte(CR, url).is_none() && find_byte(
            LF,
            url,
        ).is_none()
    }

    /// Whether what stands at `position` is a request line of HTTP/0.9+ and
    /// the server speaks HTTP/0.9+.
    pub fn is_http_09(&self) -> (r: bool)
        requires
            self.parser.wf(),
        ensures
            r == (self.http09() && is_bare_line(
                self.parser.input(),
                self.parser.position as int,
                self.req_limits,
            )),
    {
        self.http_09_limits.is_some() && self.ends_bare()
    }

    /// Where the URL of a request line of HTTP/0.9+ begins, and how long it
    /// is: from `position` to the line break that ends the input.
    pub fn get_range_url_http_09(&self) -> (r: Result<[usize; 2], ErrorKind>)
        requires
            self.parser.wf(),
        ensures
            match r {
                Ok(range) => range@[0] == self.parser.position && self.parser.position + 2
                    < self.parser.len && range@[1] == self.parser.len - 2 - self.parser.position,
                Err(e) => e == ErrorKind::InvalidUrl && self.parser.position + 2
                    >= self.parser.len,
            },
    {
        if self.parser.len < 2 || self.parser.position >= self.parser.len - 2 {
            return Err(ErrorKind::InvalidUrl);
        }
        Ok([self.parser.position, self.parser.len - 2 - self.parser.position])
    }

    /// Tells whether the request is one of HTTP/0.9+, which ends with its
    /// request line: then `position` moves to the end of the input.
    pub fn check_http09(&mut self) -> (r: Result<bool, ErrorKind>)
        requires
            old(self).parser.wf(),
        ensures
            old(self).request.version != Version::Http09 ==> r == Ok::<bool, ErrorKind>(false)
                && *final(self) == *old(self),
            old(self).request.version == Version::Http09 ==> {
                if !old(self).http09() {
                    r == Err::<bool, ErrorKind>(ErrorKind::UnsupportedVersion) && *final(self)
                        == *old(self)
                } else if seq![LF].is_suffix_of(
                    old(self).parser.input().skip(old(self).parser.position as int),
                ) {
                    &&& r == Ok::<bool, ErrorKind>(true)
                    &&& final(self).parser.wf()
                    &&& *final(self) == (HttpConnection {
                        parser: Parser { position: old(self).parser.len, ..old(self).parser },
                        ..*old(self)
                    })
                } else {
                    r == Err::<bool, ErrorKind>(ErrorKind::InvalidVersion) && *final(self) == *old(self)
                }
            },
    {
        match self.request.version {
            Version::Http09 => {
                if self.http_09_limits.is_none() {
                    return Err(ErrorKind::UnsupportedVersion);
                }
                let rest = vstd::slice::slice_subrange(
                    self.parser.buffer.as_slice(),
                    self.parser.position,
                    self.parser.len,
                );
                assert(rest@ =~= self.parser.input().skip(self.parser.position as int));
                let line_feed: [u8; 1] = [LF];
                assert(line_feed@ =~= seq![LF]);
                if has_suffix(rest, line_feed.as_slice()) {
                    self.parser.position = self.parser.len;
                    Ok(true)
                } else {
                    Err(ErrorKind::InvalidVersion)
                }
            },
            _ => Ok(false),
        }
    }

    /// Reads the header lines from `position` up to the blank line and moves
    /// `position` behind it. `content-length` and `connection` are taken for
    /// what they say; the other headers join `request.headers`.
    pub fn parse_headers(&mut self) -> (r: Result<(), ErrorKind>)
        requires
            old(self).parser.wf(),
            old(self).req_limits.is_precalculated(),
        ensures
            final(self).parser.wf(),
            *final(self) == (HttpConnection {
                request: Request { headers: final(self).request.headers, ..old(self).request },
                parser: Parser { position: final(self).parser.position, ..old(self).parser },
                response: crate::http::response::Response {
                    keep_alive: final(self).response.keep_alive,
                    ..old(self).response
                },
                ..*old(self)
            }),
            match header_section(
                old(self).parser.input(),
                old(self).parser.position as int,
                old(self).req_limits,
                old(self).fields(),
            ) {
                Err(e) => r == Err::<(), ErrorKind>(e),
                Ok((fields, end)) => r is Ok && final(self).fields() == fields && final(self).parser.position == end,
            },
            final(self).fields() == header_reach(
                old(self).parser.input(),
                old(self).parser.position as int,
                old(self).req_limits,
                old(self).fields(),
            ),
    {
        loop
            invariant
                self.parser.wf(),
                self.req_limits.is_precalculated(),
                *self == (HttpConnection {
                    request: Request { headers: self.request.headers, ..old(self).request },
                    parser: Parser { position: self.parser.position, ..old(self).parser },
                    response: crate::http::response::Response {
                        keep_alive: self.response.keep_alive,
                        ..old(self).response
                    },
                    ..*old(self)
                }),
                header_section(
                    old(self).parser.input(),
                    old(self).parser.position as int,
                    old(self).req_limits,
                    old(self).fields(),
                ) == header_section(
                    self.parser.input(),
                    self.parser.position as int,
                    self.req_limits,
                    self.fields(),
                ),
                header_reach(
                    old(self).parser.input(),
                    old(self).parser.position as int,
                    old(self).req_limits,
                    old(self).fields(),
                ) == header_reach(
                    self.parser.input(),
                    self.parser.position as int,
                    self.req_limits,
                    self.fields(),
                ),
            decreases self.parser.len - self.parser.position,
        {
            let ghost before = self.fields();
            proof {
                lemma_find(
                    window(
                        self.parser.input(),
                        self.parser.position as int,
                        self.req_limits.spec_h_line(),
                    ),
                    LF,
                );
            }
            let header = match self.parse_header() {
                Ok(Some(header)) => header,
                Ok(None) => {
                    return Ok(());
                },
                Err(e) => {
                    return Err(e);
                },
            };
            match self.parse_special_header(&header) {
                Ok(true) => {},
                Ok(false) => {
                    if self.request.headers.headers.len() >= self.req_limits.header_count {
                        return Err(ErrorKind::TooManyHeaders);
                    }
                    self.request.headers.headers.push(header);
                    assert(self.request.headers.pairs() =~= before.headers.push(
                        (header.name@, header.value@),
                    ));
                },
                Err(e) => {
                    return Err(e);
                },
            }
        }
    }

    /// Reads the line at `position` and moves `position` behind it. Returns
    /// the header that the line holds, its name in lower case, or `None` for
    /// the blank line.
    pub fn parse_header(&mut self) -> (r: Result<Option<Header>, ErrorKind>)
        requires
            old(self).parser.wf(),
            old(self).req_limits.is_precalculated(),
        ensures
            match line_at(
                old(self).parser.input(),
                old(self).parser.position as int,
                old(self).req_limits,
            ) {
                Err(e) => r == Err::<Option<Header>, ErrorKind>(e) && *final(self) == *old(self),
                Ok(line) => {
                    &&& r is Ok
                    &&& old(self).parser.position < line_end(
                        old(self).parser.input(),
                        old(self).parser.position as int,
                        old(self).req_limits,
                    ) <= old(self).parser.len
                    &&& final(self).parser.wf()
                    &&& *final(self) == (HttpConnection {
                        parser: Parser {
                            position: line_end(
                                old(self).parser.input(),
                                old(self).parser.position as int,
                                old(self).req_limits,
                            ) as usize,
                            ..old(self).parser
                        },
                        ..*old(self)
                    })
                    &&& match line {
                        Line::Blank => r->Ok_0 is None,
                        Line::Field { name, value } => r->Ok_0 is Some && r->Ok_0->0.name@ == name
                            && r->Ok_0->0.value@ == value,
                    }
                },
            },
    {
        let position: usize = self.parser.position;
        let ahead: usize = self.parser.len - position;
        let step: usize = if self.req_limits.precalc.h_line <= ahead {
            self.req_limits.precalc.h_line
        } else {
            ahead
        };
        assert(self.parser.ahead(step as int) =~= window(
            self.parser.input(),
            position as int,
            self.req_limits.spec_h_line(),
        ));
        let end = match self.parser.find_char(step, LF) {
            Some(end) => end,
            None => {
                return Err(ErrorKind::InvalidHeader);
            },
        };
        if end < 1 {
            return Err(ErrorKind::InvalidHeader);
        }
        let whole = vstd::slice::slice_subrange(
            self.parser.buffer.as_slice(),
            position,
            position + end,
        );
        if whole[end - 1] != CR {
            return Err(ErrorKind::InvalidHeader);
        }
        let line = vstd::slice::slice_subrange(whole, 0, end - 1);
        assert(line@ =~= self.parser.ahead(step as int).take(end - 1));
        if find_byte(CR, line).is_some() {
            return Err(ErrorKind::InvalidHeader);
        }
        let split = match find_byte(COLON, line) {
            Some(split) => split,
            None => {
                self.check_end_of_headers(end)?;
                return Ok(None);
            },
        };
        if split + 1 >= line.len() || line[split + 1] != SP {
            return Err(ErrorKind::InvalidHeader);
        }
        let len_value: usize = line.len() - split - 2;
        if split > self.req_limits.header_name_size || len_value
            > self.req_limits.header_value_size {
            return Err(ErrorKind::InvalidHeader);
        }
        if split == 0 {
            return Err(ErrorKind::InvalidHeader);
        }
        let mut name = vstd::slice::slice_to_vec(vstd::slice::slice_subrange(line, 0, split));
        crate::http::types::to_lower_case(name.as_mut_slice());
        let value = vstd::slice::slice_to_vec(
            vstd::slice::slice_subrange(line, split + 2, line.len()),
        );
        self.parser.update_position(end);
        Ok(Some(Header::new(name, value)))
    }

    /// Takes `content-length` and `connection` for what they say. Returns
    /// whether the header was one of the two.
    pub fn parse_special_header(&mut self, header: &Header) -> (r: Result<bool, ErrorKind>)
        ensures
            !is_special(header.name@) ==> r == Ok::<bool, ErrorKind>(false) && *final(self) == *old(self),
            is_special(header.name@) ==> match with_field(
                old(self).fields(),
                header.name@,
                header.value@,
                old(self).req_limits,
            ) {
                Err(e) => r == Err::<bool, ErrorKind>(e) && *final(self) == *old(self),
                Ok(fields) => {
                    &&& r == Ok::<bool, ErrorKind>(true)
                    &&& final(self).fields() == fields
                    &&& *final(self) == (HttpConnection {
                        request: Request {
                            headers: HeaderMap {
                                content_length: fields.content_length,
                                ..old(self).request.headers
                            },
                            ..old(self).request
                        },
                        response: crate::http::response::Response {
                            keep_alive: fields.keep_alive,
                            ..old(self).response
                        },
                        ..*old(self)
                    })
                },
            },
    {
        if same_bytes(header.name.as_slice(), "content-length".as_bytes()) {
            self.parse_content_length(header.value.as_slice())?;
            Ok(true)
        } else if same_bytes(header.name.as_slice(), "connection".as_bytes()) {
            self.parse_connection(header.value.as_slice())?;
            Ok(true)
        } else {
            Ok(false)
        }
    }

    /// Accepts the blank line that ends the headers, which `end` bytes and
    /// a line feed make up, and moves `position` behind it.
    fn check_end_of_headers(&mut self, end: usize) -> (r: Result<(), ErrorKind>)
        requires
            old(self).parser.position + end + 1 <= old(self).parser.len,
            old(self).parser.wf(),
        ensures
            end != 1 ==> r == Err::<(), ErrorKind>(ErrorKind::InvalidHeader) && *final(self)
                == *old(self),
            end == 1 ==> r is Ok && final(self).parser.wf() && *final(self) == (HttpConnection {
                parser: Parser {
                    position: (old(self).parser.position + 2) as usize,
                    ..old(self).parser
                },
                ..*old(self)
            }),
    {
        if end != 1 {
            return Err(ErrorKind::InvalidHeader);
        }
        self.parser.position += 2;
        Ok(())
    }

    /// Takes the value of `content-length`: a number no larger than
    /// `body_size`.
    pub fn parse_content_length(&mut self, value: &[u8]) -> (r: Result<(), ErrorKind>)
        ensures
            match crate::http::types::usize_of(value@) {
                None => r == Err::<(), ErrorKind>(ErrorKind::InvalidContentLength) && *final(self)
                    == *old(self),
                Some(n) => if n > old(self).req_limits.body_size {
                    r == Err::<(), ErrorKind>(ErrorKind::BodyTooLarge) && *final(self) == *old(self)
                } else {
                    r is Ok && *final(self) == (HttpConnection {
                        request: Request {
                            headers: HeaderMap {
                                content_length: Some(n),
                                ..old(self).request.headers
                            },
                            ..old(self).request
                        },
                        ..*old(self)
                    })
                },
            },
    {
        let len = match slice_to_usize(value) {
            Some(len) => len,
            None => {
                return Err(ErrorKind::InvalidContentLength);
            },
        };
        if len > self.req_limits.body_size {
            return Err(ErrorKind::BodyTooLarge);
        }
        self.request.headers.content_length = Some(len);
        Ok(())
    }

    /// Takes the value of `connection`: `keep-alive` or `close`, in letters
    /// of either case.
    pub fn parse_connection(&mut self, value: &[u8]) -> (r: Result<(), ErrorKind>)
        ensures
            match connection_choice(value@) {
                None => r == Err::<(), ErrorKind>(ErrorKind::InvalidConnection) && *final(self)
                    == *old(self),
                Some(keep) => r is Ok && *final(self) == (HttpConnection {
                    response: crate::http::response::Response {
                        keep_alive: keep,
                        ..old(self).response
                    },
                    ..*old(self)
                }),
            },
    {
        if same_caseless(value, "keep-alive".as_bytes()) {
            self.response.keep_alive = true;
        } else if same_caseless(value, "close".as_bytes()) {
            self.response.keep_alive = false;
        } else {
            return Err(ErrorKind::InvalidConnection);
        }
        Ok(())
    }

    /// Checks that the head of the request, which ends at `position`, is
    /// valid UTF-8.
    pub fn check_encoding(&self) -> (r: Result<(), ErrorKind>)
        requires
            self.parser.wf(),
        ensures
            r == if vstd::utf8::valid_utf8(self.parser.input().take(self.parser.position as int)) {
                Ok::<(), ErrorKind>(())
            } else {
                Err::<(), ErrorKind>(ErrorKind::InvalidEncoding)
            },
    {
        let head = vstd::slice::slice_subrange(
            self.parser.buffer.as_slice(),
            0,
            self.parser.position,
        );
        assert(head@ =~= self.parser.input().take(self.parser.position as int));
        if is_utf8(head) {
            Ok(())
        } else {
            Err(ErrorKind::InvalidEncoding)
        }
    }

    /// Takes what follows the headers as the body, where it is as long as
    /// `content-length` says.
    pub fn check_body(&mut self) -> (r: Result<(), ErrorKind>)
        requires
            old(self).parser.wf(),
        ensures
            match body_at(
                old(self).parser.input(),
                old(self).parser.position as int,
                old(self).request.headers.content_length,
            ) {
                Err(e) => r == Err::<(), ErrorKind>(e) && *final(self) == *old(self),
                Ok(body) => r is Ok && match body {
                    Some(b) => final(self).request.spec_body() == Some(b) && *final(self)
                        == (HttpConnection {
                        request: Request { body: final(self).request.body, ..old(self).request },
                        ..*old(self)
                    }),
                    None => *final(self) == *old(self),
                },
            },
    {
        let available: usize = self.parser.len - self.parser.position;
        match self.request.headers.content_length {
            Some(len) => {
                if len == available {
                    let slice = vstd::slice::slice_subrange(
                        self.parser.buffer.as_slice(),
                        self.parser.position,
                        self.parser.len,
                    );
                    assert(slice@ =~= self.parser.input().skip(self.parser.position as int));
                    self.request.body = Some(vstd::slice::slice_to_vec(slice));
                    Ok(())
                } else {
                    Err(ErrorKind::BodyMismatch { expected: len, available })
                }
            },
            None => {
                if available == 0 {
                    Ok(())
                } else {
                    Err(ErrorKind::UnexpectedBody(available))
                }
            },
        }
    }
}

} // verus!
