//! Protocol types: methods, versions, status codes, URLs and headers.

use crate::bytes::{
    all_digits, append, decimal_value, has_prefix, lower, lower_byte, lower_seq, padded_digits,
    same_bytes, CR, LF, SLASH, SP, ZERO,
};
use crate::errors::ErrorKind;
use crate::limits::ReqLimits;
use vstd::prelude::*;
use vstd::string::StringSliceAdditionalSpecFns;

verus! {

/// Puts every ASCII letter of `src` in lower case.
pub fn to_lower_case(src: &mut [u8])
    ensures
        final(src)@ == lower_seq(old(src)@),
{
    let n: usize = src.len();
    let mut i: usize = 0;
    while i < n
        invariant
            n == src@.len(),
            n == old(src)@.len(),
            i <= n,
            forall|j: int| 0 <= j < i ==> src@[j] == lower(old(src)@[j]),
            forall|j: int| i <= j < n ==> src@[j] == old(src)@[j],
        decreases n - i,
    {
        let b = src[i];
        src[i] = lower_byte(b);
        i += 1;
    }
    assert(src@ =~= lower_seq(old(src)@));
}

/// Writes the lower-case form of `src` to the front of `result`, as far as
/// both reach, and returns the number of bytes written.
pub fn into_lower_case(src: &[u8], result: &mut [u8]) -> (len: usize)
    ensures
        len == if src@.len() <= old(result)@.len() {
            src@.len()
        } else {
            old(result)@.len()
        },
        final(result)@.len() == old(result)@.len(),
        final(result)@.subrange(0, len as int) == lower_seq(src@.subrange(0, len as int)),
        final(result)@.subrange(len as int, final(result)@.len() as int) == old(result)@.subrange(
            len as int,
            old(result)@.len() as int,
        ),
{
    let len: usize = if src.len() <= result.len() {
        src.len()
    } else {
        result.len()
    };
    let mut i: usize = 0;
    while i < len
        invariant
            len <= src@.len(),
            len <= result@.len(),
            result@.len() == old(result)@.len(),
            i <= len,
            forall|j: int| 0 <= j < i ==> result@[j] == lower(src@[j]),
            forall|j: int| i <= j < result@.len() ==> result@[j] == old(result)@[j],
        decreases len - i,
    {
        result[i] = lower_byte(src[i]);
        i += 1;
    }
    assert(result@.subrange(0, len as int) =~= lower_seq(src@.subrange(0, len as int)));
    assert(result@.subrange(len as int, result@.len() as int) =~= old(result)@.subrange(
        len as int,
        old(result)@.len() as int,
    ));
    len
}

/// The number that `s` writes, where `s` holds digits only and the number
/// fits in a `usize`.
pub open spec fn usize_of(s: Seq<u8>) -> Option<usize> {
    if all_digits(s) && decimal_value(s) <= usize::MAX {
        Some(decimal_value(s) as usize)
    } else {
        None
    }
}

/// A number does not get smaller when digits are written behind it.
proof fn lemma_decimal_grows(s: Seq<u8>, k: int)
    requires
        all_digits(s),
        0 <= k <= s.len(),
    ensures
        decimal_value(s.subrange(0, k)) <= decimal_value(s),
    decreases s.len() - k,
{
    if k == s.len() {
        assert(s.subrange(0, k) =~= s);
    } else {
        lemma_decimal_grows(s, k + 1);
        let t = s.subrange(0, k + 1);
        assert(t.drop_last() =~= s.subrange(0, k));
        assert(crate::bytes::is_digit(s[k]));
    }
}

/// Reads an unsigned decimal number. The empty string reads as `0`; a byte
/// that is no digit, or a number too large for a `usize`, gives `None`.
pub fn slice_to_usize(bytes: &[u8]) -> (r: Option<usize>)
    ensures
        r == usize_of(bytes@),
{
    let n: usize = bytes.len();
    let mut result: usize = 0;
    let mut i: usize = 0;
    assert(bytes@.subrange(0, 0) =~= Seq::<u8>::empty());
    while i < n
        invariant
            n == bytes@.len(),
            i <= n,
            all_digits(bytes@.subrange(0, i as int)),
            result == decimal_value(bytes@.subrange(0, i as int)),
        decreases n - i,
    {
        let byte = bytes[i];
        if byte < 48 || byte > 57 {
            return None;
        }
        let ghost prefix = bytes@.subrange(0, i + 1);
        proof {
            assert(prefix.drop_last() =~= bytes@.subrange(0, i as int));
            assert(all_digits(prefix)) by {
                assert forall|j: int| 0 <= j < prefix.len() implies crate::bytes::is_digit(
                    #[trigger] prefix[j],
                ) by {
                    if j < i {
                        assert(prefix[j] == bytes@.subrange(0, i as int)[j]);
                    }
                }
            }
            if all_digits(bytes@) {
                lemma_decimal_grows(bytes@, i + 1);
            }
        }
        let tens = match result.checked_mul(10) {
            Some(v) => v,
            None => {
                return None;
            },
        };
        result = match tens.checked_add((byte - 48) as usize) {
            Some(v) => v,
            None => {
                return None;
            },
        };
        i += 1;
    }
    assert(bytes@.subrange(0, n as int) =~= bytes@);
    Some(result)
}

/// The request methods that the server accepts. `TRACE` and `CONNECT` are
/// not among them.
#[derive(Debug, Copy, Clone, PartialEq, Eq, Hash, Structural)]
pub enum Method {
    /// `GET`
    Get,
    /// `PUT`
    Put,
    /// `POST`
    Post,
    /// `HEAD`
    Head,
    /// `PATCH`
    Patch,
    /// `DELETE`
    Delete,
    /// `OPTIONS`
    Options,
}

impl Method {
    /// The method's name as it stands on the request line, with the space
    /// that follows it.
    pub open spec fn token(self) -> Seq<u8> {
        match self {
            Method::Get => "GET ".spec_bytes(),
            Method::Put => "PUT ".spec_bytes(),
            Method::Post => "POST ".spec_bytes(),
            Method::Head => "HEAD ".spec_bytes(),
            Method::Patch => "PATCH ".spec_bytes(),
            Method::Delete => "DELETE ".spec_bytes(),
            Method::Options => "OPTIONS ".spec_bytes(),
        }
    }

    /// The method whose name and space `src` begins with. The names are
    /// tried in the order `GET`, `PUT`, `POST`, `HEAD`, `PATCH`, `DELETE`,
    /// `OPTIONS`; letters in lower case match none.
    pub open spec fn leading(src: Seq<u8>) -> Option<Method> {
        if Method::Get.token().is_prefix_of(src) {
            Some(Method::Get)
        } else if Method::Put.token().is_prefix_of(src) {
            Some(Method::Put)
        } else if Method::Post.token().is_prefix_of(src) {
            Some(Method::Post)
        } else if Method::Head.token().is_prefix_of(src) {
            Some(Method::Head)
        } else if Method::Patch.token().is_prefix_of(src) {
            Some(Method::Patch)
        } else if Method::Delete.token().is_prefix_of(src) {
            Some(Method::Delete)
        } else if Method::Options.token().is_prefix_of(src) {
            Some(Method::Options)
        } else {
            None
        }
    }

    /// Reads the method at the start of a request and returns it with the
    /// number of bytes that it and its space take.
    pub fn from_bytes(src: &[u8]) -> (r: Result<(Method, usize), ErrorKind>)
        ensures
            match Method::leading(src@) {
                Some(m) => r == Ok::<(Method, usize), ErrorKind>((m, m.token().len() as usize)),
                None => r == Err::<(Method, usize), ErrorKind>(ErrorKind::InvalidMethod),
            },
    {
        if let Some(n) = prefix_len(src, "GET ") {
            Ok((Method::Get, n))
        } else if let Some(n) = prefix_len(src, "PUT ") {
            Ok((Method::Put, n))
        } else if let Some(n) = prefix_len(src, "POST ") {
            Ok((Method::Post, n))
        } else if let Some(n) = prefix_len(src, "HEAD ") {
            Ok((Method::Head, n))
        } else if let Some(n) = prefix_len(src, "PATCH ") {
            Ok((Method::Patch, n))
        } else if let Some(n) = prefix_len(src, "DELETE ") {
            Ok((Method::Delete, n))
        } else if let Some(n) = prefix_len(src, "OPTIONS ") {
            Ok((Method::Options, n))
        } else {
            Err(ErrorKind::InvalidMethod)
        }
    }
}

/// The length of `text` where `src` begins with it.
fn prefix_len(src: &[u8], text: &str) -> (r: Option<usize>)
    ensures
        r is Some <==> text.spec_bytes().is_prefix_of(src@),
        r is Some ==> r->0 == text.spec_bytes().len(),
{
    let token = text.as_bytes();
    if has_prefix(src, token) {
        Some(token.len())
    } else {
        None
    }
}

/// The protocol versions.
#[derive(Debug, Copy, Clone, PartialEq, Eq, Hash, Structural)]
pub enum Version {
    /// HTTP/0.9+, a request line without a version.
    Http09,
    /// HTTP/1.0
    Http10,
    /// HTTP/1.1
    Http11,
}

impl Version {
    /// The version that `src` names, and whether connections of that version
    /// are kept alive unless a header says otherwise.
    pub open spec fn named(src: Seq<u8>) -> Option<(Version, bool)> {
        if src == "HTTP/1.1".spec_bytes() {
            Some((Version::Http11, true))
        } else if src == "HTTP/1.0".spec_bytes() {
            Some((Version::Http10, false))
        } else {
            None
        }
    }

    /// Reads the version token of a request line.
    pub fn from_bytes(src: &[u8]) -> (r: Result<(Version, bool), ErrorKind>)
        ensures
            match Version::named(src@) {
                Some(v) => r == Ok::<(Version, bool), ErrorKind>(v),
                None => r == Err::<(Version, bool), ErrorKind>(ErrorKind::UnsupportedVersion),
            },
    {
        if same_bytes(src, "HTTP/1.1".as_bytes()) {
            Ok((Version::Http11, true))
        } else if same_bytes(src, "HTTP/1.0".as_bytes()) {
            Ok((Version::Http10, false))
        } else {
            Err(ErrorKind::UnsupportedVersion)
        }
    }

    /// What a status line of this version begins with.
    pub open spec fn prefix(self) -> Seq<u8> {
        match self {
            Version::Http11 => "HTTP/1.1".spec_bytes(),
            Version::Http10 => "HTTP/1.0".spec_bytes(),
            Version::Http09 => Seq::empty(),
        }
    }

    /// Appends what a status line of this version begins with.
    pub fn write_prefix(self, buffer: &mut Vec<u8>)
        ensures
            final(buffer)@ == old(buffer)@ + self.prefix(),
    {
        match self {
            Version::Http11 => append(buffer, "HTTP/1.1".as_bytes()),
            Version::Http10 => append(buffer, "HTTP/1.0".as_bytes()),
            Version::Http09 => {
                assert(buffer@ + Seq::<u8>::empty() =~= buffer@);
            },
        }
    }
}

/// The status codes of responses.
#[allow(non_camel_case_types)]
#[derive(Debug, Copy, Clone, PartialEq, Eq, Hash, Structural)]
pub enum StatusCode {
    /// 100 Continue
    Continue,
    /// 101 Switching Protocols
    SwitchingProtocols,
    /// 102 Processing
    Processing,
    /// 200 OK
    OK,
    /// 201 Created
    Created,
    /// 202 Accepted
    Accepted,
    /// 203 Non Authoritative Information
    NonAuthoritativeInformation,
    /// 204 No Content
    NoContent,
    /// 205 Reset Content
    ResetContent,
    /// 206 Partial Content
    PartialContent,
    /// 207 Multi-Status
    MultiStatus,
    /// 208 Already Reported
    AlreadyReported,
    /// 226 IM Used
    ImUsed,
    /// 300 Multiple Choices
    MultipleChoices,
    /// 301 Moved Permanently
    MovedPermanently,
    /// 302 Found
    Found,
    /// 303 See Other
    SeeOther,
    /// 304 Not Modified
    NotModified,
    /// 305 Use Proxy
    UseProxy,
    /// 307 Temporary Redirect
    TemporaryRedirect,
    /// 308 Permanent Redirect
    PermanentRedirect,
    /// 400 Bad Request
    BadRequest,
    /// 401 Unauthorized
    Unauthorized,
    /// 402 Payment Required
    PaymentRequired,
    /// 403 Forbidden
    Forbidden,
    /// 404 Not Found
    NotFound,
    /// 405 Method Not Allowed
    MethodNotAllowed,
    /// 406 Not Acceptable
    NotAcceptable,
    /// 407 Proxy Authentication Required
    ProxyAuthenticationRequired,
    /// 408 Request Timeout
    RequestTimeout,
    /// 409 Conflict
    Conflict,
    /// 410 Gone
    Gone,
    /// 411 Length Required
    LengthRequired,
    /// 412 Precondition Failed
    PreconditionFailed,
    /// 413 Payload Too Large
    PayloadTooLarge,
    /// 414 URI Too Long
    UriTooLong,
    /// 415 Unsupported Media Type
    UnsupportedMediaType,
    /// 416 Range Not Satisfiable
    RangeNotSatisfiable,
    /// 417 Expectation Failed
    ExpectationFailed,
    /// 418 I'm a teapot
    ImaTeapot,
    /// 421 Misdirected Request
    MisdirectedRequest,
    /// 422 Unprocessable Entity
    UnprocessableEntity,
    /// 423 Locked
    Locked,
    /// 424 Failed Dependency
    FailedDependency,
    /// 425 Too Early
    TooEarly,
    /// 426 Upgrade Required
    UpgradeRequired,
    /// 428 Precondition Required
    PreconditionRequired,
    /// 429 Too Many Requests
    TooManyRequests,
    /// 431 Request Header Fields Too Large
    RequestHeaderFieldsTooLarge,
    /// 451 Unavailable For Legal Reasons
    UnavailableForLegalReasons,
    /// 500 Internal Server Error
    InternalServerError,
    /// 501 Not Implemented
    NotImplemented,
    /// 502 Bad Gateway
    BadGateway,
    /// 503 Service Unavailable
    ServiceUnavailable,
    /// 504 Gateway Timeout
    GatewayTimeout,
    /// 505 HTTP Version Not Supported
    HttpVersionNotSupported,
    /// 506 Variant Also Negotiates
    VariantAlsoNegotiates,
    /// 507 Insufficient Storage
    InsufficientStorage,
    /// 508 Loop Detected
    LoopDetected,
    /// 510 Not Extended
    NotExtended,
    /// 511 Network Authentication Required
    NetworkAuthenticationRequired,
}

impl StatusCode {
    /// The number of the status.
    pub open spec fn spec_code(self) -> u16 {
        match self {
            StatusCode::Continue => 100,
            StatusCode::SwitchingProtocols => 101,
            StatusCode::Processing => 102,
            StatusCode::OK => 200,
            StatusCode::Created => 201,
            StatusCode::Accepted => 202,
            StatusCode::NonAuthoritativeInformation => 203,
            StatusCode::NoContent => 204,
            StatusCode::ResetContent => 205,
            StatusCode::PartialContent => 206,
            StatusCode::MultiStatus => 207,
            StatusCode::AlreadyReported => 208,
            StatusCode::ImUsed => 226,
            StatusCode::MultipleChoices => 300,
            StatusCode::MovedPermanently => 301,
            StatusCode::Found => 302,
            StatusCode::SeeOther => 303,
            StatusCode::NotModified => 304,
            StatusCode::UseProxy => 305,
            StatusCode::TemporaryRedirect => 307,
            StatusCode::PermanentRedirect => 308,
            StatusCode::BadRequest => 400,
            StatusCode::Unauthorized => 401,
            StatusCode::PaymentRequired => 402,
            StatusCode::Forbidden => 403,
            StatusCode::NotFound => 404,
            StatusCode::MethodNotAllowed => 405,
            StatusCode::NotAcceptable => 406,
            StatusCode::ProxyAuthenticationRequired => 407,
            StatusCode::RequestTimeout => 408,
            StatusCode::Conflict => 409,
            StatusCode::Gone => 410,
            StatusCode::LengthRequired => 411,
            StatusCode::PreconditionFailed => 412,
            StatusCode::PayloadTooLarge => 413,
            StatusCode::UriTooLong => 414,
            StatusCode::UnsupportedMediaType => 415,
            StatusCode::RangeNotSatisfiable => 416,
            StatusCode::ExpectationFailed => 417,
            StatusCode::ImaTeapot => 418,
            StatusCode::MisdirectedRequest => 421,
            StatusCode::UnprocessableEntity => 422,
            StatusCode::Locked => 423,
            StatusCode::FailedDependency => 424,
            StatusCode::TooEarly => 425,
            StatusCode::UpgradeRequired => 426,
            StatusCode::PreconditionRequired => 428,
            StatusCode::TooManyRequests => 429,
            StatusCode::RequestHeaderFieldsTooLarge => 431,
            StatusCode::UnavailableForLegalReasons => 451,
            StatusCode::InternalServerError => 500,
            StatusCode::NotImplemented => 501,
            StatusCode::BadGateway => 502,
            StatusCode::ServiceUnavailable => 503,
            StatusCode::GatewayTimeout => 504,
            StatusCode::HttpVersionNotSupported => 505,
            StatusCode::VariantAlsoNegotiates => 506,
            StatusCode::InsufficientStorage => 507,
            StatusCode::LoopDetected => 508,
            StatusCode::NotExtended => 510,
            StatusCode::NetworkAuthenticationRequired => 511,
        }
    }

    /// The reason phrase of the status.
    pub open spec fn spec_reason(self) -> &'static str {
        match self {
            StatusCode::Continue => "Continue",
            StatusCode::SwitchingProtocols => "Switching Protocols",
            StatusCode::Processing => "Processing",
            StatusCode::OK => "OK",
            StatusCode::Created => "Created",
            StatusCode::Accepted => "Accepted",
            StatusCode::NonAuthoritativeInformation => "Non Authoritative Information",
            StatusCode::NoContent => "No Content",
            StatusCode::ResetContent => "Reset Content",
            StatusCode::PartialContent => "Partial Content",
            StatusCode::MultiStatus => "Multi-Status",
            StatusCode::AlreadyReported => "Already Reported",
            StatusCode::ImUsed => "IM Used",
            StatusCode::MultipleChoices => "Multiple Choices",
            StatusCode::MovedPermanently => "Moved Permanently",
            StatusCode::Found => "Found",
            StatusCode::SeeOther => "See Other",
            StatusCode::NotModified => "Not Modified",
            StatusCode::UseProxy => "Use Proxy",
            StatusCode::TemporaryRedirect => "Temporary Redirect",
            StatusCode::PermanentRedirect => "Permanent Redirect",
            StatusCode::BadRequest => "Bad Request",
            StatusCode::Unauthorized => "Unauthorized",
            StatusCode::PaymentRequired => "Payment Required",
            StatusCode::Forbidden => "Forbidden",
            StatusCode::NotFound => "Not Found",
            StatusCode::MethodNotAllowed => "Method Not Allowed",
            StatusCode::NotAcceptable => "Not Acceptable",
            StatusCode::ProxyAuthenticationRequired => "Proxy Authentication Required",
            StatusCode::RequestTimeout => "Request Timeout",
            StatusCode::Conflict => "Conflict",
            StatusCode::Gone => "Gone",
            StatusCode::LengthRequired => "Length Required",
            StatusCode::PreconditionFailed => "Precondition Failed",
            StatusCode::PayloadTooLarge => "Payload Too Large",
            StatusCode::UriTooLong => "URI Too Long",
            StatusCode::UnsupportedMediaType => "Unsupported Media Type",
            StatusCode::RangeNotSatisfiable => "Range Not Satisfiable",
            StatusCode::ExpectationFailed => "Expectation Failed",
            StatusCode::ImaTeapot => "I'm a teapot",
            StatusCode::MisdirectedRequest => "Misdirected Request",
            StatusCode::UnprocessableEntity => "Unprocessable Entity",
            StatusCode::Locked => "Locked",
            StatusCode::FailedDependency => "Failed Dependency",
            StatusCode::TooEarly => "Too Early",
            StatusCode::UpgradeRequired => "Upgrade Required",
            StatusCode::PreconditionRequired => "Precondition Required",
            StatusCode::TooManyRequests => "Too Many Requests",
            StatusCode::RequestHeaderFieldsTooLarge => "Request Header Fields Too Large",
            StatusCode::UnavailableForLegalReasons => "Unavailable For Legal Reasons",
            StatusCode::InternalServerError => "Internal Server Error",
            StatusCode::NotImplemented => "Not Implemented",
            StatusCode::BadGateway => "Bad Gateway",
            StatusCode::ServiceUnavailable => "Service Unavailable",
            StatusCode::GatewayTimeout => "Gateway Timeout",
            StatusCode::HttpVersionNotSupported => "HTTP Version Not Supported",
            StatusCode::VariantAlsoNegotiates => "Variant Also Negotiates",
            StatusCode::InsufficientStorage => "Insufficient Storage",
            StatusCode::LoopDetected => "Loop Detected",
            StatusCode::NotExtended => "Not Extended",
            StatusCode::NetworkAuthenticationRequired => "Network Authentication Required",
        }
    }

    /// The number of the status.
    pub fn code(self) -> (r: u16)
        ensures
            r == self.spec_code(),
            100 <= r <= 599,
    {
        match self {
            StatusCode::Continue => 100,
            StatusCode::SwitchingProtocols => 101,
            StatusCode::Processing => 102,
            StatusCode::OK => 200,
            StatusCode::Created => 201,
            StatusCode::Accepted => 202,
            StatusCode::NonAuthoritativeInformation => 203,
            StatusCode::NoContent => 204,
            StatusCode::ResetContent => 205,
            StatusCode::PartialContent => 206,
            StatusCode::MultiStatus => 207,
            StatusCode::AlreadyReported => 208,
            StatusCode::ImUsed => 226,
            StatusCode::MultipleChoices => 300,
            StatusCode::MovedPermanently => 301,
            StatusCode::Found => 302,
            StatusCode::SeeOther => 303,
            StatusCode::NotModified => 304,
            StatusCode::UseProxy => 305,
            StatusCode::TemporaryRedirect => 307,
            StatusCode::PermanentRedirect => 308,
            StatusCode::BadRequest => 400,
            StatusCode::Unauthorized => 401,
            StatusCode::PaymentRequired => 402,
            StatusCode::Forbidden => 403,
            StatusCode::NotFound => 404,
            StatusCode::MethodNotAllowed => 405,
            StatusCode::NotAcceptable => 406,
            StatusCode::ProxyAuthenticationRequired => 407,
            StatusCode::RequestTimeout => 408,
            StatusCode::Conflict => 409,
            StatusCode::Gone => 410,
            StatusCode::LengthRequired => 411,
            StatusCode::PreconditionFailed => 412,
            StatusCode::PayloadTooLarge => 413,
            StatusCode::UriTooLong => 414,
            StatusCode::UnsupportedMediaType => 415,
            StatusCode::RangeNotSatisfiable => 416,
            StatusCode::ExpectationFailed => 417,
            StatusCode::ImaTeapot => 418,
            StatusCode::MisdirectedRequest => 421,
            StatusCode::UnprocessableEntity => 422,
            StatusCode::Locked => 423,
            StatusCode::FailedDependency => 424,
            StatusCode::TooEarly => 425,
            StatusCode::UpgradeRequired => 426,
            StatusCode::PreconditionRequired => 428,
            StatusCode::TooManyRequests => 429,
            StatusCode::RequestHeaderFieldsTooLarge => 431,
            StatusCode::UnavailableForLegalReasons => 451,
            StatusCode::InternalServerError => 500,
            StatusCode::NotImplemented => 501,
            StatusCode::BadGateway => 502,
            StatusCode::ServiceUnavailable => 503,
            StatusCode::GatewayTimeout => 504,
            StatusCode::HttpVersionNotSupported => 505,
            StatusCode::VariantAlsoNegotiates => 506,
            StatusCode::InsufficientStorage => 507,
            StatusCode::LoopDetected => 508,
            StatusCode::NotExtended => 510,
            StatusCode::NetworkAuthenticationRequired => 511,
        }
    }

    /// The reason phrase of the status.
    pub fn reason(self) -> (r: &'static str)
        ensures
            r == self.spec_reason(),
    {
        match self {
            StatusCode::Continue => "Continue",
            StatusCode::SwitchingProtocols => "Switching Protocols",
            StatusCode::Processing => "Processing",
            StatusCode::OK => "OK",
            StatusCode::Created => "Created",
            StatusCode::Accepted => "Accepted",
            StatusCode::NonAuthoritativeInformation => "Non Authoritative Information",
            StatusCode::NoContent => "No Content",
            StatusCode::ResetContent => "Reset Content",
            StatusCode::PartialContent => "Partial Content",
            StatusCode::MultiStatus => "Multi-Status",
            StatusCode::AlreadyReported => "Already Reported",
            StatusCode::ImUsed => "IM Used",
            StatusCode::MultipleChoices => "Multiple Choices",
            StatusCode::MovedPermanently => "Moved Permanently",
            StatusCode::Found => "Found",
            StatusCode::SeeOther => "See Other",
            StatusCode::NotModified => "Not Modified",
            StatusCode::UseProxy => "Use Proxy",
            StatusCode::TemporaryRedirect => "Temporary Redirect",
            StatusCode::PermanentRedirect => "Permanent Redirect",
            StatusCode::BadRequest => "Bad Request",
            StatusCode::Unauthorized => "Unauthorized",
            StatusCode::PaymentRequired => "Payment Required",
            StatusCode::Forbidden => "Forbidden",
            StatusCode::NotFound => "Not Found",
            StatusCode::MethodNotAllowed => "Method Not Allowed",
            StatusCode::NotAcceptable => "Not Acceptable",
            StatusCode::ProxyAuthenticationRequired => "Proxy Authentication Required",
            StatusCode::RequestTimeout => "Request Timeout",
            StatusCode::Conflict => "Conflict",
            StatusCode::Gone => "Gone",
            StatusCode::LengthRequired => "Length Required",
            StatusCode::PreconditionFailed => "Precondition Failed",
            StatusCode::PayloadTooLarge => "Payload Too Large",
            StatusCode::UriTooLong => "URI Too Long",
            StatusCode::UnsupportedMediaType => "Unsupported Media Type",
            StatusCode::RangeNotSatisfiable => "Range Not Satisfiable",
            StatusCode::ExpectationFailed => "Expectation Failed",
            StatusCode::ImaTeapot => "I'm a teapot",
            StatusCode::MisdirectedRequest => "Misdirected Request",
            StatusCode::UnprocessableEntity => "Unprocessable Entity",
            StatusCode::Locked => "Locked",
            StatusCode::FailedDependency => "Failed Dependency",
            StatusCode::TooEarly => "Too Early",
            StatusCode::UpgradeRequired => "Upgrade Required",
            StatusCode::PreconditionRequired => "Precondition Required",
            StatusCode::TooManyRequests => "Too Many Requests",
            StatusCode::RequestHeaderFieldsTooLarge => "Request Header Fields Too Large",
            StatusCode::UnavailableForLegalReasons => "Unavailable For Legal Reasons",
            StatusCode::InternalServerError => "Internal Server Error",
            StatusCode::NotImplemented => "Not Implemented",
            StatusCode::BadGateway => "Bad Gateway",
            StatusCode::ServiceUnavailable => "Service Unavailable",
            StatusCode::GatewayTimeout => "Gateway Timeout",
            StatusCode::HttpVersionNotSupported => "HTTP Version Not Supported",
            StatusCode::VariantAlsoNegotiates => "Variant Also Negotiates",
            StatusCode::InsufficientStorage => "Insufficient Storage",
            StatusCode::LoopDetected => "Loop Detected",
            StatusCode::NotExtended => "Not Extended",
            StatusCode::NetworkAuthenticationRequired => "Network Authentication Required",
        }
    }

    /// The number of the status between two spaces, as it stands in a status
    /// line and in an HTTP/0.9+ message.
    pub open spec fn code_bytes(self) -> Seq<u8> {
        seq![SP] + padded_digits(self.spec_code() as nat, 3) + seq![SP]
    }

    /// The status line of a response: the version, the number, the reason
    /// phrase and the line break. For HTTP/0.9+ the line begins with the
    /// space before the number.
    pub open spec fn first_line(self, version: Version) -> Seq<u8> {
        version.prefix() + self.code_bytes() + self.spec_reason().spec_bytes() + seq![CR, LF]
    }

    /// Appends the number of the status between two spaces.
    pub fn write_code(self, buffer: &mut Vec<u8>)
        ensures
            final(buffer)@ == old(buffer)@ + self.code_bytes(),
    {
        let code = self.code();
        buffer.push(SP);
        buffer.push(ZERO + (code / 100) as u8);
        buffer.push(ZERO + (code / 10 % 10) as u8);
        buffer.push(ZERO + (code % 10) as u8);
        buffer.push(SP);
        proof {
            let n = code as nat;
            reveal_with_fuel(padded_digits, 4);
            assert(padded_digits(n, 3) =~= seq![
                (48 + n / 100 % 10) as u8,
                (48 + n / 10 % 10) as u8,
                (48 + n % 10) as u8,
            ]);
            assert(buffer@ =~= old(buffer)@ + self.code_bytes());
        }
    }

    /// Appends the status line of a response of the given version.
    pub fn write_first_line(self, version: Version, buffer: &mut Vec<u8>)
        ensures
            final(buffer)@ == old(buffer)@ + self.first_line(version),
    {
        version.write_prefix(buffer);
        self.write_code(buffer);
        append(buffer, self.reason().as_bytes());
        buffer.push(CR);
        buffer.push(LF);
        assert(buffer@ =~= old(buffer)@ + self.first_line(version));
    }
}

/// The views of a list of owned byte strings.
pub open spec fn views_of(list: Seq<Vec<u8>>) -> Seq<Seq<u8>> {
    Seq::new(list.len(), |i: int| list[i]@)
}

/// The views of a list of borrowed byte strings.
pub open spec fn pattern_of(list: Seq<&[u8]>) -> Seq<Seq<u8>> {
    Seq::new(list.len(), |i: int| list[i]@)
}

/// The views of a list of owned key/value pairs.
pub open spec fn pair_views_of(list: Seq<(Vec<u8>, Vec<u8>)>) -> Seq<(Seq<u8>, Seq<u8>)> {
    Seq::new(list.len(), |i: int| (list[i].0@, list[i].1@))
}

/// The value of the first pair whose key is `key`.
pub open spec fn lookup(pairs: Seq<(Seq<u8>, Seq<u8>)>, key: Seq<u8>) -> Option<Seq<u8>>
    decreases pairs.len(),
{
    if pairs.len() == 0 {
        None
    } else if pairs[0].0 == key {
        Some(pairs[0].1)
    } else {
        lookup(pairs.drop_first(), key)
    }
}

/// The value of the first pair whose key is `key` when letters are compared
/// without regard to case.
pub open spec fn lookup_caseless(pairs: Seq<(Seq<u8>, Seq<u8>)>, key: Seq<u8>) -> Option<Seq<u8>>
    decreases pairs.len(),
{
    if pairs.len() == 0 {
        None
    } else if lower_seq(pairs[0].0) == lower_seq(key) {
        Some(pairs[0].1)
    } else {
        lookup_caseless(pairs.drop_first(), key)
    }
}

/// The first path segment that marks an HTTP/0.9+ request as keep-alive.
pub open spec fn marker() -> Seq<u8> {
    "keep_alive".spec_bytes()
}

/// The marker as it stands at the start of a path, behind its `/`.
pub open spec fn marker_prefix() -> Seq<u8> {
    seq![SLASH] + marker()
}

/// The URL of a request.
///
/// The fields hold the URL as it was sent. Where `skip_first_segment` is
/// set, the URL begins with the keep-alive marker of HTTP/0.9+, and the
/// methods show the URL without it.
#[derive(Debug, Clone, PartialEq, Eq, Hash)]
pub struct Url {
    /// Path and query string.
    pub target: Vec<u8>,
    /// The target up to the query string.
    pub path: Vec<u8>,
    /// The segments of the path, in order.
    pub parts: Vec<Vec<u8>>,
    /// The query string with its `?`, where there is one.
    pub query: Option<Vec<u8>>,
    /// The parameters of the query string, in order.
    pub query_parts: Vec<(Vec<u8>, Vec<u8>)>,
    /// Whether the first segment is the keep-alive marker, which the methods
    /// leave out.
    pub skip_first_segment: bool,
}

impl Url {
    /// Where the marker is skipped, target, path and first segment hold it.
    pub open spec fn wf(&self) -> bool {
        self.skip_first_segment ==> {
            &&& marker_prefix().is_prefix_of(self.target@)
            &&& marker_prefix().is_prefix_of(self.path@)
            &&& self.parts@.len() > 0
            &&& self.parts@[0]@ == marker()
        }
    }

    /// The number of leading bytes of target and path that the methods leave
    /// out.
    pub open spec fn hidden(&self) -> int {
        if self.skip_first_segment {
            marker_prefix().len() as int
        } else {
            0
        }
    }

    /// The target as the methods show it.
    pub open spec fn spec_target(&self) -> Seq<u8> {
        self.target@.skip(self.hidden())
    }

    /// The path as the methods show it.
    pub open spec fn spec_path(&self) -> Seq<u8> {
        self.path@.skip(self.hidden())
    }

    /// The path segments as the methods show them.
    pub open spec fn spec_segments(&self) -> Seq<Seq<u8>> {
        views_of(self.parts@).skip(if self.skip_first_segment { 1int } else { 0int })
    }

    /// The query string with its `?`.
    pub open spec fn spec_query(&self) -> Option<Seq<u8>> {
        match self.query {
            Some(q) => Some(q@),
            None => None,
        }
    }

    /// The query parameters.
    pub open spec fn spec_query_pairs(&self) -> Seq<(Seq<u8>, Seq<u8>)> {
        pair_views_of(self.query_parts@)
    }

    /// Whether the URL holds nothing, as before a request is parsed.
    pub open spec fn is_clear(&self) -> bool {
        &&& self.target@.len() == 0
        &&& self.path@.len() == 0
        &&& self.parts@.len() == 0
        &&& self.query is None
        &&& self.query_parts@.len() == 0
        &&& !self.skip_first_segment
    }

    /// An empty URL with room for what the limits allow.
    pub fn new(limits: &ReqLimits) -> (r: Self)
        ensures
            r.is_clear(),
            r.wf(),
    {
        Self {
            target: Vec::new(),
            path: Vec::new(),
            parts: Vec::with_capacity(limits.url_parts),
            query: None,
            query_parts: Vec::with_capacity(limits.url_query_parts),
            skip_first_segment: false,
        }
    }

    /// Empties the URL.
    pub fn clear(&mut self)
        ensures
            final(self).is_clear(),
            final(self).wf(),
    {
        self.target.clear();
        self.path.clear();
        self.parts.clear();
        self.query = None;
        self.query_parts.clear();
        self.skip_first_segment = false;
    }

    /// The number of leading bytes of target and path that are left out.
    fn hidden_len(&self) -> (n: usize)
        requires
            self.wf(),
        ensures
            n == self.hidden(),
            n <= self.target@.len(),
            n <= self.path@.len(),
    {
        if self.skip_first_segment {
            let total: usize = self.target.len();
            let marker_len: usize = "keep_alive".as_bytes().len();
            assert(marker_prefix().len() == marker_len + 1);
            marker_len + 1
        } else {
            0
        }
    }

    /// The request target: path and query string.
    pub fn target(&self) -> (r: &[u8])
        requires
            self.wf(),
        ensures
            r@ == self.spec_target(),
    {
        let n = self.hidden_len();
        vstd::slice::slice_subrange(self.target.as_slice(), n, self.target.len())
    }

    /// The path: the target without the query string.
    pub fn path(&self) -> (r: &[u8])
        requires
            self.wf(),
        ensures
            r@ == self.spec_path(),
    {
        let n = self.hidden_len();
        vstd::slice::slice_subrange(self.path.as_slice(), n, self.path.len())
    }

    /// The path segment at `index`, counted from `0`.
    pub fn path_segment(&self, index: usize) -> (r: Option<&[u8]>)
        requires
            self.wf(),
        ensures
            match r {
                Some(s) => index < self.spec_segments().len() && s@ == self.spec_segments()[
                    index as int],
                None => index >= self.spec_segments().len(),
            },
    {
        let skipped: usize = if self.skip_first_segment {
            1
        } else {
            0
        };
        if index < self.parts.len() - skipped {
            Some(self.parts[index + skipped].as_slice())
        } else {
            None
        }
    }

    /// All path segments, in order.
    pub fn path_segments(&self) -> (r: &[Vec<u8>])
        requires
            self.wf(),
        ensures
            views_of(r@) == self.spec_segments(),
    {
        let skipped: usize = if self.skip_first_segment {
            1
        } else {
            0
        };
        let r = vstd::slice::slice_subrange(self.parts.as_slice(), skipped, self.parts.len());
        assert(views_of(r@) =~= self.spec_segments());
        r
    }

    /// Whether the path segments are exactly those of `pattern`.
    pub fn matches(&self, pattern: &[&[u8]]) -> (r: bool)
        requires
            self.wf(),
        ensures
            r == (self.spec_segments() == pattern_of(pattern@)),
    {
        let segments = self.path_segments();
        if segments.len() != pattern.len() {
            assert(views_of(segments@).len() != pattern_of(pattern@).len());
            return false;
        }
        let r = same_segments(segments, 0, pattern);
        assert(views_of(segments@).subrange(0, pattern@.len() as int) =~= views_of(segments@));
        r
    }

    /// Whether the path segments begin with those of `pattern`.
    pub fn starts_with(&self, pattern: &[&[u8]]) -> (r: bool)
        requires
            self.wf(),
        ensures
            r == pattern_of(pattern@).is_prefix_of(self.spec_segments()),
    {
        let segments = self.path_segments();
        if segments.len() < pattern.len() {
            return false;
        }
        same_segments(segments, 0, pattern)
    }

    /// Whether the path segments end with those of `pattern`.
    pub fn ends_with(&self, pattern: &[&[u8]]) -> (r: bool)
        requires
            self.wf(),
        ensures
            r == pattern_of(pattern@).is_suffix_of(self.spec_segments()),
    {
        let segments = self.path_segments();
        if segments.len() < pattern.len() {
            return false;
        }
        let from: usize = segments.len() - pattern.len();
        same_segments(segments, from, pattern)
    }

    /// The query string with its leading `?`; `None` where the target has
    /// none.
    pub fn query_full(&self) -> (r: Option<&[u8]>)
        ensures
            match r {
                Some(q) => self.spec_query() == Some(q@),
                None => self.spec_query() is None,
            },
    {
        match &self.query {
            Some(q) => Some(q.as_slice()),
            None => None,
        }
    }

    /// The value of the first query parameter named `key`. Names are
    /// compared byte for byte.
    pub fn query(&self, key: &[u8]) -> (r: Option<&[u8]>)
        ensures
            match r {
                Some(v) => lookup(self.spec_query_pairs(), key@) == Some(v@),
                None => lookup(self.spec_query_pairs(), key@) is None,
            },
    {
        let ghost pairs = self.spec_query_pairs();
        let n: usize = self.query_parts.len();
        let mut i: usize = 0;
        assert(pairs.skip(0) =~= pairs);
        while i < n
            invariant
                n == self.query_parts@.len(),
                pairs == self.spec_query_pairs(),
                i <= n,
                lookup(pairs, key@) == lookup(pairs.skip(i as int), key@),
            decreases n - i,
        {
            assert(pairs.skip(i as int).drop_first() =~= pairs.skip(i + 1));
            if same_bytes(self.query_parts[i].0.as_slice(), key) {
                return Some(self.query_parts[i].1.as_slice());
            }
            i += 1;
        }
        None
    }
}

/// Whether the segments from `from` on are those of `pattern`, one for one.
fn same_segments(segments: &[Vec<u8>], from: usize, pattern: &[&[u8]]) -> (r: bool)
    requires
        from + pattern@.len() <= segments@.len(),
    ensures
        r == (pattern_of(pattern@) == views_of(segments@).subrange(
            from as int,
            from + pattern@.len(),
        )),
{
    let n: usize = pattern.len();
    let total: usize = segments.len();
    let ghost window = views_of(segments@).subrange(from as int, from + n);
    let mut i: usize = 0;
    while i < n
        invariant
            n == pattern@.len(),
            total == segments@.len(),
            from + n <= total,
            i <= n,
            window == views_of(segments@).subrange(from as int, from + n),
            forall|j: int| 0 <= j < i ==> window[j] == pattern_of(pattern@)[j],
        decreases n - i,
    {
        if !same_bytes(segments[from + i].as_slice(), pattern[i]) {
            assert(window[i as int] != pattern_of(pattern@)[i as int]);
            return false;
        }
        i += 1;
    }
    assert(pattern_of(pattern@) =~= window);
    true
}

/// One header of a request.
#[derive(Debug, Clone, PartialEq, Eq, Hash)]
pub struct Header {
    /// The name, in lower case.
    pub name: Vec<u8>,
    /// The value.
    pub value: Vec<u8>,
}

impl Header {
    /// A header of the given name and value.
    pub fn new(name: Vec<u8>, value: Vec<u8>) -> (r: Self)
        ensures
            r.name == name,
            r.value == value,
    {
        Header { name, value }
    }
}

/// The headers of a request.
#[derive(Debug, Clone, PartialEq, Default)]
pub struct HeaderMap {
    /// The headers in the order of arrival, `content-length` and
    /// `connection` left out.
    pub headers: Vec<Header>,
    /// The value of `content-length`, where the request has that header.
    pub content_length: Option<usize>,
}

impl HeaderMap {
    /// The headers as pairs of name and value.
    pub open spec fn pairs(&self) -> Seq<(Seq<u8>, Seq<u8>)> {
        Seq::new(self.headers@.len(), |i: int| (self.headers@[i].name@, self.headers@[i].value@))
    }

    /// No headers, with room for `size_vec` of them.
    pub fn new(size_vec: usize) -> (r: Self)
        ensures
            r.headers@.len() == 0,
            r.content_length is None,
    {
        Self { headers: Vec::with_capacity(size_vec), content_length: None }
    }

    /// Removes all headers.
    pub fn reset(&mut self)
        ensures
            final(self).headers@.len() == 0,
            final(self).content_length is None,
    {
        self.headers.clear();
        self.content_length = None;
    }

    /// The value of the first header named `name`. Letters are compared
    /// without regard to case.
    pub fn get(&self, name: &[u8]) -> (r: Option<&[u8]>)
        ensures
            match r {
                Some(v) => lookup_caseless(self.pairs(), name@) == Some(v@),
                None => lookup_caseless(self.pairs(), name@) is None,
            },
    {
        let ghost pairs = self.pairs();
        let n: usize = self.headers.len();
        let mut i: usize = 0;
        assert(pairs.skip(0) =~= pairs);
        while i < n
            invariant
                n == self.headers@.len(),
                pairs == self.pairs(),
                i <= n,
                lookup_caseless(pairs, name@) == lookup_caseless(pairs.skip(i as int), name@),
            decreases n - i,
        {
            assert(pairs.skip(i as int).drop_first() =~= pairs.skip(i + 1));
            if same_caseless(self.headers[i].name.as_slice(), name) {
                return Some(self.headers[i].value.as_slice());
            }
            i += 1;
        }
        None
    }
}

/// Whether two byte strings are the same when letters are compared without
/// regard to case.
pub fn same_caseless(a: &[u8], b: &[u8]) -> (r: bool)
    ensures
        r == (lower_seq(a@) == lower_seq(b@)),
{
    if a.len() != b.len() {
        assert(lower_seq(a@).len() != lower_seq(b@).len());
        return false;
    }
    let n: usize = a.len();
    let mut i: usize = 0;
    while i < n
        invariant
            n == a@.len(),
            n == b@.len(),
            i <= n,
            forall|j: int| 0 <= j < i ==> lower(a@[j]) == lower(b@[j]),
        decreases n - i,
    {
        if lower_byte(a[i]) != lower_byte(b[i]) {
            assert(lower_seq(a@)[i as int] != lower_seq(b@)[i as int]);
            return false;
        }
        i += 1;
    }
    assert(lower_seq(a@) =~= lower_seq(b@));
    true
}

} // verus!
