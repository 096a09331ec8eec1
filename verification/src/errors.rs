//! The errors that end a connection, and the responses that report them.

use crate::bytes::{append, decimal_digits, CR, LF};
use crate::http::query;
use crate::http::types::{StatusCode, Version};
use crate::http::write::impl_write_buffer_u128;
use vstd::prelude::*;
use vstd::string::StringSliceAdditionalSpecFns;

verus! {

/// Why a request was refused or a connection was given up.
#[derive(Debug, Clone, Copy, PartialEq, Eq)]
pub enum ErrorKind {
    /// The request line begins with no accepted method.
    InvalidMethod,
    /// The URL is missing, does not begin with `/`, or is over a limit.
    InvalidUrl,
    /// The path holds two `/` in a row.
    DoubleSlash,
    /// The query string was refused.
    Query(query::Error),
    /// The version token or the end of the request line is malformed.
    InvalidVersion,
    /// The version is not one that the server speaks.
    UnsupportedVersion,
    /// A header line or the end of the headers is malformed.
    InvalidHeader,
    /// There are more headers than the limit allows.
    TooManyHeaders,
    /// The value of `content-length` is no number that a `usize` holds.
    InvalidContentLength,
    /// The value of `connection` is neither `keep-alive` nor `close`.
    InvalidConnection,
    /// The declared body is longer than the limit allows.
    BodyTooLarge,
    /// The body is not as long as `content-length` says.
    BodyMismatch {
        /// The declared length.
        expected: usize,
        /// The number of bytes that follow the headers.
        available: usize,
    },
    /// Bytes follow the headers of a request without `content-length`; the
    /// field is their number.
    UnexpectedBody(usize),
    /// The request line or the headers are not valid UTF-8.
    InvalidEncoding,
    /// The server has no room for the connection.
    ServiceUnavailable,
    /// Reading or writing failed or took too long.
    Io,
}

impl ErrorKind {
    /// The status that reports the error.
    pub open spec fn spec_status(self) -> StatusCode {
        match self {
            ErrorKind::InvalidMethod => StatusCode::BadRequest,
            ErrorKind::InvalidUrl => StatusCode::BadRequest,
            ErrorKind::DoubleSlash => StatusCode::BadRequest,
            ErrorKind::Query(_) => StatusCode::BadRequest,
            ErrorKind::InvalidVersion => StatusCode::BadRequest,
            ErrorKind::UnsupportedVersion => StatusCode::HttpVersionNotSupported,
            ErrorKind::InvalidHeader => StatusCode::BadRequest,
            ErrorKind::TooManyHeaders => StatusCode::RequestHeaderFieldsTooLarge,
            ErrorKind::InvalidContentLength => StatusCode::BadRequest,
            ErrorKind::InvalidConnection => StatusCode::BadRequest,
            ErrorKind::BodyTooLarge => StatusCode::PayloadTooLarge,
            ErrorKind::BodyMismatch { .. } => StatusCode::BadRequest,
            ErrorKind::UnexpectedBody(_) => StatusCode::BadRequest,
            ErrorKind::InvalidEncoding => StatusCode::BadRequest,
            ErrorKind::ServiceUnavailable => StatusCode::ServiceUnavailable,
            ErrorKind::Io => StatusCode::ServiceUnavailable,
        }
    }

    /// The sentence that describes the error.
    pub open spec fn spec_message(self) -> &'static str {
        match self {
            ErrorKind::InvalidMethod => "Invalid HTTP method",
            ErrorKind::InvalidUrl => "Invalid URL format",
            ErrorKind::DoubleSlash => "Invalid URL format",
            ErrorKind::Query(_) => "Invalid query string",
            ErrorKind::InvalidVersion => "Invalid HTTP version",
            ErrorKind::UnsupportedVersion => "HTTP version not supported",
            ErrorKind::InvalidHeader => "Invalid header format",
            ErrorKind::TooManyHeaders => "Too many headers",
            ErrorKind::InvalidContentLength => "Invalid Content-Length",
            ErrorKind::InvalidConnection => "Invalid Connection header",
            ErrorKind::BodyTooLarge => "Request body too large",
            ErrorKind::BodyMismatch { .. } => "Body length mismatch",
            ErrorKind::UnexpectedBody(_) => "Unexpected request body",
            ErrorKind::InvalidEncoding => "Invalid request encoding",
            ErrorKind::ServiceUnavailable => "Service temporarily unavailable",
            ErrorKind::Io => "I/O error occurred",
        }
    }

    /// The short name of the error.
    pub open spec fn spec_code(self) -> &'static str {
        match self {
            ErrorKind::InvalidMethod => "INVALID_METHOD",
            ErrorKind::InvalidUrl => "INVALID_URL",
            ErrorKind::DoubleSlash => "INVALID_URL",
            ErrorKind::Query(_) => "INVALID_QUERY",
            ErrorKind::InvalidVersion => "INVALID_VERSION",
            ErrorKind::UnsupportedVersion => "UNSUPPORTED_VERSION",
            ErrorKind::InvalidHeader => "INVALID_HEADER",
            ErrorKind::TooManyHeaders => "TOO_MANY_HEADERS",
            ErrorKind::InvalidContentLength => "INVALID_CONTENT_LENGTH",
            ErrorKind::InvalidConnection => "INVALID_CONNECTION",
            ErrorKind::BodyTooLarge => "BODY_TOO_LARGE",
            ErrorKind::BodyMismatch { .. } => "BODY_MISMATCH",
            ErrorKind::UnexpectedBody(_) => "UNEXPECTED_BODY",
            ErrorKind::InvalidEncoding => "INVALID_ENCODING",
            ErrorKind::ServiceUnavailable => "SERVICE_UNAVAILABLE",
            ErrorKind::Io => "IO_ERROR",
        }
    }

    /// The JSON body that reports the error: an object with the message
    /// under `error` and the short name under `code`.
    pub open spec fn json_body(self) -> Seq<u8> {
        "{\"error\":\"".spec_bytes() + self.spec_message().spec_bytes()
            + "\",\"code\":\"".spec_bytes() + self.spec_code().spec_bytes() + "\"}".spec_bytes()
    }

    /// The response that reports the error, written for `version`.
    ///
    /// For HTTP/1.x it is a status line, `connection: close`, the
    /// `content-length` of the body and the blank line, with the JSON body
    /// and its `content-type` where `json` is set and no body otherwise. For
    /// HTTP/0.9+ it is the word `ERROR:` and the status.
    pub open spec fn response(self, version: Version, json: bool) -> Seq<u8> {
        let status = self.spec_status();
        if version is Http09 {
            "ERROR:".spec_bytes() + status.code_bytes() + status.spec_reason().spec_bytes()
        } else if json {
            status.first_line(version) + "connection: close\r\ncontent-length: ".spec_bytes()
                + decimal_digits(self.json_body().len())
                + "\r\ncontent-type: application/json\r\n\r\n".spec_bytes() + self.json_body()
        } else {
            status.first_line(version) + "connection: close\r\ncontent-length: ".spec_bytes()
                + decimal_digits(0) + seq![CR, LF, CR, LF]
        }
    }

    /// The status that reports the error.
    pub fn status(&self) -> (r: StatusCode)
        ensures
            r == self.spec_status(),
    {
        match self {
            ErrorKind::InvalidMethod => StatusCode::BadRequest,
            ErrorKind::InvalidUrl => StatusCode::BadRequest,
            ErrorKind::DoubleSlash => StatusCode::BadRequest,
            ErrorKind::Query(_) => StatusCode::BadRequest,
            ErrorKind::InvalidVersion => StatusCode::BadRequest,
            ErrorKind::UnsupportedVersion => StatusCode::HttpVersionNotSupported,
            ErrorKind::InvalidHeader => StatusCode::BadRequest,
            ErrorKind::TooManyHeaders => StatusCode::RequestHeaderFieldsTooLarge,
            ErrorKind::InvalidContentLength => StatusCode::BadRequest,
            ErrorKind::InvalidConnection => StatusCode::BadRequest,
            ErrorKind::BodyTooLarge => StatusCode::PayloadTooLarge,
            ErrorKind::BodyMismatch { .. } => StatusCode::BadRequest,
            ErrorKind::UnexpectedBody(_) => StatusCode::BadRequest,
            ErrorKind::InvalidEncoding => StatusCode::BadRequest,
            ErrorKind::ServiceUnavailable => StatusCode::ServiceUnavailable,
            ErrorKind::Io => StatusCode::ServiceUnavailable,
        }
    }

    /// The sentence that describes the error.
    pub fn message(&self) -> (r: &'static str)
        ensures
            r == self.spec_message(),
    {
        match self {
            ErrorKind::InvalidMethod => "Invalid HTTP method",
            ErrorKind::InvalidUrl => "Invalid URL format",
            ErrorKind::DoubleSlash => "Invalid URL format",
            ErrorKind::Query(_) => "Invalid query string",
            ErrorKind::InvalidVersion => "Invalid HTTP version",
            ErrorKind::UnsupportedVersion => "HTTP version not supported",
            ErrorKind::InvalidHeader => "Invalid header format",
            ErrorKind::TooManyHeaders => "Too many headers",
            ErrorKind::InvalidContentLength => "Invalid Content-Length",
            ErrorKind::InvalidConnection => "Invalid Connection header",
            ErrorKind::BodyTooLarge => "Request body too large",
            ErrorKind::BodyMismatch { .. } => "Body length mismatch",
            ErrorKind::UnexpectedBody(_) => "Unexpected request body",
            ErrorKind::InvalidEncoding => "Invalid request encoding",
            ErrorKind::ServiceUnavailable => "Service temporarily unavailable",
            ErrorKind::Io => "I/O error occurred",
        }
    }

    /// The short name of the error.
    pub fn code(&self) -> (r: &'static str)
        ensures
            r == self.spec_code(),
    {
        match self {
            ErrorKind::InvalidMethod => "INVALID_METHOD",
            ErrorKind::InvalidUrl => "INVALID_URL",
            ErrorKind::DoubleSlash => "INVALID_URL",
            ErrorKind::Query(_) => "INVALID_QUERY",
            ErrorKind::InvalidVersion => "INVALID_VERSION",
            ErrorKind::UnsupportedVersion => "UNSUPPORTED_VERSION",
            ErrorKind::InvalidHeader => "INVALID_HEADER",
            ErrorKind::TooManyHeaders => "TOO_MANY_HEADERS",
            ErrorKind::InvalidContentLength => "INVALID_CONTENT_LENGTH",
            ErrorKind::InvalidConnection => "INVALID_CONNECTION",
            ErrorKind::BodyTooLarge => "BODY_TOO_LARGE",
            ErrorKind::BodyMismatch { .. } => "BODY_MISMATCH",
            ErrorKind::UnexpectedBody(_) => "UNEXPECTED_BODY",
            ErrorKind::InvalidEncoding => "INVALID_ENCODING",
            ErrorKind::ServiceUnavailable => "SERVICE_UNAVAILABLE",
            ErrorKind::Io => "IO_ERROR",
        }
    }

    /// Appends the JSON body that reports the error.
    fn write_json(&self, buffer: &mut Vec<u8>)
        ensures
            final(buffer)@ == old(buffer)@ + self.json_body(),
    {
        append(buffer, "{\"error\":\"".as_bytes());
        append(buffer, self.message().as_bytes());
        append(buffer, "\",\"code\":\"".as_bytes());
        append(buffer, self.code().as_bytes());
        append(buffer, "\"}".as_bytes());
        assert(buffer@ =~= old(buffer)@ + self.json_body());
    }

    /// The response that reports the error, written for `version`.
    pub fn as_http(&self, version: Version, json: bool) -> (r: Vec<u8>)
        ensures
            r@ == self.response(version, json),
    {
        let status = self.status();
        let mut r: Vec<u8> = Vec::new();
        match version {
            Version::Http09 => {
                append(&mut r, "ERROR:".as_bytes());
                status.write_code(&mut r);
                append(&mut r, status.reason().as_bytes());
            },
            _ => {
                status.write_first_line(version, &mut r);
                append(&mut r, "connection: close\r\ncontent-length: ".as_bytes());
                if json {
                    let mut body: Vec<u8> = Vec::new();
                    self.write_json(&mut body);
                    assert(body@ =~= self.json_body());
                    impl_write_buffer_u128(body.len() as u128, &mut r);
                    append(&mut r, "\r\ncontent-type: application/json\r\n\r\n".as_bytes());
                    append(&mut r, body.as_slice());
                } else {
                    impl_write_buffer_u128(0, &mut r);
                    r.push(CR);
                    r.push(LF);
                    r.push(CR);
                    r.push(LF);
                }
            },
        }
        assert(r@ =~= self.response(version, json));
        r
    }
}

impl From<query::Error> for ErrorKind {
    fn from(err: query::Error) -> (r: Self) {
        ErrorKind::Query(err)
    }
}

impl vstd::std_specs::convert::FromSpecImpl<query::Error> for ErrorKind {
    open spec fn obeys_from_spec() -> bool {
        true
    }

    open spec fn from_spec(err: query::Error) -> Self {
        ErrorKind::Query(err)
    }
}

/// Every HTTP/1.x error response with a JSON body declares the length of
/// that body.
pub proof fn lemma_error_response_declares_its_length(kind: ErrorKind, version: Version)
    requires
        version !is Http09,
    ensures
        crate::bytes::decimal_value(decimal_digits(kind.json_body().len()))
            == kind.json_body().len(),
        kind.json_body().is_suffix_of(kind.response(version, true)),
{
    crate::bytes::lemma_decimal_round_trip(kind.json_body().len());
    let whole = kind.response(version, true);
    let body = kind.json_body();
    assert(whole.subrange(whole.len() - body.len(), whole.len() as int) =~= body);
}

} // verus!
