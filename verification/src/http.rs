//! HTTP/1.1 protocol primitives: status codes, request methods and the
//! protocol version.

use vstd::prelude::*;

use crate::text::str_eq;

verus! {

/// An HTTP response status code.
#[derive(Debug, Clone, Copy, PartialEq, Eq, Structural, Hash)]
pub enum StatusCode {
    Continue,
    SwitchingProtocols,
    Okay,
    Created,
    Accepted,
    NoContent,
    PartialContent,
    MovedPermanently,
    Found,
    SeeOther,
    NotModified,
    TemporaryRedirect,
    PermanentRedirect,
    BadRequest,
    Unauthorized,
    Forbidden,
    NotFound,
    MethodNotAllowed,
    Conflict,
    Gone,
    LengthRequired,
    PayloadTooLarge,
    UriTooLong,
    UnsupportedMediaType,
    UnprocessableEntity,
    TooManyRequests,
    InternalServerError,
    NotImplemented,
    BadGateway,
    ServiceUnavailable,
    GatewayTimeout,
    HttpVersionNotSupported,
}

/// The numeric wire code of a status.
pub open spec fn code_of(s: StatusCode) -> u16 {
    match s {
        StatusCode::Continue => 100,
        StatusCode::SwitchingProtocols => 101,
        StatusCode::Okay => 200,
        StatusCode::Created => 201,
        StatusCode::Accepted => 202,
        StatusCode::NoContent => 204,
        StatusCode::PartialContent => 206,
        StatusCode::MovedPermanently => 301,
        StatusCode::Found => 302,
        StatusCode::SeeOther => 303,
        StatusCode::NotModified => 304,
        StatusCode::TemporaryRedirect => 307,
        StatusCode::PermanentRedirect => 308,
        StatusCode::BadRequest => 400,
        StatusCode::Unauthorized => 401,
        StatusCode::Forbidden => 403,
        StatusCode::NotFound => 404,
        StatusCode::MethodNotAllowed => 405,
        StatusCode::Conflict => 409,
        StatusCode::Gone => 410,
        StatusCode::LengthRequired => 411,
        StatusCode::PayloadTooLarge => 413,
        StatusCode::UriTooLong => 414,
        StatusCode::UnsupportedMediaType => 415,
        StatusCode::UnprocessableEntity => 422,
        StatusCode::TooManyRequests => 429,
        StatusCode::InternalServerError => 500,
        StatusCode::NotImplemented => 501,
        StatusCode::BadGateway => 502,
        StatusCode::ServiceUnavailable => 503,
        StatusCode::GatewayTimeout => 504,
        StatusCode::HttpVersionNotSupported => 505,
    }
}

/// The canonical reason phrase of a status.
pub open spec fn reason_of(s: StatusCode) -> Seq<char> {
    match s {
        StatusCode::Continue => "Continue"@,
        StatusCode::SwitchingProtocols => "Switching Protocols"@,
        StatusCode::Okay => "OK"@,
        StatusCode::Created => "Created"@,
        StatusCode::Accepted => "Accepted"@,
        StatusCode::NoContent => "No Content"@,
        StatusCode::PartialContent => "Partial Content"@,
        StatusCode::MovedPermanently => "Moved Permanently"@,
        StatusCode::Found => "Found"@,
        StatusCode::SeeOther => "See Other"@,
        StatusCode::NotModified => "Not Modified"@,
        StatusCode::TemporaryRedirect => "Temporary Redirect"@,
        StatusCode::PermanentRedirect => "Permanent Redirect"@,
        StatusCode::BadRequest => "Bad Request"@,
        StatusCode::Unauthorized => "Unauthorized"@,
        StatusCode::Forbidden => "Forbidden"@,
        StatusCode::NotFound => "Not Found"@,
        StatusCode::MethodNotAllowed => "Method Not Allowed"@,
        StatusCode::Conflict => "Conflict"@,
        StatusCode::Gone => "Gone"@,
        StatusCode::LengthRequired => "Length Required"@,
        StatusCode::PayloadTooLarge => "Payload Too Large"@,
        StatusCode::UriTooLong => "URI Too Long"@,
        StatusCode::UnsupportedMediaType => "Unsupported Media Type"@,
        StatusCode::UnprocessableEntity => "Unprocessable Entity"@,
        StatusCode::TooManyRequests => "Too Many Requests"@,
        StatusCode::InternalServerError => "Internal Server Error"@,
        StatusCode::NotImplemented => "Not Implemented"@,
        StatusCode::BadGateway => "Bad Gateway"@,
        StatusCode::ServiceUnavailable => "Service Unavailable"@,
        StatusCode::GatewayTimeout => "Gateway Timeout"@,
        StatusCode::HttpVersionNotSupported => "HTTP Version Not Supported"@,
    }
}

impl StatusCode {
    /// Returns the numeric status code as a `u16`.
    pub fn as_u16(self) -> (r: u16)
        ensures
            r == code_of(self),
    {
        match self {
            StatusCode::Continue => 100,
            StatusCode::SwitchingProtocols => 101,
            StatusCode::Okay => 200,
            StatusCode::Created => 201,
            StatusCode::Accepted => 202,
            StatusCode::NoContent => 204,
            StatusCode::PartialContent => 206,
            StatusCode::MovedPermanently => 301,
            StatusCode::Found => 302,
            StatusCode::SeeOther => 303,
            StatusCode::NotModified => 304,
            StatusCode::TemporaryRedirect => 307,
            StatusCode::PermanentRedirect => 308,
            StatusCode::BadRequest => 400,
            StatusCode::Unauthorized => 401,
            StatusCode::Forbidden => 403,
            StatusCode::NotFound => 404,
            StatusCode::MethodNotAllowed => 405,
            StatusCode::Conflict => 409,
            StatusCode::Gone => 410,
            StatusCode::LengthRequired => 411,
            StatusCode::PayloadTooLarge => 413,
            StatusCode::UriTooLong => 414,
            StatusCode::UnsupportedMediaType => 415,
            StatusCode::UnprocessableEntity => 422,
            StatusCode::TooManyRequests => 429,
            StatusCode::InternalServerError => 500,
            StatusCode::NotImplemented => 501,
            StatusCode::BadGateway => 502,
            StatusCode::ServiceUnavailable => 503,
            StatusCode::GatewayTimeout => 504,
            StatusCode::HttpVersionNotSupported => 505,
        }
    }

    /// Returns `true` for 2xx codes.
    pub fn is_success(self) -> (r: bool)
        ensures
            r == (200 <= code_of(self) < 300),
    {
        let c = self.as_u16();
        200 <= c && c < 300
    }

    /// Returns the canonical reason phrase for this status code.
    pub fn canonical_reason(self) -> (r: &'static str)
        ensures
            r@ == reason_of(self),
    {
        match self {
            StatusCode::Continue => "Continue",
            StatusCode::SwitchingProtocols => "Switching Protocols",
            StatusCode::Okay => "OK",
            StatusCode::Created => "Created",
            StatusCode::Accepted => "Accepted",
            StatusCode::NoContent => "No Content",
            StatusCode::PartialContent => "Partial Content",
            StatusCode::MovedPermanently => "Moved Permanently",
            StatusCode::Found => "Found",
            StatusCode::SeeOther => "See Other",
            StatusCode::NotModified => "Not Modified",
            StatusCode::TemporaryRedirect => "Temporary Redirect",
            StatusCode::PermanentRedirect => "Permanent Redirect",
            StatusCode::BadRequest => "Bad Request",
            StatusCode::Unauthorized => "Unauthorized",
            StatusCode::Forbidden => "Forbidden",
            StatusCode::NotFound => "Not Found",
            StatusCode::MethodNotAllowed => "Method Not Allowed",
            StatusCode::Conflict => "Conflict",
            StatusCode::Gone => "Gone",
            StatusCode::LengthRequired => "Length Required",
            StatusCode::PayloadTooLarge => "Payload Too Large",
            StatusCode::UriTooLong => "URI Too Long",
            StatusCode::UnsupportedMediaType => "Unsupported Media Type",
            StatusCode::UnprocessableEntity => "Unprocessable Entity",
            StatusCode::TooManyRequests => "Too Many Requests",
            StatusCode::InternalServerError => "Internal Server Error",
            StatusCode::NotImplemented => "Not Implemented",
            StatusCode::BadGateway => "Bad Gateway",
            StatusCode::ServiceUnavailable => "Service Unavailable",
            StatusCode::GatewayTimeout => "Gateway Timeout",
            StatusCode::HttpVersionNotSupported => "HTTP Version Not Supported",
        }
    }
}

/// An HTTP request method.
///
/// Standard methods are unit variants; non-standard methods are carried in
/// the `Custom` variant.
#[derive(Debug, Clone)]
pub enum Method {
    Get,
    Post,
    Put,
    Delete,
    Head,
    Options,
    Patch,
    Connect,
    Trace,
    /// A non-standard extension method.
    Custom(String),
}

/// The wire name of a method.
pub open spec fn method_name(m: &Method) -> Seq<char> {
    match m {
        Method::Get => "GET"@,
        Method::Post => "POST"@,
        Method::Put => "PUT"@,
        Method::Delete => "DELETE"@,
        Method::Head => "HEAD"@,
        Method::Options => "OPTIONS"@,
        Method::Patch => "PATCH"@,
        Method::Connect => "CONNECT"@,
        Method::Trace => "TRACE"@,
        Method::Custom(s) => s@,
    }
}

/// Equality of methods: same variant, and for `Custom` the same name.
pub open spec fn method_eq(a: Method, b: Method) -> bool {
    match (a, b) {
        (Method::Get, Method::Get) => true,
        (Method::Post, Method::Post) => true,
        (Method::Put, Method::Put) => true,
        (Method::Delete, Method::Delete) => true,
        (Method::Head, Method::Head) => true,
        (Method::Options, Method::Options) => true,
        (Method::Patch, Method::Patch) => true,
        (Method::Connect, Method::Connect) => true,
        (Method::Trace, Method::Trace) => true,
        (Method::Custom(x), Method::Custom(y)) => x@ == y@,
        _ => false,
    }
}

/// Relates a wire name to the method it parses to: each standard name maps
/// to its unit variant, anything else to `Custom` with the name verbatim.
pub open spec fn is_method_of(s: Seq<char>, m: Method) -> bool {
    if s == "GET"@ {
        m is Get
    } else if s == "POST"@ {
        m is Post
    } else if s == "PUT"@ {
        m is Put
    } else if s == "DELETE"@ {
        m is Delete
    } else if s == "HEAD"@ {
        m is Head
    } else if s == "OPTIONS"@ {
        m is Options
    } else if s == "PATCH"@ {
        m is Patch
    } else if s == "CONNECT"@ {
        m is Connect
    } else if s == "TRACE"@ {
        m is Trace
    } else {
        m matches Method::Custom(c) && c@ == s
    }
}

impl PartialEq for Method {
    fn eq(&self, other: &Method) -> (r: bool) {
        match (self, other) {
            (Method::Get, Method::Get) => true,
            (Method::Post, Method::Post) => true,
            (Method::Put, Method::Put) => true,
            (Method::Delete, Method::Delete) => true,
            (Method::Head, Method::Head) => true,
            (Method::Options, Method::Options) => true,
            (Method::Patch, Method::Patch) => true,
            (Method::Connect, Method::Connect) => true,
            (Method::Trace, Method::Trace) => true,
            (Method::Custom(x), Method::Custom(y)) => str_eq(x.as_str(), y.as_str()),
            _ => false,
        }
    }
}

impl vstd::std_specs::cmp::PartialEqSpecImpl for Method {
    open spec fn obeys_eq_spec() -> bool {
        true
    }

    open spec fn eq_spec(&self, other: &Method) -> bool {
        method_eq(*self, *other)
    }
}

impl Method {
    /// Parses a method name: standard names map to their variant, anything
    /// else becomes `Custom`.
    pub fn parse(s: &str) -> (r: Method)
        ensures
            is_method_of(s@, r),
    {
        if str_eq(s, "GET") {
            Method::Get
        } else if str_eq(s, "POST") {
            Method::Post
        } else if str_eq(s, "PUT") {
            Method::Put
        } else if str_eq(s, "DELETE") {
            Method::Delete
        } else if str_eq(s, "HEAD") {
            Method::Head
        } else if str_eq(s, "OPTIONS") {
            Method::Options
        } else if str_eq(s, "PATCH") {
            Method::Patch
        } else if str_eq(s, "CONNECT") {
            Method::Connect
        } else if str_eq(s, "TRACE") {
            Method::Trace
        } else {
            Method::Custom(s.to_owned())
        }
    }

    /// Returns the method as a string slice.
    pub fn as_str(&self) -> (r: &str)
        ensures
            r@ == method_name(self),
    {
        match self {
            Method::Get => "GET",
            Method::Post => "POST",
            Method::Put => "PUT",
            Method::Delete => "DELETE",
            Method::Head => "HEAD",
            Method::Options => "OPTIONS",
            Method::Patch => "PATCH",
            Method::Connect => "CONNECT",
            Method::Trace => "TRACE",
            Method::Custom(s) => s.as_str(),
        }
    }

    /// Returns `true` if this method is considered "safe" (no side effects):
    /// GET, HEAD, OPTIONS, TRACE.
    pub fn is_safe(&self) -> (r: bool)
        ensures
            r == (self is Get || self is Head || self is Options || self is Trace),
    {
        matches!(self, Method::Get | Method::Head | Method::Options | Method::Trace)
    }

    /// Returns `true` if this method is idempotent: GET, HEAD, PUT, DELETE,
    /// OPTIONS, TRACE.
    pub fn is_idempotent(&self) -> (r: bool)
        ensures
            r == (self is Get || self is Head || self is Put || self is Delete || self is Options
                || self is Trace),
    {
        matches!(
            self,
            Method::Get | Method::Head | Method::Put | Method::Delete | Method::Options
                | Method::Trace
        )
    }
}

/// The HTTP protocol version of a request line.
#[derive(Debug, Clone, Copy, PartialEq, Eq, Structural)]
pub enum Version {
    Http10,
    Http11,
}

/// Errors of the protocol-line parsers.
#[derive(Debug, Clone, Copy, PartialEq, Eq, Structural)]
pub enum ParseError {
    /// Invalid HTTP request line.
    InvalidRequestLine,
    /// Invalid HTTP method.
    InvalidMethod,
    /// Invalid HTTP version.
    InvalidVersion,
    /// Invalid HTTP header.
    InvalidHeader,
    /// Invalid HTTP body.
    InvalidBody,
    /// Incomplete HTTP request.
    IncompleteRequest,
    /// Text was not valid UTF-8.
    Utf8Error,
    /// An I/O failure was reported by the transport.
    IoError,
}

impl Version {
    /// Parses a version string: exactly `HTTP/1.0` or `HTTP/1.1`.
    pub fn parse(s: &str) -> (r: Result<Version, ParseError>)
        ensures
            s@ == "HTTP/1.0"@ ==> r == Ok::<Version, ParseError>(Version::Http10),
            s@ == "HTTP/1.1"@ ==> r == Ok::<Version, ParseError>(Version::Http11),
            s@ != "HTTP/1.0"@ && s@ != "HTTP/1.1"@ ==> r == Err::<Version, ParseError>(
                ParseError::InvalidVersion,
            ),
    {
        proof {
            reveal_strlit("HTTP/1.0");
            reveal_strlit("HTTP/1.1");
            assert("HTTP/1.0"@[7] == '0' && "HTTP/1.1"@[7] == '1');
            assert("HTTP/1.0"@ != "HTTP/1.1"@);
        }
        if str_eq(s, "HTTP/1.0") {
            Ok(Version::Http10)
        } else if str_eq(s, "HTTP/1.1") {
            Ok(Version::Http11)
        } else {
            Err(ParseError::InvalidVersion)
        }
    }
}

} // verus!
