//! Standard status codes with their reason phrases, header names, and
//! default ports.
use vstd::prelude::*;
use vstd::std_specs::cmp::PartialEqSpec;

verus! {

/// Port used to reach an `http` host when none is given.
pub const DEFAULT_HTTP_PORT: u16 = 80;

/// Port used to reach an `https` host when none is given.
pub const DEFAULT_HTTPS_PORT: u16 = 443;

/// Status codes of the standard table.
pub const S_CONTINUE: usize = 100;
pub const S_SWITCHING_PROTOCOLS: usize = 101;
pub const S_OK: usize = 200;
pub const S_CREATED: usize = 201;
pub const S_ACCEPTED: usize = 202;
pub const S_NON_AUTHORITATIVE: usize = 203;
pub const S_NO_CONTENT: usize = 204;
pub const S_RESET_CONTENT: usize = 205;
pub const S_PARTIAL_CONTENT: usize = 206;
pub const S_MULTIPLE_CHOICES: usize = 300;
pub const S_MOVED_PERMANENTLY: usize = 301;
pub const S_FOUND: usize = 302;
pub const S_SEE_OTHER: usize = 303;
pub const S_NOT_MODIFIED: usize = 304;
pub const S_USE_PROXY: usize = 305;
pub const S_TEMPORARY_REDIRECT: usize = 307;
pub const S_BAD_REQUEST: usize = 400;
pub const S_UNAUTHORIZED: usize = 401;
pub const S_PAYMENT_REQUIRED: usize = 402;
pub const S_FORBIDDEN: usize = 403;
pub const S_NOT_FOUND: usize = 404;
pub const S_METHOD_NOT_ALLOWED: usize = 405;
pub const S_NOT_ACCEPTABLE: usize = 406;
pub const S_PROXY_AUTHENTICATION_REQUIRED: usize = 407;
pub const S_REQUEST_TIME_OUT: usize = 408;
pub const S_CONFLICT: usize = 409;
pub const S_GONE: usize = 410;
pub const S_LENGTH_REQUIRED: usize = 411;
pub const S_PRECONDITION_FAILED: usize = 412;
pub const S_REQUEST_ENTITY_TOO_LARGE: usize = 413;
pub const S_REQUEST_URI_TOO_LARGE: usize = 414;
pub const S_UNSUPPORTED_MEDIA_TYPE: usize = 415;
pub const S_REQUESTED_RANGE_NOT_SATISFIABLE: usize = 416;
pub const S_EXPECTATION_FAILED: usize = 417;
pub const S_INTERNAL_SERVER_ERROR: usize = 500;
pub const S_NOT_IMPLEMENTED: usize = 501;
pub const S_BAD_GATEWAY: usize = 502;
pub const S_SERVICE_UNAVAILABLE: usize = 503;
pub const S_GATEWAY_TIME_OUT: usize = 504;
pub const S_HTTP_VERSION_NOT_SUPPORTED: usize = 505;

/// Names of the standard headers.
pub const H_ACCEPT: &'static str = "Accept";
pub const H_ACCEPT_CHARSET: &'static str = "Accept-Charset";
pub const H_ACCEPT_LANGUAGE: &'static str = "Accept-Language";
pub const H_ACCEPT_ENCODING: &'static str = "Accept-Encoding";
pub const H_ACCEPT_RANGES: &'static str = "Accept-Ranges";
pub const H_AGE: &'static str = "Age";
pub const H_ALLOW: &'static str = "Allow";
pub const H_AUTHORIZATION: &'static str = "Authorization";
pub const H_CACHE_CONTROL: &'static str = "Cache-Control";
pub const H_CONNECTION: &'static str = "Connection";
pub const H_CONTENT_ENCODING: &'static str = "Content-Encoding";
pub const H_CONTENT_LANGUAGE: &'static str = "Content-Language";
pub const H_CONTENT_LENGTH: &'static str = "Content-Length";
pub const H_CONTENT_LOCATION: &'static str = "Content-Location";
pub const H_CONTENT_MD5: &'static str = "Content-MD5";
pub const H_CONTENT_RANGE: &'static str = "Content-Range";
pub const H_CONTENT_TYPE: &'static str = "Content-Type";
pub const H_DATE: &'static str = "Date";
pub const H_ETAG: &'static str = "ETag";
pub const H_EXPECT: &'static str = "Expect";
pub const H_EXPIRES: &'static str = "Expires";
pub const H_FROM: &'static str = "From";
pub const H_HOST: &'static str = "Host";
pub const H_IF_MATCH: &'static str = "If-Match";
pub const H_IF_MODIFIED_SINCE: &'static str = "if-Modified-Since";
pub const H_IF_NONE_MATCH: &'static str = "If-None-Match";
pub const H_IF_RANGE: &'static str = "If-Range";
pub const H_IF_UNMODIFIED_SINCE: &'static str = "If-Unmodified-Since";
pub const H_LAST_MODIFIED: &'static str = "Last-Modified";
pub const H_LOCATION: &'static str = "Location";
pub const H_MAX_FORWARDS: &'static str = "Max-Forwards";
pub const H_PRAGMA: &'static str = "Pragma";
pub const H_PROXY_AUTHENTICATE: &'static str = "Proxy-Authenticate";
pub const H_PROXY_AUTHORIZATION: &'static str = "Proxy-Authorization";
pub const H_RANGE: &'static str = "Range";
pub const H_REFERER: &'static str = "Referer";
pub const H_SERVER: &'static str = "Server";
pub const H_TE: &'static str = "TE";
pub const H_TRAILER: &'static str = "Trailer";
pub const H_TRANSFER_ENCODING: &'static str = "Transfer-Encoding";
pub const H_UPGRADE: &'static str = "Upgrade";
pub const H_USER_AGENT: &'static str = "User-Agent";
pub const H_VARY: &'static str = "Vary";
pub const H_VIA: &'static str = "Via";
pub const H_WARNING: &'static str = "Warning";
pub const H_WWW_AUTHENTICATE: &'static str = "WWW-Authenticate";

/// A status code of the standard HTTP/1.1 table, with its reason phrase.
#[allow(non_camel_case_types)]
#[derive(Clone, Copy, Debug)]
pub enum StatusCode {
    CONTINUE,
    SWITCHING_PROTOCOLS,
    OK,
    CREATED,
    ACCEPTED,
    NON_AUTHORITATIVE,
    NO_CONTENT,
    RESET_CONTENT,
    PARTIAL_CONTENT,
    MULTIPLE_CHOICES,
    MOVED_PERMANENTLY,
    FOUND,
    SEE_OTHER,
    NOT_MODIFIED,
    USE_PROXY,
    TEMPORARY_REDIRECT,
    BAD_REQUEST,
    UNAUTHORIZED,
    PAYMENT_REQUIRED,
    FORBIDDEN,
    NOT_FOUND,
    METHOD_NOT_ALLOWED,
    NOT_ACCEPTABLE,
    PROXY_AUTHENTICATION_REQUIRED,
    REQUEST_TIME_OUT,
    CONFLICT,
    GONE,
    LENGTH_REQUIRED,
    PRECONDITION_FAILED,
    REQUEST_ENTITY_TOO_LARGE,
    REQUEST_URI_TOO_LARGE,
    UNSUPPORTED_MEDIA_TYPE,
    REQUESTED_RANGE_NOT_SATISFIABLE,
    EXPECTATION_FAILED,
    INTERNAL_SERVER_ERROR,
    NOT_IMPLEMENTED,
    BAD_GATEWAY,
    SERVICE_UNAVAILABLE,
    GATEWAY_TIME_OUT,
    HTTP_VERSION_NOT_SUPPORTED,
}

/// The numeric value of a status code.
pub open spec fn status_value(s: StatusCode) -> usize {
    match s {
        StatusCode::CONTINUE => 100,
        StatusCode::SWITCHING_PROTOCOLS => 101,
        StatusCode::OK => 200,
        StatusCode::CREATED => 201,
        StatusCode::ACCEPTED => 202,
        StatusCode::NON_AUTHORITATIVE => 203,
        StatusCode::NO_CONTENT => 204,
        StatusCode::RESET_CONTENT => 205,
        StatusCode::PARTIAL_CONTENT => 206,
        StatusCode::MULTIPLE_CHOICES => 300,
        StatusCode::MOVED_PERMANENTLY => 301,
        StatusCode::FOUND => 302,
        StatusCode::SEE_OTHER => 303,
        StatusCode::NOT_MODIFIED => 304,
        StatusCode::USE_PROXY => 305,
        StatusCode::TEMPORARY_REDIRECT => 307,
        StatusCode::BAD_REQUEST => 400,
        StatusCode::UNAUTHORIZED => 401,
        StatusCode::PAYMENT_REQUIRED => 402,
        StatusCode::FORBIDDEN => 403,
        StatusCode::NOT_FOUND => 404,
        StatusCode::METHOD_NOT_ALLOWED => 405,
        StatusCode::NOT_ACCEPTABLE => 406,
        StatusCode::PROXY_AUTHENTICATION_REQUIRED => 407,
        StatusCode::REQUEST_TIME_OUT => 408,
        StatusCode::CONFLICT => 409,
        StatusCode::GONE => 410,
        StatusCode::LENGTH_REQUIRED => 411,
        StatusCode::PRECONDITION_FAILED => 412,
        StatusCode::REQUEST_ENTITY_TOO_LARGE => 413,
        StatusCode::REQUEST_URI_TOO_LARGE => 414,
        StatusCode::UNSUPPORTED_MEDIA_TYPE => 415,
        StatusCode::REQUESTED_RANGE_NOT_SATISFIABLE => 416,
        StatusCode::EXPECTATION_FAILED => 417,
        StatusCode::INTERNAL_SERVER_ERROR => 500,
        StatusCode::NOT_IMPLEMENTED => 501,
        StatusCode::BAD_GATEWAY => 502,
        StatusCode::SERVICE_UNAVAILABLE => 503,
        StatusCode::GATEWAY_TIME_OUT => 504,
        StatusCode::HTTP_VERSION_NOT_SUPPORTED => 505,
    }
}

/// The reason phrase of a status code.
pub open spec fn status_reason(s: StatusCode) -> Seq<char> {
    match s {
        StatusCode::CONTINUE => "Continue"@,
        StatusCode::SWITCHING_PROTOCOLS => "Switching Protocols"@,
        StatusCode::OK => "OK"@,
        StatusCode::CREATED => "Created"@,
        StatusCode::ACCEPTED => "Accepted"@,
        StatusCode::NON_AUTHORITATIVE => "Non-Authoritative Information"@,
        StatusCode::NO_CONTENT => "No Content"@,
        StatusCode::RESET_CONTENT => "Reset Content"@,
        StatusCode::PARTIAL_CONTENT => "Partial Content"@,
        StatusCode::MULTIPLE_CHOICES => "Multiple Choices"@,
        StatusCode::MOVED_PERMANENTLY => "Moved Permanently"@,
        StatusCode::FOUND => "Found"@,
        StatusCode::SEE_OTHER => "See Other"@,
        StatusCode::NOT_MODIFIED => "Not Modified"@,
        StatusCode::USE_PROXY => "Use Proxy"@,
        StatusCode::TEMPORARY_REDIRECT => "Temporary Redirect"@,
        StatusCode::BAD_REQUEST => "Bad Request"@,
        StatusCode::UNAUTHORIZED => "Unauthorized"@,
        StatusCode::PAYMENT_REQUIRED => "Payment Required"@,
        StatusCode::FORBIDDEN => "Forbidden"@,
        StatusCode::NOT_FOUND => "Not Found"@,
        StatusCode::METHOD_NOT_ALLOWED => "Method Not Allowed"@,
        StatusCode::NOT_ACCEPTABLE => "Not Acceptable"@,
        StatusCode::PROXY_AUTHENTICATION_REQUIRED => "Proxy Authentication Required"@,
        StatusCode::REQUEST_TIME_OUT => "Request Time-out"@,
        StatusCode::CONFLICT => "Conflict"@,
        StatusCode::GONE => "Gone"@,
        StatusCode::LENGTH_REQUIRED => "Length Required"@,
        StatusCode::PRECONDITION_FAILED => "Precondition Failed"@,
        StatusCode::REQUEST_ENTITY_TOO_LARGE => "Request Entity Too Large"@,
        StatusCode::REQUEST_URI_TOO_LARGE => "Request-URI Too Large"@,
        StatusCode::UNSUPPORTED_MEDIA_TYPE => "Unsupported Media Type"@,
        StatusCode::REQUESTED_RANGE_NOT_SATISFIABLE => "Requested range not satisfiable"@,
        StatusCode::EXPECTATION_FAILED => "Expectation Failed"@,
        StatusCode::INTERNAL_SERVER_ERROR => "Internal Server Error"@,
        StatusCode::NOT_IMPLEMENTED => "Not Implemented"@,
        StatusCode::BAD_GATEWAY => "Bad Gateway"@,
        StatusCode::SERVICE_UNAVAILABLE => "Service Unavailable"@,
        StatusCode::GATEWAY_TIME_OUT => "Gateway Time-out"@,
        StatusCode::HTTP_VERSION_NOT_SUPPORTED => "HTTP Version not supported"@,
    }
}

impl StatusCode {
    /// The numeric value of this status code.
    pub fn code(&self) -> (r: usize)
        ensures
            r == status_value(*self),
    {
        match self {
            StatusCode::CONTINUE => S_CONTINUE,
            StatusCode::SWITCHING_PROTOCOLS => S_SWITCHING_PROTOCOLS,
            StatusCode::OK => S_OK,
            StatusCode::CREATED => S_CREATED,
            StatusCode::ACCEPTED => S_ACCEPTED,
            StatusCode::NON_AUTHORITATIVE => S_NON_AUTHORITATIVE,
            StatusCode::NO_CONTENT => S_NO_CONTENT,
            StatusCode::RESET_CONTENT => S_RESET_CONTENT,
            StatusCode::PARTIAL_CONTENT => S_PARTIAL_CONTENT,
            StatusCode::MULTIPLE_CHOICES => S_MULTIPLE_CHOICES,
            StatusCode::MOVED_PERMANENTLY => S_MOVED_PERMANENTLY,
            StatusCode::FOUND => S_FOUND,
            StatusCode::SEE_OTHER => S_SEE_OTHER,
            StatusCode::NOT_MODIFIED => S_NOT_MODIFIED,
            StatusCode::USE_PROXY => S_USE_PROXY,
            StatusCode::TEMPORARY_REDIRECT => S_TEMPORARY_REDIRECT,
            StatusCode::BAD_REQUEST => S_BAD_REQUEST,
            StatusCode::UNAUTHORIZED => S_UNAUTHORIZED,
            StatusCode::PAYMENT_REQUIRED => S_PAYMENT_REQUIRED,
            StatusCode::FORBIDDEN => S_FORBIDDEN,
            StatusCode::NOT_FOUND => S_NOT_FOUND,
            StatusCode::METHOD_NOT_ALLOWED => S_METHOD_NOT_ALLOWED,
            StatusCode::NOT_ACCEPTABLE => S_NOT_ACCEPTABLE,
            StatusCode::PROXY_AUTHENTICATION_REQUIRED => S_PROXY_AUTHENTICATION_REQUIRED,
            StatusCode::REQUEST_TIME_OUT => S_REQUEST_TIME_OUT,
            StatusCode::CONFLICT => S_CONFLICT,
            StatusCode::GONE => S_GONE,
            StatusCode::LENGTH_REQUIRED => S_LENGTH_REQUIRED,
            StatusCode::PRECONDITION_FAILED => S_PRECONDITION_FAILED,
            StatusCode::REQUEST_ENTITY_TOO_LARGE => S_REQUEST_ENTITY_TOO_LARGE,
            StatusCode::REQUEST_URI_TOO_LARGE => S_REQUEST_URI_TOO_LARGE,
            StatusCode::UNSUPPORTED_MEDIA_TYPE => S_UNSUPPORTED_MEDIA_TYPE,
            StatusCode::REQUESTED_RANGE_NOT_SATISFIABLE => S_REQUESTED_RANGE_NOT_SATISFIABLE,
            StatusCode::EXPECTATION_FAILED => S_EXPECTATION_FAILED,
            StatusCode::INTERNAL_SERVER_ERROR => S_INTERNAL_SERVER_ERROR,
            StatusCode::NOT_IMPLEMENTED => S_NOT_IMPLEMENTED,
            StatusCode::BAD_GATEWAY => S_BAD_GATEWAY,
            StatusCode::SERVICE_UNAVAILABLE => S_SERVICE_UNAVAILABLE,
            StatusCode::GATEWAY_TIME_OUT => S_GATEWAY_TIME_OUT,
            StatusCode::HTTP_VERSION_NOT_SUPPORTED => S_HTTP_VERSION_NOT_SUPPORTED,
        }
    }

    /// The reason phrase that goes with this status code.
    pub fn reason(&self) -> (r: &'static str)
        ensures
            r@ == status_reason(*self),
    {
        match self {
            StatusCode::CONTINUE => "Continue",
            StatusCode::SWITCHING_PROTOCOLS => "Switching Protocols",
            StatusCode::OK => "OK",
            StatusCode::CREATED => "Created",
            StatusCode::ACCEPTED => "Accepted",
            StatusCode::NON_AUTHORITATIVE => "Non-Authoritative Information",
            StatusCode::NO_CONTENT => "No Content",
            StatusCode::RESET_CONTENT => "Reset Content",
            StatusCode::PARTIAL_CONTENT => "Partial Content",
            StatusCode::MULTIPLE_CHOICES => "Multiple Choices",
            StatusCode::MOVED_PERMANENTLY => "Moved Permanently",
            StatusCode::FOUND => "Found",
            StatusCode::SEE_OTHER => "See Other",
            StatusCode::NOT_MODIFIED => "Not Modified",
            StatusCode::USE_PROXY => "Use Proxy",
            StatusCode::TEMPORARY_REDIRECT => "Temporary Redirect",
            StatusCode::BAD_REQUEST => "Bad Request",
            StatusCode::UNAUTHORIZED => "Unauthorized",
            StatusCode::PAYMENT_REQUIRED => "Payment Required",
            StatusCode::FORBIDDEN => "Forbidden",
            StatusCode::NOT_FOUND => "Not Found",
            StatusCode::METHOD_NOT_ALLOWED => "Method Not Allowed",
            StatusCode::NOT_ACCEPTABLE => "Not Acceptable",
            StatusCode::PROXY_AUTHENTICATION_REQUIRED => "Proxy Authentication Required",
            StatusCode::REQUEST_TIME_OUT => "Request Time-out",
            StatusCode::CONFLICT => "Conflict",
            StatusCode::GONE => "Gone",
            StatusCode::LENGTH_REQUIRED => "Length Required",
            StatusCode::PRECONDITION_FAILED => "Precondition Failed",
            StatusCode::REQUEST_ENTITY_TOO_LARGE => "Request Entity Too Large",
            StatusCode::REQUEST_URI_TOO_LARGE => "Request-URI Too Large",
            StatusCode::UNSUPPORTED_MEDIA_TYPE => "Unsupported Media Type",
            StatusCode::REQUESTED_RANGE_NOT_SATISFIABLE => "Requested range not satisfiable",
            StatusCode::EXPECTATION_FAILED => "Expectation Failed",
            StatusCode::INTERNAL_SERVER_ERROR => "Internal Server Error",
            StatusCode::NOT_IMPLEMENTED => "Not Implemented",
            StatusCode::BAD_GATEWAY => "Bad Gateway",
            StatusCode::SERVICE_UNAVAILABLE => "Service Unavailable",
            StatusCode::GATEWAY_TIME_OUT => "Gateway Time-out",
            StatusCode::HTTP_VERSION_NOT_SUPPORTED => "HTTP Version not supported",
        }
    }
}

impl PartialEq<usize> for StatusCode {
    fn eq(&self, other: &usize) -> (r: bool) {
        self.code() == *other
    }
}

impl vstd::std_specs::cmp::PartialEqSpecImpl<usize> for StatusCode {
    open spec fn obeys_eq_spec() -> bool {
        true
    }

    open spec fn eq_spec(&self, other: &usize) -> bool {
        status_value(*self) == *other
    }
}

impl PartialEq<StatusCode> for usize {
    fn eq(&self, other: &StatusCode) -> (r: bool) {
        *self == other.code()
    }
}

impl vstd::std_specs::cmp::PartialEqSpecImpl<StatusCode> for usize {
    open spec fn obeys_eq_spec() -> bool {
        true
    }

    open spec fn eq_spec(&self, other: &StatusCode) -> bool {
        *self == status_value(*other)
    }
}

/// Comparing a status code with its number gives the same answer from
/// either side.
pub proof fn lemma_status_eq_symmetric(s: StatusCode, n: usize)
    ensures
        s.eq_spec(&n) == n.eq_spec(&s),
{
}

} // verus!
