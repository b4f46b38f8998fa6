//! An HTTP/1.1 message reader and writer: requests and responses are read
//! from wire bytes into typed values and written back byte for byte, with
//! fixed-length and chunked bodies, case-insensitive header lists and URLs.
pub mod definitions;
pub mod header;
pub mod message;
pub mod parser;
pub mod round_trip;
pub mod text;
pub mod url;

pub use definitions::{
    DEFAULT_HTTP_PORT,
    DEFAULT_HTTPS_PORT,
    S_CONTINUE,
    S_SWITCHING_PROTOCOLS,
    S_OK,
    S_CREATED,
    S_ACCEPTED,
    S_NON_AUTHORITATIVE,
    S_NO_CONTENT,
    S_RESET_CONTENT,
    S_PARTIAL_CONTENT,
    S_MULTIPLE_CHOICES,
    S_MOVED_PERMANENTLY,
    S_FOUND,
    S_SEE_OTHER,
    S_NOT_MODIFIED,
    S_USE_PROXY,
    S_TEMPORARY_REDIRECT,
    S_BAD_REQUEST,
    S_UNAUTHORIZED,
    S_PAYMENT_REQUIRED,
    S_FORBIDDEN,
    S_NOT_FOUND,
    S_METHOD_NOT_ALLOWED,
    S_NOT_ACCEPTABLE,
    S_PROXY_AUTHENTICATION_REQUIRED,
    S_REQUEST_TIME_OUT,
    S_CONFLICT,
    S_GONE,
    S_LENGTH_REQUIRED,
    S_PRECONDITION_FAILED,
    S_REQUEST_ENTITY_TOO_LARGE,
    S_REQUEST_URI_TOO_LARGE,
    S_UNSUPPORTED_MEDIA_TYPE,
    S_REQUESTED_RANGE_NOT_SATISFIABLE,
    S_EXPECTATION_FAILED,
    S_INTERNAL_SERVER_ERROR,
    S_NOT_IMPLEMENTED,
    S_BAD_GATEWAY,
    S_SERVICE_UNAVAILABLE,
    S_GATEWAY_TIME_OUT,
    S_HTTP_VERSION_NOT_SUPPORTED,
    H_ACCEPT,
    H_ACCEPT_CHARSET,
    H_ACCEPT_LANGUAGE,
    H_ACCEPT_ENCODING,
    H_ACCEPT_RANGES,
    H_AGE,
    H_ALLOW,
    H_AUTHORIZATION,
    H_CACHE_CONTROL,
    H_CONNECTION,
    H_CONTENT_ENCODING,
    H_CONTENT_LANGUAGE,
    H_CONTENT_LENGTH,
    H_CONTENT_LOCATION,
    H_CONTENT_MD5,
    H_CONTENT_RANGE,
    H_CONTENT_TYPE,
    H_DATE,
    H_ETAG,
    H_EXPECT,
    H_EXPIRES,
    H_FROM,
    H_HOST,
    H_IF_MATCH,
    H_IF_MODIFIED_SINCE,
    H_IF_NONE_MATCH,
    H_IF_RANGE,
    H_IF_UNMODIFIED_SINCE,
    H_LAST_MODIFIED,
    H_LOCATION,
    H_MAX_FORWARDS,
    H_PRAGMA,
    H_PROXY_AUTHENTICATE,
    H_PROXY_AUTHORIZATION,
    H_RANGE,
    H_REFERER,
    H_SERVER,
    H_TE,
    H_TRAILER,
    H_TRANSFER_ENCODING,
    H_UPGRADE,
    H_USER_AGENT,
    H_VARY,
    H_VIA,
    H_WARNING,
    H_WWW_AUTHENTICATE,
    StatusCode,
    status_value,
    status_reason,
    lemma_status_eq_symmetric,
};
pub use header::{HttpHeader, HeaderView};
pub use message::{
    HttpMethod, HttpRequest, HttpRequestBuilder, HttpResponse, HttpResponseBuilder, HttpVersion,
    RequestBuilderView, RequestView, ResponseBuilderView, ResponseView,
};
pub use parser::{HttpParseError, HttpParser, ParseErrorView};
pub use url::{HttpUrl, HttpUrlBuilder, QueryView, UrlView};
