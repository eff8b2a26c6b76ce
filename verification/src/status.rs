//! The status lines of HTTP responses: a code and its reason phrase.
use vstd::prelude::*;

verus! {

/// The HTTP status codes with their reason phrases, as they stand after
/// `HTTP/1.1 ` in a response's first line.
pub struct Status;

impl Status {
    pub const CONTINUE: &'static str = "100 Continue";
    pub const SWITCHING_PROTOCOLS: &'static str = "101 Switching Protocols";
    pub const PROCESSING: &'static str = "102 Processing";

    pub const OK: &'static str = "200 OK";
    pub const CREATED: &'static str = "201 Created";
    pub const ACCEPTED: &'static str = "202 Accepted";
    pub const NON_AUTHORITATIVE_INFORMATION: &'static str = "203 Non Authoritative Information";
    pub const NO_CONTENT: &'static str = "204 No Content";
    pub const RESET_CONTENT: &'static str = "205 Reset Content";
    pub const PARTIAL_CONTENT: &'static str = "206 Partial Content";
    pub const MULTI_STATUS: &'static str = "207 Multi-Status";
    pub const ALREADY_REPORTED: &'static str = "208 Already Reported";

    pub const IM_USED: &'static str = "226 IM Used";

    pub const MULTIPLE_CHOICES: &'static str = "300 Multiple Choices";
    pub const MOVED_PERMANENTLY: &'static str = "301 Moved Permanently";
    pub const FOUND: &'static str = "302 Found";
    pub const SEE_OTHER: &'static str = "303 See Other";
    pub const NOT_MODIFIED: &'static str = "304 Not Modified";
    pub const USE_PROXY: &'static str = "305 Use Proxy";
    pub const TEMPORARY_REDIRECT: &'static str = "307 Temporary Redirect";
    pub const PERMANENT_REDIRECT: &'static str = "308 Permanent Redirect";

    pub const BAD_REQUEST: &'static str = "400 Bad Request";
    pub const UNAUTHORIZED: &'static str = "401 Unauthorized";
    pub const PAYMENT_REQUIRED: &'static str = "402 Payment Required";
    pub const FORBIDDEN: &'static str = "403 Forbidden";
    pub const NOT_FOUND: &'static str = "404 Not Found";
    pub const METHOD_NOT_ALLOWED: &'static str = "405 Method Not Allowed";
    pub const NOT_ACCEPTABLE: &'static str = "406 Not Acceptable";
    pub const PROXY_AUTHENTICATION_REQUIRED: &'static str = "407 Proxy Authentication Required";
    pub const REQUEST_TIMEOUT: &'static str = "408 Request Timeout";
    pub const CONFLICT: &'static str = "409 Conflict";
    pub const GONE: &'static str = "410 Gone";
    pub const LENGTH_REQUIRED: &'static str = "411 Length Required";
    pub const PRECONDITION_FAILED: &'static str = "412 Precondition Failed";
    pub const PAYLOAD_TOO_LARGE: &'static str = "413 Payload Too Large";
    pub const URI_TOO_LONG: &'static str = "414 URI Too Long";
    pub const UNSUPPORTED_MEDIA_TYPE: &'static str = "415 Unsupported Media Type";
    pub const RANGE_NOT_SATISFIABLE: &'static str = "416 Range Not Satisfiable";
    pub const EXPECTATION_FAILED: &'static str = "417 Expectation Failed";
    pub const IM_A_TEAPOT: &'static str = "418 I'm a teapot";

    pub const MISDIRECTED_REQUEST: &'static str = "421 Misdirected Request";
    pub const UNPROCESSABLE_ENTITY: &'static str = "422 Unprocessable Entity";
    pub const LOCKED: &'static str = "423 Locked";
    pub const FAILED_DEPENDENCY: &'static str = "424 Failed Dependency";

    pub const TOO_EARLY: &'static str = "425 Too Early";

    pub const UPGRADE_REQUIRED: &'static str = "426 Upgrade Required";

    pub const PRECONDITION_REQUIRED: &'static str = "428 Precondition Required";
    pub const TOO_MANY_REQUESTS: &'static str = "429 Too Many Requests";

    pub const REQUEST_HEADER_FIELDS_TOO_LARGE: &'static str = "431 Request Header Fields Too Large";

    pub const UNAVAILABLE_FOR_LEGAL_REASONS: &'static str = "451 Unavailable For Legal Reasons";

    pub const INTERNAL_SERVER_ERROR: &'static str = "500 Internal Server Error";
    pub const NOT_IMPLEMENTED: &'static str = "501 Not Implemented";
    pub const BAD_GATEWAY: &'static str = "502 Bad Gateway";
    pub const SERVICE_UNAVAILABLE: &'static str = "503 Service Unavailable";
    pub const GATEWAY_TIMEOUT: &'static str = "504 Gateway Timeout";
    pub const HTTP_VERSION_NOT_SUPPORTED: &'static str = "505 HTTP Version Not Supported";
    pub const VARIANT_ALSO_NEGOTIATES: &'static str = "506 Variant Also Negotiates";
    pub const INSUFFICIENT_STORAGE: &'static str = "507 Insufficient Storage";
    pub const LOOP_DETECTED: &'static str = "508 Loop Detected";

    pub const NOT_EXTENDED: &'static str = "510 Not Extended";
    pub const NETWORK_AUTHENTICATION_REQUIRED: &'static str = "511 Network Authentication Required";
}

} // verus!
