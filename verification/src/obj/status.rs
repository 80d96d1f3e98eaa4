use crate::packet::PacketErr;
use crate::text::{chars_eq_str, dec_str, lemma_dv_index, parse_usize_chars, parse_usize_ok,
    parse_usize_val, split_ws, split_ws_vec, str_to_chars, usize_to_chars};
use vstd::prelude::*;

verus! {

/// The integer form of a status code.
pub type StatusCodeInt = usize;

/// The closed registry of response status codes.
#[derive(Clone, Copy, Debug, Eq, PartialEq, Structural)]
pub enum StatusCode {
    /// 100
    Continue,
    /// 101
    SwitchingProtocols,
    /// 102
    Processing,
    /// 103
    EarlyHints,
    /// 200
    OK,
    /// 201
    Created,
    /// 202
    Accepted,
    /// 203
    NonAuthoritativeInformation,
    /// 204
    NoContent,
    /// 205
    ResetContent,
    /// 206
    PartialContent,
    /// 207
    MultiStatus,
    /// 208
    AlreadyReported,
    /// 226
    IMUsed,
    /// 300
    MultipleChoices,
    /// 301
    MovedPermanently,
    /// 302
    Found,
    /// 303
    SeeOther,
    /// 304
    NotModified,
    /// 305
    UseProxy,
    /// 306
    Unused,
    /// 307
    TemporaryRedirect,
    /// 308
    PermanentRedirect,
    /// 400
    BadRequest,
    /// 401
    Unauthorized,
    /// 402
    PaymentRequired,
    /// 403
    Forbidden,
    /// 404
    NotFound,
    /// 405
    MethodNotAllowed,
    /// 406
    NotAcceptable,
    /// 407
    ProxyAuthenticationRequired,
    /// 408
    RequestTimeout,
    /// 409
    Conflict,
    /// 410
    Gone,
    /// 411
    LengthRequired,
    /// 412
    PreconditionFailed,
    /// 413
    ContentTooLarge,
    /// 414
    UriTooLong,
    /// 415
    UnsupportedMediaType,
    /// 416
    RangeNotSatisfiable,
    /// 417
    ExpectationFailed,
    /// 418
    ImATeapot,
    /// 421
    MisdirectedRequest,
    /// 422
    UnprocessableContent,
    /// 423
    Locked,
    /// 424
    FailedDependency,
    /// 425
    TooEarly,
    /// 426
    UpgradeRequired,
    /// 428
    PreconditionRequired,
    /// 429
    TooManyRequests,
    /// 431
    RequestHeaderFieldsTooLarge,
    /// 451
    UnavailableForLegalReasons,
    /// 500
    InternalServerError,
    /// 501
    NotImplemented,
    /// 502
    BadGateway,
    /// 503
    ServiceUnavailable,
    /// 504
    GatewayTimeout,
    /// 505
    HttpVersionNotSupported,
    /// 506
    VariantAlsoNegotiates,
    /// 507
    InsufficientStorage,
    /// 508
    LoopDetected,
    /// 510
    NotExtended,
    /// 511
    NetworkAuthenticationRequired,
}

/// The integer of a status code.
pub open spec fn spec_status_int(c: StatusCode) -> int {
    match c {
        StatusCode::Continue => 100,
        StatusCode::SwitchingProtocols => 101,
        StatusCode::Processing => 102,
        StatusCode::EarlyHints => 103,
        StatusCode::OK => 200,
        StatusCode::Created => 201,
        StatusCode::Accepted => 202,
        StatusCode::NonAuthoritativeInformation => 203,
        StatusCode::NoContent => 204,
        StatusCode::ResetContent => 205,
        StatusCode::PartialContent => 206,
        StatusCode::MultiStatus => 207,
        StatusCode::AlreadyReported => 208,
        StatusCode::IMUsed => 226,
        StatusCode::MultipleChoices => 300,
        StatusCode::MovedPermanently => 301,
        StatusCode::Found => 302,
        StatusCode::SeeOther => 303,
        StatusCode::NotModified => 304,
        StatusCode::UseProxy => 305,
        StatusCode::Unused => 306,
        StatusCode::TemporaryRedirect => 307,
        StatusCode::PermanentRedirect => 308,
        StatusCode::BadRequest => 400,
        StatusCode::Unauthorized => 401,
        StatusCode::PaymentRequired => 402,
        StatusCode::Forbidden => 403,
        StatusCode::NotFound => 404,
        StatusCode::MethodNotAllowed => 405,
        StatusCode::NotAcceptable => 406,
        StatusCode::ProxyAuthenticationRequired => 407,
        StatusCode::RequestTimeout => 408,
        StatusCode::Conflict => 409,
        StatusCode::Gone => 410,
        StatusCode::LengthRequired => 411,
        StatusCode::PreconditionFailed => 412,
        StatusCode::ContentTooLarge => 413,
        StatusCode::UriTooLong => 414,
        StatusCode::UnsupportedMediaType => 415,
        StatusCode::RangeNotSatisfiable => 416,
        StatusCode::ExpectationFailed => 417,
        StatusCode::ImATeapot => 418,
        StatusCode::MisdirectedRequest => 421,
        StatusCode::UnprocessableContent => 422,
        StatusCode::Locked => 423,
        StatusCode::FailedDependency => 424,
        StatusCode::TooEarly => 425,
        StatusCode::UpgradeRequired => 426,
        StatusCode::PreconditionRequired => 428,
        StatusCode::TooManyRequests => 429,
        StatusCode::RequestHeaderFieldsTooLarge => 431,
        StatusCode::UnavailableForLegalReasons => 451,
        StatusCode::InternalServerError => 500,
        StatusCode::NotImplemented => 501,
        StatusCode::BadGateway => 502,
        StatusCode::ServiceUnavailable => 503,
        StatusCode::GatewayTimeout => 504,
        StatusCode::HttpVersionNotSupported => 505,
        StatusCode::VariantAlsoNegotiates => 506,
        StatusCode::InsufficientStorage => 507,
        StatusCode::LoopDetected => 508,
        StatusCode::NotExtended => 510,
        StatusCode::NetworkAuthenticationRequired => 511,
    }
}

/// The status code an integer names, if any.
pub open spec fn spec_status_from_int(n: int) -> Option<StatusCode> {
    if n == 100 {
        Some(StatusCode::Continue)
    } else if n == 101 {
        Some(StatusCode::SwitchingProtocols)
    } else if n == 102 {
        Some(StatusCode::Processing)
    } else if n == 103 {
        Some(StatusCode::EarlyHints)
    } else if n == 200 {
        Some(StatusCode::OK)
    } else if n == 201 {
        Some(StatusCode::Created)
    } else if n == 202 {
        Some(StatusCode::Accepted)
    } else if n == 203 {
        Some(StatusCode::NonAuthoritativeInformation)
    } else if n == 204 {
        Some(StatusCode::NoContent)
    } else if n == 205 {
        Some(StatusCode::ResetContent)
    } else if n == 206 {
        Some(StatusCode::PartialContent)
    } else if n == 207 {
        Some(StatusCode::MultiStatus)
    } else if n == 208 {
        Some(StatusCode::AlreadyReported)
    } else if n == 226 {
        Some(StatusCode::IMUsed)
    } else if n == 300 {
        Some(StatusCode::MultipleChoices)
    } else if n == 301 {
        Some(StatusCode::MovedPermanently)
    } else if n == 302 {
        Some(StatusCode::Found)
    } else if n == 303 {
        Some(StatusCode::SeeOther)
    } else if n == 304 {
        Some(StatusCode::NotModified)
    } else if n == 305 {
        Some(StatusCode::UseProxy)
    } else if n == 306 {
        Some(StatusCode::Unused)
    } else if n == 307 {
        Some(StatusCode::TemporaryRedirect)
    } else if n == 308 {
        Some(StatusCode::PermanentRedirect)
    } else if n == 400 {
        Some(StatusCode::BadRequest)
    } else if n == 401 {
        Some(StatusCode::Unauthorized)
    } else if n == 402 {
        Some(StatusCode::PaymentRequired)
    } else if n == 403 {
        Some(StatusCode::Forbidden)
    } else if n == 404 {
        Some(StatusCode::NotFound)
    } else if n == 405 {
        Some(StatusCode::MethodNotAllowed)
    } else if n == 406 {
        Some(StatusCode::NotAcceptable)
    } else if n == 407 {
        Some(StatusCode::ProxyAuthenticationRequired)
    } else if n == 408 {
        Some(StatusCode::RequestTimeout)
    } else if n == 409 {
        Some(StatusCode::Conflict)
    } else if n == 410 {
        Some(StatusCode::Gone)
    } else if n == 411 {
        Some(StatusCode::LengthRequired)
    } else if n == 412 {
        Some(StatusCode::PreconditionFailed)
    } else if n == 413 {
        Some(StatusCode::ContentTooLarge)
    } else if n == 414 {
        Some(StatusCode::UriTooLong)
    } else if n == 415 {
        Some(StatusCode::UnsupportedMediaType)
    } else if n == 416 {
        Some(StatusCode::RangeNotSatisfiable)
    } else if n == 417 {
        Some(StatusCode::ExpectationFailed)
    } else if n == 418 {
        Some(StatusCode::ImATeapot)
    } else if n == 421 {
        Some(StatusCode::MisdirectedRequest)
    } else if n == 422 {
        Some(StatusCode::UnprocessableContent)
    } else if n == 423 {
        Some(StatusCode::Locked)
    } else if n == 424 {
        Some(StatusCode::FailedDependency)
    } else if n == 425 {
        Some(StatusCode::TooEarly)
    } else if n == 426 {
        Some(StatusCode::UpgradeRequired)
    } else if n == 428 {
        Some(StatusCode::PreconditionRequired)
    } else if n == 429 {
        Some(StatusCode::TooManyRequests)
    } else if n == 431 {
        Some(StatusCode::RequestHeaderFieldsTooLarge)
    } else if n == 451 {
        Some(StatusCode::UnavailableForLegalReasons)
    } else if n == 500 {
        Some(StatusCode::InternalServerError)
    } else if n == 501 {
        Some(StatusCode::NotImplemented)
    } else if n == 502 {
        Some(StatusCode::BadGateway)
    } else if n == 503 {
        Some(StatusCode::ServiceUnavailable)
    } else if n == 504 {
        Some(StatusCode::GatewayTimeout)
    } else if n == 505 {
        Some(StatusCode::HttpVersionNotSupported)
    } else if n == 506 {
        Some(StatusCode::VariantAlsoNegotiates)
    } else if n == 507 {
        Some(StatusCode::InsufficientStorage)
    } else if n == 508 {
        Some(StatusCode::LoopDetected)
    } else if n == 510 {
        Some(StatusCode::NotExtended)
    } else if n == 511 {
        Some(StatusCode::NetworkAuthenticationRequired)
    } else {
        None
    }
}

/// The canonical, fixed description of a status code.
pub open spec fn spec_status_desc(c: StatusCode) -> Seq<char> {
    match c {
        StatusCode::Continue => "Continue"@,
        StatusCode::SwitchingProtocols => "Switching Protocols"@,
        StatusCode::Processing => "Processing"@,
        StatusCode::EarlyHints => "Early Hints"@,
        StatusCode::OK => "OK"@,
        StatusCode::Created => "Created"@,
        StatusCode::Accepted => "Accepted"@,
        StatusCode::NonAuthoritativeInformation => "Non-Authoritative Information"@,
        StatusCode::NoContent => "No Content"@,
        StatusCode::ResetContent => "Reset Content"@,
        StatusCode::PartialContent => "Partial Content"@,
        StatusCode::MultiStatus => "Multi-Status"@,
        StatusCode::AlreadyReported => "Already Reported"@,
        StatusCode::IMUsed => "IM Used"@,
        StatusCode::MultipleChoices => "Multiple Choices"@,
        StatusCode::MovedPermanently => "Moved Permanently"@,
        StatusCode::Found => "Found"@,
        StatusCode::SeeOther => "See Other"@,
        StatusCode::NotModified => "Not Modified"@,
        StatusCode::UseProxy => "Use Proxy"@,
        StatusCode::Unused => "Unused"@,
        StatusCode::TemporaryRedirect => "Temporary Redirect"@,
        StatusCode::PermanentRedirect => "Permanent Redirect"@,
        StatusCode::BadRequest => "Bad Request"@,
        StatusCode::Unauthorized => "Unauthorized"@,
        StatusCode::PaymentRequired => "Payment Required"@,
        StatusCode::Forbidden => "Forbidden"@,
        StatusCode::NotFound => "Not Found"@,
        StatusCode::MethodNotAllowed => "Method Not Allowed"@,
        StatusCode::NotAcceptable => "Not Acceptable"@,
        StatusCode::ProxyAuthenticationRequired => "Proxy Authentication Required"@,
        StatusCode::RequestTimeout => "Request Timeout"@,
        StatusCode::Conflict => "Conflict"@,
        StatusCode::Gone => "Gone"@,
        StatusCode::LengthRequired => "Length Required"@,
        StatusCode::PreconditionFailed => "Precondition Failed"@,
        StatusCode::ContentTooLarge => "Content Too Large"@,
        StatusCode::UriTooLong => "URI Too Long"@,
        StatusCode::UnsupportedMediaType => "Unsupported Media Type"@,
        StatusCode::RangeNotSatisfiable => "Range Not Satisfiable"@,
        StatusCode::ExpectationFailed => "Expectation Failed"@,
        StatusCode::ImATeapot => "I'm a teapot"@,
        StatusCode::MisdirectedRequest => "Misdirected Request"@,
        StatusCode::UnprocessableContent => "Unprocessable Content"@,
        StatusCode::Locked => "Locked"@,
        StatusCode::FailedDependency => "Failed Dependency"@,
        StatusCode::TooEarly => "Too Early"@,
        StatusCode::UpgradeRequired => "Upgrade Required"@,
        StatusCode::PreconditionRequired => "Precondition Required"@,
        StatusCode::TooManyRequests => "Too Many Requests"@,
        StatusCode::RequestHeaderFieldsTooLarge => "Request Header Fields Too Large"@,
        StatusCode::UnavailableForLegalReasons => "Unavailable For Legal Reasons"@,
        StatusCode::InternalServerError => "Internal Server Error"@,
        StatusCode::NotImplemented => "Not Implemented"@,
        StatusCode::BadGateway => "Bad Gateway"@,
        StatusCode::ServiceUnavailable => "Service Unavailable"@,
        StatusCode::GatewayTimeout => "Gateway Timeout"@,
        StatusCode::HttpVersionNotSupported => "HTTP Version Not Supported"@,
        StatusCode::VariantAlsoNegotiates => "Variant Also Negotiates"@,
        StatusCode::InsufficientStorage => "Insufficient Storage"@,
        StatusCode::LoopDetected => "Loop Detected"@,
        StatusCode::NotExtended => "Not Extended"@,
        StatusCode::NetworkAuthenticationRequired => "Network Authentication Required"@,
    }
}

/// The `code description` text, e.g. `200 OK`.
pub open spec fn spec_status_code_desc(c: StatusCode) -> Seq<char> {
    dec_str(spec_status_int(c)) + seq![' '] + spec_status_desc(c)
}

/// The status line a response carries: exactly three whitespace tokens,
/// the second a supported code and the third its canonical description.
pub open spec fn spec_status_from_res_line(line: Seq<char>) -> Result<StatusCode, PacketErr> {
    let toks = split_ws(line);
    if toks.len() != 3 {
        Err(PacketErr::InvalidStatusLine)
    } else if !parse_usize_ok(toks[1]) {
        Err(PacketErr::InvalidStatusLine)
    } else {
        match spec_status_from_int(parse_usize_val(toks[1])) {
            None => Err(PacketErr::InvalidStatusLine),
            Some(c) => if toks[2] == spec_status_desc(c) {
                Ok(c)
            } else {
                Err(PacketErr::InvalidStatusLine)
            },
        }
    }
}

/// Converting a status code to its integer and back returns the same code.
pub proof fn lemma_status_int_round_trip(c: StatusCode)
    ensures
        spec_status_from_int(spec_status_int(c)) == Some(c),
{
}

impl StatusCode {
    /// The integer of this status code.
    pub fn as_int(&self) -> (r: StatusCodeInt)
        ensures
            r as int == spec_status_int(*self),
    {
        match self {
            StatusCode::Continue => 100,
            StatusCode::SwitchingProtocols => 101,
            StatusCode::Processing => 102,
            StatusCode::EarlyHints => 103,
            StatusCode::OK => 200,
            StatusCode::Created => 201,
            StatusCode::Accepted => 202,
            StatusCode::NonAuthoritativeInformation => 203,
            StatusCode::NoContent => 204,
            StatusCode::ResetContent => 205,
            StatusCode::PartialContent => 206,
            StatusCode::MultiStatus => 207,
            StatusCode::AlreadyReported => 208,
            StatusCode::IMUsed => 226,
            StatusCode::MultipleChoices => 300,
            StatusCode::MovedPermanently => 301,
            StatusCode::Found => 302,
            StatusCode::SeeOther => 303,
            StatusCode::NotModified => 304,
            StatusCode::UseProxy => 305,
            StatusCode::Unused => 306,
            StatusCode::TemporaryRedirect => 307,
            StatusCode::PermanentRedirect => 308,
            StatusCode::BadRequest => 400,
            StatusCode::Unauthorized => 401,
            StatusCode::PaymentRequired => 402,
            StatusCode::Forbidden => 403,
            StatusCode::NotFound => 404,
            StatusCode::MethodNotAllowed => 405,
            StatusCode::NotAcceptable => 406,
            StatusCode::ProxyAuthenticationRequired => 407,
            StatusCode::RequestTimeout => 408,
            StatusCode::Conflict => 409,
            StatusCode::Gone => 410,
            StatusCode::LengthRequired => 411,
            StatusCode::PreconditionFailed => 412,
            StatusCode::ContentTooLarge => 413,
            StatusCode::UriTooLong => 414,
            StatusCode::UnsupportedMediaType => 415,
            StatusCode::RangeNotSatisfiable => 416,
            StatusCode::ExpectationFailed => 417,
            StatusCode::ImATeapot => 418,
            StatusCode::MisdirectedRequest => 421,
            StatusCode::UnprocessableContent => 422,
            StatusCode::Locked => 423,
            StatusCode::FailedDependency => 424,
            StatusCode::TooEarly => 425,
            StatusCode::UpgradeRequired => 426,
            StatusCode::PreconditionRequired => 428,
            StatusCode::TooManyRequests => 429,
            StatusCode::RequestHeaderFieldsTooLarge => 431,
            StatusCode::UnavailableForLegalReasons => 451,
            StatusCode::InternalServerError => 500,
            StatusCode::NotImplemented => 501,
            StatusCode::BadGateway => 502,
            StatusCode::ServiceUnavailable => 503,
            StatusCode::GatewayTimeout => 504,
            StatusCode::HttpVersionNotSupported => 505,
            StatusCode::VariantAlsoNegotiates => 506,
            StatusCode::InsufficientStorage => 507,
            StatusCode::LoopDetected => 508,
            StatusCode::NotExtended => 510,
            StatusCode::NetworkAuthenticationRequired => 511,
        }
    }

    /// The status code an integer names, if any.
    pub fn try_from_int(code: StatusCodeInt) -> (r: Option<StatusCode>)
        ensures
            r == spec_status_from_int(code as int),
    {
        match code {
            100 => Some(StatusCode::Continue),
            101 => Some(StatusCode::SwitchingProtocols),
            102 => Some(StatusCode::Processing),
            103 => Some(StatusCode::EarlyHints),
            200 => Some(StatusCode::OK),
            201 => Some(StatusCode::Created),
            202 => Some(StatusCode::Accepted),
            203 => Some(StatusCode::NonAuthoritativeInformation),
            204 => Some(StatusCode::NoContent),
            205 => Some(StatusCode::ResetContent),
            206 => Some(StatusCode::PartialContent),
            207 => Some(StatusCode::MultiStatus),
            208 => Some(StatusCode::AlreadyReported),
            226 => Some(StatusCode::IMUsed),
            300 => Some(StatusCode::MultipleChoices),
            301 => Some(StatusCode::MovedPermanently),
            302 => Some(StatusCode::Found),
            303 => Some(StatusCode::SeeOther),
            304 => Some(StatusCode::NotModified),
            305 => Some(StatusCode::UseProxy),
            306 => Some(StatusCode::Unused),
            307 => Some(StatusCode::TemporaryRedirect),
            308 => Some(StatusCode::PermanentRedirect),
            400 => Some(StatusCode::BadRequest),
            401 => Some(StatusCode::Unauthorized),
            402 => Some(StatusCode::PaymentRequired),
            403 => Some(StatusCode::Forbidden),
            404 => Some(StatusCode::NotFound),
            405 => Some(StatusCode::MethodNotAllowed),
            406 => Some(StatusCode::NotAcceptable),
            407 => Some(StatusCode::ProxyAuthenticationRequired),
            408 => Some(StatusCode::RequestTimeout),
            409 => Some(StatusCode::Conflict),
            410 => Some(StatusCode::Gone),
            411 => Some(StatusCode::LengthRequired),
            412 => Some(StatusCode::PreconditionFailed),
            413 => Some(StatusCode::ContentTooLarge),
            414 => Some(StatusCode::UriTooLong),
            415 => Some(StatusCode::UnsupportedMediaType),
            416 => Some(StatusCode::RangeNotSatisfiable),
            417 => Some(StatusCode::ExpectationFailed),
            418 => Some(StatusCode::ImATeapot),
            421 => Some(StatusCode::MisdirectedRequest),
            422 => Some(StatusCode::UnprocessableContent),
            423 => Some(StatusCode::Locked),
            424 => Some(StatusCode::FailedDependency),
            425 => Some(StatusCode::TooEarly),
            426 => Some(StatusCode::UpgradeRequired),
            428 => Some(StatusCode::PreconditionRequired),
            429 => Some(StatusCode::TooManyRequests),
            431 => Some(StatusCode::RequestHeaderFieldsTooLarge),
            451 => Some(StatusCode::UnavailableForLegalReasons),
            500 => Some(StatusCode::InternalServerError),
            501 => Some(StatusCode::NotImplemented),
            502 => Some(StatusCode::BadGateway),
            503 => Some(StatusCode::ServiceUnavailable),
            504 => Some(StatusCode::GatewayTimeout),
            505 => Some(StatusCode::HttpVersionNotSupported),
            506 => Some(StatusCode::VariantAlsoNegotiates),
            507 => Some(StatusCode::InsufficientStorage),
            508 => Some(StatusCode::LoopDetected),
            510 => Some(StatusCode::NotExtended),
            511 => Some(StatusCode::NetworkAuthenticationRequired),
            _ => None,
        }
    }

    /// The canonical description, e.g. `"OK"`.
    pub fn description(&self) -> (r: String)
        ensures
            r@ == spec_status_desc(*self),
    {
        match self {
            StatusCode::Continue => String::from_str("Continue"),
            StatusCode::SwitchingProtocols => String::from_str("Switching Protocols"),
            StatusCode::Processing => String::from_str("Processing"),
            StatusCode::EarlyHints => String::from_str("Early Hints"),
            StatusCode::OK => String::from_str("OK"),
            StatusCode::Created => String::from_str("Created"),
            StatusCode::Accepted => String::from_str("Accepted"),
            StatusCode::NonAuthoritativeInformation => String::from_str("Non-Authoritative Information"),
            StatusCode::NoContent => String::from_str("No Content"),
            StatusCode::ResetContent => String::from_str("Reset Content"),
            StatusCode::PartialContent => String::from_str("Partial Content"),
            StatusCode::MultiStatus => String::from_str("Multi-Status"),
            StatusCode::AlreadyReported => String::from_str("Already Reported"),
            StatusCode::IMUsed => String::from_str("IM Used"),
            StatusCode::MultipleChoices => String::from_str("Multiple Choices"),
            StatusCode::MovedPermanently => String::from_str("Moved Permanently"),
            StatusCode::Found => String::from_str("Found"),
            StatusCode::SeeOther => String::from_str("See Other"),
            StatusCode::NotModified => String::from_str("Not Modified"),
            StatusCode::UseProxy => String::from_str("Use Proxy"),
            StatusCode::Unused => String::from_str("Unused"),
            StatusCode::TemporaryRedirect => String::from_str("Temporary Redirect"),
            StatusCode::PermanentRedirect => String::from_str("Permanent Redirect"),
            StatusCode::BadRequest => String::from_str("Bad Request"),
            StatusCode::Unauthorized => String::from_str("Unauthorized"),
            StatusCode::PaymentRequired => String::from_str("Payment Required"),
            StatusCode::Forbidden => String::from_str("Forbidden"),
            StatusCode::NotFound => String::from_str("Not Found"),
            StatusCode::MethodNotAllowed => String::from_str("Method Not Allowed"),
            StatusCode::NotAcceptable => String::from_str("Not Acceptable"),
            StatusCode::ProxyAuthenticationRequired => String::from_str("Proxy Authentication Required"),
            StatusCode::RequestTimeout => String::from_str("Request Timeout"),
            StatusCode::Conflict => String::from_str("Conflict"),
            StatusCode::Gone => String::from_str("Gone"),
            StatusCode::LengthRequired => String::from_str("Length Required"),
            StatusCode::PreconditionFailed => String::from_str("Precondition Failed"),
            StatusCode::ContentTooLarge => String::from_str("Content Too Large"),
            StatusCode::UriTooLong => String::from_str("URI Too Long"),
            StatusCode::UnsupportedMediaType => String::from_str("Unsupported Media Type"),
            StatusCode::RangeNotSatisfiable => String::from_str("Range Not Satisfiable"),
            StatusCode::ExpectationFailed => String::from_str("Expectation Failed"),
            StatusCode::ImATeapot => String::from_str("I'm a teapot"),
            StatusCode::MisdirectedRequest => String::from_str("Misdirected Request"),
            StatusCode::UnprocessableContent => String::from_str("Unprocessable Content"),
            StatusCode::Locked => String::from_str("Locked"),
            StatusCode::FailedDependency => String::from_str("Failed Dependency"),
            StatusCode::TooEarly => String::from_str("Too Early"),
            StatusCode::UpgradeRequired => String::from_str("Upgrade Required"),
            StatusCode::PreconditionRequired => String::from_str("Precondition Required"),
            StatusCode::TooManyRequests => String::from_str("Too Many Requests"),
            StatusCode::RequestHeaderFieldsTooLarge => String::from_str("Request Header Fields Too Large"),
            StatusCode::UnavailableForLegalReasons => String::from_str("Unavailable For Legal Reasons"),
            StatusCode::InternalServerError => String::from_str("Internal Server Error"),
            StatusCode::NotImplemented => String::from_str("Not Implemented"),
            StatusCode::BadGateway => String::from_str("Bad Gateway"),
            StatusCode::ServiceUnavailable => String::from_str("Service Unavailable"),
            StatusCode::GatewayTimeout => String::from_str("Gateway Timeout"),
            StatusCode::HttpVersionNotSupported => String::from_str("HTTP Version Not Supported"),
            StatusCode::VariantAlsoNegotiates => String::from_str("Variant Also Negotiates"),
            StatusCode::InsufficientStorage => String::from_str("Insufficient Storage"),
            StatusCode::LoopDetected => String::from_str("Loop Detected"),
            StatusCode::NotExtended => String::from_str("Not Extended"),
            StatusCode::NetworkAuthenticationRequired => String::from_str("Network Authentication Required"),
        }
    }

    /// The `code description` text, e.g. `200 OK`.
    pub fn code_and_description(&self) -> (r: String)
        ensures
            r@ == spec_status_code_desc(*self),
    {
        let mut v = usize_to_chars(self.as_int());
        v.push(' ');
        let desc = self.description();
        let tail = str_to_chars(desc.as_str());
        crate::text::append_chars(&mut v, &tail);
        proof {
            assert(v@ =~= spec_status_code_desc(*self));
        }
        crate::text::chars_to_string(&v)
    }

    /// Try to extract the status code from the status line. Only one line
    /// is expected, in the shape `VERSION CODE DESCRIPTION`, e.g.
    /// `HTTP/1.0 200 OK`.
    pub fn try_from_first_res_line(s: &str) -> (r: Result<StatusCode, PacketErr>)
        ensures
            r == spec_status_from_res_line(s@),
    {
        let chars = str_to_chars(s);
        let toks = split_ws_vec(&chars);
        proof {
            assert(toks.deep_view().len() == toks@.len());
        }
        if toks.len() != 3 {
            return Err(PacketErr::InvalidStatusLine);
        }
        proof {
            lemma_dv_index(&toks, 1);
            lemma_dv_index(&toks, 2);
        }
        match parse_usize_chars(&toks[1]) {
            None => Err(PacketErr::InvalidStatusLine),
            Some(n) => match Self::try_from_int(n) {
                None => Err(PacketErr::InvalidStatusLine),
                Some(code) => {
                    let desc = code.description();
                    if chars_eq_str(&toks[2], desc.as_str()) {
                        Ok(code)
                    } else {
                        Err(PacketErr::InvalidStatusLine)
                    }
                },
            },
        }
    }
}

} // verus!
