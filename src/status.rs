//! Status codes and their reason phrases.
use vstd::prelude::*;

verus! {

/// A response's numeric status code.
#[derive(Debug, Clone, Copy, PartialEq, Eq, Structural)]
pub struct HttpStatusCode(pub i32);

/// The status codes that have a reason phrase.
pub open spec fn is_known_status(code: i32) -> bool {
    ||| 100 <= code <= 102
    ||| 200 <= code <= 208
    ||| 300 <= code <= 305
    ||| 307 <= code <= 308
    ||| 400 <= code <= 431
    ||| code == 444 || code == 451 || code == 499
    ||| 500 <= code <= 511
    ||| code == 599
}

/// The reason phrase of a known status code.
pub open spec fn status_description(code: i32) -> Seq<char> {
    match code {
        100 => "Continue"@,
        101 => "Switching Protocols"@,
        102 => "Processing"@,
        200 => "OK"@,
        201 => "Created"@,
        202 => "Accepted"@,
        203 => "Non-authoritative Information"@,
        204 => "No Content"@,
        205 => "Reset Content"@,
        206 => "Partial Content"@,
        207 => "Multi-Status"@,
        208 => "Already Reported"@,
        300 => "Multiple Choices"@,
        301 => "Moved Permanently"@,
        302 => "Found"@,
        303 => "See Other"@,
        304 => "Not Modified"@,
        305 => "Use Proxy"@,
        307 => "Temporary Redirect"@,
        308 => "Permanent Redirect"@,
        400 => "Bad Request"@,
        401 => "Unauthorized"@,
        402 => "Payment Required"@,
        403 => "Forbidden"@,
        404 => "Not Found"@,
        405 => "Status Not Implemented"@,
        406 => "Status Not Implemented"@,
        407 => "Status Not Implemented"@,
        408 => "Status Not Implemented"@,
        409 => "Status Not Implemented"@,
        410 => "Status Not Implemented"@,
        411 => "Status Not Implemented"@,
        412 => "Status Not Implemented"@,
        413 => "Status Not Implemented"@,
        414 => "Status Not Implemented"@,
        415 => "Status Not Implemented"@,
        416 => "Status Not Implemented"@,
        417 => "Status Not Implemented"@,
        418 => "Status Not Implemented"@,
        419 => "Status Not Implemented"@,
        420 => "Status Not Implemented"@,
        421 => "Status Not Implemented"@,
        422 => "Status Not Implemented"@,
        423 => "Status Not Implemented"@,
        424 => "Status Not Implemented"@,
        425 => "Status Not Implemented"@,
        426 => "Status Not Implemented"@,
        427 => "Status Not Implemented"@,
        428 => "Status Not Implemented"@,
        429 => "Status Not Implemented"@,
        430 => "Status Not Implemented"@,
        431 => "Status Not Implemented"@,
        444 => "Status Not Implemented"@,
        451 => "Status Not Implemented"@,
        499 => "Status Not Implemented"@,
        500 => "Status Not Implemented"@,
        501 => "Status Not Implemented"@,
        502 => "Status Not Implemented"@,
        503 => "Status Not Implemented"@,
        504 => "Status Not Implemented"@,
        505 => "Status Not Implemented"@,
        506 => "Status Not Implemented"@,
        507 => "Status Not Implemented"@,
        508 => "Status Not Implemented"@,
        509 => "Status Not Implemented"@,
        510 => "Status Not Implemented"@,
        511 => "Status Not Implemented"@,
        599 => "Status Not Implemented"@,
        _ => Seq::empty(),
    }
}

impl HttpStatusCode {
    /// Whether this status code has a reason phrase.
    pub fn is_known(&self) -> (r: bool)
        ensures
            r == is_known_status(self.0),
    {
        let code = self.0;
        (100 <= code && code <= 102) || (200 <= code && code <= 208) || (300 <= code && code
            <= 305) || (307 <= code && code <= 308) || (400 <= code && code <= 431) || code == 444
            || code == 451 || code == 499 || (500 <= code && code <= 511) || code == 599
    }

    /// The reason phrase of this status code, which must be a known one.
    pub fn description(&self) -> (r: &'static str)
        requires
            is_known_status(self.0),
        ensures
            r@ == status_description(self.0),
    {
        match self.0 {
            100 => "Continue",
            101 => "Switching Protocols",
            102 => "Processing",
            200 => "OK",
            201 => "Created",
            202 => "Accepted",
            203 => "Non-authoritative Information",
            204 => "No Content",
            205 => "Reset Content",
            206 => "Partial Content",
            207 => "Multi-Status",
            208 => "Already Reported",
            300 => "Multiple Choices",
            301 => "Moved Permanently",
            302 => "Found",
            303 => "See Other",
            304 => "Not Modified",
            305 => "Use Proxy",
            307 => "Temporary Redirect",
            308 => "Permanent Redirect",
            400 => "Bad Request",
            401 => "Unauthorized",
            402 => "Payment Required",
            403 => "Forbidden",
            404 => "Not Found",
            405 => "Status Not Implemented",
            406 => "Status Not Implemented",
            407 => "Status Not Implemented",
            408 => "Status Not Implemented",
            409 => "Status Not Implemented",
            410 => "Status Not Implemented",
            411 => "Status Not Implemented",
            412 => "Status Not Implemented",
            413 => "Status Not Implemented",
            414 => "Status Not Implemented",
            415 => "Status Not Implemented",
            416 => "Status Not Implemented",
            417 => "Status Not Implemented",
            418 => "Status Not Implemented",
            419 => "Status Not Implemented",
            420 => "Status Not Implemented",
            421 => "Status Not Implemented",
            422 => "Status Not Implemented",
            423 => "Status Not Implemented",
            424 => "Status Not Implemented",
            425 => "Status Not Implemented",
            426 => "Status Not Implemented",
            427 => "Status Not Implemented",
            428 => "Status Not Implemented",
            429 => "Status Not Implemented",
            430 => "Status Not Implemented",
            431 => "Status Not Implemented",
            444 => "Status Not Implemented",
            451 => "Status Not Implemented",
            499 => "Status Not Implemented",
            500 => "Status Not Implemented",
            501 => "Status Not Implemented",
            502 => "Status Not Implemented",
            503 => "Status Not Implemented",
            504 => "Status Not Implemented",
            505 => "Status Not Implemented",
            506 => "Status Not Implemented",
            507 => "Status Not Implemented",
            508 => "Status Not Implemented",
            509 => "Status Not Implemented",
            510 => "Status Not Implemented",
            511 => "Status Not Implemented",
            599 => "Status Not Implemented",
            _ => "Status Not Implemented",
        }
    }
}

} // verus!
