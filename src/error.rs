//! Errors of parsing a request, of reading a connection stream and of
//! starting a server.
use vstd::prelude::*;

verus! {

/// Why a request could not be parsed.
#[derive(Debug, Clone, Copy, PartialEq, Eq, Structural)]
pub enum ParseError {
    /// The request line is not three fields separated by single spaces.
    MalformedRequestLine,
    /// The request line names no known method.
    UnknownMethod,
    /// A header line holds no colon.
    MalformedHeader,
    /// A bodied request has no `content-length` header.
    MissingContentLength,
    /// The `content-length` header is not an unsigned decimal number.
    InvalidContentLength,
    /// The bytes ended before a line's line feed, or before the declared body.
    UnexpectedEnd,
}

/// Why a connection stream handed out no request.
#[derive(Debug, Clone, Copy, PartialEq, Eq, Structural)]
pub enum StreamError {
    /// The stream's request was already read.
    AlreadyRead,
    /// The bytes of the connection are no valid request.
    Parse(ParseError),
}

/// Why a server refused to start.
#[derive(Debug, Clone, Copy, PartialEq, Eq, Structural)]
pub enum ServerError {
    /// The server is already listening.
    AlreadyListening,
}

} // verus!
