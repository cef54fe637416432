//! A connection stream that hands out its request at most once.
use vstd::prelude::*;

use crate::error::StreamError;
use crate::parser::{parse_request, HttpParser, RequestView};
use crate::request::HttpRequest;
use crate::text::append_bytes;

verus! {

/// What a connection stream holds: the bytes that came in, the bytes written
/// out, and whether its request was read.
pub struct StreamView {
    pub input: Seq<u8>,
    pub output: Seq<u8>,
    pub read: bool,
}

/// Reading a stream's request: the first read parses the bytes that came in
/// and marks the stream as read, whatever the outcome; every later read fails
/// and leaves the stream as it was.
pub open spec fn read_step(s: StreamView) -> (StreamView, Result<RequestView, StreamError>) {
    if s.read {
        (s, Err(StreamError::AlreadyRead))
    } else {
        let after = StreamView { read: true, ..s };
        match parse_request(s.input) {
            Ok(v) => (after, Ok(v)),
            Err(e) => (after, Err(StreamError::Parse(e))),
        }
    }
}

pub open spec fn request_result_view(r: Result<HttpRequest, StreamError>) -> Result<
    RequestView,
    StreamError,
> {
    match r {
        Ok(req) => Ok(req@),
        Err(e) => Err(e),
    }
}

/// One connection: the bytes of its request, the bytes of its response, and
/// whether the request was read.
pub struct HttpStream {
    stream: Vec<u8>,
    written: Vec<u8>,
    has_been_read: bool,
}

impl View for HttpStream {
    type V = StreamView;

    closed spec fn view(&self) -> StreamView {
        StreamView { input: self.stream@, output: self.written@, read: self.has_been_read }
    }
}

impl HttpStream {
    /// A stream over the bytes that came in on a connection, not read yet.
    pub fn new(stream: Vec<u8>) -> (r: HttpStream)
        ensures
            r@ == (StreamView { input: stream@, output: Seq::empty(), read: false }),
    {
        HttpStream { stream, written: Vec::new(), has_been_read: false }
    }

    /// Reads the stream's request. Only the first call reads; each later one
    /// fails with `AlreadyRead` and changes nothing.
    pub fn read_http(&mut self) -> (r: Result<HttpRequest, StreamError>)
        ensures
            (final(self)@, request_result_view(r)) == read_step(old(self)@),
            match r {
                Ok(req) => req.headers.wf(),
                Err(_) => true,
            },
    {
        if self.has_been_read {
            Err(StreamError::AlreadyRead)
        } else {
            self.has_been_read = true;
            let mut parser = HttpParser::new(self.stream.as_slice());
            match parser.parse_http_request() {
                Ok(req) => Ok(req),
                Err(e) => Err(StreamError::Parse(e)),
            }
        }
    }

    /// Writes `data` to the connection, after what was written before.
    pub fn write(&mut self, data: &[u8])
        ensures
            final(self)@ == (StreamView { output: old(self)@.output + data@, ..old(self)@ }),
    {
        append_bytes(&mut self.written, data);
    }

    /// The bytes written to the connection so far.
    pub fn written(&self) -> (r: &Vec<u8>)
        ensures
            r@ == self@.output,
    {
        &self.written
    }
}

/// A stream's request is read at most once: after any read, a second read
/// fails with `AlreadyRead` and leaves the stream as it was.
pub proof fn lemma_read_once(s: StreamView)
    ensures
        read_step(s).0.read,
        read_step(read_step(s).0) == (read_step(s).0, Err::<RequestView, StreamError>(
            StreamError::AlreadyRead,
        )),
{
}

} // verus!
