//! The decisions of a server: when it may start listening, what its default
//! handler answers, and how one connection is served.
use vstd::prelude::*;
use vstd::utf8::encode_utf8;

use crate::error::{ParseError, ServerError, StreamError};
use crate::headers::HttpHeaders;
use crate::parser::parse_request;
use crate::request::{
    response_bytes, with_body_length, HttpRequest, HttpResponse, HttpVersion,
};
use crate::status::{is_known_status, HttpStatusCode};
use crate::stream::HttpStream;
use crate::text::{append_bytes, lower_of};

verus! {

/// Why a connection got no response.
#[derive(Debug, Clone, Copy, PartialEq, Eq, Structural)]
pub enum ConnectionError {
    /// The request could not be read; the connection is closed unanswered.
    Read(StreamError),
    /// The handler answered with a status code that has no reason phrase.
    UnknownStatus(i32),
}

/// A server's configuration and whether it is listening.
pub struct HttpServer {
    listening: bool,
    pub multi_threaded: bool,
}

impl HttpServer {
    /// Whether the server is listening.
    pub closed spec fn is_listening(&self) -> bool {
        self.listening
    }

    /// Whether each connection is served on a worker of its own.
    pub closed spec fn is_multi_threaded(&self) -> bool {
        self.multi_threaded
    }

    /// A server that is not listening yet and serves each connection on a
    /// worker of its own.
    pub fn new() -> (r: HttpServer)
        ensures
            !r.is_listening(),
            r.is_multi_threaded(),
    {
        HttpServer { listening: false, multi_threaded: true }
    }

    /// Moves the server to listening; a server that already listens refuses.
    pub fn start_listening(&mut self) -> (r: Result<(), ServerError>)
        ensures
            final(self).is_listening(),
            final(self).is_multi_threaded() == old(self).is_multi_threaded(),
            old(self).is_listening() <==> r == Err::<(), ServerError>(
                ServerError::AlreadyListening,
            ),
            !old(self).is_listening() <==> r is Ok,
    {
        if self.listening {
            Err(ServerError::AlreadyListening)
        } else {
            self.listening = true;
            Ok(())
        }
    }

    /// The answer of a server that was given no handler: 200 with a short
    /// greeting, whatever the request.
    pub fn default_request_handler(_req: HttpRequest) -> (r: HttpResponse)
        ensures
            r.wf(),
            r.code_spec() == 200,
            r.version_spec() == "HTTP/1.1"@,
            r.body_spec() == Some(encode_utf8("<h1>Hello, World!</h1>"@)),
            r.headers_spec() == with_body_length(
                Map::empty().insert(lower_of("accept"@), "application/json"@),
                Some(encode_utf8("<h1>Hello, World!</h1>"@)),
            ),
    {
        let mut body: Vec<u8> = Vec::new();
        append_bytes(&mut body, "<h1>Hello, World!</h1>".as_bytes());
        HttpResponse::new(
            HttpVersion::default(),
            HttpStatusCode(200),
            HttpHeaders::default(),
            Some(body),
        )
    }

    /// Serves one connection: reads its request, asks `handler` for the
    /// response and writes that response. A request that cannot be read
    /// closes the connection with nothing written.
    pub fn connection_handler<F: Fn(HttpRequest) -> HttpResponse>(
        stream: &mut HttpStream,
        handler: &F,
    ) -> (r: Result<(), ConnectionError>)
        requires
            forall|req: HttpRequest| handler.requires((req,)),
        ensures
            final(stream)@.input == old(stream)@.input,
            final(stream)@.read,
            match r {
                Ok(()) => exists|req: HttpRequest, resp: HttpResponse|
                    {
                        &&& !old(stream)@.read
                        &&& parse_request(old(stream)@.input) == Ok::<_, ParseError>(
                            req@,
                        )
                        &&& handler.ensures((req,), resp)
                        &&& final(stream)@.output == old(stream)@.output + response_bytes(
                            resp.version_spec(),
                            resp.code_spec() as nat,
                            resp.header_pairs(),
                            resp.body_spec(),
                        )
                    },
                Err(ConnectionError::Read(e)) => final(stream)@.output == old(stream)@.output
                    && read_error(old(stream)@, e),
                Err(ConnectionError::UnknownStatus(code)) => exists|req: HttpRequest, resp: HttpResponse|
                    {
                        &&& !old(stream)@.read
                        &&& parse_request(old(stream)@.input) == Ok::<_, ParseError>(req@)
                        &&& handler.ensures((req,), resp)
                        &&& resp.code_spec() == code
                        &&& !is_known_status(code)
                        &&& final(stream)@.output == old(stream)@.output
                    },
            },
    {
        let req = match stream.read_http() {
            Ok(req) => req,
            Err(e) => return Err(ConnectionError::Read(e)),
        };
        let ghost req_copy = req;
        let response = handler(req);
        let status = response.status();
        if !status.is_known() {
            assert(handler.ensures((req_copy,), response));
            return Err(ConnectionError::UnknownStatus(status.0));
        }
        let bytes = response.to_bytes();
        stream.write(bytes.as_slice());
        assert(handler.ensures((req_copy,), response));
        Ok(())
    }
}

/// The read error that a stream in state `s` gives.
pub open spec fn read_error(s: crate::stream::StreamView, e: StreamError) -> bool {
    crate::stream::read_step(s).1 == Err::<crate::parser::RequestView, StreamError>(e)
}

} // verus!
