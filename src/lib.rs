//! A small HTTP/1.1 server core: request parsing, a case-insensitive header
//! map, responses that keep their `content-length` header in step with their
//! body, and a connection stream that hands out its request at most once.
pub mod error;
pub mod headers;
pub mod method;
pub mod parser;
pub mod request;
pub mod server;
pub mod status;
pub mod stream;
pub mod text;

pub use error::{ParseError, ServerError, StreamError};
pub use headers::HttpHeaders;
pub use method::HttpMethod;
pub use parser::HttpParser;
pub use request::{HttpRequest, HttpResponse, HttpVersion};
pub use server::{ConnectionError, HttpServer};
pub use status::HttpStatusCode;
pub use stream::HttpStream;
