use http::{
    ConnectionError, HttpHeaders, HttpMethod, HttpRequest, HttpResponse, HttpServer,
    HttpStatusCode, HttpStream, HttpVersion, ParseError, ServerError, StreamError,
};

const SIMPLE_REQUEST_STR: &str = "GET / HTTP/1.1\r\nAccept: */*\r\n\r\n";
const BODIED_REQUEST_STR: &str =
    "POST / HTTP/1.1\r\nAccept: */*\r\nContent-Length: 14\r\n\r\nThis is a body\r\n\r\n";

struct Expected {
    method: HttpMethod,
    headers: Vec<(&'static str, &'static str)>,
    body: Option<Vec<u8>>,
}

fn stream_request_helper(request_str: &str, expected: Expected) {
    let mut http_stream = HttpStream::new(Vec::from(request_str.as_bytes()));

    let request = http_stream.read_http().unwrap();
    http_stream.write("response".as_bytes());

    assert_eq!(request.method, expected.method);
    assert_eq!(request.uri, "/");
    assert_eq!(request.http_version, "HTTP/1.1");
    assert_eq!(request.headers.len(), expected.headers.len());
    for (name, value) in expected.headers {
        assert_eq!(request.headers.get(name), Some(&value.to_string()));
    }
    assert_eq!(request.body, expected.body);
    assert!(http_stream.written().starts_with("response".as_bytes()));
}

#[test]
fn stream_it_works() {
    assert_eq!(2 + 2, 4);
}

#[test]
fn stream() {
    stream_request_helper(
        SIMPLE_REQUEST_STR,
        Expected { method: HttpMethod::GET, headers: vec![("accept", "*/*")], body: None },
    );
    stream_request_helper(
        BODIED_REQUEST_STR,
        Expected {
            method: HttpMethod::POST,
            headers: vec![("accept", "*/*"), ("content-length", "14")],
            body: Some(Vec::from("This is a body".as_bytes())),
        },
    );
}

#[test]
fn second_read_fails_after_success() {
    let mut stream = HttpStream::new(SIMPLE_REQUEST_STR.as_bytes().to_vec());
    assert!(stream.read_http().is_ok());
    assert_eq!(stream.read_http().err(), Some(StreamError::AlreadyRead));
    assert_eq!(stream.read_http().err(), Some(StreamError::AlreadyRead));
    assert!(stream.written().is_empty());
}

#[test]
fn second_read_fails_after_failure() {
    let mut stream = HttpStream::new(b"BREW / HTTP/1.1\r\n\r\n".to_vec());
    assert_eq!(stream.read_http().err(), Some(StreamError::Parse(ParseError::UnknownMethod)));
    assert_eq!(stream.read_http().err(), Some(StreamError::AlreadyRead));
}

#[test]
fn writes_append() {
    let mut stream = HttpStream::new(Vec::new());
    stream.write(b"ab");
    stream.write(b"");
    stream.write(b"cd");
    assert_eq!(stream.written(), &b"abcd".to_vec());
}

#[test]
fn server_listens_once() {
    let mut server = HttpServer::new();
    assert!(server.multi_threaded);
    assert_eq!(server.start_listening(), Ok(()));
    assert_eq!(server.start_listening(), Err(ServerError::AlreadyListening));
}

#[test]
fn default_handler_greets() {
    let request = HttpRequest {
        method: HttpMethod::GET,
        uri: "/anything".to_string(),
        http_version: "HTTP/1.1".to_string(),
        headers: HttpHeaders::new(),
        body: None,
    };
    let response = HttpServer::default_request_handler(request);
    assert_eq!(response.status().0, 200);
    assert_eq!(response.get_body(), &Some(b"<h1>Hello, World!</h1>".to_vec()));
    assert_eq!(response.headers.get("content-length"), Some(&"22".to_string()));
    assert_eq!(response.headers.get("accept"), Some(&"application/json".to_string()));
}

fn echo_uri(req: HttpRequest) -> HttpResponse {
    HttpResponse::new(
        HttpVersion::default(),
        HttpStatusCode(200),
        HttpHeaders::new(),
        Some(req.uri.into_bytes()),
    )
}

fn odd_status(_req: HttpRequest) -> HttpResponse {
    HttpResponse::new(HttpVersion::default(), HttpStatusCode(299), HttpHeaders::new(), None)
}

#[test]
fn connection_is_answered() {
    let mut stream = HttpStream::new(b"GET /hello HTTP/1.1\r\n\r\n".to_vec());
    assert_eq!(HttpServer::connection_handler(&mut stream, &echo_uri), Ok(()));
    assert_eq!(
        stream.written(),
        &b"HTTP/1.1 200 OK\r\ncontent-length: 6\r\n\r\n/hello".to_vec()
    );
}

#[test]
fn bad_request_closes_unanswered() {
    let mut stream = HttpStream::new(b"GET /hello\r\n\r\n".to_vec());
    assert_eq!(
        HttpServer::connection_handler(&mut stream, &echo_uri),
        Err(ConnectionError::Read(StreamError::Parse(ParseError::MalformedRequestLine)))
    );
    assert!(stream.written().is_empty());
}

#[test]
fn unknown_status_is_not_written() {
    let mut stream = HttpStream::new(b"GET / HTTP/1.1\r\n\r\n".to_vec());
    assert_eq!(
        HttpServer::connection_handler(&mut stream, &odd_status),
        Err(ConnectionError::UnknownStatus(299))
    );
    assert!(stream.written().is_empty());
}
