use http::{HttpMethod, HttpParser, ParseError};

const SIMPLE_REQUEST_STR: &str = "GET / HTTP/1.1\r\nAccept: */*\r\n\r\n";
const BODIED_REQUEST_STR: &str =
    "POST / HTTP/1.1\r\nAccept: */*\r\nContent-Length: 14\r\n\r\nThis is a body";

fn parse(text: &str) -> Result<http::HttpRequest, ParseError> {
    let mut parser = HttpParser::new(text.as_bytes());
    parser.parse_http_request()
}

#[test]
fn parse_simple_request() {
    let mut parser: HttpParser = HttpParser::new(SIMPLE_REQUEST_STR.as_bytes());
    let request = parser.parse_http_request().unwrap();

    assert_eq!(request.method, HttpMethod::GET);
    assert_eq!(request.uri, "/".to_string());
    assert_eq!(request.http_version, "HTTP/1.1".to_string());
    assert_eq!(request.headers.len(), 1);
    assert_eq!(request.headers.get("accept"), Some(&"*/*".to_string()));
    assert_eq!(request.body, None);
}

#[test]
fn example_get_without_body() {
    let request = parse(SIMPLE_REQUEST_STR).unwrap();
    assert_eq!(request.method, HttpMethod::GET);
    assert_eq!(request.uri, "/");
    assert_eq!(request.http_version, "HTTP/1.1");
    let (name, value) = request.headers.entry(0);
    assert_eq!(name, "accept");
    assert_eq!(value, "*/*");
    assert_eq!(request.headers.len(), 1);
    assert!(request.body.is_none());
}

#[test]
fn example_post_with_body() {
    let request = parse(BODIED_REQUEST_STR).unwrap();
    assert_eq!(request.method, HttpMethod::POST);
    assert_eq!(request.uri, "/");
    assert_eq!(request.headers.get("content-length"), Some(&"14".to_string()));
    assert_eq!(request.headers.get("accept"), Some(&"*/*".to_string()));
    assert_eq!(request.body, Some(b"This is a body".to_vec()));
}

#[test]
fn example_post_without_content_length() {
    let result = parse("POST / HTTP/1.1\r\nAccept: */*\r\n\r\nThis is a body");
    assert_eq!(result.err(), Some(ParseError::MissingContentLength));
}

#[test]
fn body_is_read_to_its_declared_length_only() {
    let mut parser = HttpParser::new(
        b"PUT /a HTTP/1.1\r\ncontent-length: 3\r\n\r\nabcGET /b HTTP/1.1\r\n\r\n",
    );
    let first = parser.parse_http_request().unwrap();
    assert_eq!(first.method, HttpMethod::PUT);
    assert_eq!(first.body, Some(b"abc".to_vec()));
    let second = parser.parse_http_request().unwrap();
    assert_eq!(second.method, HttpMethod::GET);
    assert_eq!(second.uri, "/b");
    assert_eq!(second.body, None);
}

#[test]
fn body_bytes_are_kept_verbatim() {
    let mut input = b"PATCH /x HTTP/1.1\r\nContent-Length: 4\r\n\r\n".to_vec();
    input.extend_from_slice(&[0, 255, 13, 10]);
    let mut parser = HttpParser::new(&input);
    let request = parser.parse_http_request().unwrap();
    assert_eq!(request.body, Some(vec![0, 255, 13, 10]));
}

#[test]
fn header_names_are_lowercased_and_values_trimmed() {
    let request = parse("GET /p HTTP/1.1\r\nX-Custom-NAME:   Mixed Case Value  \r\n\r\n").unwrap();
    let (name, value) = request.headers.entry(0);
    assert_eq!(name, "x-custom-name");
    assert_eq!(value, "Mixed Case Value");
    assert_eq!(request.headers.get("X-CUSTOM-name"), Some(&"Mixed Case Value".to_string()));
}

#[test]
fn header_value_keeps_its_colons() {
    let request = parse("GET / HTTP/1.1\r\nHost: localhost:8080\r\n\r\n").unwrap();
    assert_eq!(request.headers.get("host"), Some(&"localhost:8080".to_string()));
}

#[test]
fn repeated_header_keeps_the_last_value() {
    let request = parse("GET / HTTP/1.1\r\nAccept: a\r\nACCEPT: b\r\n\r\n").unwrap();
    assert_eq!(request.headers.len(), 1);
    assert_eq!(request.headers.get("accept"), Some(&"b".to_string()));
}

#[test]
fn non_ascii_uri_is_decoded() {
    let request = parse("GET /caf\u{e9} HTTP/1.1\r\n\r\n").unwrap();
    assert_eq!(request.uri, "/caf\u{e9}");
}

#[test]
fn invalid_utf8_is_replaced() {
    let mut parser = HttpParser::new(b"GET /\xff HTTP/1.1\r\n\r\n");
    let request = parser.parse_http_request().unwrap();
    assert_eq!(request.uri, "/\u{fffd}");
}

#[test]
fn all_methods_are_accepted() {
    // The enumeration's nine names all parse, not only GET and POST.
    for name in ["OPTIONS", "GET", "HEAD", "DELETE", "TRACE", "CONNECT"] {
        let request = parse(&format!("{} / HTTP/1.1\r\n\r\n", name)).unwrap();
        assert_eq!(request.method.as_str(), name);
    }
    let request = parse("PUT / HTTP/1.1\r\nContent-Length: 0\r\n\r\n").unwrap();
    assert_eq!(request.method, HttpMethod::PUT);
    assert_eq!(request.body, Some(vec![]));
}

#[test]
fn request_line_needs_three_fields() {
    assert_eq!(parse("GET /\r\n\r\n").err(), Some(ParseError::MalformedRequestLine));
    assert_eq!(parse("GET / HTTP/1.1 x\r\n\r\n").err(), Some(ParseError::MalformedRequestLine));
    assert_eq!(parse("GET  / HTTP/1.1\r\n\r\n").err(), Some(ParseError::MalformedRequestLine));
}

#[test]
fn unknown_method_is_refused() {
    assert_eq!(parse("FETCH / HTTP/1.1\r\n\r\n").err(), Some(ParseError::UnknownMethod));
    assert_eq!(parse("get / HTTP/1.1\r\n\r\n").err(), Some(ParseError::UnknownMethod));
}

#[test]
fn header_without_colon_is_refused() {
    assert_eq!(
        parse("GET / HTTP/1.1\r\nno colon here\r\n\r\n").err(),
        Some(ParseError::MalformedHeader)
    );
}

#[test]
fn invalid_content_length_is_refused() {
    assert_eq!(
        parse("POST / HTTP/1.1\r\nContent-Length: ten\r\n\r\n0123456789").err(),
        Some(ParseError::InvalidContentLength)
    );
    assert_eq!(
        parse("POST / HTTP/1.1\r\nContent-Length: -1\r\n\r\n").err(),
        Some(ParseError::InvalidContentLength)
    );
    assert_eq!(
        parse("POST / HTTP/1.1\r\nContent-Length: 99999999999999999999999\r\n\r\n").err(),
        Some(ParseError::InvalidContentLength)
    );
}

#[test]
fn content_length_with_plus_sign() {
    let request = parse("POST / HTTP/1.1\r\nContent-Length: +2\r\n\r\nok").unwrap();
    assert_eq!(request.body, Some(b"ok".to_vec()));
}

#[test]
fn truncated_input_is_refused() {
    assert_eq!(parse("").err(), Some(ParseError::UnexpectedEnd));
    assert_eq!(parse("GET / HTTP/1.1").err(), Some(ParseError::UnexpectedEnd));
    assert_eq!(parse("GET / HTTP/1.1\r\nAccept: */*\r\n").err(), Some(ParseError::UnexpectedEnd));
    assert_eq!(
        parse("POST / HTTP/1.1\r\nContent-Length: 14\r\n\r\nshort").err(),
        Some(ParseError::UnexpectedEnd)
    );
}

#[test]
fn failed_parse_leaves_the_parser_in_place() {
    let mut parser = HttpParser::new(b"GET / HTTP/1.1\r\n");
    assert_eq!(parser.parse_http_request().err(), Some(ParseError::UnexpectedEnd));
    assert_eq!(parser.parse_http_request().err(), Some(ParseError::UnexpectedEnd));
}
