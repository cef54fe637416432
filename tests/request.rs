use http::{HttpHeaders, HttpMethod, HttpRequest, HttpResponse, HttpStatusCode, HttpVersion};
use std::collections::HashMap;

#[test]
fn string_from_request() {
    let expected = "GET /logo.gif HTTP/1.1\r\ncontent-length: 13\r\n\r\nHello, World!";

    let mut headers = HttpHeaders::new();
    headers.insert("content-length", "13");

    let request = HttpRequest {
        method: HttpMethod::GET,
        uri: "/logo.gif".to_string(),
        http_version: String::from("HTTP/1.1"),
        headers,
        body: Some("Hello, World!".into()),
    };

    assert_eq!(request.to_text(), expected);
}

#[test]
fn http_headers() {
    let mut headers = HttpHeaders::new();
    headers.insert("Content-Length", "14");
    assert_eq!(headers.get("Content-Length"), Some(&"14".to_string()));
    assert_eq!(headers.get("content-length"), Some(&"14".to_string()));

    headers.insert("content-length", "14");
    assert_eq!(headers.get("Content-Length"), Some(&"14".to_string()));
    assert_eq!(headers.get("content-length"), Some(&"14".to_string()));

    assert!(headers.contains_key("Content-Length"));
    assert!(headers.contains_key("content-length"));

    let mut hm: HashMap<String, String> = HashMap::new();
    hm.insert("Content-Length".to_string(), "14".to_string());

    let mut headers = HttpHeaders::from_pairs(hm.into_iter().collect());
    assert_eq!(headers.get("Content-Length"), Some(&"14".to_string()));
    assert_eq!(headers.get("content-length"), Some(&"14".to_string()));

    headers.insert("content-length", "14");
    assert_eq!(headers.get("Content-Length"), Some(&"14".to_string()));
    assert_eq!(headers.get("content-length"), Some(&"14".to_string()));

    assert!(headers.contains_key("Content-Length"));
    assert!(headers.contains_key("content-length"));
}

#[test]
fn header_lookup_ignores_case_both_ways() {
    let mut headers = HttpHeaders::new();
    headers.insert("content-length", "7");
    assert_eq!(headers.get("Content-Length"), Some(&"7".to_string()));
    headers.insert("CONTENT-LENGTH", "8");
    assert_eq!(headers.len(), 1);
    assert_eq!(headers.get("content-length"), Some(&"8".to_string()));
    let (name, value) = headers.entry(0);
    assert_eq!(name, "content-length");
    assert_eq!(value, "8");
}

#[test]
fn header_unset_and_missing() {
    let mut headers = HttpHeaders::new();
    assert_eq!(headers.get("x"), None);
    assert!(!headers.contains_key("x"));
    headers.insert("X-Token", "abc");
    headers.insert("Other", "1");
    assert_eq!(headers.unset("x-TOKEN"), Some("abc".to_string()));
    assert_eq!(headers.unset("x-token"), None);
    assert_eq!(headers.len(), 1);
    assert_eq!(headers.get("other"), Some(&"1".to_string()));
}

#[test]
fn default_headers_accept_json() {
    let headers = HttpHeaders::default();
    assert_eq!(headers.len(), 1);
    assert_eq!(headers.get("Accept"), Some(&"application/json".to_string()));
}

#[test]
fn header_values_keep_their_case() {
    let mut headers = HttpHeaders::new();
    headers.insert("X", "  MiXeD ");
    assert_eq!(headers.get("x"), Some(&"  MiXeD ".to_string()));
}

#[test]
fn method_names_round_trip() {
    let all = [
        HttpMethod::OPTIONS,
        HttpMethod::GET,
        HttpMethod::HEAD,
        HttpMethod::POST,
        HttpMethod::PUT,
        HttpMethod::DELETE,
        HttpMethod::TRACE,
        HttpMethod::CONNECT,
        HttpMethod::PATCH,
    ];
    for m in all {
        assert_eq!(HttpMethod::try_from(m.as_str()), Ok(m));
    }
    assert_eq!(HttpMethod::PUT.as_str(), "PUT");
    assert_eq!(HttpMethod::DELETE.as_str(), "DELETE");
    assert_eq!(HttpMethod::try_from("Get"), Err(http::ParseError::UnknownMethod));
    assert_eq!(HttpMethod::try_from(""), Err(http::ParseError::UnknownMethod));
}

#[test]
fn bodied_methods() {
    assert!(HttpMethod::POST.is_bodied());
    assert!(HttpMethod::PUT.is_bodied());
    assert!(HttpMethod::PATCH.is_bodied());
    assert!(!HttpMethod::GET.is_bodied());
    assert!(!HttpMethod::DELETE.is_bodied());
}

#[test]
fn status_descriptions() {
    assert_eq!(HttpStatusCode(200).description(), "OK");
    assert_eq!(HttpStatusCode(404).description(), "Not Found");
    assert_eq!(HttpStatusCode(308).description(), "Permanent Redirect");
    assert_eq!(HttpStatusCode(500).description(), "Status Not Implemented");
    assert!(HttpStatusCode(599).is_known());
    assert!(!HttpStatusCode(306).is_known());
    assert!(!HttpStatusCode(600).is_known());
}

#[test]
fn response_body_sets_content_length() {
    let response = HttpResponse::new(
        HttpVersion::default(),
        HttpStatusCode(200),
        HttpHeaders::new(),
        Some(b"hello".to_vec()),
    );
    assert_eq!(response.headers.get("content-length"), Some(&"5".to_string()));
    assert_eq!(response.get_body(), &Some(b"hello".to_vec()));
}

#[test]
fn response_body_replaced_and_removed() {
    let mut response = HttpResponse::new(
        HttpVersion::default(),
        HttpStatusCode(200),
        HttpHeaders::default(),
        Some(vec![7u8; 1234]),
    );
    assert_eq!(response.headers.get("Content-Length"), Some(&"1234".to_string()));
    response.set_body(Some(Vec::new()));
    assert_eq!(response.headers.get("content-length"), Some(&"0".to_string()));
    response.set_body(None);
    assert_eq!(response.headers.get("content-length"), None);
    assert_eq!(response.get_body(), &None);
    assert_eq!(response.headers.get("accept"), Some(&"application/json".to_string()));
}

#[test]
fn response_bytes_on_the_wire() {
    let response = HttpResponse::new(
        HttpVersion::default(),
        HttpStatusCode(404),
        HttpHeaders::new(),
        Some(b"gone".to_vec()),
    );
    assert_eq!(response.status().0, 404);
    assert_eq!(
        response.to_bytes(),
        b"HTTP/1.1 404 Not Found\r\ncontent-length: 4\r\n\r\ngone".to_vec()
    );
    assert_eq!(response.to_text(), "HTTP/1.1 404 Not Found\r\ncontent-length: 4\r\n\r\ngone");
}

#[test]
fn response_without_body_on_the_wire() {
    let response =
        HttpResponse::new(HttpVersion::default(), HttpStatusCode(204), HttpHeaders::new(), None);
    assert_eq!(response.to_text(), "HTTP/1.1 204 No Content\r\n\r\n");
}

#[test]
fn request_without_body_as_text() {
    let request = HttpRequest {
        method: HttpMethod::DELETE,
        uri: "/item".to_string(),
        http_version: "HTTP/1.0".to_string(),
        headers: HttpHeaders::new(),
        body: None,
    };
    assert_eq!(request.to_text(), "DELETE /item HTTP/1.0\r\n\r\n");
    assert_eq!(request.to_bytes(), b"DELETE /item HTTP/1.0\r\n\r\n".to_vec());
}

#[test]
fn default_version() {
    assert_eq!(HttpVersion::default().0, "HTTP/1.1");
}
