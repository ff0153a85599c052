use http_dispatch::request::Protocol;
use http_dispatch::request::Request;

#[test]
fn test_protocol_text() {
    assert_eq!(Protocol::Http10.text(), "HTTP/1.0");
    assert_eq!(Protocol::Http11.text(), "HTTP/1.1");
}

#[test]
fn test_protocol_from_text() {
    assert_eq!(Protocol::from_text("HTTP/1.0"), Some(Protocol::Http10));
    assert_eq!(Protocol::from_text("HTTP/1.1"), Some(Protocol::Http11));
    assert_eq!(Protocol::from_text("HTTP/2.0"), None);
    assert_eq!(Protocol::from_text(""), None);
}

#[test]
fn test_from_request_line_basic() {
    let request = Request::from_request_line("GET /index2.htm HTTP/1.0").unwrap();
    assert_eq!(request.method, "GET");
    assert_eq!(request.path, "/index2.htm");
    assert_eq!(request.protocol, Protocol::Http10);
    assert!(request.headers.is_empty());
    assert!(request.body.is_empty());
}

#[test]
fn test_from_request_line_stops_at_carriage_return() {
    let request = Request::from_request_line("POST /submit HTTP/1.1\r\nHost: x\r\n\r\n").unwrap();
    assert_eq!(request.method, "POST");
    assert_eq!(request.path, "/submit");
    assert_eq!(request.protocol, Protocol::Http11);
}

#[test]
fn test_from_request_line_rejects_bad_lines() {
    assert!(Request::from_request_line("").is_none());
    assert!(Request::from_request_line("GET").is_none());
    assert!(Request::from_request_line("GET /index.htm").is_none());
    assert!(Request::from_request_line("GET /index.htm HTTP/9.9").is_none());
}

#[test]
fn test_request_new_keeps_fields() {
    let request = Request::new(
        Protocol::Http11,
        "GET".to_string(),
        "/p".to_string(),
        vec![("Host".to_string(), "localhost".to_string())],
        vec![7, 8],
    );
    assert_eq!(request.method, "GET");
    assert_eq!(request.path, "/p");
    assert_eq!(request.headers.len(), 1);
    assert_eq!(request.body, vec![7, 8]);
}
