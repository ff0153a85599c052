use http_dispatch::response::parse_status_line;
use http_dispatch::response::Response;

fn sample_response() -> Response {
    Response::new(
        "HTTP/1.1".to_string(),
        "200 OK".to_string(),
        vec![
            ("Content-Type".to_string(), "text/html".to_string()),
            ("Content-Length".to_string(), "5".to_string()),
        ],
        b"hello".to_vec(),
    )
}

#[test]
fn test_to_bytes_without_headers_or_body() {
    let response = Response::new(
        "HTTP/1.0".to_string(),
        "500 Internal Server Error".to_string(),
        Vec::new(),
        Vec::new(),
    );
    assert_eq!(
        response.to_bytes(),
        b"HTTP/1.0 500 Internal Server Error\r\n\r\n".to_vec()
    );
}

#[test]
fn test_to_bytes_with_headers_and_body() {
    let response = sample_response();
    let expected =
        b"HTTP/1.1 200 OK\r\nContent-Type: text/html\r\nContent-Length: 5\r\n\r\nhello".to_vec();
    assert_eq!(response.to_bytes(), expected);
}

#[test]
fn test_to_bytes_is_deterministic() {
    let response = sample_response();
    assert_eq!(response.to_bytes(), response.to_bytes());
}

#[test]
fn test_set_header_appends_new_key_in_order() {
    let mut response = Response::new(
        "HTTP/1.1".to_string(),
        "200 OK".to_string(),
        Vec::new(),
        Vec::new(),
    );
    response.set_header("Server".to_string(), "demo".to_string());
    response.set_header("Connection".to_string(), "close".to_string());
    assert_eq!(
        response.headers,
        vec![
            ("Server".to_string(), "demo".to_string()),
            ("Connection".to_string(), "close".to_string()),
        ]
    );
}

#[test]
fn test_set_header_last_write_wins() {
    let mut response = sample_response();
    response.set_header("Content-Type".to_string(), "text/plain".to_string());
    assert_eq!(
        response.headers,
        vec![
            ("Content-Type".to_string(), "text/plain".to_string()),
            ("Content-Length".to_string(), "5".to_string()),
        ]
    );
}

#[test]
fn test_status_line_round_trip() {
    let response = sample_response();
    let head = response.head_string();
    let (protocol, status) = parse_status_line(head.as_str()).expect("the head must parse");
    assert_eq!(protocol, "HTTP/1.1");
    assert_eq!(status, "200 OK");
}

#[test]
fn test_parse_status_line_of_error_response() {
    let (protocol, status) =
        parse_status_line("HTTP/1.0 500 Internal Server Error\r\n\r\n").unwrap();
    assert_eq!(protocol, "HTTP/1.0");
    assert_eq!(status, "500 Internal Server Error");
}

#[test]
fn test_parse_status_line_rejects_missing_space() {
    assert!(parse_status_line("HTTP/1.1\r\n").is_none());
}

#[test]
fn test_parse_status_line_rejects_missing_crlf() {
    assert!(parse_status_line("HTTP/1.1 200 OK").is_none());
    assert!(parse_status_line("HTTP/1.1 200 OK\r").is_none());
}
