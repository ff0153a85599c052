use http_dispatch::application::Application;
use http_dispatch::config::Config;
use http_dispatch::dispatch::dispatch;
use http_dispatch::error;
use http_dispatch::request::Protocol;
use http_dispatch::request::Request;
use http_dispatch::responder::ResponderKind;
use http_dispatch::socket::IpAddress;
use http_dispatch::socket::SocketAddress;

fn catch_all_config() -> Config {
    Config {
        feedback_error_file: Option::None,
        feedback_info_file: Option::None,
        filesystem_directory_index: "index.htm".to_string(),
        file_not_found_file: "404.htm".to_string(),
        filesystem_root: "./html/".to_string(),
        server_host: "localhost".to_string(),
        server_limit: 4,
        server_port: 4040,
        tcp_limit: 1024,
    }
}

fn catch_all_application() -> Application {
    let responders = vec![ResponderKind::CatchAllError(error::Responder::new())];
    Application::new(catch_all_config(), responders)
}

fn peer() -> SocketAddress {
    SocketAddress::new(IpAddress::V4 { octets: [127, 0, 0, 1] }, 8080)
}

#[test]
fn test_validate_chain_accepts_catch_all_last() {
    let application = catch_all_application();
    assert!(application.validate_chain());
}

#[test]
fn test_validate_chain_rejects_empty_chain() {
    let application = Application::new(catch_all_config(), Vec::new());
    assert!(!application.validate_chain());
}

#[test]
fn test_dispatch_always_resolves() {
    let application = catch_all_application();
    let socket = peer();
    for line in [
        "GET / HTTP/1.0",
        "GET /index.htm HTTP/1.1",
        "POST /submit HTTP/1.1",
        "DELETE /x HTTP/1.0",
    ] {
        let request = Request::from_request_line(line).unwrap();
        let outcome = dispatch(&application, &request, &socket, 0);
        let result = outcome.expect("a catch-all chain must match every request");
        assert!(result.is_ok());
    }
}

#[test]
fn test_dispatch_empty_chain_reports_no_match() {
    let application = Application::new(catch_all_config(), Vec::new());
    let socket = peer();
    let request = Request::from_request_line("GET / HTTP/1.1").unwrap();
    let outcome = dispatch(&application, &request, &socket, 0);
    assert!(outcome.is_none());
}

#[test]
fn test_scenario_http10_catch_all() {
    let application = catch_all_application();
    let socket = peer();
    let request = Request::from_request_line("GET /index2.htm HTTP/1.0").unwrap();
    assert_eq!(request.protocol, Protocol::Http10);
    let response = dispatch(&application, &request, &socket, 0)
        .expect("the catch-all must match")
        .expect("the catch-all must not fail");
    let bytes = response.to_bytes();
    assert_eq!(bytes, b"HTTP/1.0 500 Internal Server Error\r\n\r\n".to_vec());
}

#[test]
fn test_scenario_http11_catch_all() {
    let application = catch_all_application();
    let socket = peer();
    let request = Request::from_request_line("GET /index.htm HTTP/1.1\r\n\r\n").unwrap();
    assert_eq!(request.protocol, Protocol::Http11);
    let response = dispatch(&application, &request, &socket, 0)
        .expect("the catch-all must match")
        .expect("the catch-all must not fail");
    assert_eq!(response.protocol, "HTTP/1.1");
    assert_eq!(response.status_line, "500 Internal Server Error");
    assert!(response.headers.is_empty());
    assert!(response.body.is_empty());
}

#[test]
fn test_matches_is_pure_across_dispatches() {
    let application = catch_all_application();
    let socket = peer();
    let request = Request::from_request_line("GET /same HTTP/1.1").unwrap();
    let responder = ResponderKind::CatchAllError(error::Responder::new());
    let first = responder.matches(&request, &application, &socket, 7);
    for line in ["GET /other HTTP/1.0", "POST /third HTTP/1.1"] {
        let other = Request::from_request_line(line).unwrap();
        let _ = dispatch(&application, &other, &socket, 3);
    }
    let second = responder.matches(&request, &application, &socket, 7);
    assert_eq!(first, second);
}
