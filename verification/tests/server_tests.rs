use session_relay::server::Server;
use session_relay::server::HELLO_PAGE;
use session_relay::server::NOT_FOUND_PAGE;
use session_relay::server::NOT_FOUND_STATUS;
use session_relay::server::OK_STATUS;

#[test]
fn server_keeps_its_address() {
    let server = Server { ip_addr: String::from("127.0.0.1:7878") };
    assert_eq!(server.ip_addr, "127.0.0.1:7878");
}

#[test]
fn root_request_gets_the_hello_page() {
    assert_eq!(Server::select_page("GET / HTTP/1.1"), ("HTTP/1.1 200 OK", "hello.html"));
    assert_eq!(Server::select_page("GET / HTTP/1.1"), (OK_STATUS, HELLO_PAGE));
}

#[test]
fn other_requests_get_the_not_found_page() {
    let expected = ("HTTP/1.1 404 NOT FOUND", "404.html");
    assert_eq!(Server::select_page("GET /other HTTP/1.1"), expected);
    assert_eq!(Server::select_page(""), expected);
    assert_eq!(Server::select_page("GET / HTTP/1.0"), expected);
    assert_eq!(Server::select_page("GET / HTTP/1.1 "), expected);
    assert_eq!(Server::select_page("GET / HTTP/1."), expected);
    assert_eq!(Server::select_page("get / http/1.1"), expected);
    assert_eq!(Server::select_page("POST / HTTP/1.1"), (NOT_FOUND_STATUS, NOT_FOUND_PAGE));
}

#[test]
fn response_layout() {
    let bytes = Server::response("HTTP/1.1 200 OK", "hi");
    assert_eq!(bytes, b"HTTP/1.1 200 OK\r\nContent-Length: 2\r\n\r\nhi".to_vec());
}

#[test]
fn response_matches_the_formatted_string() {
    for contents in ["", "a", "0123456789", "<html>\n<body>Hello!</body>\n</html>\n"] {
        for status_line in ["HTTP/1.1 200 OK", "HTTP/1.1 404 NOT FOUND"] {
            let length = contents.len();
            let expected = format!("{status_line}\r\nContent-Length: {length}\r\n\r\n{contents}");
            assert_eq!(Server::response(status_line, contents), expected.into_bytes());
        }
    }
}

#[test]
fn response_of_empty_body() {
    let bytes = Server::response("HTTP/1.1 404 NOT FOUND", "");
    assert_eq!(bytes, b"HTTP/1.1 404 NOT FOUND\r\nContent-Length: 0\r\n\r\n".to_vec());
}

#[test]
fn content_length_counts_bytes_not_characters() {
    let contents = "héllo ✓";
    assert_eq!(contents.len(), 10);
    let bytes = Server::response("HTTP/1.1 200 OK", contents);
    let mut expected = b"HTTP/1.1 200 OK\r\nContent-Length: 10\r\n\r\n".to_vec();
    expected.extend_from_slice(contents.as_bytes());
    assert_eq!(bytes, expected);
}

#[test]
fn content_length_with_several_digits() {
    let contents = "x".repeat(12345);
    let bytes = Server::response("S", &contents);
    assert!(bytes.starts_with(b"S\r\nContent-Length: 12345\r\n\r\nxxx"));
    assert_eq!(bytes.len(), 1 + 18 + 5 + 4 + 12345);
    let round = "y".repeat(1000);
    assert!(Server::response("S", &round).starts_with(b"S\r\nContent-Length: 1000\r\n\r\ny"));
}
