use macella::{Response, Status};

#[test]
fn ok_response_text() {
    assert_eq!(Response::ok("pong").build(), "HTTP/1.1 200 OK\r\nContent-Length: 4\r\n\r\npong");
}

#[test]
fn not_found_response_text() {
    assert_eq!(Response::not_found().build(), "HTTP/1.1 404 Not Found\r\nContent-Length: 0\r\n\r\n");
}

#[test]
fn err_response_text() {
    assert_eq!(
        Response::err("boom").build(),
        "HTTP/1.1 500 Internal Server Error\r\nContent-Length: 4\r\n\r\nboom"
    );
}

#[test]
fn new_response_text() {
    assert_eq!(Response::new().build(), "HTTP/1.1 \r\nContent-Length: 0\r\n\r\n");
}

#[test]
fn content_length_counts_bytes() {
    // 'é' takes two bytes, the emoji four.
    assert_eq!(Response::ok("\u{e9}\u{1F600}").build(), "HTTP/1.1 200 OK\r\nContent-Length: 6\r\n\r\n\u{e9}\u{1F600}");
    let body = "x".repeat(1234);
    let text = Response::ok(&body).build();
    assert!(text.starts_with("HTTP/1.1 200 OK\r\nContent-Length: 1234\r\n\r\n"));
    assert!(text.ends_with(&body));
}

#[test]
fn setters_and_header_order() {
    let mut r = Response::new();
    r.set_status(Status::CREATED);
    r.insert_header("Content-Type", "text/plain");
    r.insert_header("X-A", "1");
    r.insert_header("Content-Type", "text/html");
    let view = r.set_body("hi");
    assert_eq!(
        view.build(),
        "HTTP/1.1 201 Created\r\nContent-Type: text/html\r\nX-A: 1\r\nContent-Length: 2\r\n\r\nhi"
    );
}

#[test]
fn statuses() {
    assert_eq!(Status::OK, "200 OK");
    assert_eq!(Status::SWITCHING_PROTOCOLS, "101 Switching Protocols");
    assert_eq!(Status::NOT_FOUND, "404 Not Found");
    assert_eq!(Status::IM_A_TEAPOT, "418 I'm a teapot");
    assert_eq!(Status::NETWORK_AUTHENTICATION_REQUIRED, "511 Network Authentication Required");
}
