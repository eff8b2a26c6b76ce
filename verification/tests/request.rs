use macella::{ParseError, Request, SocketBuffer};

fn parse(text: &str) -> Result<Request, ParseError> {
    let bytes = text.as_bytes();
    Request::parse(SocketBuffer::new(bytes, bytes.len()))
}

#[test]
fn parses_get_with_query_and_headers() {
    let req = parse("GET /search?q=rust&page=2 HTTP/1.1\r\nHost: localhost\r\nAccept: */*\r\n\r\n").unwrap();
    assert_eq!(req.method(), "GET");
    assert_eq!(req.path(), "/search");
    assert_eq!(req.query_raw(), Some("q=rust&page=2"));
    assert_eq!(req.header_raw(), Some("Host: localhost\r\nAccept: */*"));
    assert_eq!(req.body(), None);
}

#[test]
fn parses_post_with_body() {
    let req = parse("POST /hello HTTP/1.1\r\nContent-Length: 5\r\n\r\nworld").unwrap();
    assert_eq!(req.method(), "POST");
    assert_eq!(req.path(), "/hello");
    assert_eq!(req.query_raw(), None);
    assert_eq!(req.body(), Some("world"));
    assert!(req.query().is_none());
}

#[test]
fn body_keeps_later_empty_lines() {
    let req = parse("POST / HTTP/1.1\r\nA: 1\r\n\r\nx\r\n\r\ny").unwrap();
    assert_eq!(req.header_raw(), Some("A: 1"));
    assert_eq!(req.body(), Some("x\r\n\r\ny"));
}

#[test]
fn only_the_bytes_read_count() {
    let text = "GET /a HTTP/1.1\r\nH: v\r\n\r\nbodyGARBAGE";
    let bytes = text.as_bytes();
    let req = Request::parse(SocketBuffer::new(bytes, bytes.len() - 7)).unwrap();
    assert_eq!(req.body(), Some("body"));
}

#[test]
fn empty_target_query_and_path() {
    let req = parse("GET ?x=1 HTTP/1.1\r\nH: v\r\n\r\n").unwrap();
    assert_eq!(req.path(), "");
    assert_eq!(req.query_raw(), Some("x=1"));
    let req = parse("GET /p?a?b HTTP/1.1\r\nH: v\r\n\r\n").unwrap();
    assert_eq!(req.path(), "/p");
    assert_eq!(req.query_raw(), Some("a?b"));
    let req = parse("GET /p? HTTP/1.1\r\nH: v\r\n\r\n").unwrap();
    assert_eq!(req.query_raw(), Some(""));
}

#[test]
fn request_line_splits_at_any_white_space() {
    let req = parse("GET\t /x \u{A0}HTTP/1.1\r\nH: v\r\n\r\n").unwrap();
    assert_eq!(req.method(), "GET");
    assert_eq!(req.path(), "/x");
    let req = parse("  GET /y HTTP/1.1  \r\nH: v\r\n\r\n").unwrap();
    assert_eq!(req.path(), "/y");
}

#[test]
fn rejects_invalid_utf8() {
    let bytes: [u8; 6] = [b'G', b'E', 0xff, b'\r', b'\n', b'x'];
    assert_eq!(Request::parse(SocketBuffer::new(&bytes, 6)).err(), Some(ParseError::InvalidUtf8));
}

#[test]
fn rejects_missing_request_line_end() {
    assert_eq!(parse("GET / HTTP/1.1").err(), Some(ParseError::MissingRequestLineEnd));
    assert_eq!(parse("").err(), Some(ParseError::MissingRequestLineEnd));
}

#[test]
fn rejects_missing_header_end() {
    assert_eq!(parse("GET / HTTP/1.1\r\nHost: x\r\n").err(), Some(ParseError::MissingHeaderEnd));
    // Without header lines the text after the request line is one `\r\n`,
    // which holds no empty line.
    assert_eq!(parse("GET / HTTP/1.1\r\n\r\n").err(), Some(ParseError::MissingHeaderEnd));
}

#[test]
fn rejects_request_line_without_three_words() {
    assert_eq!(parse("GET /\r\nH: v\r\n\r\n").err(), Some(ParseError::InvalidRequestLine));
    assert_eq!(parse("GET / HTTP/1.1 extra\r\nH: v\r\n\r\n").err(), Some(ParseError::InvalidRequestLine));
}

#[test]
fn header_fields_last_line_wins() {
    let req = parse("GET / HTTP/1.1\r\nA: 1\r\nB: 2\r\nnot a field\r\nA: 3\r\nC:4\r\n\r\n").unwrap();
    let m = req.header().unwrap();
    assert_eq!(m.len(), 2);
    assert_eq!(m.get("A").map(|s| s.as_str()), Some("3"));
    assert_eq!(m.get("B").map(|s| s.as_str()), Some("2"));
    assert_eq!(m.get("C"), None);
    assert_eq!(m.key_at(0).as_str(), "A");
    assert_eq!(m.key_at(1).as_str(), "B");
}

#[test]
fn header_value_keeps_later_separators() {
    let req = parse("GET / HTTP/1.1\r\nX: a: b\r\n\r\n").unwrap();
    let m = req.header().unwrap();
    assert_eq!(m.get("X").map(|s| s.as_str()), Some("a: b"));
}

#[test]
fn query_fields() {
    let req = parse("GET /q?a=1&b=2&flag&a=3&c=x=y HTTP/1.1\r\nH: v\r\n\r\n").unwrap();
    let m = req.query().unwrap();
    assert_eq!(m.len(), 3);
    assert_eq!(m.get("a").map(|s| s.as_str()), Some("3"));
    assert_eq!(m.get("b").map(|s| s.as_str()), Some("2"));
    assert_eq!(m.get("c").map(|s| s.as_str()), Some("x=y"));
    assert_eq!(m.get("flag"), None);
}

#[test]
fn empty_query_has_no_fields() {
    let req = parse("GET /p? HTTP/1.1\r\nH: v\r\n\r\n").unwrap();
    assert_eq!(req.query().unwrap().len(), 0);
}

#[test]
fn parse_request_text_law_example() {
    // method, path, query, version, header text and body come back.
    let req = parse("PUT /items?id=7 HTTP/1.0\r\nX: y\r\nZ: w\r\n\r\npayload").unwrap();
    assert_eq!(req.method(), "PUT");
    assert_eq!(req.path(), "/items");
    assert_eq!(req.query_raw(), Some("id=7"));
    assert_eq!(req.header_raw(), Some("X: y\r\nZ: w"));
    assert_eq!(req.body(), Some("payload"));
}

#[test]
fn multibyte_text() {
    let req = parse("GET /caf\u{e9} HTTP/1.1\r\nN\u{e4}me: J\u{f6}rg\r\n\r\n\u{1F600}").unwrap();
    assert_eq!(req.path(), "/caf\u{e9}");
    assert_eq!(req.header().unwrap().get("N\u{e4}me").map(|s| s.as_str()), Some("J\u{f6}rg"));
    assert_eq!(req.body(), Some("\u{1F600}"));
}

#[test]
fn header_lines_read_back_as_fields() {
    let req = parse("GET / HTTP/1.1\r\nHost: example.org\r\nAccept: text/html\r\nX-Empty: \r\n\r\n").unwrap();
    let m = req.header().unwrap();
    assert_eq!(m.len(), 3);
    assert_eq!((m.key_at(0).as_str(), m.value_at(0).as_str()), ("Host", "example.org"));
    assert_eq!((m.key_at(1).as_str(), m.value_at(1).as_str()), ("Accept", "text/html"));
    assert_eq!((m.key_at(2).as_str(), m.value_at(2).as_str()), ("X-Empty", ""));
}

#[test]
fn query_parts_read_back_as_fields() {
    let req = parse("GET /s?x=1&y=&z=3 HTTP/1.1\r\nH: v\r\n\r\n").unwrap();
    let m = req.query().unwrap();
    assert_eq!(m.len(), 3);
    assert_eq!((m.key_at(0).as_str(), m.value_at(0).as_str()), ("x", "1"));
    assert_eq!((m.key_at(1).as_str(), m.value_at(1).as_str()), ("y", ""));
    assert_eq!((m.key_at(2).as_str(), m.value_at(2).as_str()), ("z", "3"));
}
