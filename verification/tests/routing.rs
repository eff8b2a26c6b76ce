use macella::{Action, FieldMap, Request, Response, Router, Service, SocketBuffer};

fn parse(text: &str) -> Request {
    let bytes = text.as_bytes();
    Request::parse(SocketBuffer::new(bytes, bytes.len())).unwrap()
}

#[test]
fn field_map_read_after_write() {
    let mut m: FieldMap<usize> = FieldMap::new();
    assert_eq!(m.len(), 0);
    m.insert("a".to_string(), 1);
    m.insert("b".to_string(), 2);
    m.insert("a".to_string(), 3);
    assert_eq!(m.get("a"), Some(&3));
    assert_eq!(m.get("b"), Some(&2));
    assert_eq!(m.get("c"), None);
    assert_eq!(m.len(), 2);
    assert_eq!(m.key_at(0).as_str(), "a");
    assert_eq!(*m.value_at(0), 3);
    assert_eq!(m.key_at(1).as_str(), "b");
}

#[test]
fn router_finds_registered_routes() {
    let mut r = Router::new();
    r.get("/ping", 0);
    r.post("/hello", 1);
    r.ws("/ws", 0);
    assert_eq!(r.http_handler("GET", "/ping"), Some(0));
    assert_eq!(r.http_handler("POST", "/hello"), Some(1));
    assert_eq!(r.http_handler("POST", "/ping"), None);
    assert_eq!(r.http_handler("GET", "/hello"), None);
    assert_eq!(r.ws_handler("/ws"), Some(0));
    assert_eq!(r.ws_handler("/ping"), None);
    r.get("/ping", 5);
    assert_eq!(r.http_handler("GET", "/ping"), Some(5));
    assert_eq!(r.http_handler("POST", "/hello"), Some(1));
}

#[test]
fn ws_key_encode_rfc6455_example() {
    let s = Service::new();
    assert_eq!(s.ws_key_encode("dGhlIHNhbXBsZSBub25jZQ=="), Ok("s3pPLMBiTxaQ9kYGzzhZRbK+xOo=".to_string()));
}

fn routes() -> Router {
    let mut r = Router::new();
    r.get("/ping", 0);
    r.post("/hello", 1);
    r.ws("/ws", 2);
    r
}

#[test]
fn dispatch_http_route() {
    let s = Service::new();
    match s.dispatch(&parse("GET /ping HTTP/1.1\r\nHost: x\r\n\r\n"), &routes()) {
        Action::Respond { handler, close } => {
            assert_eq!(handler, Some(0));
            assert!(!close);
        }
        _ => panic!("expected a response"),
    }
    match s.dispatch(&parse("POST /hello?x=1 HTTP/1.1\r\nConnection: close\r\n\r\nbody"), &routes()) {
        Action::Respond { handler, close } => {
            assert_eq!(handler, Some(1));
            assert!(close);
        }
        _ => panic!("expected a response"),
    }
}

#[test]
fn dispatch_unknown_route() {
    let s = Service::new();
    match s.dispatch(&parse("GET /nope HTTP/1.1\r\nHost: x\r\n\r\n"), &routes()) {
        Action::Respond { handler, close } => {
            assert_eq!(handler, None);
            assert!(!close);
        }
        _ => panic!("expected a response"),
    }
    assert_eq!(Response::not_found().build(), "HTTP/1.1 404 Not Found\r\nContent-Length: 0\r\n\r\n");
}

#[test]
fn dispatch_websocket_upgrade() {
    let s = Service::new();
    let req = parse(
        "GET /ws HTTP/1.1\r\nConnection: Upgrade\r\nUpgrade: websocket\r\nSec-WebSocket-Key: dGhlIHNhbXBsZSBub25jZQ==\r\n\r\n",
    );
    match s.dispatch(&req, &routes()) {
        Action::Upgrade { handler, handshake } => {
            assert_eq!(handler, 2);
            assert_eq!(
                handshake.build(),
                "HTTP/1.1 101 Switching Protocols\r\nConnection: Upgrade\r\nUpgrade: websocket\r\nSec-WebSocket-Accept: s3pPLMBiTxaQ9kYGzzhZRbK+xOo=\r\nContent-Length: 0\r\n\r\n"
            );
        }
        _ => panic!("expected an upgrade"),
    }
}

#[test]
fn dispatch_upgrade_without_route() {
    let s = Service::new();
    let req = parse("GET /other HTTP/1.1\r\nConnection: Upgrade\r\nUpgrade: websocket\r\n\r\n");
    assert!(matches!(s.dispatch(&req, &routes()), Action::UpgradeNotFound));
}

#[test]
fn dispatch_upgrade_without_key() {
    let s = Service::new();
    let req = parse("GET /ws HTTP/1.1\r\nConnection: Upgrade\r\nUpgrade: websocket\r\n\r\n");
    assert!(matches!(s.dispatch(&req, &routes()), Action::MissingWebSocketKey));
}

#[test]
fn dispatch_needs_both_upgrade_fields() {
    let s = Service::new();
    let req = parse("GET /ws HTTP/1.1\r\nConnection: Upgrade\r\nSec-WebSocket-Key: k\r\n\r\n");
    match s.dispatch(&req, &routes()) {
        Action::Respond { handler, close } => {
            assert_eq!(handler, None);
            assert!(!close);
        }
        _ => panic!("expected a response"),
    }
}

#[test]
fn handshake_response_text() {
    assert_eq!(
        macella::service::handshake_response("abc=").build(),
        "HTTP/1.1 101 Switching Protocols\r\nConnection: Upgrade\r\nUpgrade: websocket\r\nSec-WebSocket-Accept: abc=\r\nContent-Length: 0\r\n\r\n"
    );
}
