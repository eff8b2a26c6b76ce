//! Serving a connection: the buffer a request is read into, the websocket
//! accept key, and the decision taken for each request.
use vstd::prelude::*;
use base64::Engine;
use sha1::Digest;
use crate::field_map::{Entries, FieldMap, distinct_keys, law_store_lookup, lemma_position, lookup, position, store};
use crate::request::{Request, RequestView, header_fields};
use crate::response::{Response, ResponseView};
use crate::router::{Router, RouterView, law_ws_route};
use crate::status::Status;

verus! {

/// The bytes read from a connection: the first `length` bytes of `buffer`.
pub struct SocketBuffer<'a> {
    pub buffer: &'a [u8],
    pub length: usize,
}

impl<'a> SocketBuffer<'a> {
    /// A buffer whose first `length` bytes hold what was read.
    pub fn new(buffer: &'a [u8], length: usize) -> (r: SocketBuffer<'a>)
        ensures
            r.buffer@ == buffer@,
            r.length == length,
    {
        SocketBuffer { buffer, length }
    }
}

/// The SHA-1 digest of `data`.
pub uninterp spec fn sha1_digest(data: Seq<u8>) -> Seq<u8>;

/// The standard Base64 encoding (RFC 4648 alphabet, with `=` padding) of `data`.
pub uninterp spec fn base64_standard(data: Seq<u8>) -> Seq<char>;

/// `sha1::Sha1::digest`: the 20-byte SHA-1 digest of `data`.
#[verifier::external_body]
fn sha1(data: &[u8]) -> (d: Vec<u8>)
    ensures
        d@ == sha1_digest(data@),
        d@.len() == 20,
{
    sha1::Sha1::digest(data).to_vec()
}

/// `base64::engine::general_purpose::STANDARD.encode`: the standard Base64
/// encoding of `data`. It panics when the length of the encoding overflows
/// `usize`, which `requires` rules out.
#[verifier::external_body]
fn base64_encode(data: &[u8]) -> (s: String)
    requires
        data@.len() / 3 * 4 + 4 <= usize::MAX,
    ensures
        s@ == base64_standard(data@),
{
    base64::engine::general_purpose::STANDARD.encode(data)
}

/// The GUID that RFC 6455 appends to a websocket key.
pub open spec fn websocket_guid() -> Seq<char> {
    "258EAFA5-E914-47DA-95CA-C5AB0DC85B11"@
}

/// The `Sec-WebSocket-Accept` value for a `Sec-WebSocket-Key`: the Base64
/// encoding of the SHA-1 digest of the UTF-8 bytes of the key followed by
/// the GUID.
pub open spec fn accept_key(key: Seq<char>) -> Seq<char> {
    base64_standard(sha1_digest(vstd::utf8::encode_utf8(key + websocket_guid())))
}

/// The UTF-8 encoding of two texts one after the other is the encoding of
/// the first followed by that of the second.
pub proof fn lemma_encode_utf8_concat(a: Seq<char>, b: Seq<char>)
    ensures
        vstd::utf8::encode_utf8(a + b) == vstd::utf8::encode_utf8(a) + vstd::utf8::encode_utf8(b),
    decreases a.len(),
{
    if a.len() == 0 {
        assert(a + b =~= b);
        assert(vstd::utf8::encode_utf8(a) =~= Seq::<u8>::empty());
        assert(Seq::<u8>::empty() + vstd::utf8::encode_utf8(b) =~= vstd::utf8::encode_utf8(b));
    } else {
        assert((a + b)[0] == a[0]);
        assert((a + b).drop_first() =~= a.drop_first() + b);
        lemma_encode_utf8_concat(a.drop_first(), b);
        let ea = vstd::utf8::encode_scalar(a[0] as u32);
        assert(ea + (vstd::utf8::encode_utf8(a.drop_first()) + vstd::utf8::encode_utf8(b))
            =~= (ea + vstd::utf8::encode_utf8(a.drop_first())) + vstd::utf8::encode_utf8(b));
    }
}

/// The accept key of every key is the Base64 encoding of the SHA-1 digest
/// of the key's own UTF-8 bytes, unchanged, followed by the bytes of the
/// GUID `258EAFA5-E914-47DA-95CA-C5AB0DC85B11`.
pub proof fn law_accept_key_digests_key_and_guid(key: Seq<char>)
    ensures
        accept_key(key) == base64_standard(
            sha1_digest(
                vstd::utf8::encode_utf8(key) + vstd::utf8::encode_utf8("258EAFA5-E914-47DA-95CA-C5AB0DC85B11"@),
            ),
        ),
{
    lemma_encode_utf8_concat(key, "258EAFA5-E914-47DA-95CA-C5AB0DC85B11"@);
}

/// The response that accepts a websocket upgrade: `101 Switching Protocols`
/// with the fields `Connection: Upgrade`, `Upgrade: websocket` and
/// `Sec-WebSocket-Accept`.
pub open spec fn handshake(accept: Seq<char>) -> ResponseView {
    ResponseView {
        status: Status::SWITCHING_PROTOCOLS@,
        headers: store(
            store(store(Seq::empty(), "Connection"@, "Upgrade"@), "Upgrade"@, "websocket"@),
            "Sec-WebSocket-Accept"@,
            accept,
        ),
        body: Seq::empty(),
    }
}

/// The handshake for an accept value is `101 Switching Protocols` with an
/// empty body and exactly three fields, in order: `Connection: Upgrade`,
/// `Upgrade: websocket`, and `Sec-WebSocket-Accept` carrying the accept
/// value unchanged.
pub proof fn law_handshake_carries_accept(accept: Seq<char>)
    ensures
        handshake(accept).status == "101 Switching Protocols"@,
        handshake(accept).body.len() == 0,
        handshake(accept).headers == seq![
            ("Connection"@, "Upgrade"@),
            ("Upgrade"@, "websocket"@),
            ("Sec-WebSocket-Accept"@, accept),
        ],
        lookup(handshake(accept).headers, "Sec-WebSocket-Accept"@) == Some(accept),
        lookup(handshake(accept).headers, "Connection"@) == Some("Upgrade"@),
        lookup(handshake(accept).headers, "Upgrade"@) == Some("websocket"@),
{
    reveal_strlit("Connection");
    reveal_strlit("Upgrade");
    reveal_strlit("Sec-WebSocket-Accept");
    let c = "Connection"@;
    let u = "Upgrade"@;
    let a = "Sec-WebSocket-Accept"@;
    assert(c.len() == 10 && u.len() == 7 && a.len() == 20);
    assert(c != u && c != a && u != a);
    let e0 = Seq::<(Seq<char>, Seq<char>)>::empty();
    let e1 = store(e0, c, "Upgrade"@);
    assert(e1 =~= seq![(c, "Upgrade"@)]);
    lemma_position(e1, u);
    let e2 = store(e1, u, "websocket"@);
    assert(e2 =~= seq![(c, "Upgrade"@), (u, "websocket"@)]);
    lemma_position(e2, a);
    let e3 = store(e2, a, accept);
    assert(e3 =~= seq![(c, "Upgrade"@), (u, "websocket"@), (a, accept)]);
    lemma_position(e3, a);
    lemma_position(e3, c);
    lemma_position(e3, u);
}

/// What to do with a request.
pub enum Action {
    /// Write `handshake`, then hand the connection to websocket handler `handler`.
    Upgrade { handler: usize, handshake: Response },
    /// A websocket upgrade for a path without a handler: write
    /// `Status::NOT_FOUND` and end the connection.
    UpgradeNotFound,
    /// A websocket upgrade for a path with a handler, but the request has no
    /// `Sec-WebSocket-Key`.
    MissingWebSocketKey,
    /// Call HTTP handler `handler` (or, when there is none, answer with
    /// `Response::not_found`), write its response, and end the connection
    /// when `close` holds.
    Respond { handler: Option<usize>, close: bool },
}

/// An action, with the handshake taken by its view.
pub ghost enum ActionView {
    Upgrade { handler: usize, handshake: ResponseView },
    UpgradeNotFound,
    MissingWebSocketKey,
    Respond { handler: Option<usize>, close: bool },
}

impl View for Action {
    type V = ActionView;

    open spec fn view(&self) -> ActionView {
        match self {
            Action::Upgrade { handler, handshake } => ActionView::Upgrade { handler: *handler, handshake: handshake@ },
            Action::UpgradeNotFound => ActionView::UpgradeNotFound,
            Action::MissingWebSocketKey => ActionView::MissingWebSocketKey,
            Action::Respond { handler, close } => ActionView::Respond { handler: *handler, close: *close },
        }
    }
}

/// The header fields of a request; none when it has no header text.
pub open spec fn request_fields(req: RequestView) -> Entries<Seq<char>> {
    match req.header {
        Some(h) => header_fields(h),
        None => Seq::empty(),
    }
}

/// What is done with a request: a request with `Connection: Upgrade` and
/// `Upgrade: websocket` is a websocket upgrade, answered by the websocket
/// route of its path; any other request goes to the HTTP route of its method
/// and path, and the connection ends after it when it has
/// `Connection: close`.
pub open spec fn decide(req: RequestView, routes: RouterView) -> ActionView {
    let h = request_fields(req);
    if lookup(h, "Connection"@) == Some("Upgrade"@) && lookup(h, "Upgrade"@) == Some("websocket"@) {
        match lookup(routes.ws, "WS"@ + req.path) {
            Some(id) => match lookup(h, "Sec-WebSocket-Key"@) {
                Some(key) => ActionView::Upgrade { handler: id, handshake: handshake(accept_key(key)) },
                None => ActionView::MissingWebSocketKey,
            },
            None => ActionView::UpgradeNotFound,
        }
    } else {
        ActionView::Respond {
            handler: lookup(routes.http, req.method + req.path),
            close: lookup(h, "Connection"@) == Some("close"@),
        }
    }
}

/// A request that asks for no websocket upgrade reaches the HTTP handler
/// registered for its method and path, and keeps the connection open unless
/// it has `Connection: close`.
pub proof fn law_http_route_serves(routes: RouterView, req: RequestView, handler: usize)
    requires
        distinct_keys(routes.http),
        !(lookup(request_fields(req), "Connection"@) == Some("Upgrade"@)
            && lookup(request_fields(req), "Upgrade"@) == Some("websocket"@)),
    ensures
        decide(req, RouterView { http: store(routes.http, req.method + req.path, handler), ..routes })
            == (ActionView::Respond {
                handler: Some(handler),
                close: lookup(request_fields(req), "Connection"@) == Some("close"@),
            }),
{
    law_store_lookup(routes.http, req.method + req.path, handler, req.method + req.path);
}

/// A request that asks for no websocket upgrade is answered by the handler
/// of the route whose key is its method followed by its path, and by no
/// handler (so `404 Not Found`) when no route has that key; no route for
/// another method or path ever serves it. The connection is closed after it
/// exactly when it has `Connection: close`.
pub proof fn law_http_dispatch_uses_own_route(routes: RouterView, req: RequestView)
    requires
        !(lookup(request_fields(req), "Connection"@) == Some("Upgrade"@)
            && lookup(request_fields(req), "Upgrade"@) == Some("websocket"@)),
    ensures
        decide(req, routes) matches ActionView::Respond { handler, close } && {
            &&& close == (lookup(request_fields(req), "Connection"@) == Some("close"@))
            &&& (handler is None <==> forall|i: int| 0 <= i < routes.http.len()
                ==> #[trigger] routes.http[i].0 != req.method + req.path)
            &&& forall|h: usize| handler == Some(h) ==> exists|i: int|
                0 <= i < routes.http.len() && #[trigger] routes.http[i] == (req.method + req.path, h)
                    && forall|j: int| i < j < routes.http.len() ==> routes.http[j].0 != req.method + req.path
        },
{
    let key = req.method + req.path;
    lemma_position(routes.http, key);
    match position(routes.http, key) {
        Some(i) => {
            assert(routes.http[i] == (key, routes.http[i].1));
        },
        None => {},
    }
}

/// A request that asks for a websocket upgrade of a path with a registered
/// websocket handler and carries `Sec-WebSocket-Key` is upgraded by that
/// handler, with the handshake that carries the accept key of its key.
pub proof fn law_ws_route_upgrades(routes: RouterView, req: RequestView, handler: usize, key: Seq<char>)
    requires
        distinct_keys(routes.ws),
        lookup(request_fields(req), "Connection"@) == Some("Upgrade"@),
        lookup(request_fields(req), "Upgrade"@) == Some("websocket"@),
        lookup(request_fields(req), "Sec-WebSocket-Key"@) == Some(key),
    ensures
        decide(req, RouterView { ws: store(routes.ws, "WS"@ + req.path, handler), ..routes })
            == (ActionView::Upgrade { handler: handler, handshake: handshake(accept_key(key)) }),
{
    law_ws_route(routes, req.path, handler, req.path);
}

/// The response that accepts a websocket upgrade with the accept key `accept`.
pub fn handshake_response(accept: &str) -> (r: Response)
    ensures
        r@ == handshake(accept@),
{
    let mut r = Response::new();
    r.set_status(Status::SWITCHING_PROTOCOLS);
    r.insert_header("Connection", "Upgrade");
    r.insert_header("Upgrade", "websocket");
    r.insert_header("Sec-WebSocket-Accept", accept);
    r
}

/// Whether the field `name` has the value `value`.
fn field_is(m: &FieldMap<String>, name: &str, value: &str) -> (r: bool)
    ensures
        r == (lookup(m@, name@) == Some(value@)),
{
    match m.get(name) {
        Some(v) => *v == value.to_string(),
        None => false,
    }
}

/// Serves requests read from a connection.
pub struct Service {}

impl Service {
    pub fn new() -> Service {
        Service {}
    }

    /// The `Sec-WebSocket-Accept` value for the `Sec-WebSocket-Key` `sec_key`.
    pub fn ws_key_encode(&self, sec_key: &str) -> (r: Result<String, ()>)
        ensures
            r matches Ok(s) && s@ == accept_key(sec_key@),
    {
        let mut text = sec_key.to_string();
        text.append("258EAFA5-E914-47DA-95CA-C5AB0DC85B11");
        let digest = sha1(text.as_str().as_bytes());
        let key = base64_encode(digest.as_slice());
        Ok(key)
    }

    /// What to do with `req`, given the routes of the server.
    pub fn dispatch(&self, req: &Request, routes: &Router) -> (a: Action)
        ensures
            a@ == decide(req@, routes@),
    {
        let headers = match req.header() {
            Some(m) => m,
            None => FieldMap::new(),
        };
        if field_is(&headers, "Connection", "Upgrade") && field_is(&headers, "Upgrade", "websocket") {
            match routes.ws_handler(req.path()) {
                Some(id) => match headers.get("Sec-WebSocket-Key") {
                    Some(raw_key) => {
                        // `ws_key_encode` never fails.
                        let key = match self.ws_key_encode(raw_key.as_str()) {
                            Ok(k) => k,
                            Err(_) => String::new(),
                        };
                        Action::Upgrade { handler: id, handshake: handshake_response(key.as_str()) }
                    },
                    None => Action::MissingWebSocketKey,
                },
                None => Action::UpgradeNotFound,
            }
        } else {
            Action::Respond {
                handler: routes.http_handler(req.method(), req.path()),
                close: field_is(&headers, "Connection", "close"),
            }
        }
    }
}

} // verus!
