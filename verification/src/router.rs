//! The routing table of a server: which handler serves which method and
//! path, and which websocket handler serves which path.
use vstd::prelude::*;
use crate::field_map::{Entries, FieldMap, distinct_keys, law_store_lookup, lookup, store};

verus! {

/// The routes of a server: the HTTP routes keyed by method and path (such as
/// `GET/ping`), and the websocket routes keyed by `WS` and path (such as
/// `WS/ws`), each mapped to the number of its handler.
pub ghost struct RouterView {
    pub http: Entries<usize>,
    pub ws: Entries<usize>,
}

/// A routing table. Handlers are named by numbers; whoever keeps the
/// handlers themselves gives each route the number of its handler.
pub struct Router {
    http: FieldMap<usize>,
    ws: FieldMap<usize>,
}

impl View for Router {
    type V = RouterView;

    closed spec fn view(&self) -> RouterView {
        RouterView { http: self.http@, ws: self.ws@ }
    }
}

/// A route registered for `GET` is found for `GET` requests to it; no
/// request with another method or path finds another handler than before;
/// in particular `POST` requests never find a `GET` route.
pub proof fn law_get_route(routes: RouterView, route: Seq<char>, handler: usize, method: Seq<char>, path: Seq<char>)
    requires
        distinct_keys(routes.http),
    ensures
        lookup(store(routes.http, "GET"@ + route, handler), "GET"@ + route) == Some(handler),
        method + path != "GET"@ + route ==> lookup(store(routes.http, "GET"@ + route, handler), method + path)
            == lookup(routes.http, method + path),
        lookup(store(routes.http, "GET"@ + route, handler), "POST"@ + path) == lookup(routes.http, "POST"@ + path),
{
    reveal_strlit("GET");
    reveal_strlit("POST");
    law_store_lookup(routes.http, "GET"@ + route, handler, method + path);
    law_store_lookup(routes.http, "GET"@ + route, handler, "POST"@ + path);
    assert(("POST"@ + path)[0] != ("GET"@ + route)[0]);
}

/// A route registered for `POST` is found for `POST` requests to it; no
/// request with another method or path finds another handler than before;
/// in particular `GET` requests never find a `POST` route.
pub proof fn law_post_route(routes: RouterView, route: Seq<char>, handler: usize, method: Seq<char>, path: Seq<char>)
    requires
        distinct_keys(routes.http),
    ensures
        lookup(store(routes.http, "POST"@ + route, handler), "POST"@ + route) == Some(handler),
        method + path != "POST"@ + route ==> lookup(store(routes.http, "POST"@ + route, handler), method + path)
            == lookup(routes.http, method + path),
        lookup(store(routes.http, "POST"@ + route, handler), "GET"@ + path) == lookup(routes.http, "GET"@ + path),
{
    reveal_strlit("GET");
    reveal_strlit("POST");
    law_store_lookup(routes.http, "POST"@ + route, handler, method + path);
    law_store_lookup(routes.http, "POST"@ + route, handler, "GET"@ + path);
    assert(("GET"@ + path)[0] != ("POST"@ + route)[0]);
}

/// A websocket route is found for upgrades of its path, and for no other
/// path does the handler change.
pub proof fn law_ws_route(routes: RouterView, route: Seq<char>, handler: usize, path: Seq<char>)
    requires
        distinct_keys(routes.ws),
    ensures
        lookup(store(routes.ws, "WS"@ + route, handler), "WS"@ + route) == Some(handler),
        path != route ==> lookup(store(routes.ws, "WS"@ + route, handler), "WS"@ + path)
            == lookup(routes.ws, "WS"@ + path),
{
    law_store_lookup(routes.ws, "WS"@ + route, handler, "WS"@ + path);
    if path != route && "WS"@ + path == "WS"@ + route {
        assert(("WS"@ + path).skip(2) =~= path) by { reveal_strlit("WS"); }
        assert(("WS"@ + route).skip(2) =~= route) by { reveal_strlit("WS"); }
    }
}

/// `prefix` followed by `s`, as a new string.
fn joined(prefix: &str, s: &str) -> (r: String)
    ensures
        r@ == prefix@ + s@,
{
    let mut r = prefix.to_string();
    r.append(s);
    r
}

impl Router {
    /// A table without routes.
    pub fn new() -> (r: Router)
        ensures
            r@ == (RouterView { http: Seq::empty(), ws: Seq::empty() }),
    {
        Router { http: FieldMap::new(), ws: FieldMap::new() }
    }

    /// Routes `GET` requests for `route` to handler `handler`.
    pub fn get(&mut self, route: &str, handler: usize)
        ensures
            final(self)@ == (RouterView { http: store(old(self)@.http, "GET"@ + route@, handler), ..old(self)@ }),
            distinct_keys(final(self)@.http),
    {
        self.http.insert(joined("GET", route), handler);
    }

    /// Routes `POST` requests for `route` to handler `handler`.
    pub fn post(&mut self, route: &str, handler: usize)
        ensures
            final(self)@ == (RouterView { http: store(old(self)@.http, "POST"@ + route@, handler), ..old(self)@ }),
            distinct_keys(final(self)@.http),
    {
        self.http.insert(joined("POST", route), handler);
    }

    /// Routes websocket upgrades for `route` to websocket handler `handler`.
    pub fn ws(&mut self, route: &str, handler: usize)
        ensures
            final(self)@ == (RouterView { ws: store(old(self)@.ws, "WS"@ + route@, handler), ..old(self)@ }),
            distinct_keys(final(self)@.ws),
    {
        self.ws.insert(joined("WS", route), handler);
    }

    /// The handler for requests with `method` and `path`.
    pub fn http_handler(&self, method: &str, path: &str) -> (r: Option<usize>)
        ensures
            r == lookup(self@.http, method@ + path@),
    {
        let key = joined(method, path);
        match self.http.get(key.as_str()) {
            Some(h) => Some(*h),
            None => None,
        }
    }

    /// The websocket handler for upgrades of `path`.
    pub fn ws_handler(&self, path: &str) -> (r: Option<usize>)
        ensures
            r == lookup(self@.ws, "WS"@ + path@),
    {
        let key = joined("WS", path);
        match self.ws.get(key.as_str()) {
            Some(h) => Some(*h),
            None => None,
        }
    }
}

} // verus!
