# macella

A dead simple web server framework, with its request parsing, response
building, routing and websocket handshake verified with Verus.

- `src/` is the verified library:
  - `text.rs`: searching and splitting character sequences (`split`,
    `split_once`, `split_whitespace`), decimal notation;
  - `field_map.rs`: a string-keyed map that keeps insertion order;
  - `request.rs`: parsing the bytes read from a connection into a request,
    and its header and query fields;
  - `response.rs`: responses and the text written for them;
  - `router.rs`: the routing table from method and path to handler;
  - `service.rs`: the websocket accept key and the decision taken for each
    request;
  - `status.rs`: status codes and reason phrases.
- `app/` is the server around it: listening, reading, running the async
  handlers and writing responses (tokio).
- `tests/` runs the library on concrete requests and responses.
