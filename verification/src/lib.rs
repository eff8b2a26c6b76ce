//! A small web server framework: HTTP request parsing, response building,
//! path routing, and the websocket handshake.
pub mod field_map;
pub mod request;
pub mod response;
pub mod router;
pub mod service;
pub mod status;
pub mod text;

pub use field_map::FieldMap;
pub use request::{ParseError, Request};
pub use response::Response;
pub use router::Router;
pub use service::{Action, Service, SocketBuffer};
pub use status::Status;
