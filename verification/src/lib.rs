//! A minimal HTTP/1.1 protocol engine: request decoding, path routing, encoding
//! negotiation and response encoding.
//!
//! The engine works on values and leaves sockets and files to its caller. A
//! connection is served in five steps:
//!
//! 1. [`request::Request::is_complete`] says when enough bytes have arrived, and
//!    [`request::Request::parse`] decodes them.
//! 2. [`router::Router::get`] leads from the path of the request to a handler
//!    and to what the pattern segments of the route captured.
//! 3. [`routes::dispatch`] runs the handler behind its guards. What it decides is
//!    an [`routes::Action`]: a response, or a file to read or write first.
//! 4. The response carries the content encoding that [`negotiation::negotiate`]
//!    picks from the request's `Accept-Encoding` header.
//! 5. [`response::Response::encode`] turns the response into bytes.
//!
//! [`router::Router::handle`] does steps 2 and 3 in one call.
//!
//! Every function states what it returns over `Seq`-valued views of its
//! arguments. The laws that hold between functions are proof functions beside
//! them; [`wire`] proves that decoding a written request gives the request back.

pub mod decimal;
pub mod error;
pub mod fields;
pub mod negotiation;
pub mod path;
pub mod prelude;
pub mod request;
pub mod response;
pub mod router;
pub mod routes;
pub mod server;
pub mod text;
pub mod trusted;
pub mod unicode;
pub mod wire;
