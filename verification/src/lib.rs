//! Verified request-dispatch core of a web-serving framework.
//!
//! The library holds the pure logic of the framework: the route table and
//! its matcher, the handler-signature cache, query/body/argument binding
//! with its fixed precedence, the middleware chain, response normalization,
//! error classification, and the WebSocket session model. The transport
//! (HTTP framing, sockets) and the embedded-interpreter calls live outside
//! the library and drive it through plain values.

pub mod binding;
pub mod dispatch;
pub mod jsonio;
pub mod middleware;
pub mod multipart;
pub mod params;
pub mod request;
pub mod response;
pub mod router;
pub mod server;
pub mod signature;
pub mod text;
pub mod websocket;
