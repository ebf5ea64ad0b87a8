//! The core of a minimal HTTP/1.1 server: reading a request's header block
//! line by line, parsing it, routing it to a handler, and rendering the
//! response as exact bytes. Each connection carries one exchange.
pub mod connection;
pub mod request;
pub mod response;
pub mod server;
pub mod wire;
