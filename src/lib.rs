//! A small HTTP/1.1 server core: request parsing, route selection,
//! handlers and response framing, with optional gzip negotiation.

pub mod errors;
pub mod text;
pub mod scan;
pub mod request;
pub mod response;
pub mod handlers;
pub mod router;
pub mod utils;
