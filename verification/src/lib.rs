//! A verified HTTP/1.1 message core: a request-line and header parser, a
//! case-insensitive multi-value header container, and a response serializer
//! that produces the exact wire bytes.

pub mod date;
pub mod headers;
pub mod method;
pub mod query_string;
pub mod request;
pub mod response;
pub mod status;
pub mod strutil;
