//! A minimal HTTP/1.1 core: a strict byte-level request parser, a response builder with
//! content-type inference and negotiated gzip compression, a route table, and the
//! server's lifecycle state machine.

pub mod admission;
pub mod body;
pub mod headers;
pub mod lifecycle;
pub mod request;
pub mod response;
pub mod router;
pub mod text;
