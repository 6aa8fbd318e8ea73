//! A minimal HTTP/1.1 protocol core: request parsing, route dispatch, and
//! response serialization, all on byte sequences.
//!
//! The surrounding server (socket accept loop, reads, writes, filesystem
//! access) lives outside this library and hands it plain byte buffers.

pub mod bytes;
pub mod laws;
pub mod request;
pub mod response;
pub mod router;
