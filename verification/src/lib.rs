//! Core of a minimal media-archive server.
//!
//! Clients upload files, list what is stored, stream a stored file back in
//! chunks, and delete a stored file. This crate holds the verified core: the
//! catalog of stored files, the chunked transfer pipeline, and the four
//! request operations with their mapping to HTTP status codes. The transport
//! layer (routing, CORS, the actual network and filesystem I/O) is a thin
//! unverified adapter around these operations.

pub mod archive;
pub mod chunk;
pub mod handlers;
pub mod laws;
pub mod types;
