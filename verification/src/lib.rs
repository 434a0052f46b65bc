//! A minimal static-file host, split into a verified core and an unverified
//! I/O shell.
//!
//! The core is everything a connection's fate depends on: building the route
//! table from startup configuration, parsing a request line, resolving the
//! requested virtual path against the table, and assembling the bytes of a
//! successful response. Paths travel through the library as plain byte
//! strings, so every decision is stated and proved over `Seq<u8>`.

pub mod bytes;
pub mod errors;
pub mod request;
pub mod response;
pub mod routes;
