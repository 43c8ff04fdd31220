//! Adapter between a structured IPFS HTTP API request model and a low-level
//! HTTP transport: request construction, response normalization, and a single
//! unified error type.

pub mod backend;
pub mod error;
pub mod multipart;
pub mod payload;
pub mod response;
pub mod uri;
