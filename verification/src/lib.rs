//! Client-side logic for a remote content-pinning (IPFS pinning) service.
//!
//! The library builds the HTTP requests for the three operations the
//! service offers — pin a file, pin a JSON document, unpin by content
//! hash — and interprets the responses: status validation, wire-format
//! JSON decoding, and mapping of every failure into one closed error
//! taxonomy. Issuing the requests is left to a host transport around the
//! library; everything the transport hands back is interpreted here.

pub mod client;
pub mod error;
pub mod json;
pub mod laws;
pub mod parse;
pub mod response;
pub mod ser;

pub use client::{HttpMethod, HttpRequest, PinataClient, RequestBody};
pub use error::PinataError;
pub use json::JsonValue;
pub use response::PinResponse;
