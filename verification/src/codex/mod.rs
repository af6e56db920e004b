//! The Responses backend: requests, headers and the event stream.
pub mod headers;
pub mod input;
pub mod input_laws;
pub mod items;
pub mod laws;
pub mod read_rewrite;
pub mod reducer;
pub mod request;
pub mod request_laws;
pub mod sse;
pub mod stream_laws;
pub mod tools;
