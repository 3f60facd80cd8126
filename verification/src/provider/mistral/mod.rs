//! The Mistral driver: request bodies, response parsing and stream accumulation.
pub mod driver;
pub mod request;
pub mod request_laws;
pub mod response;
pub mod response_laws;
pub mod stream;
pub mod stream_laws;
pub mod wire;
pub mod wire_laws;
