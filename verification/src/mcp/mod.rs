//! Model Context Protocol client: messages, configuration, tools and the decisions of its
//! transports.
pub mod client;
pub mod config;
pub mod config_laws;
pub mod deferred;
pub mod error;
pub mod exchange_laws;
pub mod loader;
pub mod manager;
pub mod pool;
pub mod protocol;
pub mod protocol_laws;
pub mod tool;
pub mod tool_search;
pub mod tool_search_laws;
pub mod transport;
pub mod transport_http;
