//! Message framing, parsing and routing rules of a webhook tunnel: a server
//! that accepts webhook requests and a client that forwards them to a local
//! target over a websocket tunnel.

pub mod bytes;
pub mod client_config;
pub mod config;
pub mod error;
pub mod forward;
pub mod id;
pub mod message;
pub mod number;
pub mod parser;
pub mod roundtrip;
pub mod server_config;
pub mod state;
pub mod text;
pub mod token;
pub mod tunnel;
pub mod utils;
pub mod web;

pub use error::Error;
