//! An incremental HTTP/1.1 request parser.
//!
//! Bytes arrive in arbitrary fragments and are held in a rope
//! ([`helpers::bytes::FragmentedBytes`]). A [`RequestBuilder`] consumes them
//! phase by phase (leading empty lines, request line, header block, body) and
//! hands out a [`Request`] once the message is complete.

pub mod app;
pub mod connection;
pub mod errors;
pub mod grammar;
pub mod headers;
pub mod helpers;
pub mod request;
pub mod response;
pub mod status;
pub mod text;

pub use crate::app::App;
pub use crate::errors::Error;
pub use crate::request::{Request, RequestBuilder};
