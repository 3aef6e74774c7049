//! Requests, and how they are received.

pub mod laws;
pub mod partial;
pub mod request;
pub mod request_body;
pub mod request_body_builder;
pub mod request_builder;
pub mod request_uri;

pub use request::{Request, RequestView};
pub use request_body::{RequestBody, RequestBodyView};
pub use request_body_builder::{
    BodyRun, BodyView, ChunkState, ChunkStateView, ChunkedBody, PartialRequestBody,
    RequestBodyBuilder,
};
pub use request_builder::{
    BuilderView, HttpMethods, HttpMethodsView, HttpVersion, Phase, Progress, RequestBuilder,
};
pub use request_uri::RequestUri;
