//! A per-test HTTP mock server: the request parser, the mock registry that
//! decides every answer, and the response writer.
//!
//! The server's network side hands the bytes it reads to
//! [`ServerState::handle_request`] (guided by [`read_progress`]) and writes
//! back what [`MockResponse::render`] gives.

pub mod status;
pub mod text;
pub mod request;
pub mod method;
pub mod mock;
pub mod response;
pub mod laws;

pub use method::Method;
pub use mock::{MockBuilder, MockResponse, ServerState};
pub use request::{
    find_subsequence, head_end, parse_request_head, parse_request_text, read_progress,
    ReadProgress, RecordedRequest, RequestHead,
};
pub use response::server_url;
pub use status::status_reason;
