//! A small embedded web endpoint: an incremental HTTP header classifier with a
//! fixed receive buffer, static page responses, the per-connection decisions
//! of a WebSocket text-echo service, and an exact-name symbol lookup.
pub mod classifier;
pub mod error;
pub mod response;
pub mod session;
pub mod symbols;

pub use classifier::{HANDSHAKE_FIELD_MAX, HeaderReader, READ_BUF_LEN, RequestHead, Route, Step};
pub use error::{ConnectionEnd, StreamError, WebServerError, connection_end};
pub use response::{NOT_FOUND, ROOT_BODY, ROOT_HEAD, ROOT_TAIL, not_found, push_decimal, root_page};
pub use session::{EchoAction, echo_step, plain_response};
pub use symbols::resolve;
