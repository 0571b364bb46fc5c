//! Message framing and parsing for a JSON-RPC 2.0 protocol carried over
//! `Content-Length` header blocks, as used by editor and tooling protocols.
//!
//! The crate converts between raw byte streams and three typed message kinds
//! (request, notification, response) and back. Header scanning, payload
//! extraction and message classification are verified; the generic JSON codec
//! is the external collaborator `serde_json`, reached through a small trusted
//! boundary in [`json`].

pub mod error;
pub mod helpers;
pub mod json;
pub mod message;
pub mod notification;
pub mod request;
pub mod response;
pub mod stream;

pub use error::Error;
pub use message::Message;
pub use notification::Notification;
pub use request::Request;
pub use response::Response;
