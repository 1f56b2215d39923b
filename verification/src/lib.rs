//! The core of a small streaming HTTP/1.1 client, without its sockets.
//!
//! A request goes through three steps, and each of them is a function here:
//!
//! * `url::Url::build_from_string` takes a URL apart, and
//!   `request::Request::new` makes a request for it, with its first headers;
//! * `request::Request::begin_send` gives the text that goes on the wire, once;
//! * `response::ResponseParser` reads the head of the reply byte by byte and
//!   stops at its last byte, so that the body stays in the stream, where
//!   `response::BodyProgress` counts it.
//!
//! What each function returns is stated over sequences of characters and
//! bytes. `roundtrip` shows that a URL that was read can be written and read
//! again, and `wire` that the reader recognises every head on the wire.

/// What can go wrong.
pub mod error;
/// Requests and headers.
pub mod request;
/// Replies.
pub mod response;
/// Reading what was written gives it back.
pub mod roundtrip;
/// Character sequences: searching, cutting, joining, decimal numbers.
pub mod text;
/// URLs.
pub mod url;
/// The head of a reply on the wire, and that the reader recognises it.
pub mod wire;
