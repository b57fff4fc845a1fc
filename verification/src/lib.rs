//! An HTTP/1.x server core, verified with Verus.
//!
//! The library is the sans-I/O heart of a small embeddable HTTP server:
//! the request parser, the body-framing rules, the keep-alive state machine,
//! the pipelining sequencer and the response emitter, all specified over
//! byte sequences. The sockets and threads that feed bytes in and out live
//! outside the library.
#![allow(unused_imports)]
use vstd::prelude::*;

pub mod bytes;
pub mod chunks;
pub mod client;
pub mod common;
pub mod frames;
pub mod httpdate;
pub mod numbers;
pub mod pool;
pub mod queue;
pub mod readers;
pub mod request;
pub mod response;
pub mod sequential;
pub mod util;

pub use client::ClientConnection;
pub use common::{HTTPVersion, Header, HeaderField, Method, StatusCode};
pub use httpdate::HTTPDate;
pub use queue::MessagesQueue;
pub use request::{new_request, BodyReader, ReadWrite, Request, RequestCreationError};
pub use response::{Response, TransferEncoding};
pub use util::parse_header_value;

verus! {

/// Configuration of the server for SSL: the PEM-encoded certificate chain
/// and private key handed to the TLS acceptor outside the library.
pub struct SslConfig {
    /// Contains the public certificate to send to clients.
    pub certificate: Vec<u8>,
    /// Contains the private key used to decode communications.
    pub private_key: Vec<u8>,
}

} // verus!

