//! Identifiers, the private point-to-point protocol messages, and the
//! library's error kinds.

use vstd::prelude::*;

verus! {

/// Identifier of a network participant.
///
/// The transport derives its own opaque, cryptographically unique peer
/// identity; the surrounding process keeps those identities in one-to-one
/// correspondence with these plain handles, so that within the library two
/// handles are equal exactly when they denote the same participant.
#[derive(Clone, Copy, PartialEq, Eq, Structural, Debug, Hash)]
pub struct PeerId {
    pub id: u64,
}

/// The kind of a private point-to-point request.
#[derive(Clone, Copy, PartialEq, Eq, Structural, Debug)]
pub enum RequestType {
    Join,
    Accept,
    Reject,
    Message,
    FileRequest,
    Leave,
}

/// A private request exchanged between two peers' negotiators. Created by
/// the sender's command handler, consumed exactly once by the receiver's
/// event handler.
#[derive(Clone, Debug)]
pub struct PrivateRequest {
    pub request_type: RequestType,
    pub message: Option<String>,
    pub filename: Option<String>,
}

/// The synchronous acknowledgment to a `PrivateRequest`. `file_bytes` is
/// populated only when answering a file request with the file's contents;
/// an absent or empty payload signals failure.
#[derive(Clone, Debug)]
pub struct PrivateResponse {
    pub ack: bool,
    pub file_bytes: Option<Vec<u8>>,
}

/// Why an operation was refused.
#[derive(Clone, Copy, PartialEq, Eq, Structural, Debug)]
pub enum NetworkError {
    /// The room name is already in the local room list.
    AlreadyExists,
    /// No peer carries the requested nickname, or no counterpart is set.
    NotFound,
    /// A private session is already pending or active.
    AlreadyConnected,
}

} // verus!
