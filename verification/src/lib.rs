//! A git pack-protocol server and a pluggable client transport, spoken over an
//! arbitrary bidirectional byte channel.
//!
//! The crate verifies the protocol logic itself: the pkt-line wire codec, the
//! want/have negotiation state machine, the commit-selection walk that decides
//! what goes into a pack, the side-band chunking of pack bytes, and the
//! service-request framing of the client transport. The repository itself and
//! the raw channel are outside collaborators: the server works on a plain-value
//! snapshot of the repository, and the channel is reached through a thin
//! trusted boundary.
//!
//! - [`pktline`] — the length-prefixed wire frames and their round-trip laws.
//! - [`server`] — the negotiation state machine, one session per repository.
//! - [`pack`] — which commits a pack holds, and its side-band frames.
//! - [`transport`] — the client session and its one service request.
//! - [`channel`] — the sentinel-framed channel endpoint.
//! - [`bytes`] — small byte-buffer helpers the rest shares.

use vstd::prelude::*;

pub mod bytes;
pub mod channel;
pub mod pack;
pub mod pktline;
pub mod server;
pub mod transport;

verus! {

/// A protocol-level failure: the session is not recoverable past it.
#[derive(Clone, Copy, Debug, PartialEq, Eq, Structural)]
pub enum ProtocolError {
    /// The four length bytes of a pkt-line are not hexadecimal ASCII digits.
    BadLengthHex,
    /// A pkt-line declared a nonzero length smaller than its own header.
    LengthTooSmall,
    /// A command line is too short to carry the 40-character object id it owes.
    TruncatedCommand,
    /// A `git-upload-pack` request arrived after the session had left the
    /// awaiting-request state.
    UnexpectedRequest,
    /// The client asked for a protocol version other than 1.
    UnsupportedVersion,
    /// The client finished negotiating without ever naming a wanted commit.
    MissingWant,
}

} // verus!

