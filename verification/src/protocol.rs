//! The wire protocol between a peer and the relay: what a peer sends, what the relay
//! sends back. The JSON framing (tagged by `"type"`) is applied at the socket edge.

use vstd::prelude::*;

verus! {

/// A peer's identity within a room, assigned by the relay on join, never supplied by the
/// peer itself. Holds the 128-bit value of the relay-assigned UUID.
#[derive(Debug, Clone, Copy, PartialEq, Eq, Hash, Structural)]
pub struct PeerId(pub u128);

/// What a peer sends to the relay.
#[derive(Debug)]
pub enum ClientMessage {
    /// Join (or move to) a room by name.
    Join { room: String },
    /// An SDP offer for `to`, forwarded verbatim.
    Offer { to: PeerId, sdp: String },
    /// An SDP answer for `to`, forwarded verbatim.
    Answer { to: PeerId, sdp: String },
    /// One ICE candidate for `to`, forwarded verbatim.
    IceCandidate { to: PeerId, candidate: String },
}

/// What the relay sends to a peer.
#[derive(Debug)]
pub enum ServerMessage {
    /// Sent right after a successful `Join`: this connection's own ID, plus every peer
    /// already in the room.
    Joined { peer_id: PeerId, peers: Vec<PeerId> },
    /// A peer joined the room this connection is in.
    PeerJoined { peer_id: PeerId },
    /// A peer left the room this connection is in.
    PeerLeft { peer_id: PeerId },
    Offer { from: PeerId, sdp: String },
    Answer { from: PeerId, sdp: String },
    IceCandidate { from: PeerId, candidate: String },
    Error { message: String },
}

/// One message for one peer: what the relay's socket side sends out.
#[derive(Debug)]
pub struct Delivery {
    pub to: PeerId,
    pub message: ServerMessage,
}

} // verus!
