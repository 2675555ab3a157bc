//! The common types of the peer-to-peer networking layer.
use vstd::prelude::*;
use crate::text::{decimal, decimal_u64};

verus! {

/// Per-peer settings. Peers that are connected to the same host, as well as the
/// host itself, should have the same settings.
#[derive(Debug, Clone, Copy, PartialEq, Eq, Structural)]
pub struct Settings {}

impl Default for Settings {
    fn default() -> (r: Self) {
        Settings {}
    }
}

/// Tells how reliable a message is.
#[derive(Debug, Clone, Copy, PartialEq, Eq, Structural)]
pub enum Reliability {
    /// Message will be delivered at most once.
    Unreliable,
    /// Message will be resent until its arrival is confirmed.
    /// Will be delivered at most once.
    Reliable,
}

impl Reliability {
    pub fn from_reliability_bool(reliable: bool) -> (r: Reliability)
        ensures
            reliable ==> r == Reliability::Reliable,
            !reliable ==> r == Reliability::Unreliable,
    {
        if reliable {
            Reliability::Reliable
        } else {
            Reliability::Unreliable
        }
    }
}

/// A value which refers to a specific peer. Peer 0 is always the host.
#[derive(Debug, Clone, Copy, Hash, PartialEq, Eq, Structural)]
pub struct PeerId(pub u16);

impl PeerId {
    /// The host.
    pub fn host() -> (r: PeerId)
        ensures
            r.0 == 0,
    {
        PeerId(0)
    }

    /// The id in decimal.
    pub fn to_string(&self) -> (r: String)
        ensures
            r@ == decimal(self.0 as nat),
    {
        decimal_u64(self.0 as u64)
    }
}

/// Where a message goes.
#[derive(Debug, Clone, Copy, PartialEq, Eq, Structural)]
pub enum Destination {
    One(PeerId),
    Broadcast,
}

impl Destination {
    /// Whether the message goes to every peer.
    pub fn is_broadcast(self) -> (r: bool)
        ensures
            r == (self is Broadcast),
    {
        match self {
            Destination::Broadcast => true,
            Destination::One(_) => false,
        }
    }

    /// The one peer the message goes to, if it goes to one.
    pub fn to_one(self) -> (r: Option<PeerId>)
        ensures
            r == (match self {
                Destination::One(p) => Some(p),
                Destination::Broadcast => None,
            }),
    {
        match self {
            Destination::One(peer_id) => Some(peer_id),
            Destination::Broadcast => None,
        }
    }
}

/// Possible network events.
pub enum NetworkEvent {
    /// A new peer has connected.
    PeerConnected(PeerId),
    /// Peer has disconnected.
    PeerDisconnected(PeerId),
    /// Message has been received.
    Message(Message),
}

/// A message received from a peer.
pub struct Message {
    /// Original peer who sent the message.
    pub src: PeerId,
    /// The data that has been sent.
    pub data: Vec<u8>,
}

/// Current peer state.
#[derive(Debug, Clone, Copy, PartialEq, Eq, Structural)]
pub enum PeerState {
    /// Waiting for connection. Switches to `Connected` right after the id from the
    /// host has been acquired; hosts switch to `Connected` basically instantly.
    PendingConnection,
    /// Connected to host and ready to send and receive messages.
    Connected,
    /// No longer connected, won't reconnect.
    Disconnected,
}

impl Default for PeerState {
    fn default() -> (r: Self)
        ensures
            r == PeerState::PendingConnection,
    {
        PeerState::PendingConnection
    }
}

/// The text shown for a peer state.
pub open spec fn peer_state_text(s: PeerState) -> Seq<char> {
    match s {
        PeerState::PendingConnection => "Connection pending..."@,
        PeerState::Connected => "Connected"@,
        PeerState::Disconnected => "Disconnected"@,
    }
}

impl PeerState {
    /// The text shown for the state.
    pub fn to_string(&self) -> (r: String)
        ensures
            r@ == peer_state_text(*self),
    {
        let t = match self {
            PeerState::PendingConnection => "Connection pending...",
            PeerState::Connected => "Connected",
            PeerState::Disconnected => "Disconnected",
        };
        t.to_owned()
    }
}

} // verus!
