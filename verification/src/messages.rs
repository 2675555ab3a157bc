//! Raw messages between the game's mod and the proxy.
use vstd::prelude::*;
use crate::basic_types::PeerId;

verus! {

/// A text key with a text value.
pub struct ProxyKV {
    pub key: String,
    pub value: String,
}

/// A numbered key with a binary value.
pub struct ProxyKVBin {
    pub key: u8,
    pub value: Vec<u8>,
}

/// A message of a mod, from or to a peer.
pub struct ModMessage {
    pub peer: PeerId,
    pub value: Vec<u8>,
}

} // verus!
