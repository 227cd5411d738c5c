//! A connected peer, as the registry sees it: the room it belongs to, its
//! role, and the write side of its outbound queue.

use vstd::prelude::*;

verus! {

/// The role a peer plays in its room.
#[derive(Clone, Copy, Debug, PartialEq, Eq, Structural)]
pub enum PeerType {
    Server,
    Viewer,
}

/// One admitted peer: a host after `start`, a viewer after a successful
/// `join`.
pub struct Peer {
    pub room: String,
    pub sender: futures_channel::mpsc::UnboundedSender<String>,
    pub peer_type: PeerType,
}

/// The registry-relevant part of a peer; the sender handle is opaque.
#[verifier::ext_equal]
pub ghost struct PeerV {
    pub room: Seq<char>,
    pub peer_type: PeerType,
}

impl View for Peer {
    type V = PeerV;

    open spec fn view(&self) -> PeerV {
        PeerV { room: self.room@, peer_type: self.peer_type }
    }
}

impl DeepView for Peer {
    type V = PeerV;

    open spec fn deep_view(&self) -> PeerV {
        self.view()
    }
}

} // verus!
