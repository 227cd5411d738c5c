//! Error kinds surfaced by the hub's core.  All of them are non-fatal to the
//! connection that provoked them.

use vstd::prelude::*;

verus! {

/// Why a registry operation or a frame dispatch was refused.
#[derive(Clone, Copy, Debug, PartialEq, Eq, Structural)]
pub enum SignalError {
    /// The frame was not a well-formed protocol message.
    MalformedFrame,
    /// A `start` named a room that is already live.
    DeviceOnline,
    /// A `join` named a room that is not live.
    DeviceOffline,
    /// A forward or a `leave` named a peer that is not connected.
    PeerNotFound,
}

impl SignalError {
    /// The textual reason carried by negative responses such as
    /// `join_declined`.
    pub fn reason(&self) -> (r: String)
        ensures
            r@ == self.spec_reason(),
    {
        match self {
            SignalError::MalformedFrame => String::from_str("Malformed frame"),
            SignalError::DeviceOnline => String::from_str("Device is currently online"),
            SignalError::DeviceOffline => String::from_str("Device is offline"),
            SignalError::PeerNotFound => String::from_str("Peer does not exist"),
        }
    }

    pub open spec fn spec_reason(self) -> Seq<char> {
        match self {
            SignalError::MalformedFrame => "Malformed frame"@,
            SignalError::DeviceOnline => "Device is currently online"@,
            SignalError::DeviceOffline => "Device is offline"@,
            SignalError::PeerNotFound => "Peer does not exist"@,
        }
    }
}

} // verus!
