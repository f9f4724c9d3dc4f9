// The ways in which an operation of the patchbay fails.

use crate::identity::ConnectionId;
use crate::stream::StreamSide;
use vstd::prelude::*;

verus! {

/// A stream of a connection that refused a request.
#[derive(Clone, Copy, Debug, PartialEq, Eq, Structural)]
pub struct Refusal {
    pub id: ConnectionId,
    pub side: StreamSide,
}

/// Why an operation of the patchbay failed.
#[derive(Debug, PartialEq, Eq)]
pub enum PatchbayError {
    /// No host of the requested name is available.
    HostNotFound,
    /// The host has no device of the requested name for that side.
    DeviceNotFound(StreamSide),
    /// The device of that side offers no configuration that carries the
    /// requested channel at the sample rate.
    NoSupportedConfig(StreamSide),
    /// The transfer buffer would hold no sample at all, or more than a
    /// buffer can.
    InvalidCapacity,
    /// The transfer buffer could not be allocated.
    BufferUnavailable,
    /// The stream of that side refused to start.
    StreamStartError(StreamSide),
    /// The stream of that side refused to stop.
    StreamStopError(StreamSide),
    /// Streams refused to start while all connections were started.
    StartRefused(Vec<Refusal>),
    /// Streams refused to stop while all connections were halted.
    StopRefused(Vec<Refusal>),
    /// The patchbay holds no connection of that identity.
    ConnectionNotFound(ConnectionId),
    /// The patchbay already holds a connection of that identity.
    IdentityInUse(ConnectionId),
    /// The text is no connection identity.
    InvalidIdentity,
    /// A persisted connection could not be brought back, and why.
    SerializationError(ConnectionId, Box<PatchbayError>),
    /// The command is none of the patchbay's.
    UnknownCommand,
    /// The command came with fewer arguments than it needs.
    MissingArgument,
    /// The text is no channel number.
    InvalidChannel,
}

} // verus!
