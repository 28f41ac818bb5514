//! Error taxonomy: the block protocol's closed error vocabulary, the local
//! model of the storage engine's failure categories, and the total mapping
//! between the two.

use vstd::prelude::*;

verus! {

/// The subset of the block protocol's error vocabulary that the adapter
/// produces. Unrecognized engine failures map to `InvalidArgument` rather
/// than leaking engine-specific detail.
#[derive(Clone, Copy, Debug, PartialEq, Eq, Structural)]
pub enum ProtocolError {
    IO,
    CommandNotSupported,
    InvalidArgument,
}

/// Why a byte offset was rejected before any store access.
#[derive(Clone, Copy, Debug, PartialEq, Eq, Structural)]
pub enum AddressError {
    /// The offset is not a multiple of the block size.
    Unaligned,
    /// The offset falls at or beyond the addressable region.
    OutOfRange,
}

/// The storage engine's failure categories, as the adapter distinguishes
/// them: an I/O failure (disk, network, object store), an operation the
/// engine does not support, or anything else.
#[derive(Clone, Copy, Debug, PartialEq, Eq, Structural)]
pub enum EngineError {
    Io,
    Unsupported,
    Other,
}

/// A violation of the device-size metadata protocol.
#[derive(Clone, Copy, Debug, PartialEq, Eq, Structural)]
pub enum MetadataError {
    /// The stored size record has a length other than 8 bytes.
    Corrupted,
    /// The request would shrink the published address space.
    CannotShrink,
}

/// A fatal failure while attaching the device to its backing store.
#[derive(Clone, Copy, Debug, PartialEq, Eq, Structural)]
pub enum InitError {
    /// The storage engine itself failed during initialization.
    SlateDBError(EngineError),
    /// The metadata protocol was violated.
    MetadataFailure(MetadataError),
}

/// The single source of truth for the engine-failure-to-protocol-error
/// mapping: I/O failures surface as `IO`, unsupported operations as
/// `CommandNotSupported`, and everything else as `InvalidArgument`.
pub open spec fn spec_engine_to_protocol(e: EngineError) -> ProtocolError {
    match e {
        EngineError::Io => ProtocolError::IO,
        EngineError::Unsupported => ProtocolError::CommandNotSupported,
        EngineError::Other => ProtocolError::InvalidArgument,
    }
}

/// Maps an engine failure category onto the protocol's error vocabulary,
/// totally: every category has exactly one protocol error.
pub fn engine_error_to_protocol_error(e: EngineError) -> (r: ProtocolError)
    ensures
        r == spec_engine_to_protocol(e),
{
    match e {
        EngineError::Io => ProtocolError::IO,
        EngineError::Unsupported => ProtocolError::CommandNotSupported,
        EngineError::Other => ProtocolError::InvalidArgument,
    }
}

} // verus!
