//! The device-size metadata protocol, run at attach time and on any future
//! resize request. The stored record is read first; this module decides,
//! from that record and the requested size, whether to keep the stored
//! size, write a new one, or fail. The protocol is grow-only: a request
//! above the stored size is written, one below it would shrink the
//! published address space and is refused, and an attach over a
//! previously grown store observes the larger stored size unchanged.

use crate::device::DeviceConfig;
use crate::device::DEFAULT_BLOCK_SIZE;
use crate::device::DEFAULT_DEVICE_SIZE;
use crate::errors::InitError;
use crate::errors::MetadataError;
use vstd::bytes::spec_u64_from_le_bytes;
use vstd::bytes::u64_from_le_bytes;
use vstd::prelude::*;

verus! {

/// What the metadata protocol decided to do with the size record.
#[derive(Clone, Copy, Debug, PartialEq, Eq, Structural)]
pub enum SizeAction {
    /// This stored size stands: nothing to write.
    Keep(u64),
    /// This size must be written to the size record.
    Write(u64),
}

/// The device size the protocol settles on when it succeeds.
pub open spec fn action_size(a: SizeAction) -> u64 {
    match a {
        SizeAction::Keep(s) => s,
        SizeAction::Write(s) => s,
    }
}

/// The device-size protocol as a function of the stored record: absent
/// means first attach and the requested size is written unconditionally; a
/// valid 8-byte record is compared against the request (equal: no-op;
/// above stored: a grow, written; below stored: a shrink, refused, since
/// reducing the published address space would orphan written blocks); any
/// other record length is corruption, fatal to initialization.
pub open spec fn upsert_model(record: Option<Seq<u8>>, desired_size: u64) -> Result<
    SizeAction,
    InitError,
> {
    match record {
        Option::None => Ok(SizeAction::Write(desired_size)),
        Option::Some(b) => {
            if b.len() != 8 {
                Err(InitError::MetadataFailure(MetadataError::Corrupted))
            } else {
                let current = spec_u64_from_le_bytes(b);
                if desired_size == current {
                    Ok(SizeAction::Keep(current))
                } else if desired_size > current {
                    Ok(SizeAction::Write(desired_size))
                } else {
                    Err(InitError::MetadataFailure(MetadataError::CannotShrink))
                }
            }
        },
    }
}

/// The size record after the decided action is carried out against a store
/// that held `record`: only a `Write` changes it.
pub open spec fn stored_after(record: Option<Seq<u8>>, r: Result<SizeAction, InitError>) -> Option<
    Seq<u8>,
> {
    match r {
        Ok(SizeAction::Write(s)) => Some(vstd::bytes::spec_u64_to_le_bytes(s)),
        _ => record,
    }
}

/// The abstract value of a size record as read from the store.
pub open spec fn record_view(record: Option<Vec<u8>>) -> Option<Seq<u8>> {
    match record {
        Option::None => None,
        Option::Some(b) => Some(b@),
    }
}

/// Decides what to do with the size record, given the record as read from
/// the store and the requested device size.
pub fn plan_upsert_device_size(record: &Option<Vec<u8>>, desired_size: u64) -> (r: Result<
    SizeAction,
    InitError,
>)
    ensures
        r == upsert_model(record_view(*record), desired_size),
{
    match record {
        Option::None => Ok(SizeAction::Write(desired_size)),
        Option::Some(b) => {
            if b.len() != 8 {
                Err(InitError::MetadataFailure(MetadataError::Corrupted))
            } else {
                let current = u64_from_le_bytes(b.as_slice());
                if desired_size == current {
                    Ok(SizeAction::Keep(current))
                } else if desired_size > current {
                    Ok(SizeAction::Write(desired_size))
                } else {
                    Err(InitError::MetadataFailure(MetadataError::CannotShrink))
                }
            }
        },
    }
}

/// The attach-time protocol with the default geometry. The default size
/// is a floor, not an exact demand: an absent record is initialized to
/// the default, a stored size below it is grown to it, and a stored size
/// above it — a grow that an earlier run carried out — stands and is
/// observed, provided it satisfies the device-size invariant (a multiple
/// of the block size within the addressable bound); a stored size that
/// violates that invariant, like a record of the wrong length, is
/// corruption, fatal to initialization.
pub open spec fn attach_model(record: Option<Seq<u8>>) -> Result<SizeAction, InitError> {
    match record {
        Option::None => Ok(SizeAction::Write(DEFAULT_DEVICE_SIZE)),
        Option::Some(b) => {
            if b.len() != 8 {
                Err(InitError::MetadataFailure(MetadataError::Corrupted))
            } else {
                let current = spec_u64_from_le_bytes(b);
                if current <= DEFAULT_DEVICE_SIZE {
                    upsert_model(record, DEFAULT_DEVICE_SIZE)
                } else if current % DEFAULT_BLOCK_SIZE == 0 && current
                    <= 0x1000_0000_0000_0000 {
                    Ok(SizeAction::Keep(current))
                } else {
                    Err(InitError::MetadataFailure(MetadataError::Corrupted))
                }
            }
        },
    }
}

/// A successful attach: the geometry the device runs with, and the action
/// the size record needs.
pub struct AttachOutcome {
    pub config: DeviceConfig,
    pub action: SizeAction,
}

/// Runs the attach-time metadata protocol. On success the cached device
/// size equals the size the protocol settled on, which is also the stored
/// size once the action is carried out; any failure here is fatal to
/// startup.
pub fn attach(record: &Option<Vec<u8>>) -> (r: Result<AttachOutcome, InitError>)
    ensures
        r is Ok <==> attach_model(record_view(*record)) is Ok,
        r matches Ok(o) ==> {
            &&& Ok::<SizeAction, InitError>(o.action) == attach_model(record_view(*record))
            &&& o.config == (DeviceConfig {
                block_size: DEFAULT_BLOCK_SIZE,
                device_size: action_size(o.action),
                read_only: false,
            })
            &&& o.config.wf()
        },
        r matches Err(e) ==> Err::<SizeAction, InitError>(e) == attach_model(
            record_view(*record),
        ),
{
    let action = match record {
        Option::None => SizeAction::Write(DEFAULT_DEVICE_SIZE),
        Option::Some(b) => {
            if b.len() != 8 {
                return Err(InitError::MetadataFailure(MetadataError::Corrupted));
            }
            let current = u64_from_le_bytes(b.as_slice());
            if current <= DEFAULT_DEVICE_SIZE {
                match plan_upsert_device_size(record, DEFAULT_DEVICE_SIZE) {
                    Ok(a) => a,
                    Err(e) => {
                        return Err(e);
                    },
                }
            } else if current % DEFAULT_BLOCK_SIZE == 0 && current <= 0x1000_0000_0000_0000 {
                SizeAction::Keep(current)
            } else {
                return Err(InitError::MetadataFailure(MetadataError::Corrupted));
            }
        },
    };
    let size = match action {
        SizeAction::Keep(s) => s,
        SizeAction::Write(s) => s,
    };
    Ok(
        AttachOutcome {
            config: DeviceConfig {
                block_size: DEFAULT_BLOCK_SIZE,
                device_size: size,
                read_only: false,
            },
            action,
        },
    )
}

} // verus!
