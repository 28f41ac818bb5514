//! Device geometry and the address validator: the fixed block size, the
//! cached device size, alignment and range checks, and the ceiling
//! conversion from byte lengths to whole-block counts.

use crate::errors::AddressError;
use crate::errors::ProtocolError;
use crate::keys::RESERVED_BLOCKS;
use vstd::prelude::*;

verus! {

/// Fixed block size in bytes.
pub const DEFAULT_BLOCK_SIZE: u64 = 4096;

/// Device size written on first attach, in bytes (10 GiB).
pub const DEFAULT_DEVICE_SIZE: u64 = 10 * 1024 * 1024 * 1024;

/// The device as the adapter sees it: a fixed block size, the cached
/// device size, and the read-only flag (reserved, currently always
/// false).
#[derive(Clone, Copy, Debug, PartialEq, Eq, Structural)]
pub struct DeviceConfig {
    pub block_size: u64,
    pub device_size: u64,
    pub read_only: bool,
}

impl DeviceConfig {
    /// Well-formed geometry: a positive block size that fits the
    /// protocol's 32-bit block-size fields, a device size that is a
    /// multiple of it, and headroom so no address computation can
    /// overflow 64 bits.
    pub open spec fn wf(self) -> bool {
        &&& 1 <= self.block_size <= u32::MAX
        &&& self.device_size <= 0x1000_0000_0000_0000
        &&& self.device_size % self.block_size == 0
    }

    /// One byte past the last addressable byte: the data region plus the
    /// reserved region's worth of headroom.
    pub open spec fn addr_limit(self) -> int {
        self.device_size + RESERVED_BLOCKS * self.block_size
    }

    pub open spec fn addr_aligned(self, address: u64) -> bool {
        address as int % self.block_size as int == 0
    }

    pub open spec fn addr_in_range(self, address: u64) -> bool {
        (address as int) < self.addr_limit()
    }

    pub open spec fn addr_valid(self, address: u64) -> bool {
        self.addr_aligned(address) && self.addr_in_range(address)
    }

    /// Rejects an offset that is not block-aligned, or that falls at or
    /// beyond the addressable region; accepts every other offset.
    pub fn validate_address(&self, address: u64) -> (r: Result<(), AddressError>)
        requires
            self.wf(),
        ensures
            r is Ok <==> self.addr_valid(address),
            r == Err::<(), AddressError>(AddressError::Unaligned) <==> !self.addr_aligned(
                address,
            ),
            r == Err::<(), AddressError>(AddressError::OutOfRange) <==> (self.addr_aligned(address)
                && !self.addr_in_range(address)),
    {
        if address % self.block_size != 0 {
            return Err(AddressError::Unaligned);
        }
        if address >= self.device_size + RESERVED_BLOCKS * self.block_size {
            return Err(AddressError::OutOfRange);
        }
        Ok(())
    }

    /// The validator as every block operation uses it: both failure modes
    /// surface as the protocol's command-not-supported error.
    pub fn check_address_valid(&self, address: u64) -> (r: Result<(), ProtocolError>)
        requires
            self.wf(),
        ensures
            r is Ok <==> self.addr_valid(address),
            !self.addr_valid(address) ==> r == Err::<(), ProtocolError>(
                ProtocolError::CommandNotSupported,
            ),
    {
        match self.validate_address(address) {
            Ok(()) => Ok(()),
            Err(_) => Err(ProtocolError::CommandNotSupported),
        }
    }

    /// First logical block covered by a byte offset.
    pub open spec fn spec_start_block(self, offset: u64) -> int {
        offset as int / self.block_size as int
    }

    /// Whole blocks needed to cover `length` bytes: ceiling division, since
    /// requested lengths need not be block-aligned while storage operates
    /// on whole blocks.
    pub open spec fn spec_blocks_needed(self, length: int) -> int {
        (length + self.block_size - 1) / self.block_size as int
    }

    pub fn start_block(&self, offset: u64) -> (r: u64)
        requires
            self.wf(),
        ensures
            r == self.spec_start_block(offset),
    {
        offset / self.block_size
    }

    pub fn blocks_needed(&self, length: u32) -> (r: u64)
        requires
            self.wf(),
        ensures
            r == self.spec_blocks_needed(length as int),
    {
        (length as u64 + self.block_size - 1) / self.block_size
    }

    /// Minimum, optimal and maximum block size are all the one fixed
    /// block size: arbitrary or negotiated block sizes are unsupported.
    pub fn get_block_size(&self) -> (r: (u32, u32, u32))
        requires
            self.wf(),
        ensures
            r.0 == self.block_size,
            r.1 == self.block_size,
            r.2 == self.block_size,
    {
        let bs = self.block_size as u32;
        (bs, bs, bs)
    }

    pub fn get_device_size(&self) -> (r: u64)
        ensures
            r == self.device_size,
    {
        self.device_size
    }

    pub fn get_read_only(&self) -> (r: bool)
        ensures
            r == self.read_only,
    {
        self.read_only
    }
}

/// The independent capabilities the device advertises.
#[derive(Clone, Copy, Debug, PartialEq, Eq, Structural)]
pub struct Features {
    pub send_flush: bool,
    pub send_fua: bool,
    pub send_trim: bool,
    pub send_write_zeroes: bool,
    pub can_multi_conn: bool,
    pub send_resize: bool,
    pub send_cache: bool,
    pub block_status: bool,
}

/// Advertised capabilities: flush, FUA, trim, write-zeroes and
/// multi-connection are supported; resize, caching hints and block-status
/// queries are not.
pub fn get_features() -> (f: Features)
    ensures
        f.send_flush,
        f.send_fua,
        f.send_trim,
        f.send_write_zeroes,
        f.can_multi_conn,
        !f.send_resize,
        !f.send_cache,
        !f.block_status,
{
    Features {
        send_flush: true,
        send_fua: true,
        send_trim: true,
        send_write_zeroes: true,
        can_multi_conn: true,
        send_resize: false,
        send_cache: false,
        block_status: false,
    }
}

} // verus!
