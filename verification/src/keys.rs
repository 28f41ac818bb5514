//! Block-address to storage-key mapping. A fixed reserved region of
//! low-numbered keys precedes the data blocks: logical block `i` lives at
//! key `RESERVED_BLOCKS + i`, encoded as a fixed 8-byte little-endian
//! integer, and the device-size record lives at reserved key `SIZE_BLOCK`.

use vstd::bytes::lemma_auto_spec_u64_to_from_le_bytes;
use vstd::bytes::spec_u64_to_le_bytes;
use vstd::bytes::u64_to_le_bytes;
use vstd::prelude::*;

verus! {

/// Number of low-numbered keys reserved for metadata, preceding the data
/// blocks.
pub const RESERVED_BLOCKS: u64 = 8;

/// The reserved key that holds the device size as an 8-byte little-endian
/// integer.
pub const SIZE_BLOCK: u64 = 0;

/// The storage key of logical data block `block`.
pub open spec fn spec_data_key(block: int) -> Seq<u8> {
    spec_u64_to_le_bytes((block + RESERVED_BLOCKS) as u64)
}

/// The storage key of the device-size record.
pub open spec fn spec_size_record_key() -> Seq<u8> {
    spec_u64_to_le_bytes(SIZE_BLOCK)
}

/// Maps a logical block index to its storage key.
pub fn block_to_key(block: u64) -> (key: Vec<u8>)
    requires
        block + RESERVED_BLOCKS <= u64::MAX,
    ensures
        key@ == spec_data_key(block as int),
        key@.len() == 8,
{
    u64_to_le_bytes(block + RESERVED_BLOCKS)
}

/// The storage key under which the device size is persisted.
pub fn size_record_key() -> (key: Vec<u8>)
    ensures
        key@ == spec_size_record_key(),
        key@.len() == 8,
{
    u64_to_le_bytes(SIZE_BLOCK)
}

/// The little-endian key encoding is injective, so distinct key indices
/// never collide.
pub proof fn lemma_le_bytes_injective(x: u64, y: u64)
    requires
        x != y,
    ensures
        spec_u64_to_le_bytes(x) != spec_u64_to_le_bytes(y),
{
    lemma_auto_spec_u64_to_from_le_bytes();
}

/// Distinct logical blocks map to distinct storage keys.
pub proof fn lemma_data_keys_distinct(b1: int, b2: int)
    requires
        0 <= b1,
        0 <= b2,
        b1 + RESERVED_BLOCKS <= u64::MAX,
        b2 + RESERVED_BLOCKS <= u64::MAX,
        b1 != b2,
    ensures
        spec_data_key(b1) != spec_data_key(b2),
{
    lemma_le_bytes_injective((b1 + RESERVED_BLOCKS) as u64, (b2 + RESERVED_BLOCKS) as u64);
}

} // verus!
