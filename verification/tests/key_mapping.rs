//! Block-to-key mapping: fixed-width little-endian keys, the reserved
//! metadata region at the low end of the key space, and injectivity.

use slatedb_nbd::adapter::read_keys;
use slatedb_nbd::keys::block_to_key;
use slatedb_nbd::keys::size_record_key;
use slatedb_nbd::keys::RESERVED_BLOCKS;
use slatedb_nbd::keys::SIZE_BLOCK;
use slatedb_nbd::metadata::attach;

#[test]
fn test_reserved_region_constants() {
    assert_eq!(RESERVED_BLOCKS, 8);
    assert_eq!(SIZE_BLOCK, 0);
}

#[test]
fn test_block_key_is_offset_little_endian() {
    assert_eq!(block_to_key(0), 8u64.to_le_bytes().to_vec());
    assert_eq!(block_to_key(1), 9u64.to_le_bytes().to_vec());
    assert_eq!(block_to_key(1000), 1008u64.to_le_bytes().to_vec());
    assert_eq!(block_to_key(u64::MAX - 8), u64::MAX.to_le_bytes().to_vec());
}

#[test]
fn test_size_record_key_is_reserved_key_zero() {
    assert_eq!(size_record_key(), vec![0u8; 8]);
    assert_eq!(size_record_key(), SIZE_BLOCK.to_le_bytes().to_vec());
}

#[test]
fn test_keys_do_not_collide() {
    let mut seen = std::collections::HashSet::new();
    assert!(seen.insert(size_record_key()));
    for block in 0..1000u64 {
        assert!(seen.insert(block_to_key(block)), "key collision at block {}", block);
    }
}

#[test]
fn test_read_plan_covers_consecutive_blocks() {
    let cfg = attach(&None).unwrap().config;

    let keys = read_keys(&cfg, 8192, 12288).unwrap();
    assert_eq!(keys.len(), 3);
    assert_eq!(keys[0], block_to_key(2));
    assert_eq!(keys[1], block_to_key(3));
    assert_eq!(keys[2], block_to_key(4));

    // An unaligned length still covers the partial trailing block.
    let keys = read_keys(&cfg, 0, 4097).unwrap();
    assert_eq!(keys.len(), 2);
    assert_eq!(keys[0], block_to_key(0));
    assert_eq!(keys[1], block_to_key(1));

    let keys = read_keys(&cfg, 0, 0).unwrap();
    assert!(keys.is_empty());
}
