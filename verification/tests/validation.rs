//! Address validation, corruption handling and the error vocabulary at
//! the adapter's edge.

use slatedb_nbd::adapter;
use slatedb_nbd::device::get_features;
use slatedb_nbd::device::DeviceConfig;
use slatedb_nbd::device::DEFAULT_BLOCK_SIZE;
use slatedb_nbd::device::DEFAULT_DEVICE_SIZE;
use slatedb_nbd::errors::AddressError;
use slatedb_nbd::errors::ProtocolError;
use slatedb_nbd::keys::RESERVED_BLOCKS;
use slatedb_nbd::metadata::attach;

fn test_config() -> DeviceConfig {
    attach(&None).expect("fresh attach must succeed").config
}

#[test]
fn test_unaligned_offset_rejected_everywhere() {
    let cfg = test_config();
    let data = vec![0x42; 4096];

    for offset in [1u64, 7, 100, 4095, 4097, 12289] {
        assert_eq!(
            adapter::read_keys(&cfg, offset, 4096),
            Err(ProtocolError::CommandNotSupported)
        );
        assert_eq!(
            adapter::read(&cfg, offset, 4096, &Vec::new()),
            Err(ProtocolError::CommandNotSupported)
        );
        assert_eq!(
            adapter::write(&cfg, offset, false, &data),
            Err(ProtocolError::CommandNotSupported)
        );
        assert_eq!(
            adapter::trim(&cfg, offset, 4096, false).map(|p| p.keys),
            Err(ProtocolError::CommandNotSupported)
        );
        assert_eq!(
            adapter::write_zeroes(&cfg, offset, 4096, false).map(|p| p.keys),
            Err(ProtocolError::CommandNotSupported)
        );
    }
}

#[test]
fn test_out_of_range_offset_rejected() {
    let cfg = test_config();
    let limit = DEFAULT_DEVICE_SIZE + RESERVED_BLOCKS * DEFAULT_BLOCK_SIZE;

    assert!(adapter::read_keys(&cfg, limit, 1).is_err());
    assert!(adapter::read_keys(&cfg, limit + 4096, 1).is_err());
    // The last aligned offset below the limit is still addressable.
    assert!(adapter::read_keys(&cfg, limit - DEFAULT_BLOCK_SIZE, 1).is_ok());
}

#[test]
fn test_validate_address_distinguishes_failures() {
    let cfg = test_config();
    let limit = DEFAULT_DEVICE_SIZE + RESERVED_BLOCKS * DEFAULT_BLOCK_SIZE;

    assert_eq!(cfg.validate_address(0), Ok(()));
    assert_eq!(cfg.validate_address(4096), Ok(()));
    assert_eq!(cfg.validate_address(3), Err(AddressError::Unaligned));
    assert_eq!(cfg.validate_address(limit), Err(AddressError::OutOfRange));
    assert_eq!(
        cfg.validate_address(limit + 1),
        Err(AddressError::Unaligned)
    );
}

#[test]
fn test_write_length_must_be_whole_blocks() {
    let cfg = test_config();

    for len in [1usize, 100, 4095, 4097, 8191] {
        let data = vec![0x42; len];
        assert_eq!(
            adapter::write(&cfg, 0, false, &data),
            Err(ProtocolError::InvalidArgument)
        );
    }
    assert!(adapter::write(&cfg, 0, false, &Vec::new()).is_ok());
    assert!(adapter::write(&cfg, 0, false, &vec![0x42; 8192]).is_ok());
}

#[test]
fn test_corrupt_block_fails_read() {
    let cfg = test_config();

    // One present block of the wrong length is corruption, never padded
    // or truncated into an answer.
    let fetched = vec![Some(vec![0x42; 10])];
    assert_eq!(
        adapter::read(&cfg, 0, 10, &fetched),
        Err(ProtocolError::InvalidArgument)
    );

    let fetched = vec![Some(vec![0x42; 4096]), Some(vec![0x42; 4095])];
    assert_eq!(
        adapter::read(&cfg, 0, 8192, &fetched),
        Err(ProtocolError::InvalidArgument)
    );
}

#[test]
fn test_short_fetch_fails_read() {
    let cfg = test_config();

    // Fewer fetched blocks than the requested length needs: an error,
    // never silently zero-padded.
    let fetched = vec![Some(vec![0x42; 4096])];
    assert_eq!(
        adapter::read(&cfg, 0, 8192, &fetched),
        Err(ProtocolError::InvalidArgument)
    );
}

#[test]
fn test_zero_length_read_returns_empty() {
    let cfg = test_config();
    let keys = adapter::read_keys(&cfg, 0, 0).unwrap();
    assert!(keys.is_empty());
    assert_eq!(adapter::read(&cfg, 0, 0, &Vec::new()), Ok(Vec::new()));
}

#[test]
fn test_blocks_needed_is_ceiling_division() {
    let cfg = test_config();

    assert_eq!(cfg.blocks_needed(0), 0);
    assert_eq!(cfg.blocks_needed(1), 1);
    assert_eq!(cfg.blocks_needed(4095), 1);
    assert_eq!(cfg.blocks_needed(4096), 1);
    assert_eq!(cfg.blocks_needed(4097), 2);
    assert_eq!(cfg.blocks_needed(8192), 2);
    assert_eq!(cfg.blocks_needed(u32::MAX), (u32::MAX as u64 + 4095) / 4096);
}

#[test]
fn test_block_size_query_returns_fixed_triple() {
    let cfg = test_config();
    let (min, optimal, max) = cfg.get_block_size();
    assert_eq!(min, 4096);
    assert_eq!(optimal, 4096);
    assert_eq!(max, 4096);
}

#[test]
fn test_device_queries() {
    let cfg = test_config();
    assert_eq!(cfg.get_device_size(), 10 * 1024 * 1024 * 1024);
    assert!(!cfg.get_read_only());
}

#[test]
fn test_advertised_features() {
    let f = get_features();
    assert!(f.send_flush);
    assert!(f.send_fua);
    assert!(f.send_trim);
    assert!(f.send_write_zeroes);
    assert!(f.can_multi_conn);
    assert!(!f.send_resize);
    assert!(!f.send_cache);
    assert!(!f.block_status);
}
