//! The device-size metadata protocol: first-boot initialization,
//! idempotent re-attach, grow-only resize (a larger request succeeds, a
//! smaller one is refused and the record stands), attaches observing a
//! previously grown size, and corruption handling.

use slatedb_nbd::errors::InitError;
use slatedb_nbd::errors::MetadataError;
use slatedb_nbd::metadata::attach;
use slatedb_nbd::metadata::plan_upsert_device_size;
use slatedb_nbd::metadata::SizeAction;

const DEFAULT_SIZE: u64 = 10 * 1024 * 1024 * 1024;

fn record_of(size: u64) -> Option<Vec<u8>> {
    Some(size.to_le_bytes().to_vec())
}

#[test]
fn test_fresh_attach_writes_default_size() {
    let outcome = attach(&None).expect("fresh attach must succeed");
    assert_eq!(outcome.action, SizeAction::Write(DEFAULT_SIZE));
    assert_eq!(outcome.config.device_size, DEFAULT_SIZE);
    assert_eq!(outcome.config.block_size, 4096);
    assert!(!outcome.config.read_only);
}

#[test]
fn test_reattach_same_size_is_noop() {
    let outcome = attach(&record_of(DEFAULT_SIZE)).expect("re-attach must succeed");
    assert_eq!(outcome.action, SizeAction::Keep(DEFAULT_SIZE));
    assert_eq!(outcome.config.device_size, DEFAULT_SIZE);
}

#[test]
fn test_resize_larger_accepted_then_observed() {
    // A request above the stored size is a grow: it is written, and a
    // subsequent request for the same size observes it as a no-op.
    let grown = 20 * 1024 * 1024 * 1024u64;
    let action = plan_upsert_device_size(&record_of(DEFAULT_SIZE), grown)
        .expect("grow request must succeed");
    assert_eq!(action, SizeAction::Write(grown));

    let observed = plan_upsert_device_size(&record_of(grown), grown)
        .expect("subsequent request must succeed");
    assert_eq!(observed, SizeAction::Keep(grown));
}

#[test]
fn test_resize_smaller_refused_leaves_record_unchanged() {
    // A request below the stored size would shrink the published address
    // space: refused, and the record it would have replaced still answers
    // the next request.
    let shrunk = 5 * 1024 * 1024 * 1024u64;
    let refused = plan_upsert_device_size(&record_of(DEFAULT_SIZE), shrunk);
    assert_eq!(
        refused,
        Err(InitError::MetadataFailure(MetadataError::CannotShrink))
    );

    let observed = plan_upsert_device_size(&record_of(DEFAULT_SIZE), DEFAULT_SIZE)
        .expect("stored size must be unchanged");
    assert_eq!(observed, SizeAction::Keep(DEFAULT_SIZE));
}

#[test]
fn test_stored_size_never_decreases() {
    // Every path through the protocol leaves the stored size at or above
    // what it was: equal keeps, larger writes larger, smaller errors out.
    let stored = 8192u64 * 4096;
    assert_eq!(
        plan_upsert_device_size(&record_of(stored), stored),
        Ok(SizeAction::Keep(stored))
    );
    assert_eq!(
        plan_upsert_device_size(&record_of(stored), stored + 4096),
        Ok(SizeAction::Write(stored + 4096))
    );
    assert_eq!(
        plan_upsert_device_size(&record_of(stored), stored - 4096),
        Err(InitError::MetadataFailure(MetadataError::CannotShrink))
    );
}

#[test]
fn test_attach_observes_grown_size() {
    // A store grown past the default in an earlier run: attach keeps the
    // larger stored size, caches it, and writes nothing.
    let grown = 20 * 1024 * 1024 * 1024u64;
    let outcome = attach(&record_of(grown)).expect("attach over grown store must succeed");
    assert_eq!(outcome.action, SizeAction::Keep(grown));
    assert_eq!(outcome.config.device_size, grown);
}

#[test]
fn test_attach_grows_smaller_stored_to_default() {
    // A stored size below the default is grown to the default floor.
    let smaller_stored = record_of(5 * 1024 * 1024 * 1024);
    let outcome = attach(&smaller_stored).expect("attach must grow to the default");
    assert_eq!(outcome.action, SizeAction::Write(DEFAULT_SIZE));
    assert_eq!(outcome.config.device_size, DEFAULT_SIZE);
}

#[test]
fn test_attach_rejects_invalid_grown_size() {
    // A stored size above the default that breaks the device-size
    // invariant is corruption: not a block multiple, or past the
    // addressable bound.
    let unaligned = 20 * 1024 * 1024 * 1024u64 + 1;
    assert_eq!(
        attach(&record_of(unaligned)).err(),
        Some(InitError::MetadataFailure(MetadataError::Corrupted))
    );
    assert_eq!(
        attach(&record_of(u64::MAX - 4095)).err(),
        Some(InitError::MetadataFailure(MetadataError::Corrupted))
    );
}

#[test]
fn test_corrupt_record_is_fatal() {
    for len in [1usize, 7, 9, 16] {
        let record = Some(vec![0u8; len]);
        assert_eq!(
            plan_upsert_device_size(&record, DEFAULT_SIZE),
            Err(InitError::MetadataFailure(MetadataError::Corrupted))
        );
        assert!(attach(&record).is_err());
    }
}

#[test]
fn test_empty_record_is_corrupt() {
    // Present with any length other than 8 bytes is corruption; empty is
    // no exception, only a truly absent record means first attach.
    let record = Some(Vec::new());
    assert_eq!(
        plan_upsert_device_size(&record, DEFAULT_SIZE),
        Err(InitError::MetadataFailure(MetadataError::Corrupted))
    );
}

#[test]
fn test_record_round_trips_little_endian() {
    let action = plan_upsert_device_size(&Some(vec![0, 16, 0, 0, 0, 0, 0, 0]), 4096)
        .expect("4096 stored little-endian must read back");
    assert_eq!(action, SizeAction::Keep(4096));
}
