//! A verified core for a network block device backed by a sparse key-value
//! store: address validation, block-to-key mapping, sparse zero-fill reads,
//! batched whole-block writes and deletes, the durability (FUA) flag, and the
//! grow-only device-size metadata protocol.

pub mod adapter;
pub mod device;
pub mod engine;
pub mod errors;
pub mod keys;
pub mod laws;
pub mod metadata;
pub mod model;
