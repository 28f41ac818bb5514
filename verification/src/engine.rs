//! The boundary to the storage engine's own error type. The engine
//! reports failures as an opaque `slatedb::Error`; the one trusted item
//! here reads its kind and sorts it into the local failure categories,
//! and everything after that point is verified against the exact
//! mapping table in `errors`.

use crate::errors::engine_error_to_protocol_error;
use crate::errors::EngineError;
use crate::errors::ProtocolError;
use vstd::prelude::*;

verus! {

#[verifier::external_type_specification]
#[verifier::external_body]
pub struct ExSlateDbError(slatedb::Error);

/// Relies on `slatedb::Error::kind`: `Unavailable` is the engine's
/// category for a storage or network service failure (its documentation:
/// "A storage or network service is unavailable"), so it is the I/O
/// category here; every other kind is an engine-internal failure that the
/// protocol has no word for.
#[verifier::external_body]
fn classify_engine_error(err: &slatedb::Error) -> (r: EngineError)
    ensures
        r == EngineError::Io || r == EngineError::Other,
{
    match err.kind() {
        slatedb::ErrorKind::Unavailable => EngineError::Io,
        _ => EngineError::Other,
    }
}

/// Carries a storage-engine failure into the protocol's error
/// vocabulary, through the verified mapping table: an I/O failure
/// surfaces as the protocol's I/O error, and any other engine failure as
/// invalid-argument rather than leaking engine-specific detail.
pub fn slate_db_error_to_protocol_error(err: &slatedb::Error) -> (r: ProtocolError)
    ensures
        r == ProtocolError::IO || r == ProtocolError::InvalidArgument,
{
    let category = classify_engine_error(err);
    engine_error_to_protocol_error(category)
}

} // verus!
