//! The engine-failure-to-protocol-error mapping, including the boundary
//! to slatedb's own error type.

use slatedb_nbd::engine::slate_db_error_to_protocol_error;
use slatedb_nbd::errors::engine_error_to_protocol_error;
use slatedb_nbd::errors::EngineError;
use slatedb_nbd::errors::ProtocolError;

#[test]
fn test_engine_category_translation_table() {
    assert_eq!(
        engine_error_to_protocol_error(EngineError::Io),
        ProtocolError::IO
    );
    assert_eq!(
        engine_error_to_protocol_error(EngineError::Unsupported),
        ProtocolError::CommandNotSupported
    );
    assert_eq!(
        engine_error_to_protocol_error(EngineError::Other),
        ProtocolError::InvalidArgument
    );
}

#[test]
fn test_unavailable_engine_error_is_io() {
    let err = slatedb::Error::unavailable("object store unreachable".to_string());
    assert_eq!(slate_db_error_to_protocol_error(&err), ProtocolError::IO);
}

#[test]
fn test_other_engine_errors_are_invalid_argument() {
    let invalid = slatedb::Error::invalid("bad argument".to_string());
    assert_eq!(
        slate_db_error_to_protocol_error(&invalid),
        ProtocolError::InvalidArgument
    );

    let data = slatedb::Error::data("unexpected persisted state".to_string());
    assert_eq!(
        slate_db_error_to_protocol_error(&data),
        ProtocolError::InvalidArgument
    );

    let internal = slatedb::Error::internal("unexpected internal error".to_string());
    assert_eq!(
        slate_db_error_to_protocol_error(&internal),
        ProtocolError::InvalidArgument
    );
}
