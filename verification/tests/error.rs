use muzn_dm::error::{EngineError, ENOSPC_CODE};

#[test]
fn codes_are_stable_strings() {
    assert_eq!(EngineError::RangeNotSupported.code(), "RANGE_NOT_SUPPORTED");
    assert_eq!(EngineError::SourceChanged.code(), "SOURCE_CHANGED");
    assert_eq!(EngineError::DiskFull.code(), "DISK_FULL");
    assert_eq!(
        EngineError::HttpStatus { status: 404 }.code(),
        "HTTP_STATUS"
    );
    assert_eq!(EngineError::Network("x".into()).code(), "NETWORK");
    assert_eq!(EngineError::Cancelled.code(), "CANCELLED");
}

#[test]
fn transient_vs_permanent() {
    assert!(EngineError::Network("reset".into()).is_transient());
    assert!(EngineError::HttpStatus { status: 503 }.is_transient());
    assert!(EngineError::HttpStatus { status: 429 }.is_transient());
    assert!(!EngineError::HttpStatus { status: 404 }.is_transient());
    assert!(!EngineError::HttpStatus { status: 403 }.is_transient());
    assert!(!EngineError::Tls("bad cert".into()).is_transient());
    assert!(!EngineError::DiskFull.is_transient());
    assert!(!EngineError::Cancelled.is_transient());
}

#[test]
fn enospc_maps_to_disk_full() {
    let e = std::io::Error::from_raw_os_error(ENOSPC_CODE);
    assert_eq!(EngineError::from_io(e).code(), "DISK_FULL");
}

#[test]
fn only_a_full_disk_the_os_reported_is_disk_full() {
    let e = std::io::Error::from(std::io::ErrorKind::StorageFull);
    assert_eq!(EngineError::from_io(e).code(), "IO", "no OS error code");
    let e = std::io::Error::new(std::io::ErrorKind::Other, "x");
    assert_eq!(EngineError::from_storage_full(true, e).code(), "DISK_FULL");
    let e = std::io::Error::new(std::io::ErrorKind::Other, "x");
    assert_eq!(EngineError::from_storage_full(false, e).code(), "IO");
}

#[test]
fn other_io_errors_stay_io() {
    let e = std::io::Error::from_raw_os_error(2);
    assert_eq!(EngineError::from_io(e).code(), "IO");
    let e = std::io::Error::new(std::io::ErrorKind::Other, "x");
    assert_eq!(EngineError::from_io(e).code(), "IO");
}

#[test]
fn every_code_and_the_edges_of_transient() {
    assert_eq!(EngineError::InvalidUrl("u".into()).code(), "INVALID_URL");
    assert_eq!(EngineError::Tls("t".into()).code(), "TLS");
    assert_eq!(EngineError::InvalidResume("r".into()).code(), "INVALID_RESUME");
    assert_eq!(EngineError::Internal("i".into()).code(), "INTERNAL");
    assert!(EngineError::HttpStatus { status: 500 }.is_transient());
    assert!(EngineError::HttpStatus { status: 599 }.is_transient());
    assert!(!EngineError::HttpStatus { status: 600 }.is_transient());
    assert!(!EngineError::HttpStatus { status: 499 }.is_transient());
    assert!(!EngineError::InvalidResume("r".into()).is_transient());
}

#[test]
fn messages_read_like_the_errors() {
    assert_eq!(EngineError::HttpStatus { status: 404 }.message(), "HTTP 404");
    assert_eq!(EngineError::Network("reset".into()).message(), "network error: reset");
    assert_eq!(EngineError::Cancelled.message(), "cancelled");
    assert_eq!(EngineError::DiskFull.message(), "not enough disk space");
}

#[test]
fn request_failures_are_classified() {
    assert_eq!(EngineError::from_request_failure(true, None, "bad".into()).code(), "INVALID_URL");
    assert!(matches!(
        EngineError::from_request_failure(false, Some(502), "x".into()),
        EngineError::HttpStatus { status: 502 }
    ));
    assert_eq!(
        EngineError::from_request_failure(false, None, "invalid peer certificate".into()).code(),
        "TLS"
    );
    assert_eq!(EngineError::from_request_failure(false, None, "rustls tls handshake".into()).code(), "TLS");
    assert_eq!(EngineError::from_request_failure(false, None, "connection reset".into()).code(), "NETWORK");
}
