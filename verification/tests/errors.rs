use scrcpy::{IoError, IoErrorKind, ScrcpyError};

#[test]
fn io_error_keeps_kind_and_message() {
    let e = IoError::new(IoErrorKind::BrokenPipe, "broken pipe".to_string());
    assert_eq!(e.kind(), IoErrorKind::BrokenPipe);
    assert_eq!(e.message(), "broken pipe");
}

#[test]
fn io_error_without_source_is_other() {
    let e = IoError::new_with_message("no socket".to_string());
    assert_eq!(e.kind(), IoErrorKind::Other);
    assert_eq!(e.message(), "no socket");
}

#[test]
fn with_message_replaces_only_the_message() {
    let e = IoError::new(IoErrorKind::TimedOut, "timed out".to_string())
        .with_message("control socket timed out".to_string());
    assert_eq!(e.kind(), IoErrorKind::TimedOut);
    assert_eq!(e.message(), "control socket timed out");
}

#[test]
fn timeouts_are_recognised() {
    let would_block = ScrcpyError::IoError(IoError::new(IoErrorKind::WouldBlock, String::new()));
    let timed_out = ScrcpyError::IoError(IoError::new(IoErrorKind::TimedOut, String::new()));
    assert!(would_block.is_timeout());
    assert!(timed_out.is_timeout());
}

#[test]
fn other_errors_are_not_timeouts() {
    let reset = ScrcpyError::IoError(IoError::new(IoErrorKind::ConnectionReset, String::new()));
    let bare = ScrcpyError::IoError(IoError::new_with_message("x".to_string()));
    assert!(!reset.is_timeout());
    assert!(!bare.is_timeout());
    assert!(!ScrcpyError::ProtocolError("timed out".to_string()).is_timeout());
    assert!(!ScrcpyError::Other("timed out".to_string()).is_timeout());
}

#[test]
fn source_kind_is_present_only_for_wrapped_errors() {
    let wrapped = IoError::new(IoErrorKind::Other, "other".to_string());
    assert_eq!(wrapped.source_kind(), Some(IoErrorKind::Other));
    let bare = IoError::new_with_message("bare".to_string());
    assert_eq!(bare.source_kind(), None);
}
