//! Crate-level error types.
use vstd::prelude::*;

verus! {

/// The category of an I/O failure, one variant for each kind that the
/// standard library reports for an I/O error.
#[derive(Clone, Copy, Debug, PartialEq, Eq, Structural)]
pub enum IoErrorKind {
    NotFound,
    PermissionDenied,
    ConnectionRefused,
    ConnectionReset,
    HostUnreachable,
    NetworkUnreachable,
    ConnectionAborted,
    NotConnected,
    AddrInUse,
    AddrNotAvailable,
    NetworkDown,
    BrokenPipe,
    AlreadyExists,
    WouldBlock,
    NotADirectory,
    IsADirectory,
    DirectoryNotEmpty,
    ReadOnlyFilesystem,
    StaleNetworkFileHandle,
    InvalidInput,
    InvalidData,
    TimedOut,
    WriteZero,
    StorageFull,
    NotSeekable,
    QuotaExceeded,
    FileTooLarge,
    ResourceBusy,
    ExecutableFileBusy,
    Deadlock,
    CrossesDevices,
    TooManyLinks,
    InvalidFilename,
    ArgumentListTooLong,
    Interrupted,
    Unsupported,
    UnexpectedEof,
    OutOfMemory,
    Other,
}

/// An I/O failure together with a human-readable message.
///
/// An error built from an underlying I/O error remembers that error's kind;
/// one built from a bare message has none and reports `Other`.
#[derive(Debug)]
pub struct IoError {
    source_kind: Option<IoErrorKind>,
    message: String,
}

/// Mathematical content of an [`IoError`].
pub struct IoErrorView {
    /// Kind of the underlying I/O error, if the error wraps one.
    pub source_kind: Option<IoErrorKind>,
    /// The message text.
    pub message: Seq<char>,
}

impl View for IoError {
    type V = IoErrorView;

    closed spec fn view(&self) -> IoErrorView {
        IoErrorView { source_kind: self.source_kind, message: self.message@ }
    }
}

/// The kind reported for an error: that of the wrapped I/O error, `Other`
/// when there is none.
pub open spec fn reported_kind(source_kind: Option<IoErrorKind>) -> IoErrorKind {
    match source_kind {
        Some(k) => k,
        None => IoErrorKind::Other,
    }
}

impl IoError {
    /// Wraps an I/O error of kind `kind` whose display text is `message`.
    pub fn new(kind: IoErrorKind, message: String) -> (r: Self)
        ensures
            r@.source_kind == Some(kind),
            r@.message == message@,
    {
        IoError { source_kind: Some(kind), message }
    }

    /// An error that wraps no I/O error, carrying only `message`.
    pub fn new_with_message(message: String) -> (r: Self)
        ensures
            r@.source_kind == None::<IoErrorKind>,
            r@.message == message@,
    {
        IoError { source_kind: None, message }
    }

    /// Replaces the message, keeping the wrapped error.
    pub fn with_message(self, message: String) -> (r: Self)
        ensures
            r@.source_kind == self@.source_kind,
            r@.message == message@,
    {
        IoError { source_kind: self.source_kind, message }
    }

    /// The message text.
    pub fn message(&self) -> (r: &str)
        ensures
            r@ == self@.message,
    {
        self.message.as_str()
    }

    /// The kind of the wrapped I/O error, if the error wraps one.
    pub fn source_kind(&self) -> (r: Option<IoErrorKind>)
        ensures
            r == self@.source_kind,
    {
        self.source_kind
    }

    /// The kind of the wrapped I/O error, or `Other` when there is none.
    pub fn kind(&self) -> (r: IoErrorKind)
        ensures
            r == reported_kind(self@.source_kind),
            self@.source_kind is None ==> r == IoErrorKind::Other,
            self@.source_kind matches Some(k) ==> r == k,
    {
        match self.source_kind {
            Some(k) => k,
            None => IoErrorKind::Other,
        }
    }
}

/// Errors of the protocol layer.
#[derive(Debug)]
pub enum ScrcpyError {
    /// An I/O failure on one of the sockets.
    IoError(IoError),
    /// The peer sent data that violates the scrcpy protocol.
    ProtocolError(String),
    /// Any other failure.
    Other(String),
}

/// Result type of the protocol layer.
pub type Result<T> = core::result::Result<T, ScrcpyError>;

/// Whether an error kind denotes an operation that ran out of time.
pub open spec fn is_timeout_kind(k: IoErrorKind) -> bool {
    k == IoErrorKind::WouldBlock || k == IoErrorKind::TimedOut
}

impl ScrcpyError {
    /// `true` exactly for an I/O error whose kind is `WouldBlock` or
    /// `TimedOut`.
    pub fn is_timeout(&self) -> (r: bool)
        ensures
            r == (match self {
                ScrcpyError::IoError(e) => is_timeout_kind(reported_kind(e@.source_kind)),
                _ => false,
            }),
            r <==> (self matches ScrcpyError::IoError(e) && (e@.source_kind == Some(
                IoErrorKind::WouldBlock,
            ) || e@.source_kind == Some(IoErrorKind::TimedOut))),
    {
        match self {
            ScrcpyError::IoError(err) => match err.kind() {
                IoErrorKind::WouldBlock | IoErrorKind::TimedOut => true,
                _ => false,
            },
            _ => false,
        }
    }
}

} // verus!
