//! `scrcpy` — scrcpy wire-protocol types and control primitives.
//!
//! The library owns the protocol layer: media packet framing, control
//! message encoding and H.264 SPS parsing. Every function here carries a
//! contract that Verus proves against a mathematical model of the wire
//! format.
use vstd::prelude::*;

mod error;
pub mod h264;
pub mod protocol;
pub mod text;
pub mod wire;

pub use crate::error::{IoError, IoErrorKind, Result, ScrcpyError};

verus! {

/// Largest media packet payload accepted from the server (10 MiB).
pub const MAX_PACKET_SIZE: usize = 10485760;

/// Version of the scrcpy server JAR this crate speaks to.
pub const SCRCPY_SERVER_VERSION: &'static str = "3.3.3";

/// Java class started on the device.
pub const SCRCPY_SERVER_CLASS_NAME: &'static str = "com.genymobile.scrcpy.Server";

/// Location of the server JAR on the device.
pub const SCRCPY_SERVER_PATH: &'static str = "/data/local/tmp/scrcpy-server.jar";

/// Grace period, in milliseconds, granted to the server before teardown.
pub const GRACEFUL_WAIT_MS: u64 = 250;

} // verus!
