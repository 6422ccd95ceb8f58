//! Errors surfaced by device backends.

use vstd::prelude::*;

verus! {

#[verifier::external_type_specification]
#[verifier::external_body]
pub struct ExIoError(std::io::Error);

/// Errors surfaced by device backends.
#[derive(Debug)]
pub enum DeviceError {
    /// Device not found (its identifier).
    NotFound(String),
    /// The device is busy or already streaming.
    Busy,
    /// Unsupported configuration (what is unsupported).
    UnsupportedConfig(String),
    /// Device not configured; `configure` comes first.
    NotConfigured,
    /// No stream with this handle.
    NoSuchStream,
    /// Device disconnected.
    Disconnected,
    /// Backend error (its message).
    Backend(String),
    /// I/O error.
    Io(std::io::Error),
}

impl DeviceError {
    /// The text of a `NotFound`, `UnsupportedConfig` or `Backend` error.
    pub open spec fn detail(&self) -> Seq<char> {
        match self {
            DeviceError::NotFound(s) => s@,
            DeviceError::UnsupportedConfig(s) => s@,
            DeviceError::Backend(s) => s@,
            _ => Seq::empty(),
        }
    }
}

} // verus!
