use vstd::prelude::*;

verus! {

/// The failures of the streaming pipeline. Each carries a detail text.
#[derive(Debug)]
pub enum AppError {
    /// The frame source could not deliver a frame.
    CaptureError(String),
    /// A payload could not be compressed or decompressed.
    CompressionError(String),
    /// A client transport failed.
    WebSocketError(String),
    /// The configuration cannot be run.
    ConfigError(String),
    IoError(String),
    SerializationError(String),
}

pub type AppResult<T> = Result<T, AppError>;

} // verus!
