//! What can go wrong while recording.
use vstd::prelude::*;

verus! {

/// Why an operation of the recorder failed.
#[derive(Clone, Debug, PartialEq, Eq)]
pub enum RecorderError {
    /// A recording is already under way.
    AlreadyRecording,
    /// No recording is under way.
    NotRecording,
    /// A parameter has a value that is not supported.
    InvalidParam(String),
    /// There is no such monitor.
    MonitorNotFound { monitor: u32 },
    /// A frame does not have as many bytes as the encoder expects.
    FrameSizeMismatch { expected: usize, actual: usize },
    /// A Direct3D device could not be set up.
    D3D11Error(String),
    /// A Direct3D texture could not be made or accessed.
    D3D11TextureError(String),
    /// Media Foundation reported an error.
    MFError(String),
}

/// `error` is `InvalidParam` with the given text.
pub open spec fn is_invalid_param(error: RecorderError, text: Seq<char>) -> bool {
    error matches RecorderError::InvalidParam(message) && message@ == text
}

/// Only `InvalidParam` with just that text is `InvalidParam` with it.
pub proof fn law_invalid_param(error: RecorderError, text: Seq<char>)
    requires
        is_invalid_param(error, text),
    ensures
        error matches RecorderError::InvalidParam(message) && message@ == text,
{
}

} // verus!
