//! The error type shared by every estimator.
use vstd::prelude::*;

verus! {

/// Declares `std::io::Error` so that it can be carried by [`EstimatorError::Io`].
#[verifier::external_type_specification]
#[verifier::external_body]
pub struct ExIoError(std::io::Error);

/// Why an estimator or a tracker could not do what was asked.
#[derive(Debug)]
pub enum EstimatorError {
    /// The ONNX runtime (or a backend library) failed.
    Ort(String),
    /// A TorchScript backend failed.
    TorchScript(String),
    /// The resampler could not be built or failed on a chunk.
    Resample(String),
    /// A caller-supplied parameter or buffer is not acceptable.
    InvalidInput(String),
    /// The requested feature is not available.
    NotImplemented(String),
    /// Reading a model or an audio file failed.
    Io(std::io::Error),
}

/// The result type used throughout the library.
pub type Result<T> = std::result::Result<T, EstimatorError>;

} // verus!
