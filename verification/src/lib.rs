//! Streaming pitch (f0) tracking: the buffering, framing and frame
//! bookkeeping of the trackers, verified.
//!
//! Audio samples never need to be inspected by this bookkeeping, so every
//! buffer here is generic over the sample type; the floating-point signal
//! processing is done by the callers.

pub mod backends;
pub mod crepe;
pub mod decode;
pub mod error;
pub mod fcpe;
pub mod framer;
pub mod pesto;
pub mod praat;
pub mod pyin;
pub mod rmvpe;
pub mod samples;
pub mod swiftf0;
pub mod text;

pub use error::{EstimatorError, Result};
