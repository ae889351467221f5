//! An online binary classifier built from per-feature, frequency-domain
//! template matchers.
//!
//! Every learned weight and every signal value is carried as the bit
//! pattern of an IEEE-754 single-precision number (`u32`).  All the
//! bookkeeping that is exact on bit patterns is implemented and verified
//! here: buffer partitioning, window chunking and zero padding, frequency
//! bin selection, the sign rule of the online update, the strictly-positive
//! decision, ternary compression, and a byte codec for persistence.  The
//! spectral transform itself and the inner products run on hardware
//! floating point in the embedding program, which feeds their results back
//! in as bit patterns.

use vstd::prelude::*;

pub mod codec;
pub mod float_bits;
pub mod model;
pub mod scorer;
pub mod ternary;
pub mod transform;

verus! {

/// Failure taxonomy of the classifier core.
#[derive(Clone, Copy, Debug, PartialEq, Eq, Structural)]
pub enum FttqError {
    /// A construction-time fault: a hyperparameter is zero, the weight
    /// buffer length does not match the hyperparameters, or the requested
    /// buffer would not fit in memory.
    ConfigError,
    /// A per-call fault: a window or buffer handed to an operation has the
    /// wrong length.  The caller may reject the sample and continue.
    DimensionError,
}

} // verus!
