//! Split-custody control of a single secp256k1 signing key.
//!
//! The key exists only as the sum of two secret shares. One share can be
//! further split with a threshold (Shamir) scheme, recombined by Lagrange
//! interpolation, and the two-share pair can be proactively re-randomized
//! without changing its sum. Use of the key is gated by a quorum of valid
//! endorsement signatures from a registered roster of members.
use vstd::prelude::*;

pub mod codec;
pub mod crypto;
pub mod dao;
pub mod field;
pub mod pss;
pub mod sharding;
pub mod sui_utils;
pub mod tee_service;

verus! {

/// Errors surfaced by the core operations. Per-entry verification failures
/// during quorum evaluation are skipped, never surfaced through this type.
#[derive(Clone, Copy, Debug, PartialEq, Eq, Structural)]
pub enum CoreError {
    /// Bytes do not decode to a valid scalar-field element.
    InvalidScalarEncoding,
    /// An arithmetic precondition was violated (threshold above total at
    /// split time, or a reconstructed signing key that is zero and so
    /// unusable as a key).
    PreconditionViolation,
    /// Lagrange interpolation was asked to run on an empty share set or on
    /// shares with a repeated index (zero denominator).
    DuplicateOrDegenerateShareIndex,
    /// The requested curve is not supported by the refresh protocol.
    UnsupportedCurve,
}

} // verus!
