//! Oblivious transfer: a sender holds N messages, a receiver privately
//! selects one by index, the receiver learns only the selected message and
//! the sender learns nothing about the index.
//!
//! Two composable layers are provided.  The base 1-out-of-N transfer
//! (`chou`) works over Curve25519 in Edwards form and derives one symmetric
//! key per index from the exchanged points.  The 1-out-of-2 extension
//! (`iknp`) bootstraps a fixed batch of base transfers, one per bit of the
//! security parameter, into arbitrarily many cheap transfers using only the
//! variable-output hash and bitwise exclusive or on bit matrices.
//!
//! Protocol state is exchanged as opaque byte blobs through the record
//! channels of `comm`; the curve, hash, cipher and randomness come from
//! outside crates through the trusted wrappers in `curve`, `digest`,
//! `crypto` and `rng`.
use vstd::prelude::*;

pub mod bits;
pub mod chou;
pub mod comm;
pub mod crypto;
pub mod curve;
pub mod digest;
pub mod dummy_ot;
pub mod encoding;
pub mod iknp;
pub mod rng;

verus! {

/// The abstract error kinds a protocol instance can abort with.
#[derive(Clone, Copy, Debug, PartialEq, Eq, Structural)]
pub enum OtError {
    /// A wire blob could not be decoded as a curve point.
    PointError,
    /// The underlying channel failed to send or had nothing to receive.
    TransportError,
    /// A symmetric primitive failed (authentication tag mismatch).
    CryptoError,
    /// Lengths of paired values disagree, or an index is out of range.
    ProtocolError,
}

} // verus!
