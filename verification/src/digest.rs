//! The variable-output hash the protocols derive keys and masks from:
//! SHA3-256 as absorbed by tiny-keccak's sponge, squeezed to any length.
//!
//! A sponge state is determined by the byte transcript it has absorbed,
//! named by `sha3_transcript`; what it squeezes from a transcript at a given
//! output length is named by `xof_of` and never written out.
use vstd::prelude::*;

use tiny_keccak::Hasher;

verus! {

#[verifier::external_type_specification]
#[verifier::external_body]
pub struct ExSha3(tiny_keccak::Sha3);

/// The byte transcript a sponge state has absorbed so far.
pub uninterp spec fn sha3_transcript(h: tiny_keccak::Sha3) -> Seq<u8>;

/// The `n`-byte output the SHA3-256 sponge squeezes after absorbing `data`.
/// It depends on the transcript and the requested length alone.
pub uninterp spec fn xof_of(data: Seq<u8>, n: nat) -> Seq<u8>;

/// Relies on tiny-keccak's Sha3::v256 starting with an empty state.
#[verifier::external_body]
fn sha3_new() -> (r: tiny_keccak::Sha3)
    ensures
        sha3_transcript(r) == Seq::<u8>::empty(),
{
    tiny_keccak::Sha3::v256()
}

/// Relies on tiny-keccak's Hasher::update absorbing the bytes in order.
#[verifier::external_body]
fn sha3_input(h: &mut tiny_keccak::Sha3, data: &[u8])
    ensures
        sha3_transcript(*final(h)) == sha3_transcript(*old(h)) + data@,
{
    h.update(data);
}

/// Relies on tiny-keccak's Hasher::finalize: it squeezes exactly the
/// requested number of bytes, determined by the absorbed transcript and the
/// length alone.
#[verifier::external_body]
fn sha3_finalize(h: tiny_keccak::Sha3, n: usize) -> (r: Vec<u8>)
    ensures
        r@ == xof_of(sha3_transcript(h), n as nat),
        r@.len() == n,
{
    let mut out = vec![0u8; n];
    h.finalize(&mut out);
    out
}

/// Relies on tiny-keccak's derived Clone for Sha3 copying the whole sponge
/// state, so that later input to either copy is not seen by the other.
#[verifier::external_body]
fn sha3_clone(h: &tiny_keccak::Sha3) -> (r: tiny_keccak::Sha3)
    ensures
        sha3_transcript(r) == sha3_transcript(*h),
{
    h.clone()
}

/// A SHA3-256 sponge, usable both as the fixed 32-byte digest and as the
/// variable-output hash of the extension protocol.
#[allow(non_camel_case_types)]
pub struct SHA3_256 {
    inner: tiny_keccak::Sha3,
}

impl SHA3_256 {
    /// The bytes absorbed so far.
    pub closed spec fn transcript(&self) -> Seq<u8> {
        sha3_transcript(self.inner)
    }

    pub fn new() -> (r: SHA3_256)
        ensures
            r.transcript() == Seq::<u8>::empty(),
    {
        SHA3_256 { inner: sha3_new() }
    }

    /// Absorbs `data` into the transcript.
    pub fn input(&mut self, data: &[u8])
        ensures
            final(self).transcript() == old(self).transcript() + data@,
    {
        sha3_input(&mut self.inner, data);
    }

    /// Squeezes `n` bytes determined by the absorbed transcript.
    pub fn result(self, n: usize) -> (r: Vec<u8>)
        ensures
            r@ == xof_of(self.transcript(), n as nat),
            r@.len() == n,
    {
        sha3_finalize(self.inner, n)
    }

    /// The fixed 32-byte digest form of the hash.
    pub fn result32(self) -> (r: Vec<u8>)
        ensures
            r@ == xof_of(self.transcript(), 32),
            r@.len() == 32,
    {
        self.result(32)
    }

    /// An independent copy of the sponge, to fork the transcript.
    pub fn fork(&self) -> (r: SHA3_256)
        ensures
            r.transcript() == self.transcript(),
    {
        SHA3_256 { inner: sha3_clone(&self.inner) }
    }
}

impl Default for SHA3_256 {
    fn default() -> (r: SHA3_256)
        ensures
            r.transcript() == Seq::<u8>::empty(),
    {
        SHA3_256::new()
    }
}

/// A variable-output-length hash, modelled by the transcript it has
/// absorbed and by what `Self::hash` maps a transcript and a length to.
pub trait ArbitraryDigest: Sized {
    spec fn transcript_view(&self) -> Seq<u8>;

    /// What this hash squeezes from a transcript at a given output length.
    spec fn hash(data: Seq<u8>, n: nat) -> Seq<u8>;

    fn input(&mut self, data: &[u8])
        ensures
            final(self).transcript_view() == old(self).transcript_view() + data@,
    ;

    fn result(self, output_size: usize) -> (r: Vec<u8>)
        ensures
            r@ == Self::hash(self.transcript_view(), output_size as nat),
            r@.len() == output_size,
    ;
}

impl ArbitraryDigest for SHA3_256 {
    open spec fn transcript_view(&self) -> Seq<u8> {
        self.transcript()
    }

    open spec fn hash(data: Seq<u8>, n: nat) -> Seq<u8> {
        xof_of(data, n)
    }

    fn input(&mut self, data: &[u8]) {
        SHA3_256::input(self, data);
    }

    fn result(self, output_size: usize) -> (r: Vec<u8>) {
        SHA3_256::result(self, output_size)
    }
}

} // verus!
