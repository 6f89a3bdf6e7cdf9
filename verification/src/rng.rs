//! The cryptographically secure random number generator a protocol instance
//! owns.  Nothing is assumed about the drawn values beyond their shape.
use vstd::prelude::*;

use rand::Rng;
use rand::RngCore;
use rand::SeedableRng;

verus! {

#[verifier::external_type_specification]
#[verifier::external_body]
pub struct ExStdRng(rand::rngs::StdRng);

/// A CSPRNG owned by one protocol instance.
pub struct OtRng {
    inner: rand::rngs::StdRng,
}

impl OtRng {
    /// Relies on rand's StdRng::from_entropy to seed from the OS.
    #[verifier::external_body]
    pub fn from_entropy() -> OtRng {
        OtRng { inner: rand::rngs::StdRng::from_entropy() }
    }

    /// Relies on rand's StdRng::seed_from_u64; only for reproducible runs.
    #[verifier::external_body]
    pub fn from_seed(seed: u64) -> OtRng {
        OtRng { inner: rand::rngs::StdRng::seed_from_u64(seed) }
    }

    /// Draws `n` random bytes.  Relies on rand's RngCore::fill_bytes; the
    /// values are unpredictable, so only the length is stated.
    #[verifier::external_body]
    pub fn fill(&mut self, n: usize) -> (r: Vec<u8>)
        ensures
            r@.len() == n,
    {
        let mut buf = vec![0u8; n];
        self.inner.fill_bytes(&mut buf);
        buf
    }

    /// Draws one random bit.  Relies on rand's Rng::gen for bool.
    #[verifier::external_body]
    pub fn coin(&mut self) -> bool {
        self.inner.gen::<bool>()
    }
}

} // verus!
