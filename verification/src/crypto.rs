//! The authenticated symmetric cipher a base-OT pair encrypts its payload
//! with, keyed by the 32-byte digest output.  Every key is fresh per
//! protocol instance, so a fixed all-zero nonce is used.
use vstd::prelude::*;

use crate::OtError;

verus! {

/// An authenticated symmetric cipher with deterministic encryption under a
/// fixed nonce.  `seal` names the ciphertext of a plaintext under a key;
/// decryption succeeds exactly on sealed inputs and returns the plaintext
/// sealed into them.
pub trait SymmetricCryptoProvider: Sized {
    /// The ciphertext this cipher produces for `data` under `key`.
    spec fn seal(key: Seq<u8>, data: Seq<u8>) -> Seq<u8>;

    /// The plaintexts this cipher is guaranteed to encrypt: success is owed
    /// on every input within the cipher's size limit.
    spec fn encrypt_ok(data: Seq<u8>) -> bool;

    fn encrypt(&mut self, key: &Vec<u8>, data: Vec<u8>) -> (r: Result<Vec<u8>, OtError>)
        requires
            key@.len() == 32,
        ensures
            r matches Ok(c) ==> c@ == Self::seal(key@, data@),
            r matches Err(e) ==> e == OtError::CryptoError,
            Self::encrypt_ok(data@) ==> r is Ok,
    ;

    fn decrypt(&mut self, key: &Vec<u8>, data: Vec<u8>) -> (r: Result<Vec<u8>, OtError>)
        requires
            key@.len() == 32,
        ensures
            r matches Ok(m) ==> data@ == Self::seal(key@, m@),
            r matches Ok(m) ==> forall|x: Seq<u8>| data@ == Self::seal(key@, x) ==> x == m@,
            (exists|x: Seq<u8>| data@ == Self::seal(key@, x)) ==> r is Ok,
            r matches Err(e) ==> e == OtError::CryptoError,
    ;
}

/// The byte stream that repeats `key` over the length of `data`, xored in.
pub open spec fn xor_cycle(key: Seq<u8>, data: Seq<u8>) -> Seq<u8>
    recommends
        key.len() > 0,
{
    Seq::new(data.len(), |i: int| data[i] ^ key[i % (key.len() as int)])
}

proof fn lemma_xor_cancel(a: u8, b: u8)
    ensures
        (a ^ b) ^ b == a,
{
    assert((a ^ b) ^ b == a) by (bit_vector);
}

/// Masking twice with the same cycled key gives the data back.
proof fn lemma_xor_cycle_involution(key: Seq<u8>, data: Seq<u8>)
    requires
        key.len() > 0,
    ensures
        xor_cycle(key, xor_cycle(key, data)) == data,
{
    let once = xor_cycle(key, data);
    assert forall|i: int| 0 <= i < data.len() implies xor_cycle(key, once)[i] == data[i] by {
        lemma_xor_cancel(data[i], key[i % (key.len() as int)]);
    }
    assert(xor_cycle(key, xor_cycle(key, data)) =~= data);
}

/// A keystream cipher with no authentication: the repeated key is xored
/// onto the data.  Only for tests; offers no security.
#[derive(Default)]
pub struct DummyCryptoProvider;

impl DummyCryptoProvider {
    /// Xors the cycled key onto the buffer.
    fn mask(key: &Vec<u8>, data: Vec<u8>) -> (r: Vec<u8>)
        requires
            key@.len() > 0,
        ensures
            r@ == xor_cycle(key@, data@),
    {
        let mut buf = data;
        let n = buf.len();
        let mut i: usize = 0;
        while i < n
            invariant
                n == buf@.len(),
                key@.len() > 0,
                i <= n,
                forall|j: int| 0 <= j < i ==> buf@[j] == (data@[j] ^ key@[j % (key@.len() as int)]),
                forall|j: int| i <= j < n ==> buf@[j] == data@[j],
            decreases n - i,
        {
            let b = buf[i] ^ key[i % key.len()];
            buf.set(i, b);
            i = i + 1;
        }
        proof {
            assert(buf@ =~= xor_cycle(key@, data@));
        }
        buf
    }
}

impl SymmetricCryptoProvider for DummyCryptoProvider {
    open spec fn seal(key: Seq<u8>, data: Seq<u8>) -> Seq<u8> {
        xor_cycle(key, data)
    }

    open spec fn encrypt_ok(data: Seq<u8>) -> bool {
        true
    }

    fn encrypt(&mut self, key: &Vec<u8>, data: Vec<u8>) -> (r: Result<Vec<u8>, OtError>) {
        Ok(Self::mask(key, data))
    }

    fn decrypt(&mut self, key: &Vec<u8>, data: Vec<u8>) -> (r: Result<Vec<u8>, OtError>) {
        let ghost data0 = data@;
        let out = Self::mask(key, data);
        proof {
            lemma_xor_cycle_involution(key@, data0);
            assert forall|x: Seq<u8>| data0 == xor_cycle(key@, x) implies x == out@ by {
                lemma_xor_cycle_involution(key@, x);
            }
        }
        Ok(out)
    }
}

/// What AES-256-GCM with the all-zero nonce and empty associated data seals
/// `data` to under `key`: deterministic in the key and plaintext.
pub uninterp spec fn aes_gcm_seal(key: Seq<u8>, data: Seq<u8>) -> Seq<u8>;

/// The largest plaintext AES-GCM encrypts: `((1 << 39) - 256) / 8` bytes.
pub open spec fn aes_gcm_max_len() -> nat {
    68719476704
}

/// Relies on ring's LessSafeKey::seal_in_place_append_tag: AES-256-GCM
/// encryption with a fixed nonce is deterministic given key and plaintext;
/// it appends the 16-byte tag and fails only when the plaintext exceeds
/// the mode's size limit.
#[verifier::external_body]
fn aes_gcm_encrypt(key: &Vec<u8>, data: Vec<u8>) -> (r: Result<Vec<u8>, OtError>)
    requires
        key@.len() == 32,
    ensures
        r matches Ok(c) ==> c@ == aes_gcm_seal(key@, data@),
        r matches Ok(c) ==> c@.len() == data@.len() + 16,
        r matches Err(e) ==> e == OtError::CryptoError,
        data@.len() <= aes_gcm_max_len() ==> r is Ok,
{
    let unbound = match ring::aead::UnboundKey::new(&ring::aead::AES_256_GCM, key.as_slice()) {
        Ok(k) => k,
        Err(_) => return Err(OtError::CryptoError),
    };
    let sealing = ring::aead::LessSafeKey::new(unbound);
    let nonce = ring::aead::Nonce::assume_unique_for_key([0u8; 12]);
    let mut buf = data;
    match sealing.seal_in_place_append_tag(nonce, ring::aead::Aad::empty(), &mut buf) {
        Ok(()) => Ok(buf),
        Err(_) => Err(OtError::CryptoError),
    }
}

/// Relies on ring's LessSafeKey::open_in_place: it authenticates the tag,
/// failing on anything not produced by the matching seal, and returns the
/// unique plaintext that seals to the input.
#[verifier::external_body]
fn aes_gcm_decrypt(key: &Vec<u8>, data: Vec<u8>) -> (r: Result<Vec<u8>, OtError>)
    requires
        key@.len() == 32,
    ensures
        r matches Ok(m) ==> data@ == aes_gcm_seal(key@, m@),
        r matches Ok(m) ==> forall|x: Seq<u8>| data@ == aes_gcm_seal(key@, x) ==> x == m@,
        (exists|x: Seq<u8>| data@ == aes_gcm_seal(key@, x)) ==> r is Ok,
        r matches Err(e) ==> e == OtError::CryptoError,
{
    let unbound = match ring::aead::UnboundKey::new(&ring::aead::AES_256_GCM, key.as_slice()) {
        Ok(k) => k,
        Err(_) => return Err(OtError::CryptoError),
    };
    let opening = ring::aead::LessSafeKey::new(unbound);
    let nonce = ring::aead::Nonce::assume_unique_for_key([0u8; 12]);
    let mut buf = data;
    let n = match opening.open_in_place(nonce, ring::aead::Aad::empty(), &mut buf) {
        Ok(plaintext) => plaintext.len(),
        Err(_) => return Err(OtError::CryptoError),
    };
    buf.truncate(n);
    Ok(buf)
}

/// AES-256-GCM through `ring`, with a fixed zero nonce (safe because every
/// key is derived from a fresh per-instance transcript).
#[derive(Default)]
pub struct AesCryptoProvider;

impl SymmetricCryptoProvider for AesCryptoProvider {
    open spec fn seal(key: Seq<u8>, data: Seq<u8>) -> Seq<u8> {
        aes_gcm_seal(key, data)
    }

    open spec fn encrypt_ok(data: Seq<u8>) -> bool {
        data.len() <= aes_gcm_max_len()
    }

    fn encrypt(&mut self, key: &Vec<u8>, data: Vec<u8>) -> (r: Result<Vec<u8>, OtError>) {
        aes_gcm_encrypt(key, data)
    }

    fn decrypt(&mut self, key: &Vec<u8>, data: Vec<u8>) -> (r: Result<Vec<u8>, OtError>) {
        aes_gcm_decrypt(key, data)
    }
}

} // verus!
