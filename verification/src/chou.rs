//! The Chou–Orlandi 1-out-of-N base oblivious transfer over Curve25519.
//!
//! The sender holds N messages; the receiver picks index `c` and learns only
//! message `c`, while the sender learns nothing about `c`.  Every point sent
//! on the wire is masked by the eight-torsion generator, and every point
//! received is multiplied by the cofactor, so both sides work with 8- and
//! 64-fold multiples and no point outside the prime-order subgroup is ever
//! used.
use vstd::prelude::*;

use crate::comm::Duplex;
use crate::comm::GetConn;
use crate::crypto::SymmetricCryptoProvider;
use crate::curve::base_elem;
use crate::curve::compress_of;
use crate::curve::eight_torsion;
use crate::curve::elem_valid;
use crate::curve::encodes;
use crate::curve::ge_add;
use crate::curve::ge_smul;
use crate::curve::ge_sub;
use crate::curve::group_order;
use crate::curve::point_add;
use crate::curve::point_base_mul;
use crate::curve::point_compress;
use crate::curve::point_decompress;
use crate::curve::point_model;
use crate::curve::point_mul_by_cofactor;
use crate::curve::point_scalar_mul;
use crate::curve::point_sub;
use crate::curve::scalar_from_u64;
use crate::curve::scalar_mul;
use crate::curve::scalar_random;
use crate::curve::scalar_residue;
use crate::curve::torsion_elem;
use crate::curve::GroupElem;
use crate::digest::xof_of;
use crate::digest::SHA3_256;
use crate::rng::OtRng;
use crate::OtError;

use curve25519_dalek::edwards::EdwardsPoint;
use curve25519_dalek::scalar::Scalar;

verus! {

/// The canonical encoding of a modelled point.
pub open spec fn compress_elem(e: GroupElem) -> Seq<u8> {
    compress_of(e.k, e.t)
}

/// The sender's cleared public point `8·y·G`, given its secret residue `y`.
pub open spec fn spub(y: nat) -> GroupElem {
    ge_smul(8, ge_smul(y, base_elem()))
}

/// The sender's stored product `8·y·(8·y·G)`.
pub open spec fn t64_of(y: nat) -> GroupElem {
    ge_smul(8, ge_smul(y, spub(y)))
}

/// A derived symmetric key: the 32-byte hash of the transcript seed, the
/// cleared wire point and the per-index point.
pub open spec fn chou_key(seed: Seq<u8>, r8: GroupElem, p: GroupElem) -> Seq<u8> {
    xof_of(seed + compress_elem(r8) + compress_elem(p), 32)
}

/// The key the sender derives at index `j` from a wire point with model
/// `rm`: the hash of `8·rm` and of `y·(8·rm) − j·(64·y²·G)`.
pub open spec fn sender_key(seed: Seq<u8>, y: nat, rm: GroupElem, j: nat) -> Seq<u8> {
    chou_key(
        seed,
        ge_smul(8, rm),
        ge_sub(ge_smul(y, ge_smul(8, rm)), ge_smul(j, t64_of(y))),
    )
}

/// The point the receiver puts on the wire before masking, for choice `c`
/// and blinding residue `x`.
pub open spec fn receiver_point(c: nat, x: nat, s8: GroupElem) -> GroupElem {
    ge_add(ge_smul(c, s8), ge_smul(8, ge_smul(x, base_elem())))
}

/// The single key the receiver derives: the hash of `8·R` and of `8·x·S8`.
pub open spec fn receiver_key(seed: Seq<u8>, c: nat, x: nat, s8: GroupElem) -> Seq<u8> {
    chou_key(
        seed,
        ge_smul(8, receiver_point(c, x, s8)),
        ge_smul((x * 8) % group_order(), s8),
    )
}

/// Sends a point in compressed form.
fn send_point(conn: &mut Duplex, p: &EdwardsPoint) -> (r: Result<(), OtError>)
    ensures
        r is Ok,
        final(conn).sent() == old(conn).sent().push(compress_elem(point_model(*p))),
        final(conn).pending() == old(conn).pending(),
        compress_elem(point_model(*p)).len() == 32,
{
    let bytes = point_compress(p);
    conn.send(bytes)
}

/// Receives one blob and decompresses it, aborting on a wrong-length blob
/// or an invalid encoding.
fn receive_point(conn: &mut Duplex) -> (r: Result<EdwardsPoint, OtError>)
    ensures
        final(conn).sent() == old(conn).sent(),
        r matches Ok(p) ==> old(conn).pending().len() > 0
            && final(conn).pending() == old(conn).pending().skip(1)
            && elem_valid(point_model(p)) && encodes(
            old(conn).pending()[0],
            point_model(p),
        ),
        r is Ok <==> old(conn).pending().len() > 0 && old(conn).pending()[0].len() == 32
            && crate::curve::decompressible(old(conn).pending()[0]),
        r matches Err(e) ==> (e == OtError::TransportError <==> old(conn).pending().len() == 0),
        r matches Err(e) && e == OtError::TransportError ==> final(conn).pending() == old(
            conn).pending(),
        r matches Err(e) && e == OtError::PointError ==> old(conn).pending().len() > 0 && final(
            conn).pending() == old(conn).pending().skip(1),
        r matches Err(e) ==> (e == OtError::TransportError || e == OtError::PointError),
        (old(conn).pending().len() > 0 && old(conn).pending()[0].len() == 32 && (exists|
            e: GroupElem,
        | elem_valid(e) && old(conn).pending()[0] == compress_elem(e))) ==> r is Ok,
{
    let v = match conn.receive() {
        Ok(v) => v,
        Err(_) => {
            return Err(OtError::TransportError);
        },
    };
    if v.len() != 32 {
        return Err(OtError::PointError);
    }
    match point_decompress(&v) {
        Some(p) => Ok(p),
        None => Err(OtError::PointError),
    }
}

/// The sending role of the base OT: holds the secret scalar `y`, the
/// transcript seeded with the cleared public point, and the cipher.
pub struct ChouOrlandiOTSender<S: SymmetricCryptoProvider> {
    pub conn: Duplex,
    hasher: SHA3_256,
    encryptor: S,
    y: Scalar,
    t64: EdwardsPoint,
}

impl<S: SymmetricCryptoProvider> ChouOrlandiOTSender<S> {
    /// The channel endpoint this role owns.
    pub closed spec fn channel(&self) -> Duplex {
        self.conn
    }

    /// The transcript every derived key is seeded with.
    pub closed spec fn seed(&self) -> Seq<u8> {
        self.hasher.transcript()
    }

    /// The residue of the secret scalar.
    pub closed spec fn y_res(&self) -> nat {
        scalar_residue(self.y)
    }

    pub closed spec fn wf(&self) -> bool {
        self.y_res() < group_order() && point_model(self.t64) == t64_of(self.y_res())
    }

    /// Mutable access to the owned channel endpoint, for delivering blobs.
    pub fn channel_mut(&mut self) -> (r: &mut Duplex)
        ensures
            *r == old(self).channel(),
            final(self).channel() == *final(r),
            final(self).seed() == old(self).seed(),
            final(self).y_res() == old(self).y_res(),
            final(self).wf() == old(self).wf(),
    {
        &mut self.conn
    }

    /// Draws the secret scalar `y`, sends `y·G` masked by the eight-torsion
    /// generator, and seeds the transcript with the cleared point `8·y·G`.
    pub fn new(conn: Duplex, hasher: SHA3_256, encryptor: S, rng: OtRng) -> (r: Result<
        ChouOrlandiOTSender<S>,
        OtError,
    >)
        ensures
            r is Ok,
            r matches Ok(s) ==> s.y_res() < group_order(),
            r matches Ok(s) ==> s.wf() && s.seed() == hasher.transcript() + compress_elem(
                spub(s.y_res()),
            ) && s.channel().pending() == conn.pending() && s.channel().sent() == conn.sent().push(
                compress_elem(ge_add(ge_smul(s.y_res(), base_elem()), torsion_elem())),
            ) && compress_elem(ge_add(ge_smul(s.y_res(), base_elem()), torsion_elem())).len()
                == 32,
    {
        let mut conn = conn;
        let mut hasher = hasher;
        let mut rng = rng;
        let y = scalar_random(&mut rng);
        let s0 = point_base_mul(&y);
        let tors = eight_torsion();
        let wire = point_add(&s0, &tors);
        let _ = send_point(&mut conn, &wire);
        let s8 = point_mul_by_cofactor(&s0);
        let sbytes = point_compress(&s8);
        hasher.input(sbytes.as_slice());
        let t64 = point_mul_by_cofactor(&point_scalar_mul(&y, &s8));
        Ok(ChouOrlandiOTSender { conn, hasher, encryptor, y, t64 })
    }

    /// Receives the receiver's wire point and derives the `n` per-index
    /// keys, of which the receiver can know exactly one.
    pub fn compute_keys(&mut self, n: u64) -> (r: Result<Vec<Vec<u8>>, OtError>)
        requires
            old(self).wf(),
        ensures
            final(self).wf(),
            final(self).seed() == old(self).seed(),
            final(self).y_res() == old(self).y_res(),
            final(self).channel().sent() == old(self).channel().sent(),
            r matches Ok(keys) ==> old(self).channel().pending().len() > 0 && final(self).channel().pending()
                == old(self).channel().pending().skip(1) && keys@.len() == n && (exists|rm: GroupElem|
                elem_valid(rm) && encodes(old(self).channel().pending()[0], rm) && (forall|j: int|
                    0 <= j < n ==> keys@[j]@ == sender_key(old(self).seed(), old(self).y_res(), rm, j as nat)
                        && keys@[j]@.len() == 32)),
            r is Ok <==> old(self).channel().pending().len() > 0 && old(
                self).channel().pending()[0].len() == 32 && crate::curve::decompressible(
                old(self).channel().pending()[0],
            ),
            r matches Err(e) ==> (e == OtError::TransportError || e == OtError::PointError),
            r matches Err(e) && e == OtError::TransportError ==> final(self).channel().pending()
                == old(self).channel().pending(),
            r matches Err(e) && e == OtError::PointError ==> old(self).channel().pending().len()
                > 0 && final(self).channel().pending() == old(self).channel().pending().skip(1),
            (old(self).channel().pending().len() > 0 && old(self).channel().pending()[0].len() == 32 && (
            exists|e: GroupElem|
                elem_valid(e) && old(self).channel().pending()[0] == compress_elem(e))) ==> r is Ok,
    {
        let mut hasher = self.hasher.fork();
        let p = match receive_point(&mut self.conn) {
            Ok(p) => p,
            Err(e) => {
                return Err(e);
            },
        };
        let ghost rm = point_model(p);
        let r8 = point_mul_by_cofactor(&p);
        let rbytes = point_compress(&r8);
        hasher.input(rbytes.as_slice());
        let ghost seed0 = old(self).seed();
        let ghost y0 = old(self).y_res();
        let mut keys: Vec<Vec<u8>> = Vec::new();
        let mut j: u64 = 0;
        while j < n
            invariant
                self.wf(),
                self.seed() == seed0,
                self.y_res() == y0,
                point_model(r8) == ge_smul(8, rm),
                hasher.transcript() == seed0 + compress_elem(ge_smul(8, rm)),
                j <= n,
                keys@.len() == j,
                forall|jj: int|
                    0 <= jj < j ==> keys@[jj]@ == sender_key(seed0, y0, rm, jj as nat)
                        && keys@[jj]@.len() == 32,
            decreases n - j,
        {
            let yr = point_scalar_mul(&self.y, &r8);
            let js = scalar_from_u64(j);
            let jt = point_scalar_mul(&js, &self.t64);
            let pj = point_sub(&yr, &jt);
            let mut h = hasher.fork();
            let pbytes = point_compress(&pj);
            h.input(pbytes.as_slice());
            let key = h.result32();
            proof {
                assert(key@ == sender_key(seed0, y0, rm, j as nat));
            }
            keys.push(key);
            j = j + 1;
        }
        Ok(keys)
    }

    /// Encrypts each value under its per-index key and sends the N
    /// ciphertexts in index order.
    pub fn send_values(&mut self, values: &Vec<Vec<u8>>) -> (r: Result<(), OtError>)
        requires
            old(self).wf(),
            values@.len() <= u64::MAX,
        ensures
            final(self).wf(),
            final(self).seed() == old(self).seed(),
            final(self).y_res() == old(self).y_res(),
            r is Ok ==> old(self).channel().pending().len() > 0 && final(self).channel().pending()
                == old(self).channel().pending().skip(1) && (exists|rm: GroupElem|
                elem_valid(rm) && encodes(old(self).channel().pending()[0], rm)
                    && final(self).channel().sent() == old(self).channel().sent() + Seq::new(
                    values@.len(),
                    |j: int|
                        S::seal(
                            sender_key(old(self).seed(), old(self).y_res(), rm, j as nat),
                            values@[j]@,
                        ),
                )),
            r matches Err(e) ==> (e == OtError::TransportError || e == OtError::PointError || e
                == OtError::CryptoError),
            r matches Err(e) && (e == OtError::TransportError || e == OtError::PointError)
                ==> final(self).channel().sent() == old(self).channel().sent(),
            r matches Err(e) && e == OtError::TransportError ==> final(self).channel().pending()
                == old(self).channel().pending(),
            r matches Err(e) && (e == OtError::PointError || e == OtError::CryptoError) ==> old(
                self).channel().pending().len() > 0 && final(self).channel().pending() == old(
                self).channel().pending().skip(1),
            (old(self).channel().pending().len() > 0 && old(self).channel().pending()[0].len() == 32
                && crate::curve::decompressible(old(self).channel().pending()[0]) && (forall|
                j: int,
            |
                0 <= j < values@.len() ==> #[trigger] S::encrypt_ok(values@[j]@))) ==> r is Ok,
            (old(self).channel().pending().len() > 0 && old(self).channel().pending()[0].len() == 32 && (
            exists|e: GroupElem|
                elem_valid(e) && old(self).channel().pending()[0] == compress_elem(e)) && (forall|
                j: int,
            |
                0 <= j < values@.len() ==> #[trigger] S::encrypt_ok(values@[j]@))) ==> r is Ok,
    {
        let n = values.len();
        let keys = match self.compute_keys(n as u64) {
            Ok(keys) => keys,
            Err(e) => {
                return Err(e);
            },
        };
        let ghost rm = choose|rm: GroupElem|
            elem_valid(rm) && encodes(old(self).channel().pending()[0], rm) && (forall|j: int|
                0 <= j < n ==> keys@[j]@ == sender_key(old(self).seed(), old(self).y_res(), rm, j as nat)
                    && keys@[j]@.len() == 32);
        let ghost sent0 = self.channel().sent();
        let ghost trace = Seq::new(
            values@.len(),
            |j: int| S::seal(sender_key(old(self).seed(), old(self).y_res(), rm, j as nat), values@[j]@),
        );
        let mut i: usize = 0;
        while i < n
            invariant
                self.wf(),
                self.seed() == old(self).seed(),
                self.y_res() == old(self).y_res(),
                n == values@.len(),
                i <= n,
                keys@.len() == n,
                old(self).channel().pending().len() > 0,
                self.channel().pending() == old(self).channel().pending().skip(1),
                elem_valid(rm),
                encodes(old(self).channel().pending()[0], rm),
                forall|jj: int|
                    0 <= jj < n ==> keys@[jj]@ == sender_key(
                        old(self).seed(),
                        old(self).y_res(),
                        rm,
                        jj as nat,
                    ) && keys@[jj]@.len() == 32,
                trace == Seq::new(
                    values@.len(),
                    |j: int|
                        S::seal(
                            sender_key(old(self).seed(), old(self).y_res(), rm, j as nat),
                            values@[j]@,
                        ),
                ),
                sent0 == old(self).channel().sent(),
                self.channel().sent() == sent0 + trace.take(i as int),
            decreases n - i,
        {
            let buf = values[i].clone();
            proof {
                assert(buf@ =~= values@[i as int]@);
                assert(S::encrypt_ok(buf@) == S::encrypt_ok(values@[i as int]@));
            }
            let c = match self.encryptor.encrypt(&keys[i], buf) {
                Ok(c) => c,
                Err(_) => {
                    return Err(OtError::CryptoError);
                },
            };
            let _ = self.conn.send(c);
            proof {
                assert(sent0 + trace.take(i + 1) =~= (sent0 + trace.take(i as int)).push(
                    trace[i as int],
                ));
            }
            i = i + 1;
        }
        proof {
            assert(trace.take(n as int) =~= trace);
        }
        Ok(())
    }
}

impl<S: SymmetricCryptoProvider> GetConn for ChouOrlandiOTSender<S> {
    closed spec fn conn_view(self) -> Duplex {
        self.conn
    }

    fn get_conn(self) -> (r: Duplex) {
        self.conn
    }
}

/// The receiving role of the base OT: holds the cleared sender point `S8`,
/// the seeded transcript, the cipher and the instance's own RNG.
pub struct ChouOrlandiOTReceiver<S: SymmetricCryptoProvider> {
    pub conn: Duplex,
    hasher: SHA3_256,
    decryptor: S,
    rng: OtRng,
    s8: EdwardsPoint,
}

impl<S: SymmetricCryptoProvider> ChouOrlandiOTReceiver<S> {
    /// The channel endpoint this role owns.
    pub closed spec fn channel(&self) -> Duplex {
        self.conn
    }

    /// The transcript every derived key is seeded with.
    pub closed spec fn seed(&self) -> Seq<u8> {
        self.hasher.transcript()
    }

    /// The model of the cleared sender point.
    pub closed spec fn s8m(&self) -> GroupElem {
        point_model(self.s8)
    }

    pub closed spec fn wf(&self) -> bool {
        elem_valid(self.s8m())
    }

    /// Mutable access to the owned channel endpoint, for delivering blobs.
    pub fn channel_mut(&mut self) -> (r: &mut Duplex)
        ensures
            *r == old(self).channel(),
            final(self).channel() == *final(r),
            final(self).seed() == old(self).seed(),
            final(self).s8m() == old(self).s8m(),
            final(self).wf() == old(self).wf(),
    {
        &mut self.conn
    }

    /// Receives the sender's masked public point, clears it by the cofactor
    /// and seeds the transcript with the cleared point.
    pub fn new(conn: Duplex, hasher: SHA3_256, decryptor: S, rng: OtRng) -> (r: Result<
        ChouOrlandiOTReceiver<S>,
        OtError,
    >)
        ensures
            r matches Ok(rc) ==> conn.pending().len() > 0 && rc.channel().pending()
                == conn.pending().skip(1) && rc.channel().sent() == conn.sent() && rc.wf() && (exists|
                pm: GroupElem,
            |
                elem_valid(pm) && encodes(conn.pending()[0], pm) && rc.s8m() == ge_smul(8, pm)
                    && rc.seed() == hasher.transcript() + compress_elem(ge_smul(8, pm))),
            r is Ok <==> conn.pending().len() > 0 && conn.pending()[0].len() == 32
                && crate::curve::decompressible(conn.pending()[0]),
            r matches Err(e) ==> (e == OtError::TransportError <==> conn.pending().len() == 0),
            r matches Err(e) ==> (e == OtError::TransportError || e == OtError::PointError),
            (conn.pending().len() > 0 && conn.pending()[0].len() == 32 && (exists|e: GroupElem|
                elem_valid(e) && conn.pending()[0] == compress_elem(e))) ==> r is Ok,
    {
        let mut conn = conn;
        let mut hasher = hasher;
        let p = match receive_point(&mut conn) {
            Ok(p) => p,
            Err(e) => {
                return Err(e);
            },
        };
        let s8 = point_mul_by_cofactor(&p);
        let sbytes = point_compress(&s8);
        hasher.input(sbytes.as_slice());
        Ok(ChouOrlandiOTReceiver { conn, hasher, decryptor, rng, s8 })
    }

    /// Draws the blinding scalar `x`, sends `c·S8 + 8·x·G` masked by the
    /// eight-torsion generator, and derives the key for position `c`.
    pub fn compute_key(&mut self, c: u64) -> (r: Result<Vec<u8>, OtError>)
        requires
            old(self).wf(),
        ensures
            r is Ok,
            final(self).wf(),
            final(self).seed() == old(self).seed(),
            final(self).s8m() == old(self).s8m(),
            final(self).channel().pending() == old(self).channel().pending(),
            r matches Ok(k) ==> (exists|x: nat|
                x < group_order() && final(self).channel().sent() == old(self).channel().sent().push(
                    compress_elem(
                        ge_add(receiver_point(c as nat, x, old(self).s8m()), torsion_elem()),
                    ),
                ) && k@ == receiver_key(old(self).seed(), c as nat, x, old(self).s8m())
                    && k@.len() == 32 && compress_elem(
                    ge_add(receiver_point(c as nat, x, old(self).s8m()), torsion_elem()),
                ).len() == 32),
    {
        let mut hasher = self.hasher.fork();
        let x = scalar_random(&mut self.rng);
        let cs = scalar_from_u64(c);
        let cpart = point_scalar_mul(&cs, &self.s8);
        let xg8 = point_mul_by_cofactor(&point_base_mul(&x));
        let r0 = point_add(&cpart, &xg8);
        let tors = eight_torsion();
        let wire = point_add(&r0, &tors);
        let _ = send_point(&mut self.conn, &wire);
        let r8 = point_mul_by_cofactor(&r0);
        let rbytes = point_compress(&r8);
        hasher.input(rbytes.as_slice());
        let e8 = scalar_from_u64(8);
        let x8 = scalar_mul(&x, &e8);
        let pp = point_scalar_mul(&x8, &self.s8);
        let pbytes = point_compress(&pp);
        hasher.input(pbytes.as_slice());
        let key = hasher.result32();
        proof {
            let xr = scalar_residue(x);
            assert(point_model(r0) == receiver_point(c as nat, xr, old(self).s8m()));
            assert(self.channel().sent() == old(self).channel().sent().push(
                compress_elem(
                    ge_add(receiver_point(c as nat, xr, old(self).s8m()), torsion_elem()),
                ),
            ));
            assert(key@ == receiver_key(old(self).seed(), c as nat, xr, old(self).s8m()));
        }
        Ok(key)
    }

    /// Receives the `n` ciphertexts in order, discards all but the one at
    /// `index`, and decrypts that one under `key`.
    pub fn receive_ciphertexts(&mut self, key: &Vec<u8>, index: usize, n: usize) -> (r: Result<
        Vec<u8>,
        OtError,
    >)
        requires
            key@.len() == 32,
        ensures
            final(self).wf() == old(self).wf(),
            final(self).seed() == old(self).seed(),
            final(self).s8m() == old(self).s8m(),
            final(self).channel().sent() == old(self).channel().sent(),
            r matches Ok(m) ==> index < n && old(self).channel().pending().len() >= n
                && final(self).channel().pending() == old(self).channel().pending().skip(n as int)
                && old(self).channel().pending()[index as int] == S::seal(key@, m@),
            r matches Ok(m) ==> forall|x: Seq<u8>|
                old(self).channel().pending()[index as int] == S::seal(key@, x) ==> x == m@,
            r matches Err(e) ==> (e == OtError::TransportError || e == OtError::CryptoError || e
                == OtError::ProtocolError),
            index >= n ==> (r matches Err(e) && e == OtError::ProtocolError),
            index < n && old(self).channel().pending().len() < n ==> (r matches Err(e) && e
                == OtError::TransportError),
            index < n && old(self).channel().pending().len() >= n ==> (r is Ok || (r matches Err(
                e,
            ) && e == OtError::CryptoError)),
            (index < n && old(self).channel().pending().len() >= n && (exists|x: Seq<u8>|
                old(self).channel().pending()[index as int] == S::seal(key@, x))) ==> r is Ok,
    {
        if index >= n {
            return Err(OtError::ProtocolError);
        }
        let mut buffers: Vec<Vec<u8>> = Vec::new();
        let mut i: usize = 0;
        while i < n
            invariant
                index < n,
                i <= n,
                buffers@.len() == i,
                self.wf() == old(self).wf(),
                self.seed() == old(self).seed(),
                self.s8m() == old(self).s8m(),
                self.channel().sent() == old(self).channel().sent(),
                old(self).channel().pending().len() >= i,
                self.channel().pending() == old(self).channel().pending().skip(i as int),
                forall|jj: int|
                    0 <= jj < i ==> buffers@[jj]@ == old(self).channel().pending()[jj],
            decreases n - i,
        {
            let v = match self.conn.receive() {
                Ok(v) => v,
                Err(_) => {
                    return Err(OtError::TransportError);
                },
            };
            proof {
                assert(old(self).channel().pending().skip(i as int).skip(1) =~= old(
                    self).channel().pending().skip(i + 1));
            }
            buffers.push(v);
            i = i + 1;
        }
        let buf = buffers[index].clone();
        match self.decryptor.decrypt(key, buf) {
            Ok(m) => Ok(m),
            Err(_) => Err(OtError::CryptoError),
        }
    }

    /// Derives the key for `index`, then receives the `n` ciphertexts and
    /// decrypts the chosen one: the whole receiving phase in one call over a
    /// full-duplex transport.
    pub fn receive(&mut self, index: usize, n: usize) -> (r: Result<Vec<u8>, OtError>)
        requires
            old(self).wf(),
            index <= u64::MAX,
        ensures
            final(self).wf(),
            final(self).seed() == old(self).seed(),
            final(self).s8m() == old(self).s8m(),
            exists|x: nat|
                x < group_order() && final(self).channel().sent() == old(
                    self).channel().sent().push(
                    compress_elem(
                        ge_add(
                            receiver_point(index as nat, x, old(self).s8m()),
                            torsion_elem(),
                        ),
                    ),
                ),
            r matches Ok(m) ==> index < n && old(self).channel().pending().len() >= n && final(
                self).channel().pending() == old(self).channel().pending().skip(n as int) && (
            exists|x: nat|
                x < group_order() && old(self).channel().pending()[index as int] == S::seal(
                    receiver_key(old(self).seed(), index as nat, x, old(self).s8m()),
                    m@,
                )),
            index >= n ==> (r matches Err(e) && e == OtError::ProtocolError),
            index < n && old(self).channel().pending().len() < n ==> (r matches Err(e) && e
                == OtError::TransportError),
            r matches Err(e) ==> (e == OtError::TransportError || e == OtError::CryptoError || e
                == OtError::ProtocolError),
    {
        let key = match self.compute_key(index as u64) {
            Ok(k) => k,
            Err(e) => {
                return Err(e);
            },
        };
        self.receive_ciphertexts(&key, index, n)
    }
}

impl<S: SymmetricCryptoProvider> GetConn for ChouOrlandiOTReceiver<S> {
    closed spec fn conn_view(self) -> Duplex {
        self.conn
    }

    fn get_conn(self) -> (r: Duplex) {
        self.conn
    }
}

/// One complete base-OT exchange between a sender and a receiver connected
/// by in-memory channels: whatever the receiver returns is exactly the
/// plaintext at its choice index.
pub fn run_base_ot<S: SymmetricCryptoProvider>(
    values: &Vec<Vec<u8>>,
    c: usize,
    enc: S,
    dec: S,
    sender_rng: OtRng,
    receiver_rng: OtRng,
) -> (r: Result<Vec<u8>, OtError>)
    requires
        c < values@.len(),
        values@.len() <= u64::MAX,
    ensures
        r matches Ok(m) ==> m@ == values@[c as int]@,
        (forall|j: int| 0 <= j < values@.len() ==> #[trigger] S::encrypt_ok(values@[j]@)) ==> r
            is Ok,
{
    let pair = match connect_base_pair(enc, dec, sender_rng, receiver_rng) {
        Ok(p) => p,
        Err(e) => {
            return Err(e);
        },
    };
    let (sender, receiver) = pair;
    let mut sender = sender;
    let mut receiver = receiver;
    let ghost y = sender.y_res();
    let ghost seed = sender.seed();
    let key = match receiver.compute_key(c as u64) {
        Ok(k) => k,
        Err(e) => {
            return Err(e);
        },
    };
    let ghost x = choose|x: nat|
        x < group_order() && receiver.channel().sent() == Seq::<Seq<u8>>::empty().push(
            compress_elem(ge_add(receiver_point(c as nat, x, spub(y)), torsion_elem())),
        ) && key@ == receiver_key(seed, c as nat, x, spub(y)) && key@.len() == 32
            && compress_elem(ge_add(receiver_point(c as nat, x, spub(y)), torsion_elem())).len()
            == 32;
    let ghost rwire = ge_add(receiver_point(c as nat, x, spub(y)), torsion_elem());
    receiver.conn.deliver_to(&mut sender.conn);
    proof {
        lemma_wire_point_masked(c as nat, x, spub(y));
        assert(elem_valid(rwire)) by {
            assert(spub(y).t == 0);
        }
        assert(sender.channel().pending() =~= Seq::<Seq<u8>>::empty().push(
            compress_elem(rwire),
        ));
        assert(sender.channel().pending()[0] == compress_elem(rwire));
    }
    match sender.send_values(values) {
        Ok(u) => u,
        Err(e) => {
            return Err(e);
        },
    };
    let ghost rm = choose|rm: GroupElem|
        elem_valid(rm) && encodes(compress_elem(rwire), rm) && sender.channel().sent()
            == Seq::<Seq<u8>>::empty() + Seq::new(
            values@.len(),
            |j: int| S::seal(sender_key(seed, y, rm, j as nat), values@[j]@),
        );
    proof {
        assert(rm == rwire);
        lemma_key_agreement(seed, y, x, c as u64);
        assert(sender_key(seed, y, rwire, c as nat) == receiver_key(seed, c as nat, x, spub(y)));
    }
    let n = values.len();
    sender.conn.deliver_to(&mut receiver.conn);
    proof {
        assert(receiver.channel().pending() =~= Seq::new(
            values@.len(),
            |j: int| S::seal(sender_key(seed, y, rwire, j as nat), values@[j]@),
        ));
        assert(receiver.channel().pending().len() == n);
        assert(receiver.channel().pending()[c as int] == S::seal(key@, values@[c as int]@));
    }
    let out = receiver.receive_ciphertexts(&key, c, n);
    proof {
        assert(out matches Ok(m) ==> m@ == values@[c as int]@);
    }
    out
}

/// Checks a wire blob as a channel observer would: decompresses it and
/// reports whether it carries an eight-torsion mask.  An honestly masked
/// point is never torsion free, whatever the choice index; a point that an
/// implementation forgot to mask is detectable here whenever its choice
/// was zero.
pub fn wire_point_is_masked(v: &Vec<u8>) -> (r: Result<bool, OtError>)
    requires
        v@.len() == 32,
    ensures
        r matches Ok(b) ==> forall|e: GroupElem|
            elem_valid(e) && v@ == compress_of(e.k, e.t) ==> b == (e.t != 0),
        (exists|e: GroupElem| elem_valid(e) && v@ == compress_elem(e)) ==> r is Ok,
{
    match point_decompress(v) {
        Some(p) => Ok(!crate::curve::point_is_torsion_free(&p)),
        None => Err(OtError::PointError),
    }
}

/// A base-OT sender and receiver freshly connected by in-memory channels:
/// the sender's masked public point has been delivered and cleared, so both
/// sides hold the same transcript seed and the receiver's point is the
/// sender's cleared public point.
pub fn connect_base_pair<S: SymmetricCryptoProvider>(
    enc: S,
    dec: S,
    sender_rng: OtRng,
    receiver_rng: OtRng,
) -> (r: Result<(ChouOrlandiOTSender<S>, ChouOrlandiOTReceiver<S>), OtError>)
    ensures
        r is Ok,
        r matches Ok(p) ==> p.0.wf() && p.1.wf() && p.0.y_res() < group_order() && p.1.seed()
            == p.0.seed() && p.1.s8m() == spub(p.0.y_res()) && p.1.s8m().t == 0
            && p.0.channel().pending() == Seq::<Seq<u8>>::empty() && p.0.channel().sent() == Seq::<
            Seq<u8>,
        >::empty() && p.1.channel().pending() == Seq::<Seq<u8>>::empty() && p.1.channel().sent()
            == Seq::<Seq<u8>>::empty(),
{
    let mut sender = match ChouOrlandiOTSender::new(
        Duplex::new(),
        SHA3_256::new(),
        enc,
        sender_rng,
    ) {
        Ok(s) => s,
        Err(e) => {
            return Err(e);
        },
    };
    let ghost y = sender.y_res();
    let ghost swire = ge_add(ge_smul(y, base_elem()), torsion_elem());
    let mut rconn = Duplex::new();
    sender.conn.deliver_to(&mut rconn);
    proof {
        vstd::arithmetic::div_mod::lemma_small_mod(y, group_order());
        vstd::arithmetic::div_mod::lemma_small_mod(0, 8);
        vstd::arithmetic::div_mod::lemma_small_mod(1, 8);
        assert(y * 1nat == y && y * 0nat == 0nat) by (nonlinear_arith);
        assert(elem_valid(swire));
        assert(rconn.pending() =~= Seq::<Seq<u8>>::empty().push(compress_elem(swire)));
        assert(rconn.pending().len() == 1);
        assert(rconn.pending()[0] == compress_elem(swire));
        assert(rconn.pending()[0].len() == 32);
        assert(exists|e: GroupElem| elem_valid(e) && rconn.pending()[0] == compress_elem(e));
    }
    let receiver = match ChouOrlandiOTReceiver::new(rconn, SHA3_256::new(), dec, receiver_rng) {
        Ok(rc) => rc,
        Err(e) => {
            return Err(e);
        },
    };
    proof {
        let pm = choose|pm: GroupElem|
            elem_valid(pm) && encodes(compress_elem(swire), pm) && receiver.s8m() == ge_smul(8, pm)
                && receiver.seed() == Seq::<u8>::empty() + compress_elem(ge_smul(8, pm));
        assert(pm == swire);
        lemma_cofactor_clears_mask(y);
        assert(receiver.s8m() == spub(y));
        assert(Seq::<u8>::empty() + compress_elem(spub(y)) =~= compress_elem(spub(y)));
        assert(sender.seed() =~= compress_elem(spub(y)));
        assert(receiver.seed() == sender.seed());
        assert(receiver.channel().pending() =~= Seq::<Seq<u8>>::empty());
    }
    Ok((sender, receiver))
}

/// The channel a sender releases is the endpoint it owned.
pub proof fn lemma_sender_conn_view<S: SymmetricCryptoProvider>(s: ChouOrlandiOTSender<S>)
    ensures
        s.conn_view() == s.channel(),
{
}

/// The channel a receiver releases is the endpoint it owned.
pub proof fn lemma_receiver_conn_view<S: SymmetricCryptoProvider>(s: ChouOrlandiOTReceiver<S>)
    ensures
        s.conn_view() == s.channel(),
{
}

/// Multiplying the masked sender point by the cofactor annihilates the
/// eight-torsion mask and yields the sender's cleared public point.
pub proof fn lemma_cofactor_clears_mask(y: nat)
    requires
        y < group_order(),
    ensures
        ge_smul(8, ge_add(ge_smul(y, base_elem()), torsion_elem())) == spub(y),
{
    let l = group_order() as int;
    vstd::arithmetic::div_mod::lemma_small_mod(y, group_order());
    vstd::arithmetic::div_mod::lemma_small_mod(0, 8);
    vstd::arithmetic::div_mod::lemma_small_mod(1, 8);
    assert(ge_smul(y, base_elem()) == GroupElem { k: y, t: 0nat });
    assert(ge_add(GroupElem { k: y, t: 0nat }, torsion_elem()) == GroupElem { k: y, t: 1nat });
    assert((8 * 1nat) % 8nat == 0nat);
    assert(ge_smul(8, GroupElem { k: y, t: 1nat }).t == 0);
    assert(ge_smul(8, GroupElem { k: y, t: 1nat }).k == (8 * y) % group_order());
    assert(spub(y) == GroupElem { k: (8 * y) % group_order(), t: 0nat });
}

/// The receiver's wire point carries exactly one torsion component while
/// masked, and none after multiplication by the cofactor: an unmasked point
/// is distinguishable, a cleared one lies in the prime-order subgroup.
pub proof fn lemma_wire_point_masked(c: nat, x: nat, s8: GroupElem)
    requires
        s8.t == 0,
    ensures
        ge_add(receiver_point(c, x, s8), torsion_elem()).t == 1,
        ge_smul(8, ge_add(receiver_point(c, x, s8), torsion_elem())).t == 0,
        receiver_point(c, x, s8).t == 0,
{
    vstd::arithmetic::div_mod::lemma_small_mod(0, 8);
    vstd::arithmetic::div_mod::lemma_small_mod(1, 8);
    assert(receiver_point(c, x, s8).t == 0);
    assert((8 * 1nat) % 8nat == 0nat);
}

/// The heart of the exchange: for choice `c`, the key the sender derives at
/// index `c` from the receiver's masked wire point equals the key the
/// receiver derives, whenever both transcripts carry the same seed and the
/// receiver works with the sender's cleared point `8·y·G`.
pub proof fn lemma_key_agreement(seed: Seq<u8>, y: nat, x: nat, c: u64)
    requires
        y < group_order(),
        x < group_order(),
    ensures
        sender_key(
            seed,
            y,
            ge_add(receiver_point(c as nat, x, spub(y)), torsion_elem()),
            c as nat,
        ) == receiver_key(seed, c as nat, x, spub(y)),
{
    let l = group_order() as int;
    let yi = y as int;
    let xi = x as int;
    let ci = c as int;
    vstd::arithmetic::div_mod::lemma_small_mod(y, group_order());
    vstd::arithmetic::div_mod::lemma_small_mod(x, group_order());
    vstd::arithmetic::div_mod::lemma_small_mod(0, 8);
    vstd::arithmetic::div_mod::lemma_small_mod(1, 8);
    let s8 = spub(y);
    let a = (8 * yi) % l;
    assert(s8 == GroupElem { k: a as nat, t: 0nat });
    // the receiver's unmasked wire point
    let rp = receiver_point(c as nat, x, s8);
    let r = ((ci * a) % l + (8 * xi) % l) % l;
    assert(rp.k == r && rp.t == 0) by {
        assert(x * 1nat == x) by (nonlinear_arith);
        assert(x * 0nat == 0nat) by (nonlinear_arith);
        assert(ge_smul(x, base_elem()) == GroupElem { k: x, t: 0nat });
        assert(8 * 0nat == 0nat) by (nonlinear_arith);
        assert(ge_smul(8, GroupElem { k: x, t: 0nat }) == GroupElem {
            k: ((8 * xi) % l) as nat,
            t: 0nat,
        });
        assert((c as nat) * 0nat == 0nat) by (nonlinear_arith);
        assert(ge_smul(c as nat, s8) == GroupElem { k: ((ci * a) % l) as nat, t: 0nat });
        assert(rp == ge_add(
            GroupElem { k: ((ci * a) % l) as nat, t: 0nat },
            GroupElem { k: ((8 * xi) % l) as nat, t: 0nat },
        ));
    }
    assert(r == (ci * a + 8 * xi) % l) by {
        vstd::arithmetic::div_mod::lemma_add_mod_noop(ci * a, 8 * xi, l);
    }
    let rm = ge_add(rp, torsion_elem());
    assert(rm == GroupElem { k: r as nat, t: 1nat });
    // both sides hash the same cleared wire point 8·R
    assert((8 * 1nat) % 8nat == 0nat);
    assert(ge_smul(8, rm) == ge_smul(8, rp));
    let r8 = (8 * r) % l;
    assert(ge_smul(8, rm) == GroupElem { k: r8 as nat, t: 0nat });
    // the sender's per-index point at j = c
    let t64 = t64_of(y);
    assert(t64.k == (8 * ((yi * a) % l)) % l && t64.t == 0) by {
        assert(ge_smul(y, s8).k == (yi * a) % l);
        assert(ge_smul(y, s8).t == 0);
    }
    assert(t64.k == (64 * yi * yi) % l) by {
        vstd::arithmetic::div_mod::lemma_mul_mod_noop_right(8, yi * a, l);
        assert((8 * (yi * a)) % l == (8 * yi * a) % l) by (nonlinear_arith);
        vstd::arithmetic::div_mod::lemma_mul_mod_noop_right(8 * yi, 8 * yi, l);
        assert((8 * yi * a) % l == (8 * yi * ((8 * yi) % l)) % l);
        assert((8 * yi * (8 * yi)) % l == (64 * yi * yi) % l) by (nonlinear_arith);
    }
    let term1 = (yi * r8) % l;
    assert(term1 == (64 * ci * yi * yi + 64 * xi * yi) % l) by {
        vstd::arithmetic::div_mod::lemma_mul_mod_noop_right(yi, 8 * r, l);
        assert((yi * (8 * r)) % l == (8 * yi * r) % l) by (nonlinear_arith);
        vstd::arithmetic::div_mod::lemma_mul_mod_noop_right(8 * yi, ci * a + 8 * xi, l);
        assert((8 * yi * ((ci * a + 8 * xi) % l)) % l == (8 * yi * (ci * a + 8 * xi)) % l);
        assert(8 * yi * (ci * a + 8 * xi) == 8 * ci * yi * a + 64 * xi * yi) by (nonlinear_arith);
        vstd::arithmetic::div_mod::lemma_add_mod_noop(8 * ci * yi * a, 64 * xi * yi, l);
        vstd::arithmetic::div_mod::lemma_mul_mod_noop_right(8 * ci * yi, 8 * yi, l);
        assert((8 * ci * yi * a) % l == (8 * ci * yi * ((8 * yi) % l)) % l);
        assert((8 * ci * yi * (8 * yi)) % l == (64 * ci * yi * yi) % l) by (nonlinear_arith);
        vstd::arithmetic::div_mod::lemma_add_mod_noop(
            (8 * ci * yi * a) % l,
            (64 * xi * yi) % l,
            l,
        );
        vstd::arithmetic::div_mod::lemma_mod_twice(64 * ci * yi * yi, l);
        vstd::arithmetic::div_mod::lemma_mod_twice(64 * xi * yi, l);
        vstd::arithmetic::div_mod::lemma_add_mod_noop(64 * ci * yi * yi, 64 * xi * yi, l);
    }
    let term2 = (ci * ((64 * yi * yi) % l)) % l;
    assert(term2 == (64 * ci * yi * yi) % l) by {
        vstd::arithmetic::div_mod::lemma_mul_mod_noop_right(ci, 64 * yi * yi, l);
        assert((ci * (64 * yi * yi)) % l == (64 * ci * yi * yi) % l) by (nonlinear_arith);
    }
    // the sender's point at index c reduces to 64·x·y·G
    let ks = (term1 - term2) % l;
    assert(ks == (64 * xi * yi) % l) by {
        vstd::arithmetic::div_mod::lemma_sub_mod_noop(
            64 * ci * yi * yi + 64 * xi * yi,
            64 * ci * yi * yi,
            l,
        );
        assert(64 * ci * yi * yi + 64 * xi * yi - 64 * ci * yi * yi == 64 * xi * yi);
    }
    // the receiver's point 8·x·S8 reduces to the same element
    let kr = ((((xi * 8) % l) * a) % l);
    assert(kr == (64 * xi * yi) % l) by {
        vstd::arithmetic::div_mod::lemma_mul_mod_noop_left(xi * 8, a, l);
        vstd::arithmetic::div_mod::lemma_mul_mod_noop_right(xi * 8, 8 * yi, l);
        assert((xi * 8 * a) % l == (xi * 8 * ((8 * yi) % l)) % l);
        assert((xi * 8 * (8 * yi)) % l == (64 * xi * yi) % l) by (nonlinear_arith);
    }
    // assemble: both chou_key applications coincide
    let sender_p = ge_sub(ge_smul(y, ge_smul(8, rm)), ge_smul(c as nat, t64));
    let receiver_p = ge_smul((x * 8) % group_order(), s8);
    assert(sender_p.k == ks as nat) by {
        assert(ge_smul(y, ge_smul(8, rm)).k == term1 as nat);
        assert(ge_smul(c as nat, t64).k == term2 as nat);
    }
    assert(sender_p.t == 0) by {
        assert(ge_smul(y, ge_smul(8, rm)).t == 0);
        assert(ge_smul(c as nat, t64).t == 0);
        assert((0 - 0) % 8int == 0);
    }
    assert(receiver_p.k == kr as nat && receiver_p.t == 0);
    assert(sender_p == receiver_p);
    assert(ge_smul(8, receiver_point(c as nat, x, spub(y))) == ge_smul(8, rm));
}

} // verus!
