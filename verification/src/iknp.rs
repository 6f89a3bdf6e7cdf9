//! The IKNP 1-out-of-2 oblivious transfer extension.
//!
//! A fixed batch of base OTs (one per bit of the security parameter) is
//! bootstrapped into arbitrarily many 1-out-of-2 transfers using only the
//! variable-output hash and bitwise exclusive or.  The extension receiver
//! plays the base-OT sender and vice versa.
use vstd::prelude::*;

use crate::bits::bits_of_bytes;
use crate::bits::bytes_of_bits;
use crate::bits::xor_bits;
use crate::bits::BitVec;
use crate::chou::compress_elem;
use crate::chou::receiver_key;
use crate::chou::receiver_point;
use crate::chou::sender_key;
use crate::chou::ChouOrlandiOTReceiver;
use crate::chou::ChouOrlandiOTSender;
use crate::comm::Duplex;
use crate::comm::GetConn;
use crate::crypto::SymmetricCryptoProvider;
use crate::curve::elem_valid;
use crate::curve::encodes;
use crate::curve::ge_add;
use crate::curve::group_order;
use crate::curve::torsion_elem;
use crate::curve::GroupElem;
use crate::digest::xof_of;
use crate::digest::SHA3_256;
use crate::encoding::u64_be_bytes;
use crate::encoding::u64_to_be_bytes;
use crate::rng::OtRng;
use crate::OtError;

verus! {

/// The number a choice bit stands for.
pub open spec fn bit_nat(b: bool) -> nat {
    if b {
        1
    } else {
        0
    }
}

/// One matrix row: the hash of `seed` over transcript `h0`, squeezed to
/// enough bytes and truncated to `n` bits.
pub open spec fn row_bits(h0: Seq<u8>, seed: Seq<u8>, n: nat) -> Seq<bool> {
    bits_of_bytes(xof_of(h0 + seed, (n + 7) / 8)).take(n as int)
}

/// The masked row the extension receiver sends for row `i`:
/// `T_i xor G_i xor r`, packed to bytes.
pub open spec fn u_row(h0: Seq<u8>, k0: Seq<u8>, k1: Seq<u8>, r: Seq<bool>) -> Seq<u8> {
    bytes_of_bits(
        xor_bits(xor_bits(row_bits(h0, k0, r.len()), row_bits(h0, k1, r.len())), r),
    )
}

/// The per-column mask: the hash of the column index (8 big-endian bytes)
/// and the packed column bits, squeezed to `len` bytes.
pub open spec fn col_hash(h0: Seq<u8>, j: u64, col: Seq<bool>, len: nat) -> Seq<u8> {
    xof_of(h0 + u64_be_bytes(j) + bytes_of_bits(col), len)
}

/// Bytewise exclusive or (over the length of the first operand).
pub open spec fn xor_bytes(a: Seq<u8>, b: Seq<u8>) -> Seq<u8> {
    Seq::new(a.len(), |i: int| a[i] ^ b[i])
}

/// Column `j` of a sequence of rows.
pub open spec fn column(rows: Seq<Seq<bool>>, j: int) -> Seq<bool> {
    Seq::new(rows.len(), |i: int| rows[i][j])
}

/// The ciphertext trace a batch of base-OT pair transfers leaves on the
/// wire: two sealed seeds per position, keyed at indices 0 and 1.
pub open spec fn base_trace<S: SymmetricCryptoProvider>(
    seed: Seq<u8>,
    y: nat,
    rms: Seq<GroupElem>,
    p0: Seq<Seq<u8>>,
    p1: Seq<Seq<u8>>,
) -> Seq<Seq<u8>> {
    Seq::new(
        2 * rms.len(),
        |idx: int|
            S::seal(
                sender_key(seed, y, rms[idx / 2], (idx % 2) as nat),
                if idx % 2 == 0 {
                    p0[idx / 2]
                } else {
                    p1[idx / 2]
                },
            ),
    )
}

/// The rows of the matrix Q the extension sender reconstructs: row `i` is
/// the hash of its recovered seed, xored with the received masked row when
/// its random choice bit is set.
pub open spec fn q_rows(
    h0: Seq<u8>,
    ublobs: Seq<Seq<u8>>,
    seeds: Seq<Seq<u8>>,
    s: Seq<bool>,
    n: nat,
) -> Seq<Seq<bool>> {
    Seq::new(
        s.len(),
        |i: int|
            if s[i] {
                xor_bits(bits_of_bytes(ublobs[i]).take(n as int), row_bits(h0, seeds[i], n))
            } else {
                row_bits(h0, seeds[i], n)
            },
    )
}

/// The masked value pairs the extension sender puts on the wire: for each
/// column, the first value masked by the hash of the column of Q, then the
/// second masked by the hash of that column xored with `s`.
pub open spec fn y_trace(
    h0: Seq<u8>,
    q: Seq<Seq<bool>>,
    s: Seq<bool>,
    values: Seq<(Vec<u8>, Vec<u8>)>,
) -> Seq<Seq<u8>> {
    Seq::new(
        2 * values.len(),
        |idx: int|
            if idx % 2 == 0 {
                xor_bytes(
                    values[idx / 2].0@,
                    col_hash(h0, (idx / 2) as u64, column(q, idx / 2), values[idx / 2].0@.len()),
                )
            } else {
                xor_bytes(
                    values[idx / 2].1@,
                    col_hash(
                        h0,
                        (idx / 2) as u64,
                        xor_bits(column(q, idx / 2), s),
                        values[idx / 2].1@.len(),
                    ),
                )
            },
    )
}

/// Bytewise exclusive or of two equal-length buffers.
fn xor_buf(a: &Vec<u8>, b: &Vec<u8>) -> (r: Vec<u8>)
    requires
        a@.len() == b@.len(),
    ensures
        r@ == xor_bytes(a@, b@),
{
    let n = a.len();
    let mut out: Vec<u8> = Vec::new();
    let mut i: usize = 0;
    while i < n
        invariant
            n == a@.len(),
            a@.len() == b@.len(),
            i <= n,
            out@.len() == i,
            forall|j: int| 0 <= j < i ==> out@[j] == (a@[j] ^ b@[j]),
        decreases n - i,
    {
        out.push(a[i] ^ b[i]);
        i = i + 1;
    }
    proof {
        assert(out@ =~= xor_bytes(a@, b@));
    }
    out
}

/// True when the queued blobs hold, at position `2i + s_i` for every row
/// `i`, some value sealed under key `i`: what the second setup stage needs
/// to recover every chosen seed.
pub open spec fn pairs_available<S: SymmetricCryptoProvider>(
    pend: Seq<Seq<u8>>,
    keys: Seq<Seq<u8>>,
    bits: Seq<bool>,
    ss: Seq<Seq<u8>>,
) -> bool {
    pend.len() >= 2 * bits.len() && ss.len() == bits.len() && (forall|i: int|
        0 <= i < bits.len() ==> #[trigger] pend[2 * i + bit_nat(bits[i]) as int] == S::seal(
            keys[i],
            ss[i],
        ))
}

/// Forks the hash, absorbs `data`, and squeezes enough bytes for `n` bits,
/// truncated to exactly `n` bits.
fn trunc_hash(h: &SHA3_256, n: usize, data: &Vec<u8>) -> (r: BitVec)
    requires
        n + 7 <= usize::MAX,
    ensures
        r@ == row_bits(h.transcript(), data@, n as nat),
        r@.len() == n,
{
    let mut hh = h.fork();
    hh.input(data.as_slice());
    let byte_len: usize = n / 8 + if n % 8 == 0 {
        0
    } else {
        1
    };
    proof {
        assert(byte_len == (n + 7) / 8);
    }
    let v = hh.result(byte_len);
    let mut bv = BitVec::from_bytes(&v);
    proof {
        assert(bv@.len() == byte_len * 8);
        vstd::arithmetic::div_mod::lemma_fundamental_div_mod((n + 7) as int, 8);
        assert(n <= byte_len * 8);
    }
    bv.truncate(n);
    bv
}

/// The receiving role of the extension: it played the base-OT sender during
/// setup and holds one pair of seeds per matrix row.
pub struct IKNPExtendedOTReceiver {
    pub conn: Duplex,
    hasher: SHA3_256,
    initial_pairs: Vec<(Vec<u8>, Vec<u8>)>,
}

impl IKNPExtendedOTReceiver {
    pub closed spec fn channel(&self) -> Duplex {
        self.conn
    }

    /// The transcript prefix of every hash this instance computes.
    pub closed spec fn h0(&self) -> Seq<u8> {
        self.hasher.transcript()
    }

    /// The first seeds, one per row.
    pub closed spec fn pairs0(&self) -> Seq<Seq<u8>> {
        Seq::new(self.initial_pairs@.len(), |i: int| self.initial_pairs@[i].0@)
    }

    /// The second seeds, one per row.
    pub closed spec fn pairs1(&self) -> Seq<Seq<u8>> {
        Seq::new(self.initial_pairs@.len(), |i: int| self.initial_pairs@[i].1@)
    }

    /// The matrix T whose rows are the hashes of the first seeds.
    pub open spec fn t_matrix(&self, n: nat) -> Seq<Seq<bool>> {
        Seq::new(self.pairs0().len(), |i: int| row_bits(self.h0(), self.pairs0()[i], n))
    }

    /// Mutable access to the owned channel endpoint, for delivering blobs.
    pub fn channel_mut(&mut self) -> (r: &mut Duplex)
        ensures
            *r == old(self).channel(),
            final(self).channel() == *final(r),
            final(self).h0() == old(self).h0(),
            final(self).pairs0() == old(self).pairs0(),
            final(self).pairs1() == old(self).pairs1(),
    {
        &mut self.conn
    }

    /// Draws `8·security_param` pairs of fresh seeds and sends each pair
    /// through the base-OT sender as a 1-out-of-2 transfer, then takes the
    /// channel over.
    pub fn new<S: SymmetricCryptoProvider>(
        hasher: SHA3_256,
        base_ot_sender: ChouOrlandiOTSender<S>,
        rng: OtRng,
        security_param: usize,
    ) -> (r: Result<IKNPExtendedOTReceiver, OtError>)
        requires
            base_ot_sender.wf(),
            security_param * 8 <= usize::MAX,
        ensures
            r matches Ok(ext) ==> (forall|i: int|
                0 <= i < ext.pairs0().len() ==> #[trigger] ext.pairs0()[i].len() == security_param
                    && ext.pairs1()[i].len() == security_param),
            r matches Ok(ext) ==> ext.h0() == hasher.transcript() && ext.pairs0().len()
                == security_param * 8 && ext.pairs1().len() == security_param * 8 && ext.channel().pending()
                == base_ot_sender.channel().pending().skip((security_param * 8) as int) && (exists|
                rms: Seq<GroupElem>,
            |
                rms.len() == security_param * 8 && (forall|i: int|
                    0 <= i < rms.len() ==> elem_valid(rms[i]) && encodes(
                        base_ot_sender.channel().pending()[i],
                        #[trigger] rms[i],
                    )) && ext.channel().sent() == base_ot_sender.channel().sent()
                    + base_trace::<S>(
                    base_ot_sender.seed(),
                    base_ot_sender.y_res(),
                    rms,
                    ext.pairs0(),
                    ext.pairs1(),
                )),
            (base_ot_sender.channel().pending().len() >= security_param * 8 && (forall|i: int|
                0 <= i < security_param * 8 ==> #[trigger] base_ot_sender.channel().pending()[i].len()
                    == 32 && (exists|e: GroupElem|
                    elem_valid(e) && base_ot_sender.channel().pending()[i] == compress_elem(e)))
                && (forall|d: Seq<u8>|
                d.len() == security_param as nat ==> #[trigger] S::encrypt_ok(d))) ==> r is Ok,
    {
        let m: usize = security_param * 8;
        let mut base = base_ot_sender;
        let mut rng = rng;
        let mut initial_pairs: Vec<(Vec<u8>, Vec<u8>)> = Vec::new();
        let ghost pend0 = base.channel().pending();
        let ghost sent0 = base.channel().sent();
        let ghost seed = base.seed();
        let ghost y = base.y_res();
        let mut rms: Ghost<Seq<GroupElem>> = Ghost(Seq::empty());
        let mut i: usize = 0;
        while i < m
            invariant
                base.wf(),
                base.seed() == seed,
                base.y_res() == y,
                m == security_param * 8,
                pend0 == base_ot_sender.channel().pending(),
                sent0 == base_ot_sender.channel().sent(),
                seed == base_ot_sender.seed(),
                y == base_ot_sender.y_res(),
                i <= m,
                i <= pend0.len(),
                initial_pairs@.len() == i,
                forall|ii: int|
                    0 <= ii < i ==> #[trigger] initial_pairs@[ii].0@.len() == security_param
                        && initial_pairs@[ii].1@.len() == security_param,
                rms@.len() == i,
                base.channel().pending().len() == pend0.len() - i,
                base.channel().pending() == pend0.skip(i as int),
                forall|ii: int|
                    0 <= ii < i ==> elem_valid(rms@[ii]) && encodes(pend0[ii], #[trigger] rms@[ii]),
                base.channel().sent() == sent0 + base_trace::<S>(
                    seed,
                    y,
                    rms@,
                    Seq::new(initial_pairs@.len(), |k: int| initial_pairs@[k].0@),
                    Seq::new(initial_pairs@.len(), |k: int| initial_pairs@[k].1@),
                ),
            decreases m - i,
        {
            let k0 = rng.fill(security_param);
            let k1 = rng.fill(security_param);
            let mut pv: Vec<Vec<u8>> = Vec::new();
            pv.push(k0.clone());
            pv.push(k1.clone());
            let ghost pend_i = base.channel().pending();
            let ghost sent_i = base.channel().sent();
            proof {
                assert(pend_i =~= pend0.skip(i as int));
                if pend_i.len() > 0 {
                    assert((i as int) < pend0.len());
                    assert(pend0.skip(i as int)[0] == pend0[0 + i as int]);
                    assert(pend_i[0].len() == pend0[i as int].len());
                    assert((exists|ee: GroupElem|
                        elem_valid(ee) && pend0[i as int] == compress_elem(ee)) ==> (exists|
                        ee: GroupElem,
                    |
                        elem_valid(ee) && pend_i[0] == compress_elem(ee))) by {
                        if exists|ee: GroupElem|
                            elem_valid(ee) && pend0[i as int] == compress_elem(ee) {
                            let ee = choose|ee: GroupElem|
                                elem_valid(ee) && pend0[i as int] == compress_elem(ee);
                            assert(elem_valid(ee) && pend_i[0] == compress_elem(ee));
                        }
                    }
                }
            }
            match base.send_values(&pv) {
                Ok(u) => u,
                Err(e) => {
                    return Err(e);
                },
            };
            proof {
                assert(pend_i.len() > 0);
                assert(pend_i[0] == pend0[i as int]);
            }
            let ghost rm = choose|rm: GroupElem|
                elem_valid(rm) && encodes(pend_i[0], rm) && base.channel().sent() == sent_i
                    + Seq::new(
                    pv@.len(),
                    |j: int| S::seal(sender_key(seed, y, rm, j as nat), pv@[j]@),
                );
            initial_pairs.push((k0, k1));
            proof {
                let p0new = Seq::new(initial_pairs@.len(), |k: int| initial_pairs@[k].0@);
                let p1new = Seq::new(initial_pairs@.len(), |k: int| initial_pairs@[k].1@);
                assert(base.channel().sent() =~= sent0 + base_trace::<S>(
                    seed,
                    y,
                    rms@.push(rm),
                    p0new,
                    p1new,
                ));
                assert(base.channel().pending() =~= pend0.skip(i + 1));
            }
            rms = Ghost(rms@.push(rm));
            i = i + 1;
        }
        proof {
            crate::chou::lemma_sender_conn_view(base);
        }
        let ext = IKNPExtendedOTReceiver { conn: base.get_conn(), hasher, initial_pairs };
        proof {
            assert(ext.pairs0() =~= Seq::new(
                ext.initial_pairs@.len(),
                |k: int| ext.initial_pairs@[k].0@,
            ));
            assert(ext.pairs1() =~= Seq::new(
                ext.initial_pairs@.len(),
                |k: int| ext.initial_pairs@[k].1@,
            ));
            assert(rms@.len() == security_param * 8 && (forall|ii: int|
                0 <= ii < rms@.len() ==> elem_valid(rms@[ii]) && encodes(
                    pend0[ii],
                    #[trigger] rms@[ii],
                )) && ext.channel().sent() == sent0 + base_trace::<S>(
                seed,
                y,
                rms@,
                ext.pairs0(),
                ext.pairs1(),
            ));
        }
        Ok(ext)
    }
}

impl IKNPExtendedOTReceiver {
    /// Sends, for every row, the masked row `T_i xor G_i xor r`, packed to
    /// bytes: the first half of the transfer for choice bits `r`.
    pub fn send_masks(&mut self, choice_bits: &BitVec) -> (r: Result<(), OtError>)
        requires
            choice_bits@.len() + 7 <= usize::MAX,
        ensures
            r is Ok,
            final(self).h0() == old(self).h0(),
            final(self).pairs0() == old(self).pairs0(),
            final(self).pairs1() == old(self).pairs1(),
            final(self).channel().pending() == old(self).channel().pending(),
            final(self).channel().sent() == old(self).channel().sent() + Seq::new(
                old(self).pairs0().len(),
                |i: int|
                    u_row(old(self).h0(), old(self).pairs0()[i], old(self).pairs1()[i], choice_bits@),
            ),
            forall|i: int|
                0 <= i < old(self).pairs0().len() ==> #[trigger] row_bits(
                    old(self).h0(),
                    old(self).pairs0()[i],
                    choice_bits@.len(),
                ).len() == choice_bits@.len() && row_bits(
                    old(self).h0(),
                    old(self).pairs1()[i],
                    choice_bits@.len(),
                ).len() == choice_bits@.len(),
    {
        let n = choice_bits.len();
        let m = self.initial_pairs.len();
        let ghost sent0 = self.channel().sent();
        let mut i: usize = 0;
        while i < m
            invariant
                n == choice_bits@.len(),
                n + 7 <= usize::MAX,
                m == self.pairs0().len(),
                self.h0() == old(self).h0(),
                self.pairs0() == old(self).pairs0(),
                self.pairs1() == old(self).pairs1(),
                self.channel().pending() == old(self).channel().pending(),
                sent0 == old(self).channel().sent(),
                i <= m,
                self.channel().sent() == sent0 + Seq::new(
                    i as nat,
                    |ii: int|
                        u_row(
                            old(self).h0(),
                            old(self).pairs0()[ii],
                            old(self).pairs1()[ii],
                            choice_bits@,
                        ),
                ),
                forall|ii: int|
                    0 <= ii < i ==> #[trigger] row_bits(
                        old(self).h0(),
                        old(self).pairs0()[ii],
                        choice_bits@.len(),
                    ).len() == choice_bits@.len() && row_bits(
                        old(self).h0(),
                        old(self).pairs1()[ii],
                        choice_bits@.len(),
                    ).len() == choice_bits@.len(),
            decreases m - i,
        {
            let t = trunc_hash(&self.hasher, n, &self.initial_pairs[i].0);
            let g = trunc_hash(&self.hasher, n, &self.initial_pairs[i].1);
            let u = t.xor(&g).xor(choice_bits);
            let ub = u.to_bytes();
            proof {
                assert(self.pairs0()[i as int] == self.initial_pairs@[i as int].0@);
                assert(self.pairs1()[i as int] == self.initial_pairs@[i as int].1@);
                assert(ub@ == u_row(
                    old(self).h0(),
                    old(self).pairs0()[i as int],
                    old(self).pairs1()[i as int],
                    choice_bits@,
                ));
            }
            let _ = self.conn.send(ub);
            proof {
                assert(self.channel().sent() =~= sent0 + Seq::new(
                    (i + 1) as nat,
                    |ii: int|
                        u_row(
                            old(self).h0(),
                            old(self).pairs0()[ii],
                            old(self).pairs1()[ii],
                            choice_bits@,
                        ),
                ));
            }
            i = i + 1;
        }
        Ok(())
    }

    /// Receives the two masked values of every column in order and unmasks
    /// the one the choice bit selects with the hash of the column of T: the
    /// second half of the transfer.
    pub fn receive_outputs(&mut self, choice_bits: &BitVec) -> (r: Result<Vec<Vec<u8>>, OtError>)
        requires
            choice_bits@.len() + 7 <= usize::MAX,
            choice_bits@.len() <= u64::MAX,
            old(self).pairs0().len() + 7 <= usize::MAX,
        ensures
            final(self).h0() == old(self).h0(),
            final(self).pairs0() == old(self).pairs0(),
            final(self).pairs1() == old(self).pairs1(),
            final(self).channel().sent() == old(self).channel().sent(),
            r matches Ok(out) ==> old(self).channel().pending().len() >= 2 * choice_bits@.len()
                && final(self).channel().pending() == old(self).channel().pending().skip(
                2 * choice_bits@.len() as int,
            ) && out@.len() == choice_bits@.len() && (forall|j: int|
                0 <= j < choice_bits@.len()
                    ==> #[trigger] old(self).channel().pending()[2 * j].len() == old(
                    self,
                ).channel().pending()[2 * j + 1].len() && out@[j]@ == xor_bytes(
                    if choice_bits@[j] {
                        old(self).channel().pending()[2 * j + 1]
                    } else {
                        old(self).channel().pending()[2 * j]
                    },
                    col_hash(
                        old(self).h0(),
                        j as u64,
                        column(old(self).t_matrix(choice_bits@.len()), j),
                        old(self).channel().pending()[2 * j].len(),
                    ),
                )),
            r matches Err(e) ==> (e == OtError::TransportError || e == OtError::ProtocolError),
            old(self).channel().pending().len() >= 2 * choice_bits@.len() ==> (r is Ok || (r
                matches Err(e) && e == OtError::ProtocolError)),
            (old(self).channel().pending().len() >= 2 * choice_bits@.len() && (forall|j: int|
                0 <= j < choice_bits@.len()
                    ==> #[trigger] old(self).channel().pending()[2 * j].len() == old(
                    self,
                ).channel().pending()[2 * j + 1].len())) ==> r is Ok,
    {
        let n = choice_bits.len();
        let m = self.initial_pairs.len();
        let ghost tmat = old(self).t_matrix(n as nat);
        let ghost pend0 = self.channel().pending();
        let mut t_rows: Vec<BitVec> = Vec::new();
        let mut i: usize = 0;
        while i < m
            invariant
                n == choice_bits@.len(),
                m == self.pairs0().len(),
                m + 7 <= usize::MAX,
                n <= u64::MAX,
                self == old(self),
                tmat == old(self).t_matrix(n as nat),
                pend0 == old(self).channel().pending(),
                i <= m,
                n + 7 <= usize::MAX,
                t_rows@.len() == i,
                forall|ii: int|
                    0 <= ii < i ==> #[trigger] t_rows@[ii]@ == tmat[ii] && t_rows@[ii]@.len() == n,
            decreases m - i,
        {
            let t = trunc_hash(&self.hasher, n, &self.initial_pairs[i].0);
            t_rows.push(t);
            i = i + 1;
        }
        let mut out: Vec<Vec<u8>> = Vec::new();
        let mut j: usize = 0;
        while j < n
            invariant
                n == choice_bits@.len(),
                m == self.pairs0().len(),
                m + 7 <= usize::MAX,
                n <= u64::MAX,
                self.h0() == old(self).h0(),
                self.pairs0() == old(self).pairs0(),
                self.pairs1() == old(self).pairs1(),
                self.channel().sent() == old(self).channel().sent(),
                tmat == old(self).t_matrix(n as nat),
                pend0 == old(self).channel().pending(),
                t_rows@.len() == m,
                forall|ii: int|
                    0 <= ii < m ==> #[trigger] t_rows@[ii]@ == tmat[ii] && t_rows@[ii]@.len() == n,
                j <= n,
                out@.len() == j,
                2 * j <= pend0.len(),
                self.channel().pending().len() == pend0.len() - 2 * j,
                self.channel().pending() == pend0.skip(2 * j as int),
                forall|jj: int|
                    0 <= jj < j ==> #[trigger] pend0[2 * jj].len() == pend0[2 * jj + 1].len()
                        && out@[jj]@ == xor_bytes(
                        if choice_bits@[jj] {
                            pend0[2 * jj + 1]
                        } else {
                            pend0[2 * jj]
                        },
                        col_hash(
                            old(self).h0(),
                            jj as u64,
                            column(tmat, jj),
                            pend0[2 * jj].len(),
                        ),
                    ),
            decreases n - j,
        {
            let ghost pend_j = self.channel().pending();
            proof {
                if pend_j.len() >= 2 {
                    assert(pend0.skip(2 * j as int)[0] == pend0[2 * j]);
                    assert(pend0.skip(2 * j as int)[1] == pend0[2 * j + 1]);
                }
            }
            let y0 = match self.conn.receive() {
                Ok(v) => v,
                Err(_) => {
                    return Err(OtError::TransportError);
                },
            };
            let y1 = match self.conn.receive() {
                Ok(v) => v,
                Err(_) => {
                    return Err(OtError::TransportError);
                },
            };
            if y0.len() != y1.len() {
                return Err(OtError::ProtocolError);
            }
            let mut bt = BitVec::new();
            let mut i2: usize = 0;
            while i2 < m
                invariant
                    m == t_rows@.len(),
                    j < n,
                    forall|ii: int|
                        0 <= ii < m ==> #[trigger] t_rows@[ii]@ == tmat[ii] && t_rows@[ii]@.len()
                            == n,
                    i2 <= m,
                    bt@.len() == i2,
                    forall|ii: int| 0 <= ii < i2 ==> bt@[ii] == tmat[ii][j as int],
                decreases m - i2,
            {
                bt.push(t_rows[i2].get(j));
                i2 = i2 + 1;
            }
            proof {
                assert(tmat.len() == m);
                assert(bt@ =~= column(tmat, j as int));
                assert(bt@.len() + 7 <= usize::MAX);
            }
            let mut h = self.hasher.fork();
            let jb = u64_to_be_bytes(j as u64);
            h.input(jb.as_slice());
            let btb = bt.to_bytes();
            h.input(btb.as_slice());
            let ht = h.result(y0.len());
            let picked = if choice_bits.get(j) {
                &y1
            } else {
                &y0
            };
            let o = xor_buf(picked, &ht);
            proof {
                assert(o@ == xor_bytes(
                    if choice_bits@[j as int] {
                        pend0[2 * j + 1]
                    } else {
                        pend0[2 * j]
                    },
                    col_hash(old(self).h0(), j as u64, column(tmat, j as int), pend0[2 * j].len()),
                ));
                assert(pend_j.skip(2) =~= pend0.skip(2 * (j + 1) as int));
            }
            out.push(o);
            j = j + 1;
        }
        Ok(out)
    }

    /// The whole receiving transfer in one call over a full-duplex
    /// transport: sends the masked row of every seed pair in row order,
    /// then reads the two masked values of every column in order and
    /// unmasks the one the choice bit selects.
    pub fn receive(&mut self, choice_bits: &BitVec) -> (r: Result<Vec<Vec<u8>>, OtError>)
        requires
            choice_bits@.len() + 7 <= usize::MAX,
            choice_bits@.len() <= u64::MAX,
            old(self).pairs0().len() + 7 <= usize::MAX,
        ensures
            final(self).h0() == old(self).h0(),
            final(self).pairs0() == old(self).pairs0(),
            final(self).pairs1() == old(self).pairs1(),
            final(self).channel().sent() == old(self).channel().sent() + Seq::new(
                old(self).pairs0().len(),
                |i: int|
                    u_row(old(self).h0(), old(self).pairs0()[i], old(self).pairs1()[i], choice_bits@),
            ),
            r matches Ok(out) ==> old(self).channel().pending().len() >= 2 * choice_bits@.len()
                && final(self).channel().pending() == old(self).channel().pending().skip(
                2 * choice_bits@.len() as int,
            ) && out@.len() == choice_bits@.len() && (forall|j: int|
                0 <= j < choice_bits@.len()
                    ==> #[trigger] old(self).channel().pending()[2 * j].len() == old(
                    self).channel().pending()[2 * j + 1].len() && out@[j]@ == xor_bytes(
                    if choice_bits@[j] {
                        old(self).channel().pending()[2 * j + 1]
                    } else {
                        old(self).channel().pending()[2 * j]
                    },
                    col_hash(
                        old(self).h0(),
                        j as u64,
                        column(old(self).t_matrix(choice_bits@.len()), j),
                        old(self).channel().pending()[2 * j].len(),
                    ),
                )),
            r matches Err(e) ==> (e == OtError::TransportError || e == OtError::ProtocolError),
            old(self).channel().pending().len() >= 2 * choice_bits@.len() ==> (r is Ok || (r
                matches Err(e) && e == OtError::ProtocolError)),
            (old(self).channel().pending().len() >= 2 * choice_bits@.len() && (forall|j: int|
                0 <= j < choice_bits@.len()
                    ==> #[trigger] old(self).channel().pending()[2 * j].len() == old(
                    self).channel().pending()[2 * j + 1].len())) ==> r is Ok,
    {
        let _ = self.send_masks(choice_bits);
        self.receive_outputs(choice_bits)
    }
}

/// The sending role of the extension: it played the base-OT receiver during
/// setup, holding one random choice bit and the seed it selected per row.
pub struct IKNPExtendedOTSender {
    pub conn: Duplex,
    hasher: SHA3_256,
    initial: Vec<Vec<u8>>,
    random_choices: BitVec,
}

/// The extension sender halfway through setup: the random choice bits are
/// drawn and the base-OT wire points are sent, but the sealed seeds have
/// not arrived yet.
pub struct IknpSenderSetup<S: SymmetricCryptoProvider> {
    base: ChouOrlandiOTReceiver<S>,
    hasher: SHA3_256,
    keys: Vec<Vec<u8>>,
    choices: BitVec,
}

impl<S: SymmetricCryptoProvider> IknpSenderSetup<S> {
    pub closed spec fn channel(&self) -> Duplex {
        self.base.channel()
    }

    pub closed spec fn h0(&self) -> Seq<u8> {
        self.hasher.transcript()
    }

    pub closed spec fn choice_bits(&self) -> Seq<bool> {
        self.choices@
    }

    pub closed spec fn key_views(&self) -> Seq<Seq<u8>> {
        Seq::new(self.keys@.len(), |i: int| self.keys@[i]@)
    }

    pub closed spec fn base_seed(&self) -> Seq<u8> {
        self.base.seed()
    }

    pub closed spec fn base_s8(&self) -> GroupElem {
        self.base.s8m()
    }

    pub closed spec fn base_wf(&self) -> bool {
        self.base.wf()
    }

    /// Mutable access to the underlying base-OT channel, for delivering
    /// blobs while the setup is in flight.
    pub fn channel_of_base(&mut self) -> (r: &mut Duplex)
        ensures
            *r == old(self).channel(),
            final(self).channel() == *final(r),
            final(self).h0() == old(self).h0(),
            final(self).choice_bits() == old(self).choice_bits(),
            final(self).key_views() == old(self).key_views(),
            final(self).base_seed() == old(self).base_seed(),
            final(self).base_s8() == old(self).base_s8(),
            final(self).base_wf() == old(self).base_wf(),
    {
        self.base.channel_mut()
    }
}

impl IKNPExtendedOTSender {
    pub closed spec fn channel(&self) -> Duplex {
        self.conn
    }

    /// The transcript prefix of every hash this instance computes.
    pub closed spec fn h0(&self) -> Seq<u8> {
        self.hasher.transcript()
    }

    /// The seeds recovered by the base OTs, one per row.
    pub closed spec fn seeds(&self) -> Seq<Seq<u8>> {
        Seq::new(self.initial@.len(), |i: int| self.initial@[i]@)
    }

    /// The sender's random choice bits, one per row.
    pub closed spec fn s_bits(&self) -> Seq<bool> {
        self.random_choices@
    }

    /// The number of rows this instance was set up with.
    pub fn seed_count(&self) -> (r: usize)
        ensures
            r == self.seeds().len(),
    {
        self.initial.len()
    }

    /// Mutable access to the owned channel endpoint, for delivering blobs.
    pub fn channel_mut(&mut self) -> (r: &mut Duplex)
        ensures
            *r == old(self).channel(),
            final(self).channel() == *final(r),
            final(self).h0() == old(self).h0(),
            final(self).seeds() == old(self).seeds(),
            final(self).s_bits() == old(self).s_bits(),
    {
        &mut self.conn
    }

    /// Draws `8·security_param` random choice bits and sends one base-OT
    /// wire point per bit, deriving the key for the chosen seed of each
    /// pair.
    pub fn begin<S: SymmetricCryptoProvider>(
        hasher: SHA3_256,
        base_ot_receiver: ChouOrlandiOTReceiver<S>,
        rng: OtRng,
        security_param: usize,
    ) -> (r: Result<IknpSenderSetup<S>, OtError>)
        requires
            base_ot_receiver.wf(),
            security_param * 8 <= usize::MAX,
        ensures
            r is Ok,
            r matches Ok(st) ==> st.key_views().len() == st.choice_bits().len() && (forall|i: int|
                0 <= i < st.key_views().len() ==> #[trigger] st.key_views()[i].len() == 32),
            r matches Ok(st) ==> st.base_wf() && st.h0() == hasher.transcript() && st.base_seed()
                == base_ot_receiver.seed() && st.base_s8() == base_ot_receiver.s8m()
                && st.choice_bits().len() == security_param * 8 && st.key_views().len()
                == security_param * 8 && st.channel().pending()
                == base_ot_receiver.channel().pending() && (exists|xs: Seq<nat>|
                xs.len() == security_param * 8 && (forall|i: int|
                    0 <= i < xs.len() ==> #[trigger] xs[i] < group_order() && st.key_views()[i]
                        == receiver_key(
                        base_ot_receiver.seed(),
                        bit_nat(st.choice_bits()[i]),
                        xs[i],
                        base_ot_receiver.s8m(),
                    ) && st.key_views()[i].len() == 32) && st.channel().sent()
                    == base_ot_receiver.channel().sent() + Seq::new(
                    (security_param * 8) as nat,
                    |i: int|
                        compress_elem(
                            ge_add(
                                receiver_point(
                                    bit_nat(st.choice_bits()[i]),
                                    xs[i],
                                    base_ot_receiver.s8m(),
                                ),
                                torsion_elem(),
                            ),
                        ),
                ) && (forall|i: int|
                    0 <= i < xs.len() ==> #[trigger] compress_elem(
                        ge_add(
                            receiver_point(
                                bit_nat(st.choice_bits()[i]),
                                xs[i],
                                base_ot_receiver.s8m(),
                            ),
                            torsion_elem(),
                        ),
                    ).len() == 32)),
    {
        let m: usize = security_param * 8;
        let mut base = base_ot_receiver;
        let mut rng = rng;
        let mut keys: Vec<Vec<u8>> = Vec::new();
        let mut choices = BitVec::new();
        let ghost sent0 = base.channel().sent();
        let ghost seed = base.seed();
        let ghost s8 = base.s8m();
        let mut xs: Ghost<Seq<nat>> = Ghost(Seq::empty());
        let mut i: usize = 0;
        while i < m
            invariant
                base.wf(),
                base.seed() == seed,
                base.s8m() == s8,
                base.channel().pending() == base_ot_receiver.channel().pending(),
                sent0 == base_ot_receiver.channel().sent(),
                seed == base_ot_receiver.seed(),
                s8 == base_ot_receiver.s8m(),
                i <= m,
                keys@.len() == i,
                choices@.len() == i,
                xs@.len() == i,
                forall|ii: int|
                    0 <= ii < i ==> #[trigger] xs@[ii] < group_order() && keys@[ii]@
                        == receiver_key(seed, bit_nat(choices@[ii]), xs@[ii], s8)
                        && keys@[ii]@.len() == 32,
                base.channel().sent() == sent0 + Seq::new(
                    i as nat,
                    |ii: int|
                        compress_elem(
                            ge_add(
                                receiver_point(bit_nat(choices@[ii]), xs@[ii], s8),
                                torsion_elem(),
                            ),
                        ),
                ),
                forall|ii: int|
                    0 <= ii < i ==> #[trigger] compress_elem(
                        ge_add(
                            receiver_point(bit_nat(choices@[ii]), xs@[ii], s8),
                            torsion_elem(),
                        ),
                    ).len() == 32,
            decreases m - i,
        {
            let b = rng.coin();
            let c: u64 = if b {
                1
            } else {
                0
            };
            let key = match base.compute_key(c) {
                Ok(k) => k,
                Err(e) => {
                    return Err(e);
                },
            };
            let ghost x = choose|x: nat|
                x < group_order() && base.channel().sent() == (sent0 + Seq::new(
                    i as nat,
                    |ii: int|
                        compress_elem(
                            ge_add(
                                receiver_point(bit_nat(choices@[ii]), xs@[ii], s8),
                                torsion_elem(),
                            ),
                        ),
                )).push(
                    compress_elem(
                        ge_add(receiver_point(c as nat, x, s8), torsion_elem()),
                    ),
                ) && key@ == receiver_key(seed, c as nat, x, s8) && key@.len() == 32
                    && compress_elem(
                    ge_add(receiver_point(c as nat, x, s8), torsion_elem()),
                ).len() == 32;
            keys.push(key);
            choices.push(b);
            xs = Ghost(xs@.push(x));
            proof {
                assert(bit_nat(b) == c as nat);
                assert(base.channel().sent() =~= sent0 + Seq::new(
                    (i + 1) as nat,
                    |ii: int|
                        compress_elem(
                            ge_add(
                                receiver_point(bit_nat(choices@[ii]), xs@[ii], s8),
                                torsion_elem(),
                            ),
                        ),
                ));
            }
            i = i + 1;
        }
        let st = IknpSenderSetup { base, hasher, keys, choices };
        proof {
            assert(st.key_views() =~= Seq::new(st.keys@.len(), |k: int| st.keys@[k]@));
            assert(xs@.len() == security_param * 8 && (forall|ii: int|
                0 <= ii < xs@.len() ==> #[trigger] xs@[ii] < group_order() && st.key_views()[ii]
                    == receiver_key(seed, bit_nat(st.choice_bits()[ii]), xs@[ii], s8)
                    && st.key_views()[ii].len() == 32));
            assert forall|ii: int|
                0 <= ii < st.key_views().len() implies #[trigger] st.key_views()[ii].len()
                == 32 by {
                assert(xs@[ii] < group_order());
            }
        }
        Ok(st)
    }

    /// Receives the two sealed seeds of each base-OT pair and keeps the one
    /// the choice bit selects, then takes the channel over.
    pub fn finish<S: SymmetricCryptoProvider>(setup: IknpSenderSetup<S>) -> (r: Result<
        IKNPExtendedOTSender,
        OtError,
    >)
        requires
            setup.choice_bits().len() == setup.key_views().len(),
            setup.choice_bits().len() * 2 <= usize::MAX,
            forall|i: int|
                0 <= i < setup.key_views().len() ==> #[trigger] setup.key_views()[i].len() == 32,
        ensures
            r matches Ok(ext) ==> ext.h0() == setup.h0() && ext.s_bits() == setup.choice_bits()
                && ext.seeds().len() == setup.choice_bits().len() && setup.channel().pending().len()
                >= 2 * setup.choice_bits().len() && ext.channel().pending()
                == setup.channel().pending().skip(2 * setup.choice_bits().len() as int)
                && ext.channel().sent() == setup.channel().sent() && (forall|i: int|
                0 <= i < setup.choice_bits().len()
                    ==> #[trigger] setup.channel().pending()[2 * i + bit_nat(
                    setup.choice_bits()[i],
                ) as int] == S::seal(setup.key_views()[i], ext.seeds()[i])) && (forall|
                i: int,
                x: Seq<u8>,
            |
                0 <= i < setup.choice_bits().len() && setup.channel().pending()[2 * i + bit_nat(
                    setup.choice_bits()[i],
                ) as int] == S::seal(setup.key_views()[i], x) ==> x == ext.seeds()[i]),
            (exists|ss: Seq<Seq<u8>>|
                pairs_available::<S>(
                    setup.channel().pending(),
                    setup.key_views(),
                    setup.choice_bits(),
                    ss,
                )) ==> r is Ok,
            r matches Err(e) ==> (e == OtError::TransportError || e == OtError::CryptoError || e
                == OtError::ProtocolError),
    {
        let ghost pend0 = setup.channel().pending();
        let ghost sent0 = setup.channel().sent();
        let ghost keys0 = setup.key_views();
        let ghost bits0 = setup.choice_bits();
        let mut st = setup;
        let m = st.choices.len();
        let mut initial: Vec<Vec<u8>> = Vec::new();
        let mut i: usize = 0;
        while i < m
            invariant
                m == bits0.len(),
                m * 2 <= usize::MAX,
                bits0.len() == keys0.len(),
                pend0 == setup.channel().pending(),
                sent0 == setup.channel().sent(),
                keys0 == setup.key_views(),
                bits0 == setup.choice_bits(),
                keys0 == st.key_views(),
                bits0 == st.choice_bits(),
                st.hasher == setup.hasher,
                forall|ii: int| 0 <= ii < keys0.len() ==> #[trigger] keys0[ii].len() == 32,
                i <= m,
                initial@.len() == i,
                st.choices@.len() == m,
                st.keys@.len() == m,
                2 * i <= pend0.len(),
                st.base.channel().pending().len() == pend0.len() - 2 * i,
                st.base.channel().pending() == pend0.skip(2 * i as int),
                st.base.channel().sent() == sent0,
                forall|ii: int|
                    0 <= ii < i ==> #[trigger] pend0[2 * ii + bit_nat(bits0[ii]) as int] == S::seal(
                        keys0[ii],
                        initial@[ii]@,
                    ),
                forall|ii: int, x: Seq<u8>|
                    0 <= ii < i && pend0[2 * ii + bit_nat(bits0[ii]) as int] == S::seal(
                        keys0[ii],
                        x,
                    ) ==> x == initial@[ii]@,
            decreases m - i,
        {
            let b = st.choices.get(i);
            let idx: usize = if b {
                1
            } else {
                0
            };
            let ghost pend_i = st.base.channel().pending();
            proof {
                assert(idx as int == bit_nat(bits0[i as int]) as int);
                if pend_i.len() >= 2 {
                    assert(pend0.skip(2 * i as int)[idx as int] == pend0[2 * i + idx]);
                    assert(pend0.skip(2 * i as int)[0] == pend0[2 * i]);
                    assert(pend0.skip(2 * i as int)[1] == pend0[2 * i + 1]);
                    assert(pend_i[idx as int].len() == pend0[2 * i + idx].len());
                    assert((exists|x: Seq<u8>|
                        pend0[2 * i + bit_nat(bits0[i as int]) as int] == S::seal(
                            keys0[i as int],
                            x,
                        )) ==> (exists|x: Seq<u8>| pend_i[idx as int] == S::seal(keys0[i as int], x)))
                        by {
                        if exists|x: Seq<u8>|
                            pend0[2 * i + bit_nat(bits0[i as int]) as int] == S::seal(
                                keys0[i as int],
                                x,
                            ) {
                            let x = choose|x: Seq<u8>|
                                pend0[2 * i + bit_nat(bits0[i as int]) as int] == S::seal(
                                    keys0[i as int],
                                    x,
                                );
                            assert(pend_i[idx as int] == S::seal(keys0[i as int], x));
                        }
                    }
                }
            }
            let key = st.keys[i].clone();
            let v = match st.base.receive_ciphertexts(&key, idx, 2) {
                Ok(v) => v,
                Err(e) => {
                    return Err(e);
                },
            };
            proof {
                assert(pend_i.skip(2) =~= pend0.skip(2 * (i + 1) as int));
            }
            initial.push(v);
            i = i + 1;
        }
        proof {
            crate::chou::lemma_receiver_conn_view(st.base);
        }
        let hasher = st.hasher;
        let random_choices = st.choices;
        let ext = IKNPExtendedOTSender {
            conn: st.base.get_conn(),
            hasher,
            initial,
            random_choices,
        };
        proof {
            assert(ext.seeds() =~= Seq::new(ext.initial@.len(), |k: int| ext.initial@[k]@));
        }
        Ok(ext)
    }

    /// Receives the masked rows, reconstructs the matrix Q, and sends for
    /// every column the two values masked by the hashes of the column of Q
    /// and of that column xored with the random choice bits.
    pub fn send(&mut self, values: &Vec<(Vec<u8>, Vec<u8>)>) -> (r: Result<(), OtError>)
        requires
            old(self).s_bits().len() == old(self).seeds().len(),
            old(self).s_bits().len() + 7 <= usize::MAX,
            values@.len() + 7 <= usize::MAX,
            values@.len() <= u64::MAX,
        ensures
            final(self).h0() == old(self).h0(),
            final(self).s_bits() == old(self).s_bits(),
            final(self).seeds() == old(self).seeds(),
            r is Ok ==> old(self).channel().pending().len() >= old(self).s_bits().len()
                && final(self).channel().pending() == old(self).channel().pending().skip(
                old(self).s_bits().len() as int,
            ) && (forall|i: int|
                0 <= i < old(self).s_bits().len()
                    ==> #[trigger] old(self).channel().pending()[i].len() == (values@.len() + 7)
                    / 8) && (forall|j: int|
                0 <= j < values@.len() ==> #[trigger] values@[j].0@.len() == values@[j].1@.len())
                && final(self).channel().sent() == old(self).channel().sent() + y_trace(
                old(self).h0(),
                q_rows(
                    old(self).h0(),
                    old(self).channel().pending().take(old(self).s_bits().len() as int),
                    old(self).seeds(),
                    old(self).s_bits(),
                    values@.len(),
                ),
                old(self).s_bits(),
                values@,
            ),
            r matches Err(e) ==> (e == OtError::TransportError || e == OtError::ProtocolError),
            r is Err ==> final(self).channel().sent() == old(self).channel().sent(),
            (exists|j: int|
                0 <= j < values@.len() && #[trigger] values@[j].0@.len() != values@[j].1@.len())
                ==> (r matches Err(e) && e == OtError::ProtocolError && final(
                self).channel().pending() == old(self).channel().pending()),
            (old(self).channel().pending().len() >= old(self).s_bits().len() && (forall|j: int|
                0 <= j < values@.len() ==> #[trigger] values@[j].0@.len() == values@[j].1@.len()))
                ==> (r is Ok || (r matches Err(e) && e == OtError::ProtocolError)),
            (old(self).channel().pending().len() >= old(self).s_bits().len() && (forall|i: int|
                0 <= i < old(self).s_bits().len()
                    ==> #[trigger] old(self).channel().pending()[i].len() == (values@.len() + 7)
                    / 8) && (forall|j: int|
                0 <= j < values@.len() ==> #[trigger] values@[j].0@.len() == values@[j].1@.len()))
                ==> r is Ok,
    {
        let m = self.random_choices.len();
        let n = values.len();
        let needed: usize = n / 8 + if n % 8 == 0 {
            0
        } else {
            1
        };
        proof {
            assert(needed == (values@.len() + 7) / 8);
        }
        let mut i: usize = 0;
        while i < n
            invariant
                n == values@.len(),
                i <= n,
                self == old(self),
                forall|j: int|
                    0 <= j < i ==> #[trigger] values@[j].0@.len() == values@[j].1@.len(),
            decreases n - i,
        {
            if values[i].0.len() != values[i].1.len() {
                return Err(OtError::ProtocolError);
            }
            i = i + 1;
        }
        let ghost pend0 = self.channel().pending();
        let ghost sent0 = self.channel().sent();
        let ghost h0 = self.h0();
        let ghost sbits = self.s_bits();
        let ghost seeds0 = self.seeds();
        let mut q_mat: Vec<BitVec> = Vec::new();
        let mut i: usize = 0;
        while i < m
            invariant
                n == values@.len(),
                n + 7 <= usize::MAX,
                needed == (n + 7) / 8,
                m == sbits.len(),
                m + 7 <= usize::MAX,
                sbits.len() == seeds0.len(),
                self.h0() == h0,
                self.s_bits() == sbits,
                self.seeds() == seeds0,
                self.channel().sent() == sent0,
                pend0 == old(self).channel().pending(),
                sent0 == old(self).channel().sent(),
                h0 == old(self).h0(),
                sbits == old(self).s_bits(),
                seeds0 == old(self).seeds(),
                self.random_choices@ == sbits,
                self.initial@.len() == m,
                forall|j: int|
                    0 <= j < n ==> #[trigger] values@[j].0@.len() == values@[j].1@.len(),
                i <= m,
                i <= pend0.len(),
                q_mat@.len() == i,
                self.channel().pending().len() == pend0.len() - i,
                self.channel().pending() == pend0.skip(i as int),
                forall|ii: int| 0 <= ii < i ==> #[trigger] pend0[ii].len() == needed,
                forall|ii: int|
                    0 <= ii < i ==> #[trigger] q_mat@[ii]@ == q_rows(h0, pend0, seeds0, sbits, n as nat)[ii]
                        && q_mat@[ii]@.len() == n,
            decreases m - i,
        {
            let ghost pend_i = self.channel().pending();
            proof {
                if pend_i.len() > 0 {
                    assert(pend0.skip(i as int)[0] == pend0[0 + i as int]);
                    assert(pend_i[0].len() == pend0[i as int].len());
                }
            }
            let blob = match self.conn.receive() {
                Ok(v) => v,
                Err(_) => {
                    return Err(OtError::TransportError);
                },
            };
            if blob.len() != needed {
                return Err(OtError::ProtocolError);
            }
            let mut ub = BitVec::from_bytes(&blob);
            proof {
                vstd::arithmetic::div_mod::lemma_fundamental_div_mod((n + 7) as int, 8);
                assert(n <= needed * 8);
            }
            ub.truncate(n);
            let g = trunc_hash(&self.hasher, n, &self.initial[i]);
            proof {
                assert(self.seeds()[i as int] == self.initial@[i as int]@);
            }
            let q = if self.random_choices.get(i) {
                ub.xor(&g)
            } else {
                g
            };
            proof {
                assert(q@ == q_rows(h0, pend0, seeds0, sbits, n as nat)[i as int]);
                assert(pend_i.skip(1) =~= pend0.skip(i + 1));
            }
            q_mat.push(q);
            i = i + 1;
        }
        let ghost qm = q_rows(h0, pend0.take(m as int), seeds0, sbits, n as nat);
        proof {
            assert forall|ii: int| 0 <= ii < m implies #[trigger] q_mat@[ii]@ == qm[ii] by {
                assert(pend0.take(m as int)[ii] == pend0[ii]);
                assert(q_mat@[ii]@ == q_rows(h0, pend0, seeds0, sbits, n as nat)[ii]);
            }
        }
        let ghost trace = y_trace(h0, qm, sbits, values@);
        let mut j: usize = 0;
        while j < n
            invariant
                n == values@.len(),
                n <= u64::MAX,
                m == sbits.len(),
                m + 7 <= usize::MAX,
                self.h0() == h0,
                self.s_bits() == sbits,
                self.seeds() == seeds0,
                h0 == old(self).h0(),
                sbits == old(self).s_bits(),
                seeds0 == old(self).seeds(),
                self.random_choices@ == sbits,
                j <= n,
                q_mat@.len() == m,
                qm.len() == m,
                forall|ii: int|
                    0 <= ii < m ==> #[trigger] q_mat@[ii]@ == qm[ii] && q_mat@[ii]@.len() == n,
                forall|jj: int|
                    0 <= jj < n ==> #[trigger] values@[jj].0@.len() == values@[jj].1@.len(),
                self.channel().pending() == pend0.skip(m as int),
                trace == y_trace(h0, qm, sbits, values@),
                trace.len() == 2 * n,
                self.channel().sent() == sent0 + trace.take(2 * j as int),
            decreases n - j,
        {
            let mut qt = BitVec::new();
            let mut i2: usize = 0;
            while i2 < m
                invariant
                    m == q_mat@.len(),
                    j < n,
                    forall|ii: int|
                        0 <= ii < m ==> #[trigger] q_mat@[ii]@ == qm[ii] && q_mat@[ii]@.len() == n,
                    i2 <= m,
                    qt@.len() == i2,
                    forall|ii: int| 0 <= ii < i2 ==> qt@[ii] == qm[ii][j as int],
                decreases m - i2,
            {
                qt.push(q_mat[i2].get(j));
                i2 = i2 + 1;
            }
            proof {
                assert(qm.len() == m);
                assert(qt@ =~= column(qm, j as int));
                assert(qt@.len() + 7 <= usize::MAX);
            }
            let len_j = values[j].0.len();
            let jb = u64_to_be_bytes(j as u64);
            let mut h1 = self.hasher.fork();
            h1.input(jb.as_slice());
            let qtb = qt.to_bytes();
            h1.input(qtb.as_slice());
            let hq = h1.result(len_j);
            let y0 = xor_buf(&values[j].0, &hq);
            proof {
                assert(self.random_choices@.len() == m);
            }
            let q2 = qt.xor(&self.random_choices);
            let mut h2 = self.hasher.fork();
            h2.input(jb.as_slice());
            let q2b = q2.to_bytes();
            h2.input(q2b.as_slice());
            let shq = h2.result(len_j);
            let y1 = xor_buf(&values[j].1, &shq);
            proof {
                assert(y0@ == trace[2 * j as int]);
                assert(y1@ == trace[2 * j + 1]);
            }
            let _ = self.conn.send(y0);
            let _ = self.conn.send(y1);
            proof {
                assert(self.channel().sent() =~= sent0 + trace.take(2 * (j + 1) as int));
            }
            j = j + 1;
        }
        proof {
            assert(trace.take(2 * n as int) =~= trace);
        }
        Ok(())
    }

    /// The whole setup in one call over a full-duplex transport: draws the
    /// choice bits, runs the base OTs, and keeps the selected seeds.
    pub fn new<S: SymmetricCryptoProvider>(
        hasher: SHA3_256,
        base_ot_receiver: ChouOrlandiOTReceiver<S>,
        rng: OtRng,
        security_param: usize,
    ) -> (r: Result<IKNPExtendedOTSender, OtError>)
        requires
            base_ot_receiver.wf(),
            security_param * 8 <= usize::MAX / 2,
        ensures
            r matches Ok(ext) ==> ext.h0() == hasher.transcript() && ext.s_bits().len()
                == security_param * 8 && ext.seeds().len() == security_param * 8
                && base_ot_receiver.channel().pending().len() >= 2 * (security_param * 8)
                && ext.channel().pending() == base_ot_receiver.channel().pending().skip(
                2 * (security_param * 8) as int,
            ) && (exists|xs: Seq<nat>|
                xs.len() == security_param * 8 && (forall|i: int|
                    0 <= i < xs.len() ==> #[trigger] xs[i] < group_order()) && ext.channel().sent()
                    == base_ot_receiver.channel().sent() + Seq::new(
                    (security_param * 8) as nat,
                    |i: int|
                        compress_elem(
                            ge_add(
                                receiver_point(
                                    bit_nat(ext.s_bits()[i]),
                                    xs[i],
                                    base_ot_receiver.s8m(),
                                ),
                                torsion_elem(),
                            ),
                        ),
                ) && (forall|i: int|
                    0 <= i < xs.len()
                        ==> #[trigger] base_ot_receiver.channel().pending()[2 * i + bit_nat(
                        ext.s_bits()[i],
                    ) as int] == S::seal(
                        receiver_key(
                            base_ot_receiver.seed(),
                            bit_nat(ext.s_bits()[i]),
                            xs[i],
                            base_ot_receiver.s8m(),
                        ),
                        ext.seeds()[i],
                    ))),
            r matches Err(e) ==> (e == OtError::TransportError || e == OtError::CryptoError || e
                == OtError::ProtocolError),
    {
        let setup = match IKNPExtendedOTSender::begin(
            hasher,
            base_ot_receiver,
            rng,
            security_param,
        ) {
            Ok(st) => st,
            Err(e) => {
                return Err(e);
            },
        };
        let ghost m = (security_param * 8) as int;
        let ghost xs = choose|xs: Seq<nat>|
            xs.len() == security_param * 8 && (forall|i: int|
                0 <= i < xs.len() ==> #[trigger] xs[i] < group_order() && setup.key_views()[i]
                    == receiver_key(
                    base_ot_receiver.seed(),
                    bit_nat(setup.choice_bits()[i]),
                    xs[i],
                    base_ot_receiver.s8m(),
                ) && setup.key_views()[i].len() == 32) && setup.channel().sent()
                == base_ot_receiver.channel().sent() + Seq::new(
                (security_param * 8) as nat,
                |i: int|
                    compress_elem(
                        ge_add(
                            receiver_point(
                                bit_nat(setup.choice_bits()[i]),
                                xs[i],
                                base_ot_receiver.s8m(),
                            ),
                            torsion_elem(),
                        ),
                    ),
            ) && (forall|i: int|
                0 <= i < xs.len() ==> #[trigger] compress_elem(
                    ge_add(
                        receiver_point(
                            bit_nat(setup.choice_bits()[i]),
                            xs[i],
                            base_ot_receiver.s8m(),
                        ),
                        torsion_elem(),
                    ),
                ).len() == 32);
        let out = IKNPExtendedOTSender::finish(setup);
        proof {
            if out is Ok {
                let ext = out->Ok_0;
                assert(ext.s_bits() == setup.choice_bits());
                assert forall|i: int| 0 <= i < xs.len()
                    implies #[trigger] base_ot_receiver.channel().pending()[2 * i + bit_nat(
                    ext.s_bits()[i],
                ) as int] == S::seal(
                    receiver_key(
                        base_ot_receiver.seed(),
                        bit_nat(ext.s_bits()[i]),
                        xs[i],
                        base_ot_receiver.s8m(),
                    ),
                    ext.seeds()[i],
                ) by {
                    assert(setup.channel().pending()[2 * i + bit_nat(
                        setup.choice_bits()[i],
                    ) as int] == S::seal(setup.key_views()[i], ext.seeds()[i]));
                    assert(setup.key_views()[i] == receiver_key(
                        base_ot_receiver.seed(),
                        bit_nat(setup.choice_bits()[i]),
                        xs[i],
                        base_ot_receiver.s8m(),
                    ));
                }
            }
        }
        out
    }
}

impl GetConn for IKNPExtendedOTSender {
    closed spec fn conn_view(self) -> Duplex {
        self.conn
    }

    fn get_conn(self) -> (r: Duplex) {
        self.conn
    }
}

/// Every wire point of the extension sender's setup is a validly masked
/// point, and a decompressed model pinned by its encoding is that point.
proof fn lemma_pin_wires(
    wires: Seq<Seq<u8>>,
    rms: Seq<GroupElem>,
    sbits: Seq<bool>,
    xs: Seq<nat>,
    s8: GroupElem,
    m: int,
)
    requires
        s8.t == 0,
        sbits.len() == m,
        xs.len() == m,
        rms.len() == m,
        wires == Seq::new(
            m as nat,
            |i: int|
                compress_elem(
                    ge_add(receiver_point(bit_nat(sbits[i]), xs[i], s8), torsion_elem()),
                ),
        ),
        forall|i: int| 0 <= i < m ==> #[trigger] xs[i] < group_order(),
        forall|i: int|
            0 <= i < m ==> elem_valid(rms[i]) && encodes(wires[i], #[trigger] rms[i]),
    ensures
        forall|i: int|
            0 <= i < m ==> #[trigger] rms[i] == ge_add(
                receiver_point(bit_nat(sbits[i]), xs[i], s8),
                torsion_elem(),
            ),
{
    assert forall|i: int| 0 <= i < m implies #[trigger] rms[i] == ge_add(
        receiver_point(bit_nat(sbits[i]), xs[i], s8),
        torsion_elem(),
    ) by {
        crate::chou::lemma_wire_point_masked(bit_nat(sbits[i]), xs[i], s8);
        let we = ge_add(receiver_point(bit_nat(sbits[i]), xs[i], s8), torsion_elem());
        assert(elem_valid(we));
        assert(wires[i] == compress_elem(we));
    }
}

/// Position `2i + s_i` of the base-transfer ciphertext trace is the seed
/// `k_{s_i,i}` sealed under the key the base receiver derived for bit `s_i`:
/// the composed batch delivers exactly the chosen seed of every pair.
proof fn lemma_setup_composition<S: SymmetricCryptoProvider>(
    seed: Seq<u8>,
    y: nat,
    s8: GroupElem,
    sbits: Seq<bool>,
    xs: Seq<nat>,
    rms: Seq<GroupElem>,
    k0s: Seq<Seq<u8>>,
    k1s: Seq<Seq<u8>>,
    keys0: Seq<Seq<u8>>,
    cts: Seq<Seq<u8>>,
    m: int,
)
    requires
        s8 == crate::chou::spub(y),
        y < group_order(),
        sbits.len() == m,
        xs.len() == m,
        rms.len() == m,
        k0s.len() == m,
        k1s.len() == m,
        keys0.len() == m,
        forall|i: int| 0 <= i < m ==> #[trigger] xs[i] < group_order(),
        forall|i: int|
            0 <= i < m ==> #[trigger] keys0[i] == receiver_key(seed, bit_nat(sbits[i]), xs[i], s8),
        forall|i: int|
            0 <= i < m ==> #[trigger] rms[i] == ge_add(
                receiver_point(bit_nat(sbits[i]), xs[i], s8),
                torsion_elem(),
            ),
        cts == base_trace::<S>(seed, y, rms, k0s, k1s),
    ensures
        cts.len() == 2 * m,
        forall|i: int|
            0 <= i < m ==> #[trigger] cts[2 * i + bit_nat(sbits[i]) as int] == S::seal(
                keys0[i],
                if sbits[i] {
                    k1s[i]
                } else {
                    k0s[i]
                },
            ),
{
    assert forall|i: int| 0 <= i < m implies #[trigger] cts[2 * i + bit_nat(sbits[i]) as int]
        == S::seal(
        keys0[i],
        if sbits[i] {
            k1s[i]
        } else {
            k0s[i]
        },
    ) by {
        let b = bit_nat(sbits[i]);
        let idx = 2 * i + b as int;
        assert(idx / 2 == i && idx % 2 == b as int);
        assert(cts[idx] == S::seal(
            sender_key(seed, y, rms[idx / 2], (idx % 2) as nat),
            if idx % 2 == 0 {
                k0s[idx / 2]
            } else {
                k1s[idx / 2]
            },
        ));
        lemma_key_agreement_bit(seed, y, xs[i], sbits[i]);
    }
}

/// Builds a connected extension pair over in-memory channels: a base-OT
/// sender and receiver exchange their points, then the extension receiver
/// transfers one seed pair per row through the base OT, of which the
/// extension sender keeps the seed its random choice bit selects.
#[verifier::rlimit(100)]
pub fn setup_extension_pair<S: SymmetricCryptoProvider>(
    security_param: usize,
    enc: S,
    dec: S,
    rng_base_s: OtRng,
    rng_base_r: OtRng,
    rng_ext_r: OtRng,
    rng_ext_s: OtRng,
) -> (r: Result<(IKNPExtendedOTReceiver, IKNPExtendedOTSender), OtError>)
    requires
        security_param * 8 + 7 <= usize::MAX,
        security_param * 8 * 2 <= usize::MAX,
    ensures
        r matches Ok(p) ==> p.0.h0() == Seq::<u8>::empty() && p.1.h0() == Seq::<u8>::empty()
            && p.0.pairs0().len() == security_param * 8 && p.0.pairs1().len() == security_param * 8
            && p.1.s_bits().len() == security_param * 8 && p.1.seeds().len() == security_param * 8
            && p.0.channel().pending() == Seq::<Seq<u8>>::empty() && p.0.channel().sent() == Seq::<
            Seq<u8>,
        >::empty() && p.1.channel().pending() == Seq::<Seq<u8>>::empty() && p.1.channel().sent()
            == Seq::<Seq<u8>>::empty() && (forall|i: int|
            0 <= i < security_param * 8 ==> #[trigger] p.1.seeds()[i] == if p.1.s_bits()[i] {
                p.0.pairs1()[i]
            } else {
                p.0.pairs0()[i]
            }),
        (forall|d: Seq<u8>| d.len() == security_param as nat ==> #[trigger] S::encrypt_ok(d))
            ==> r is Ok,
{
    let m: usize = security_param * 8;
    // base exchange: the extension receiver's side plays the base sender
    let pair0 = match crate::chou::connect_base_pair(enc, dec, rng_base_s, rng_base_r) {
        Ok(p) => p,
        Err(e) => {
            return Err(e);
        },
    };
    let (chou_s, chou_r) = pair0;
    let mut chou_s = chou_s;
    let ghost y = chou_s.y_res();
    let ghost s8 = crate::chou::spub(y);
    let ghost seed = chou_s.seed();
    // the extension sender draws its random choice bits and sends one
    // masked wire point per row
    let mut setup = match IKNPExtendedOTSender::begin(
        SHA3_256::new(),
        chou_r,
        rng_ext_s,
        security_param,
    ) {
        Ok(st) => st,
        Err(e) => {
            return Err(e);
        },
    };
    let ghost sbits = setup.choice_bits();
    let ghost keys0 = setup.key_views();
    let ghost xs = choose|xs: Seq<nat>|
        xs.len() == security_param * 8 && (forall|i: int|
            0 <= i < xs.len() ==> #[trigger] xs[i] < group_order() && setup.key_views()[i]
                == receiver_key(seed, bit_nat(setup.choice_bits()[i]), xs[i], s8)
                && setup.key_views()[i].len() == 32) && setup.channel().sent() == Seq::<
            Seq<u8>,
        >::empty() + Seq::new(
            (security_param * 8) as nat,
            |i: int|
                compress_elem(
                    ge_add(
                        receiver_point(bit_nat(setup.choice_bits()[i]), xs[i], s8),
                        torsion_elem(),
                    ),
                ),
        ) && (forall|i: int|
            0 <= i < xs.len() ==> #[trigger] compress_elem(
                ge_add(
                    receiver_point(bit_nat(setup.choice_bits()[i]), xs[i], s8),
                    torsion_elem(),
                ),
            ).len() == 32);
    let ghost wires = Seq::new(
        (security_param * 8) as nat,
        |i: int|
            compress_elem(
                ge_add(receiver_point(bit_nat(sbits[i]), xs[i], s8), torsion_elem()),
            ),
    );
    setup.base.channel_mut().deliver_to(chou_s.channel_mut());
    proof {
        assert(chou_s.channel().pending() =~= wires);
        assert forall|i: int| 0 <= i < m implies #[trigger] chou_s.channel().pending()[i].len()
            == 32 && (exists|e: GroupElem|
            elem_valid(e) && chou_s.channel().pending()[i] == compress_elem(e)) by {
            crate::chou::lemma_wire_point_masked(bit_nat(sbits[i]), xs[i], s8);
            let we = ge_add(receiver_point(bit_nat(sbits[i]), xs[i], s8), torsion_elem());
            assert(elem_valid(we));
            assert(chou_s.channel().pending()[i] == compress_elem(we));
            assert(xs[i] < group_order());
        }
    }
    // the extension receiver draws its seed pairs and sends each pair
    // through the base OT
    let ext_r = match IKNPExtendedOTReceiver::new(SHA3_256::new(), chou_s, rng_ext_r,
        security_param) {
        Ok(ext) => ext,
        Err(e) => {
            return Err(e);
        },
    };
    let ghost k0s = ext_r.pairs0();
    let ghost k1s = ext_r.pairs1();
    let ghost rms = choose|rms: Seq<GroupElem>|
        rms.len() == security_param * 8 && (forall|i: int|
            0 <= i < rms.len() ==> elem_valid(rms[i]) && encodes(wires[i], #[trigger] rms[i]))
            && ext_r.channel().sent() == Seq::<Seq<u8>>::empty() + base_trace::<S>(
            seed,
            y,
            rms,
            k0s,
            k1s,
        );
    proof {
        lemma_pin_wires(wires, rms, sbits, xs, s8, m as int);
    }
    let mut ext_s_conn_src = ext_r;
    let ghost cts = Seq::<Seq<u8>>::empty() + base_trace::<S>(seed, y, rms, k0s, k1s);
    ext_s_conn_src.conn.deliver_to(setup.base.channel_mut());
    let ext_r = ext_s_conn_src;
    proof {
        assert(setup.channel().pending() =~= cts);
        assert(cts =~= base_trace::<S>(seed, y, rms, k0s, k1s));
        lemma_setup_composition::<S>(seed, y, s8, sbits, xs, rms, k0s, k1s, keys0, cts, m as int);
        assert(setup.choice_bits() == sbits);
        assert(setup.key_views() == keys0);
        assert(setup.channel().pending() == cts);
        assert(cts.len() == 2 * m);
        assert(sbits.len() == m);
        let chosen = Seq::new(m as nat, |i: int| if sbits[i] { k1s[i] } else { k0s[i] });
        assert forall|i: int| 0 <= i < sbits.len() implies #[trigger] cts[2 * i + bit_nat(
            sbits[i],
        ) as int] == S::seal(keys0[i], chosen[i]) by {
            assert(chosen[i] == if sbits[i] {
                k1s[i]
            } else {
                k0s[i]
            });
        }
        assert(pairs_available::<S>(cts, keys0, sbits, chosen));
        assert(pairs_available::<S>(
            setup.channel().pending(),
            setup.key_views(),
            setup.choice_bits(),
            chosen,
        ));
        assert(exists|ss: Seq<Seq<u8>>|
            pairs_available::<S>(
                setup.channel().pending(),
                setup.key_views(),
                setup.choice_bits(),
                ss,
            ));
    }
    let ext_s = match IKNPExtendedOTSender::finish(setup) {
        Ok(ext) => ext,
        Err(e) => {
            return Err(e);
        },
    };
    proof {
        assert(ext_s.s_bits() == sbits);
        assert forall|i: int| 0 <= i < m implies #[trigger] ext_s.seeds()[i] == if sbits[i] {
            k1s[i]
        } else {
            k0s[i]
        } by {
            assert(cts[2 * i + bit_nat(sbits[i]) as int] == S::seal(
                keys0[i],
                if sbits[i] {
                    k1s[i]
                } else {
                    k0s[i]
                },
            ));
        }
    }
    proof {
        assert(ext_r.channel().pending() =~= Seq::<Seq<u8>>::empty());
        assert(ext_r.channel().sent() =~= Seq::<Seq<u8>>::empty());
        assert(ext_s.channel().pending() =~= Seq::<Seq<u8>>::empty());
        assert(ext_s.channel().sent() =~= Seq::<Seq<u8>>::empty());
        assert(ext_r.h0() =~= Seq::<u8>::empty());
        assert(ext_s.h0() =~= Seq::<u8>::empty());
    }
    Ok((ext_r, ext_s))
}

/// One complete extension run between an extension receiver (wrapping a
/// base-OT sender) and an extension sender (wrapping a base-OT receiver)
/// connected by in-memory channels: for every column the receiver recovers
/// exactly the value its choice bit selects.
#[verifier::rlimit(100)]
pub fn run_iknp<S: SymmetricCryptoProvider>(
    values: &Vec<(Vec<u8>, Vec<u8>)>,
    choices: &BitVec,
    security_param: usize,
    enc: S,
    dec: S,
    rng_base_s: OtRng,
    rng_base_r: OtRng,
    rng_ext_r: OtRng,
    rng_ext_s: OtRng,
) -> (r: Result<Vec<Vec<u8>>, OtError>)
    requires
        choices@.len() == values@.len(),
        forall|j: int|
            0 <= j < values@.len() ==> #[trigger] values@[j].0@.len() == values@[j].1@.len(),
        choices@.len() + 7 <= usize::MAX,
        choices@.len() <= u64::MAX,
        security_param * 8 + 7 <= usize::MAX,
        security_param * 8 * 2 <= usize::MAX,
    ensures
        r matches Ok(out) ==> out@.len() == values@.len() && (forall|j: int|
            0 <= j < values@.len() ==> #[trigger] out@[j]@ == if choices@[j] {
                values@[j].1@
            } else {
                values@[j].0@
            }),
        (forall|d: Seq<u8>| d.len() == security_param as nat ==> #[trigger] S::encrypt_ok(d))
            ==> r is Ok,
{
    let m: usize = security_param * 8;
    let n: usize = choices.len();
    let pair = match setup_extension_pair(
        security_param,
        enc,
        dec,
        rng_base_s,
        rng_base_r,
        rng_ext_r,
        rng_ext_s,
    ) {
        Ok(p) => p,
        Err(e) => {
            return Err(e);
        },
    };
    let (ext_r, ext_s) = pair;
    let ghost k0s = ext_r.pairs0();
    let ghost k1s = ext_r.pairs1();
    let ghost sbits = ext_s.s_bits();
    // transfer phase: masked rows one way, masked value pairs back
    let mut ext_r = ext_r;
    let mut ext_s = ext_s;
    let _ = ext_r.send_masks(choices);
    let ghost h0 = Seq::<u8>::empty();
    let ghost ublobs = Seq::new(m as nat, |i: int| u_row(h0, k0s[i], k1s[i], choices@));
    ext_r.conn.deliver_to(&mut ext_s.conn);
    proof {
        assert(ext_s.channel().pending() =~= ublobs);
        assert(ext_r.h0() =~= h0);
        assert(ext_s.h0() =~= h0);
        assert forall|i: int| 0 <= i < m implies #[trigger] ext_s.channel().pending()[i].len() == (
        values@.len() + 7) / 8 by {
            assert(ublobs[i] == u_row(h0, k0s[i], k1s[i], choices@));
            assert(row_bits(h0, k0s[i], choices@.len()).len() == choices@.len());
            assert(xor_bits(
                xor_bits(
                    row_bits(h0, k0s[i], choices@.len()),
                    row_bits(h0, k1s[i], choices@.len()),
                ),
                choices@,
            ).len() == choices@.len());
        }
    }
    match ext_s.send(values) {
        Ok(u) => u,
        Err(e) => {
            return Err(e);
        },
    };
    let ghost qm = q_rows(h0, ublobs.take(m as int), ext_s.seeds(), sbits, n as nat);
    let ghost ytr = y_trace(h0, qm, sbits, values@);
    ext_s.conn.deliver_to(&mut ext_r.conn);
    proof {
        assert(ublobs.take(m as int) =~= ublobs);
        assert(ext_r.channel().pending() =~= ytr);
        assert(ytr.len() == 2 * n);
        assert forall|j: int| 0 <= j < n implies #[trigger] ext_r.channel().pending()[2 * j].len()
            == ext_r.channel().pending()[2 * j + 1].len() by {
            assert(ytr[2 * j] == xor_bytes(
                values@[j].0@,
                col_hash(h0, j as u64, column(qm, j), values@[j].0@.len()),
            ));
            assert(ytr[2 * j + 1] == xor_bytes(
                values@[j].1@,
                col_hash(h0, j as u64, xor_bits(column(qm, j), sbits), values@[j].1@.len()),
            ));
        }
    }
    let ghost ext_r_pre = ext_r;
    let out = ext_r.receive_outputs(choices);
    proof {
        let tmat = Seq::new(m as nat, |i: int| row_bits(h0, k0s[i], n as nat));
        assert(ext_r_pre.pairs0() == k0s);
        assert(ext_r_pre.t_matrix(n as nat) =~= tmat);
        lemma_transpose_identity(h0, k0s, k1s, ublobs, ext_s.seeds(), sbits, choices@);
        if out is Ok {
            let o = out->Ok_0;
            {
                assert forall|j: int| 0 <= j < n implies #[trigger] o@[j]@ == (if choices@[j] {
                    values@[j].1@
                } else {
                    values@[j].0@
                }) by {
                    let cq = column(qm, j);
                    let ct = column(tmat, j);
                    assert(ext_r_pre.h0() == h0);
                    assert(ext_r_pre.channel().pending() == ytr);
                    assert(column(ext_r_pre.t_matrix(n as nat), j) =~= ct);
                    assert(ytr[2 * j] == xor_bytes(
                        values@[j].0@,
                        col_hash(h0, j as u64, column(qm, j), values@[j].0@.len()),
                    ));
                    assert(ytr[2 * j].len() == values@[j].0@.len());
                    assert(values@[j].0@.len() == values@[j].1@.len());
                    if choices@[j] {
                        assert(xor_bits(cq, sbits) =~= ct) by {
                            assert forall|i: int| 0 <= i < m implies xor_bits(cq, sbits)[i]
                                == ct[i] by {
                                assert(qm[i][j] == (row_bits(h0, k0s[i], n as nat)[j] ^ (sbits[i]
                                    && choices@[j])));
                            }
                        }
                        assert(o@[j]@ == xor_bytes(
                            ytr[2 * j + 1],
                            col_hash(h0, j as u64, ct, values@[j].1@.len()),
                        ));
                        assert(ytr[2 * j + 1] == xor_bytes(
                            values@[j].1@,
                            col_hash(h0, j as u64, xor_bits(cq, sbits), values@[j].1@.len()),
                        ));
                        lemma_xor_bytes_involution(
                            values@[j].1@,
                            col_hash(h0, j as u64, ct, values@[j].1@.len()),
                        );
                    } else {
                        assert(cq =~= ct) by {
                            assert forall|i: int| 0 <= i < m implies cq[i] == ct[i] by {
                                assert(qm[i][j] == (row_bits(h0, k0s[i], n as nat)[j] ^ (sbits[i]
                                    && choices@[j])));
                            }
                        }
                        assert(o@[j]@ == xor_bytes(
                            ytr[2 * j],
                            col_hash(h0, j as u64, ct, values@[j].0@.len()),
                        ));
                        assert(cq =~= ct);
                        lemma_xor_bytes_involution(
                            values@[j].0@,
                            col_hash(h0, j as u64, ct, values@[j].0@.len()),
                        );
                    }
                }
            }
        }
    }
    out
}

/// The key agreement of the base exchange, stated for a choice bit.
pub proof fn lemma_key_agreement_bit(seed: Seq<u8>, y: nat, x: nat, b: bool)
    requires
        y < group_order(),
        x < group_order(),
    ensures
        sender_key(
            seed,
            y,
            ge_add(receiver_point(bit_nat(b), x, crate::chou::spub(y)), torsion_elem()),
            bit_nat(b),
        ) == receiver_key(seed, bit_nat(b), x, crate::chou::spub(y)),
{
    if b {
        crate::chou::lemma_key_agreement(seed, y, x, 1u64);
    } else {
        crate::chou::lemma_key_agreement(seed, y, x, 0u64);
    }
}

/// Masking twice with the same (possibly shorter) mask gives the buffer
/// back.
pub proof fn lemma_xor_bytes_involution(a: Seq<u8>, h: Seq<u8>)
    ensures
        xor_bytes(xor_bytes(a, h), h) == a,
{
    let once = xor_bytes(a, h);
    assert forall|i: int| 0 <= i < a.len() implies xor_bytes(once, h)[i] == a[i] by {
        let av = a[i];
        let hv = h[i];
        assert((av ^ hv) ^ hv == av) by (bit_vector);
    }
    assert(xor_bytes(xor_bytes(a, h), h) =~= a);
}

/// The bit-matrix transpose identity: with the receiver's matrix T and the
/// sender's reconstructed matrix Q, every entry satisfies
/// `Q[i][j] xor T[i][j] == s[i] and r[j]`.
pub proof fn lemma_transpose_identity(
    h0: Seq<u8>,
    k0s: Seq<Seq<u8>>,
    k1s: Seq<Seq<u8>>,
    ublobs: Seq<Seq<u8>>,
    seeds: Seq<Seq<u8>>,
    s: Seq<bool>,
    r: Seq<bool>,
)
    requires
        k0s.len() == s.len(),
        k1s.len() == s.len(),
        ublobs.len() == s.len(),
        seeds.len() == s.len(),
        forall|i: int|
            0 <= i < s.len() ==> #[trigger] ublobs[i] == u_row(h0, k0s[i], k1s[i], r),
        forall|i: int|
            0 <= i < s.len() ==> #[trigger] seeds[i] == if s[i] {
                k1s[i]
            } else {
                k0s[i]
            },
        forall|i: int|
            0 <= i < s.len() ==> #[trigger] row_bits(h0, k0s[i], r.len()).len() == r.len()
                && row_bits(h0, k1s[i], r.len()).len() == r.len(),
    ensures
        forall|i: int, j: int|
            0 <= i < s.len() && 0 <= j < r.len() ==> #[trigger] q_rows(
                h0,
                ublobs,
                seeds,
                s,
                r.len(),
            )[i][j] == (row_bits(h0, k0s[i], r.len())[j] ^ (s[i] && r[j])),
        forall|i: int, j: int|
            0 <= i < s.len() && 0 <= j < r.len() ==> (#[trigger] q_rows(
                h0,
                ublobs,
                seeds,
                s,
                r.len(),
            )[i][j] ^ row_bits(h0, k0s[i], r.len())[j]) == (s[i] && r[j]),
{
    let n = r.len();
    let q = q_rows(h0, ublobs, seeds, s, n);
    assert forall|i: int, j: int| 0 <= i < s.len() && 0 <= j < r.len() implies #[trigger] q[i][j]
        == (row_bits(h0, k0s[i], n)[j] ^ (s[i] && r[j])) by {
        let t = row_bits(h0, k0s[i], n);
        let g = row_bits(h0, k1s[i], n);
        if s[i] {
            let u = xor_bits(xor_bits(t, g), r);
            assert(u.len() == n);
            crate::bits::lemma_bits_round_trip(u);
            assert(bits_of_bytes(ublobs[i]).take(n as int) == u);
            assert(q[i] == xor_bits(u, g));
            assert(q[i][j] == ((t[j] ^ g[j]) ^ r[j]) ^ g[j]);
            assert(q[i][j] == (t[j] ^ r[j]));
        } else {
            assert(q[i] == t);
            assert(q[i][j] == (t[j] ^ false));
        }
    }
}

impl GetConn for IKNPExtendedOTReceiver {
    closed spec fn conn_view(self) -> Duplex {
        self.conn
    }

    fn get_conn(self) -> (r: Duplex) {
        self.conn
    }
}

} // verus!
