//! Bit vectors with the wire packing used by the protocols: the bit at
//! logical position `i` lives in byte `i / 8`, at position `i % 8` counted
//! from the most significant bit; the last byte is zero-padded.
use vstd::prelude::*;

verus! {

/// 2^k for 0 <= k <= 7.
pub open spec fn pow2_small(k: int) -> int {
    if k <= 0 {
        1
    } else if k == 1 {
        2
    } else if k == 2 {
        4
    } else if k == 3 {
        8
    } else if k == 4 {
        16
    } else if k == 5 {
        32
    } else if k == 6 {
        64
    } else {
        128
    }
}

/// Bit `k` of byte `b`, most significant bit first.
pub open spec fn bit_of_byte(b: u8, k: int) -> bool {
    (b as int) / pow2_small(7 - k) % 2 == 1
}

/// The bit sequence a byte sequence unpacks to (8 bits per byte, MSB first).
pub open spec fn bits_of_bytes(s: Seq<u8>) -> Seq<bool> {
    Seq::new(s.len() * 8, |i: int| bit_of_byte(s[i / 8], i % 8))
}

/// Reading past the end of a bit sequence yields padding zeroes.
pub open spec fn bget(bits: Seq<bool>, i: int) -> bool {
    0 <= i < bits.len() && bits[i]
}

pub open spec fn bint(b: bool) -> int {
    if b {
        1
    } else {
        0
    }
}

/// The byte that packs the 8 bits of `bits` starting at `base` (MSB first).
pub open spec fn byte_of_bits(bits: Seq<bool>, base: int) -> u8 {
    (128 * bint(bget(bits, base)) + 64 * bint(bget(bits, base + 1)) + 32 * bint(
        bget(bits, base + 2),
    ) + 16 * bint(bget(bits, base + 3)) + 8 * bint(bget(bits, base + 4)) + 4 * bint(
        bget(bits, base + 5),
    ) + 2 * bint(bget(bits, base + 6)) + bint(bget(bits, base + 7))) as u8
}

/// The byte sequence a bit sequence packs to, zero-padding the last byte.
pub open spec fn bytes_of_bits(bits: Seq<bool>) -> Seq<u8> {
    Seq::new((bits.len() + 7) / 8, |i: int| byte_of_bits(bits, 8 * i))
}

pub open spec fn xor_bits(a: Seq<bool>, b: Seq<bool>) -> Seq<bool> {
    Seq::new(a.len(), |i: int| a[i] ^ b[i])
}

/// Unpacking a packed byte recovers each of its 8 bits.
pub proof fn lemma_byte_bit_round_trip(bits: Seq<bool>, base: int, k: int)
    requires
        0 <= k < 8,
    ensures
        bit_of_byte(byte_of_bits(bits, base), k) == bget(bits, base + k),
{
}

/// Unpacking the packed form of a bit vector gives the vector back,
/// up to the zero padding of the final byte.
pub proof fn lemma_bits_round_trip(bits: Seq<bool>)
    ensures
        bits_of_bytes(bytes_of_bits(bits)).take(bits.len() as int) == bits,
{
    let packed = bytes_of_bits(bits);
    let unpacked = bits_of_bytes(packed);
    assert(unpacked.len() == packed.len() * 8);
    assert(bits.len() <= packed.len() * 8);
    assert forall|i: int| 0 <= i < bits.len() implies unpacked[i] == bits[i] by {
        assert(0 <= i / 8 < packed.len());
        assert(packed[i / 8] == byte_of_bits(bits, 8 * (i / 8)));
        lemma_byte_bit_round_trip(bits, 8 * (i / 8), i % 8);
        assert(8 * (i / 8) + i % 8 == i);
    }
    assert(unpacked.take(bits.len() as int) =~= bits);
}

/// An ordered sequence of bits with bulk conversion to and from bytes.
pub struct BitVec {
    bits: Vec<bool>,
}

impl View for BitVec {
    type V = Seq<bool>;

    closed spec fn view(&self) -> Seq<bool> {
        self.bits@
    }
}

/// 2^k as a byte, for k < 8.
fn pow2_u8(k: usize) -> (r: u8)
    requires
        k < 8,
    ensures
        r as int == pow2_small(k as int),
{
    if k == 0 {
        1
    } else if k == 1 {
        2
    } else if k == 2 {
        4
    } else if k == 3 {
        8
    } else if k == 4 {
        16
    } else if k == 5 {
        32
    } else if k == 6 {
        64
    } else {
        128
    }
}

impl BitVec {
    pub fn new() -> (r: BitVec)
        ensures
            r@ == Seq::<bool>::empty(),
    {
        let r = BitVec { bits: Vec::new() };
        proof {
            assert(r@ =~= Seq::<bool>::empty());
        }
        r
    }

    pub fn from_bools(v: Vec<bool>) -> (r: BitVec)
        ensures
            r@ == v@,
    {
        BitVec { bits: v }
    }

    pub fn len(&self) -> (r: usize)
        ensures
            r == self@.len(),
    {
        self.bits.len()
    }

    pub fn get(&self, i: usize) -> (r: bool)
        requires
            i < self@.len(),
        ensures
            r == self@[i as int],
    {
        self.bits[i]
    }

    pub fn push(&mut self, b: bool)
        ensures
            final(self)@ == old(self)@.push(b),
    {
        self.bits.push(b);
    }

    /// Shortens the vector to `n` bits; a longer `n` leaves it unchanged.
    pub fn truncate(&mut self, n: usize)
        ensures
            final(self)@ == if n <= old(self)@.len() {
                old(self)@.take(n as int)
            } else {
                old(self)@
            },
    {
        self.bits.truncate(n);
        proof {
            if n <= old(self)@.len() {
                assert(self@ =~= old(self)@.take(n as int));
            } else {
                assert(self@ =~= old(self)@);
            }
        }
    }

    /// Unpacks a byte string into its bits, most significant bit of each
    /// byte first.
    pub fn from_bytes(bytes: &Vec<u8>) -> (r: BitVec)
        requires
            bytes@.len() * 8 <= usize::MAX,
        ensures
            r@ == bits_of_bytes(bytes@),
    {
        let mut bits: Vec<bool> = Vec::new();
        let total: usize = bytes.len() * 8;
        let mut i: usize = 0;
        while i < total
            invariant
                total == bytes@.len() * 8,
                i <= total,
                bits@.len() == i,
                forall|j: int| 0 <= j < i ==> bits@[j] == bit_of_byte(bytes@[j / 8], j % 8),
            decreases total - i,
        {
            let b: u8 = bytes[i / 8];
            let k: usize = i % 8;
            let d: u8 = pow2_u8(7 - k);
            bits.push((b / d) % 2 == 1);
            i = i + 1;
        }
        let r = BitVec { bits };
        proof {
            assert(r@ =~= bits_of_bytes(bytes@));
        }
        r
    }

    /// Packs the bits into bytes, zero-padding the final byte.
    pub fn to_bytes(&self) -> (r: Vec<u8>)
        requires
            self@.len() + 7 <= usize::MAX,
        ensures
            r@ == bytes_of_bits(self@),
    {
        let n: usize = self.bits.len();
        let nb: usize = n / 8 + if n % 8 == 0 {
            0
        } else {
            1
        };
        proof {
            assert(nb == (self@.len() + 7) / 8);
        }
        let mut out: Vec<u8> = Vec::new();
        let mut i: usize = 0;
        while i < nb
            invariant
                self@.len() + 7 <= usize::MAX,
                nb == (self@.len() + 7) / 8,
                i <= nb,
                out@.len() == i,
                forall|j: int| 0 <= j < i ==> out@[j] == byte_of_bits(self@, 8 * j),
            decreases nb - i,
        {
            proof {
                vstd::arithmetic::div_mod::lemma_fundamental_div_mod(
                    (self@.len() + 7) as int,
                    8,
                );
                assert(8 * (i as int) + 8 <= self@.len() + 7);
            }
            let mut v: u8 = 0;
            let base: usize = i * 8;
            if self.get_padded(base) {
                v = v + 128;
            }
            if self.get_padded(base + 1) {
                v = v + 64;
            }
            if self.get_padded(base + 2) {
                v = v + 32;
            }
            if self.get_padded(base + 3) {
                v = v + 16;
            }
            if self.get_padded(base + 4) {
                v = v + 8;
            }
            if self.get_padded(base + 5) {
                v = v + 4;
            }
            if self.get_padded(base + 6) {
                v = v + 2;
            }
            if self.get_padded(base + 7) {
                v = v + 1;
            }
            assert(v == byte_of_bits(self@, 8 * i as int));
            out.push(v);
            i = i + 1;
        }
        proof {
            assert(out@ =~= bytes_of_bits(self@));
        }
        out
    }

    /// The bit at `i`, reading zero past the end.
    fn get_padded(&self, i: usize) -> (r: bool)
        ensures
            r == bget(self@, i as int),
    {
        if i < self.bits.len() {
            self.bits[i]
        } else {
            false
        }
    }

    /// Bitwise exclusive or of two vectors of equal length.
    pub fn xor(&self, other: &BitVec) -> (r: BitVec)
        requires
            self@.len() == other@.len(),
        ensures
            r@ == xor_bits(self@, other@),
    {
        let n: usize = self.bits.len();
        let mut bits: Vec<bool> = Vec::new();
        let mut i: usize = 0;
        while i < n
            invariant
                n == self@.len(),
                self@.len() == other@.len(),
                i <= n,
                bits@.len() == i,
                forall|j: int| 0 <= j < i ==> bits@[j] == (self@[j] ^ other@[j]),
            decreases n - i,
        {
            bits.push(self.bits[i] ^ other.bits[i]);
            i = i + 1;
        }
        let r = BitVec { bits };
        proof {
            assert(r@ =~= xor_bits(self@, other@));
        }
        r
    }
}

} // verus!
