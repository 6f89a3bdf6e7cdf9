//! Big-endian encoding of 64-bit integers, used for the length prefix of
//! the record framing and for the per-column domain separation of the
//! extension hashes.
use vstd::prelude::*;

verus! {

/// Byte `i` of the big-endian encoding of `x`.
pub open spec fn be_byte(x: u64, i: int) -> u8 {
    (((x as int) / pow2_shift(8 * (7 - i))) % 256) as u8
}

/// 2^k for the byte offsets of a u64.
pub open spec fn pow2_shift(k: int) -> int {
    if k <= 0 {
        1
    } else if k == 8 {
        0x100
    } else if k == 16 {
        0x10000
    } else if k == 24 {
        0x1000000
    } else if k == 32 {
        0x100000000
    } else if k == 40 {
        0x10000000000
    } else if k == 48 {
        0x1000000000000
    } else {
        0x100000000000000
    }
}

/// The 8-byte big-endian encoding of `x`.
pub open spec fn u64_be_bytes(x: u64) -> Seq<u8> {
    Seq::new(8, |i: int| be_byte(x, i))
}

/// Writes `x` as 8 bytes, most significant first.
pub fn u64_to_be_bytes(x: u64) -> (r: Vec<u8>)
    ensures
        r@ == u64_be_bytes(x),
{
    let mut r: Vec<u8> = Vec::new();
    r.push(((x / 0x100000000000000u64) % 256) as u8);
    r.push(((x / 0x1000000000000u64) % 256) as u8);
    r.push(((x / 0x10000000000u64) % 256) as u8);
    r.push(((x / 0x100000000u64) % 256) as u8);
    r.push(((x / 0x1000000u64) % 256) as u8);
    r.push(((x / 0x10000u64) % 256) as u8);
    r.push(((x / 0x100u64) % 256) as u8);
    r.push((x % 256) as u8);
    proof {
        assert(r@ =~= u64_be_bytes(x));
    }
    r
}

/// Extracting the middle digit of `x = hi * (256 * m) + b * m + lo`.
proof fn lemma_extract_byte(x: int, hi: int, b: int, lo: int, m: int)
    requires
        m > 0,
        0 <= b < 256,
        0 <= lo < m,
        x == hi * (256 * m) + b * m + lo,
    ensures
        x / m % 256 == (hi * 256 + b) % 256,
        (hi * 256 + b) % 256 == b % 256,
        b % 256 == b,
{
    assert(x == (hi * 256 + b) * m + lo) by (nonlinear_arith)
        requires
            x == hi * (256 * m) + b * m + lo,
    ;
    vstd::arithmetic::div_mod::lemma_fundamental_div_mod_converse(x, m, hi * 256 + b, lo);
    vstd::arithmetic::div_mod::lemma_mod_multiples_vanish(hi, b, 256);
    vstd::arithmetic::div_mod::lemma_small_mod(b as nat, 256);
}

/// Reads back the 8-byte big-endian encoding: the result is the unique
/// integer whose encoding is `s`.
pub fn u64_from_be_bytes(s: &Vec<u8>) -> (x: u64)
    requires
        s@.len() == 8,
    ensures
        u64_be_bytes(x) == s@,
{
    let x: u64 = (s[0] as u64) * 0x100000000000000u64 + (s[1] as u64) * 0x1000000000000u64 + (
    s[2] as u64) * 0x10000000000u64 + (s[3] as u64) * 0x100000000u64 + (s[4] as u64)
        * 0x1000000u64 + (s[5] as u64) * 0x10000u64 + (s[6] as u64) * 0x100u64 + (s[7] as u64);
    proof {
        let b0 = s@[0] as int;
        let b1 = s@[1] as int;
        let b2 = s@[2] as int;
        let b3 = s@[3] as int;
        let b4 = s@[4] as int;
        let b5 = s@[5] as int;
        let b6 = s@[6] as int;
        let b7 = s@[7] as int;
        let xi = x as int;
        lemma_extract_byte(xi, 0, b0, xi - b0 * 0x100000000000000, 0x100000000000000);
        lemma_extract_byte(
            xi,
            b0,
            b1,
            b2 * 0x10000000000 + b3 * 0x100000000 + b4 * 0x1000000 + b5 * 0x10000 + b6 * 0x100
                + b7,
            0x1000000000000,
        );
        lemma_extract_byte(
            xi,
            b0 * 256 + b1,
            b2,
            b3 * 0x100000000 + b4 * 0x1000000 + b5 * 0x10000 + b6 * 0x100 + b7,
            0x10000000000,
        );
        lemma_extract_byte(
            xi,
            (b0 * 256 + b1) * 256 + b2,
            b3,
            b4 * 0x1000000 + b5 * 0x10000 + b6 * 0x100 + b7,
            0x100000000,
        );
        lemma_extract_byte(
            xi,
            ((b0 * 256 + b1) * 256 + b2) * 256 + b3,
            b4,
            b5 * 0x10000 + b6 * 0x100 + b7,
            0x1000000,
        );
        lemma_extract_byte(
            xi,
            (((b0 * 256 + b1) * 256 + b2) * 256 + b3) * 256 + b4,
            b5,
            b6 * 0x100 + b7,
            0x10000,
        );
        lemma_extract_byte(
            xi,
            ((((b0 * 256 + b1) * 256 + b2) * 256 + b3) * 256 + b4) * 256 + b5,
            b6,
            b7,
            0x100,
        );
        lemma_extract_byte(
            xi,
            (((((b0 * 256 + b1) * 256 + b2) * 256 + b3) * 256 + b4) * 256 + b5) * 256 + b6,
            b7,
            0,
            1,
        );
        assert(u64_be_bytes(x) =~= s@);
    }
    x
}

/// The integer whose big-endian bytes these are (for an 8-byte sequence).
pub open spec fn u64_of_be(s: Seq<u8>) -> int
    recommends
        s.len() == 8,
{
    (s[0] as int) * 0x100000000000000 + (s[1] as int) * 0x1000000000000 + (s[2] as int)
        * 0x10000000000 + (s[3] as int) * 0x100000000 + (s[4] as int) * 0x1000000 + (s[5] as int)
        * 0x10000 + (s[6] as int) * 0x100 + (s[7] as int)
}

/// A u64 is the weighted sum of its big-endian bytes.
pub proof fn lemma_u64_be_reconstruct(x: u64)
    ensures
        u64_of_be(u64_be_bytes(x)) == x as int,
{
    let xi = x as int;
    let q1 = xi / 0x100;
    let q2 = xi / 0x10000;
    let q3 = xi / 0x1000000;
    let q4 = xi / 0x100000000;
    let q5 = xi / 0x10000000000;
    let q6 = xi / 0x1000000000000;
    let q7 = xi / 0x100000000000000;
    vstd::arithmetic::div_mod::lemma_div_denominator(xi, 0x100, 0x100);
    vstd::arithmetic::div_mod::lemma_div_denominator(xi, 0x10000, 0x100);
    vstd::arithmetic::div_mod::lemma_div_denominator(xi, 0x1000000, 0x100);
    vstd::arithmetic::div_mod::lemma_div_denominator(xi, 0x100000000, 0x100);
    vstd::arithmetic::div_mod::lemma_div_denominator(xi, 0x10000000000, 0x100);
    vstd::arithmetic::div_mod::lemma_div_denominator(xi, 0x1000000000000, 0x100);
    vstd::arithmetic::div_mod::lemma_fundamental_div_mod(xi, 0x100);
    vstd::arithmetic::div_mod::lemma_fundamental_div_mod(q1, 0x100);
    vstd::arithmetic::div_mod::lemma_fundamental_div_mod(q2, 0x100);
    vstd::arithmetic::div_mod::lemma_fundamental_div_mod(q3, 0x100);
    vstd::arithmetic::div_mod::lemma_fundamental_div_mod(q4, 0x100);
    vstd::arithmetic::div_mod::lemma_fundamental_div_mod(q5, 0x100);
    vstd::arithmetic::div_mod::lemma_fundamental_div_mod(q6, 0x100);
    assert(q7 <= 0xff) by {
        vstd::arithmetic::div_mod::lemma_div_is_ordered(xi, 0xffffffffffffffff, 0x100000000000000);
    }
    vstd::arithmetic::div_mod::lemma_small_mod(q7 as nat, 0x100);
}

/// Two u64s with the same big-endian encoding are the same.
pub proof fn lemma_u64_be_bytes_injective(a: u64, b: u64)
    requires
        u64_be_bytes(a) == u64_be_bytes(b),
    ensures
        a == b,
{
    lemma_u64_be_reconstruct(a);
    lemma_u64_be_reconstruct(b);
}

} // verus!
