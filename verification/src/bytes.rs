//! Little-endian integers on the wire.
//!
//! The model is positional: `le_bytes(x, n)` is the `n` low base-256 digits of
//! `x`, lowest first, and `le_value` reads such digits back. The executable
//! functions append to and read from byte buffers and are specified by the two.

use vstd::prelude::*;

verus! {

/// `256^n`.
pub open spec fn pow256(n: nat) -> nat
    decreases n,
{
    if n == 0 {
        1
    } else {
        256 * pow256((n - 1) as nat)
    }
}

/// The `n` low base-256 digits of `x`, least significant first.
pub open spec fn le_bytes(x: nat, n: nat) -> Seq<u8>
    decreases n,
{
    if n == 0 {
        Seq::empty()
    } else {
        seq![(x % 256) as u8] + le_bytes(x / 256, (n - 1) as nat)
    }
}

/// The number whose base-256 digits, least significant first, are `s`.
pub open spec fn le_value(s: Seq<u8>) -> nat
    decreases s.len(),
{
    if s.len() == 0 {
        0
    } else {
        s[0] as nat + 256 * le_value(s.drop_first())
    }
}

/// The two's-complement bit pattern of a signed 16-bit number.
pub open spec fn i16_bits(x: i16) -> u16 {
    if x < 0 {
        (x + 65536) as u16
    } else {
        x as u16
    }
}

/// The signed 16-bit number with the given two's-complement bit pattern.
pub open spec fn i16_from_bits(u: u16) -> i16 {
    if u >= 32768 {
        (u - 65536) as i16
    } else {
        u as i16
    }
}

/// The two bytes of a signed 16-bit number, little-endian.
pub open spec fn i16_le(x: i16) -> Seq<u8> {
    le_bytes(i16_bits(x) as nat, 2)
}

/// The signed 16-bit number stored little-endian in the two bytes `s`.
pub open spec fn i16_from_le(s: Seq<u8>) -> i16 {
    i16_from_bits((le_value(s) % 65536) as u16)
}

pub proof fn lemma_pow256_values()
    ensures
        pow256(0) == 1,
        pow256(1) == 256,
        pow256(2) == 65536,
        pow256(4) == 4294967296,
        pow256(8) == 18446744073709551616,
{
    reveal_with_fuel(pow256, 9);
}

/// An encoding has the length asked for.
pub proof fn lemma_le_bytes_len(x: nat, n: nat)
    ensures
        le_bytes(x, n).len() == n,
    decreases n,
{
    if n > 0 {
        lemma_le_bytes_len(x / 256, (n - 1) as nat);
    }
}

/// Reading back an encoding gives the number, once it fits in `n` digits.
pub proof fn lemma_le_roundtrip(x: nat, n: nat)
    requires
        x < pow256(n),
    ensures
        le_value(le_bytes(x, n)) == x,
    decreases n,
{
    if n > 0 {
        let rest = le_bytes(x / 256, (n - 1) as nat);
        let s = le_bytes(x, n);
        assert(s.drop_first() =~= rest);
        lemma_le_roundtrip(x / 256, (n - 1) as nat);
    }
}

/// Encoding what was read from `s` gives `s` again.
pub proof fn lemma_le_bytes_of_value(s: Seq<u8>)
    ensures
        le_bytes(le_value(s), s.len()) == s,
    decreases s.len(),
{
    if s.len() > 0 {
        let t = s.drop_first();
        lemma_le_bytes_of_value(t);
        let v = le_value(s);
        assert(v % 256 == s[0] as nat);
        assert(v / 256 == le_value(t));
        assert(le_bytes(v, s.len()) =~= s);
    } else {
        assert(le_bytes(le_value(s), s.len()) =~= s);
    }
}

/// Digit strings of one length that stand for the same number are the same.
pub proof fn lemma_le_value_injective(a: Seq<u8>, b: Seq<u8>)
    requires
        a.len() == b.len(),
        le_value(a) == le_value(b),
    ensures
        a == b,
{
    lemma_le_bytes_of_value(a);
    lemma_le_bytes_of_value(b);
}

/// Two bytes written for a signed number read back as that number.
pub proof fn lemma_i16_le_roundtrip(x: i16)
    ensures
        i16_le(x).len() == 2,
        i16_from_le(i16_le(x)) == x,
{
    lemma_pow256_values();
    lemma_le_bytes_len(i16_bits(x) as nat, 2);
    lemma_le_roundtrip(i16_bits(x) as nat, 2);
}

/// Appends the two little-endian bytes of `x`.
pub fn push_u16_le(out: &mut Vec<u8>, x: u16)
    ensures
        final(out)@ == old(out)@ + le_bytes(x as nat, 2),
{
    out.push((x % 256) as u8);
    out.push((x / 256) as u8);
    proof {
        reveal_with_fuel(le_bytes, 3);
        assert(out@ =~= old(out)@ + le_bytes(x as nat, 2));
    }
}

/// Appends the two little-endian bytes of the signed number `x`.
pub fn push_i16_le(out: &mut Vec<u8>, x: i16)
    ensures
        final(out)@ == old(out)@ + i16_le(x),
{
    let bits: u16 = if x < 0 {
        (x as i32 + 65536) as u16
    } else {
        x as u16
    };
    push_u16_le(out, bits);
}

/// Appends the four little-endian bytes of `x`.
pub fn push_u32_le(out: &mut Vec<u8>, x: u32)
    ensures
        final(out)@ == old(out)@ + le_bytes(x as nat, 4),
{
    out.push((x % 256) as u8);
    out.push(((x / 256) % 256) as u8);
    out.push(((x / 65536) % 256) as u8);
    out.push((x / 16777216) as u8);
    proof {
        reveal_with_fuel(le_bytes, 5);
        assert(out@ =~= old(out)@ + le_bytes(x as nat, 4));
    }
}

/// Appends the eight little-endian bytes of `x`.
pub fn push_u64_le(out: &mut Vec<u8>, x: u64)
    ensures
        final(out)@ == old(out)@ + le_bytes(x as nat, 8),
{
    let lo: u32 = (x % 4294967296) as u32;
    let hi: u32 = (x / 4294967296) as u32;
    push_u32_le(out, lo);
    push_u32_le(out, hi);
    proof {
        let s = le_bytes(lo as nat, 4) + le_bytes(hi as nat, 4);
        lemma_pow256_values();
        lemma_le_bytes_len(lo as nat, 4);
        lemma_le_bytes_len(hi as nat, 4);
        lemma_le_roundtrip(lo as nat, 4);
        lemma_le_roundtrip(hi as nat, 4);
        lemma_le_value_concat(le_bytes(lo as nat, 4), le_bytes(hi as nat, 4));
        lemma_le_bytes_of_value(s);
        assert(le_value(s) == x as nat);
        assert(out@ =~= old(out)@ + le_bytes(x as nat, 8));
    }
}

/// Reads the two little-endian bytes at `at`.
pub fn read_u16_le(data: &[u8], at: usize) -> (r: u16)
    requires
        at + 2 <= data.len(),
    ensures
        r as nat == le_value(data@.subrange(at as int, at + 2)),
{
    let b0: u16 = data[at] as u16;
    let b1: u16 = data[at + 1] as u16;
    proof {
        let s = data@.subrange(at as int, at + 2);
        reveal_with_fuel(le_value, 3);
        assert(s.drop_first().drop_first().len() == 0);
        assert(s[0] == data@[at as int]);
        assert(s.drop_first()[0] == data@[at + 1]);
    }
    b0 + b1 * 256
}

/// Reads the signed 16-bit number stored little-endian at `at`.
pub fn read_i16_le(data: &[u8], at: usize) -> (r: i16)
    requires
        at + 2 <= data.len(),
    ensures
        r == i16_from_le(data@.subrange(at as int, at + 2)),
{
    let u: u16 = read_u16_le(data, at);
    if u >= 32768 {
        (u as i32 - 65536) as i16
    } else {
        u as i16
    }
}

/// Reads the four little-endian bytes at `at`.
pub fn read_u32_le(data: &[u8], at: usize) -> (r: u32)
    requires
        at + 4 <= data.len(),
    ensures
        r as nat == le_value(data@.subrange(at as int, at + 4)),
{
    let b0: u32 = data[at] as u32;
    let b1: u32 = data[at + 1] as u32;
    let b2: u32 = data[at + 2] as u32;
    let b3: u32 = data[at + 3] as u32;
    proof {
        let s = data@.subrange(at as int, at + 4);
        reveal_with_fuel(le_value, 5);
        let s1 = s.drop_first();
        let s2 = s1.drop_first();
        let s3 = s2.drop_first();
        assert(s3.drop_first().len() == 0);
        assert(s[0] == data@[at as int]);
        assert(s1[0] == data@[at + 1]);
        assert(s2[0] == data@[at + 2]);
        assert(s3[0] == data@[at + 3]);
    }
    b0 + b1 * 256 + b2 * 65536 + b3 * 16777216
}

/// Reads the eight little-endian bytes at `at`.
pub fn read_u64_le(data: &[u8], at: usize) -> (r: u64)
    requires
        at + 8 <= data.len(),
    ensures
        r as nat == le_value(data@.subrange(at as int, at + 8)),
{
    let lo: u64 = read_u32_le(data, at) as u64;
    let hi: u64 = read_u32_le(data, at + 4) as u64;
    proof {
        let s = data@.subrange(at as int, at + 8);
        let a = data@.subrange(at as int, at + 4);
        let b = data@.subrange(at + 4, at + 8);
        assert(s =~= a + b);
        lemma_le_value_concat(a, b);
        lemma_pow256_values();
    }
    lo + hi * 4294967296
}

/// The value of a concatenation: the first part, plus the second shifted past it.
pub proof fn lemma_le_value_concat(a: Seq<u8>, b: Seq<u8>)
    ensures
        le_value(a + b) == le_value(a) + pow256(a.len()) * le_value(b),
    decreases a.len(),
{
    if a.len() == 0 {
        assert(a + b =~= b);
        assert(pow256(0) == 1);
    } else {
        let t = a.drop_first();
        let ab = a + b;
        assert(ab.drop_first() =~= t + b);
        assert(ab[0] == a[0]);
        lemma_le_value_concat(t, b);
        let pt = pow256(t.len());
        let vb = le_value(b);
        assert(pow256(a.len()) == 256 * pt);
        assert(256 * (pt * vb) == (256 * pt) * vb) by (nonlinear_arith);
        assert(le_value(ab) == ab[0] as nat + 256 * le_value(ab.drop_first()));
    }
}

} // verus!
