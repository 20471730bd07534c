//! Unsigned LEB128: little-endian groups of seven bits, the high bit of each
//! byte set while more groups follow.

use vstd::prelude::*;

verus! {

/// The most groups a decoder accepts for one number.
pub const MAX_GROUPS: usize = 5;

/// Why a length could not be decoded.
#[derive(Clone, Copy, Debug, PartialEq, Eq, Structural)]
pub enum LebError {
    /// The data ended inside the number.
    Truncated,
    /// The number runs on past the fifth group.
    Overflow,
}

/// What decoding at some offset yields.
pub enum LebParse {
    /// A number, and how many bytes it took.
    Value { value: nat, consumed: nat },
    /// The data ended inside the number.
    Truncated,
    /// The number runs on past the last group allowed.
    Overflow,
}

/// The encoding of `v`.
pub open spec fn leb128(v: nat) -> Seq<u8>
    decreases v,
{
    if v < 128 {
        seq![v as u8]
    } else {
        seq![(v % 128 + 128) as u8] + leb128(v / 128)
    }
}

/// Decoding `s` from `at` on, with `groups` groups still allowed.
pub open spec fn leb128_parse(s: Seq<u8>, at: nat, groups: nat) -> LebParse
    decreases groups,
{
    if groups == 0 {
        LebParse::Overflow
    } else if at >= s.len() {
        LebParse::Truncated
    } else if s[at as int] < 128 {
        LebParse::Value { value: s[at as int] as nat, consumed: 1 }
    } else {
        match leb128_parse(s, at + 1, (groups - 1) as nat) {
            LebParse::Value { value, consumed } => LebParse::Value {
                value: (s[at as int] - 128) as nat + 128 * value,
                consumed: consumed + 1,
            },
            LebParse::Truncated => LebParse::Truncated,
            LebParse::Overflow => LebParse::Overflow,
        }
    }
}

/// `128^n`.
pub open spec fn pow128(n: nat) -> nat
    decreases n,
{
    if n == 0 {
        1
    } else {
        128 * pow128((n - 1) as nat)
    }
}

/// A decoded number of at most `groups` groups is below `128^groups`, and
/// lies within the data.
pub proof fn lemma_parse_bounds(s: Seq<u8>, at: nat, groups: nat)
    ensures
        match leb128_parse(s, at, groups) {
            LebParse::Value { value, consumed } => {
                &&& value < pow128(groups)
                &&& 1 <= consumed <= groups
                &&& at + consumed <= s.len()
            },
            _ => true,
        },
    decreases groups,
{
    if groups > 0 {
        lemma_pow128_positive((groups - 1) as nat);
        if at < s.len() && s[at as int] >= 128 {
            lemma_parse_bounds(s, at + 1, (groups - 1) as nat);
        }
    }
}

pub proof fn lemma_pow128_positive(n: nat)
    ensures
        pow128(n) >= 1,
    decreases n,
{
    if n > 0 {
        lemma_pow128_positive((n - 1) as nat);
    }
}

/// An encoding is never empty, and a number below `128^n` takes at most `n` bytes.
pub proof fn lemma_leb128_len(v: nat, n: nat)
    requires
        v < pow128(n),
    ensures
        1 <= leb128(v).len(),
        n >= 1 ==> leb128(v).len() <= n,
    decreases v,
{
    if v >= 128 {
        if n >= 1 {
            lemma_leb128_len(v / 128, (n - 1) as nat);
            assert(n - 1 >= 1) by {
                if n == 1 {
                    assert(pow128(1) == 128) by {
                        reveal_with_fuel(pow128, 2);
                    }
                }
            }
        } else {
            lemma_leb128_len(v / 128, 0);
        }
    }
}

/// What was encoded decodes to itself, wherever in a buffer it stands.
///
/// For every number `v` below `128^groups`, decoding a buffer that holds the
/// encoding of `v` at `at` yields `v` and the encoding's length.
pub proof fn lemma_leb128_roundtrip(s: Seq<u8>, at: nat, v: nat, groups: nat)
    requires
        groups >= 1,
        v < pow128(groups),
        at + leb128(v).len() <= s.len(),
        s.subrange(at as int, (at + leb128(v).len()) as int) == leb128(v),
    ensures
        leb128_parse(s, at, groups) == (LebParse::Value { value: v, consumed: leb128(v).len() }),
    decreases v,
{
    let enc = leb128(v);
    let part = s.subrange(at as int, (at + enc.len()) as int);
    assert(part[0] == s[at as int]);
    if v < 128 {
    } else {
        let rest = leb128(v / 128);
        assert(enc =~= seq![(v % 128 + 128) as u8] + rest);
        assert(enc.len() == 1 + rest.len());
        assert(s.subrange((at + 1) as int, (at + 1 + rest.len()) as int) =~= rest) by {
            assert forall|i: int| 0 <= i < rest.len() implies s[at + 1 + i] == rest[i] by {
                assert(part[i + 1] == s[at + 1 + i]);
                assert(enc[i + 1] == rest[i]);
            }
        }
        assert(pow128(groups) == 128 * pow128((groups - 1) as nat));
        assert(pow128(0) == 1);
        lemma_leb128_roundtrip(s, at + 1, v / 128, (groups - 1) as nat);
    }
}

/// Every 32-bit number is below `128^5`.
pub proof fn lemma_u32_fits(v: u32)
    ensures
        (v as nat) < pow128(5),
        pow128(5) == 34359738368,
{
    reveal_with_fuel(pow128, 6);
}

/// Appends the encoding of `value`.
pub fn write_leb128(out: &mut Vec<u8>, value: u32)
    ensures
        final(out)@ == old(out)@ + leb128(value as nat),
{
    let mut rest: u32 = value;
    while rest >= 128
        invariant
            out@ + leb128(rest as nat) == old(out)@ + leb128(value as nat),
        decreases rest,
    {
        let byte: u8 = (rest % 128 + 128) as u8;
        proof {
            assert(leb128(rest as nat) =~= seq![byte] + leb128((rest / 128) as nat));
            assert(out@.push(byte) + leb128((rest / 128) as nat) =~= out@ + leb128(rest as nat));
        }
        out.push(byte);
        rest = rest / 128;
    }
    proof {
        assert(out@.push(rest as u8) =~= out@ + leb128(rest as nat));
    }
    out.push(rest as u8);
}

/// Decodes the number that starts at `offset`.
///
/// Returns the number and the count of bytes it took, or says why there is
/// none: the data ended inside it, or it has more than five groups.
pub fn read_leb128(data: &[u8], offset: usize) -> (r: Result<(u64, usize), LebError>)
    ensures
        match leb128_parse(data@, offset as nat, MAX_GROUPS as nat) {
            LebParse::Value { value, consumed } => r == Ok::<(u64, usize), LebError>(
                (value as u64, consumed as usize),
            ) && value < 34359738368 && consumed <= 5 && offset + consumed <= data.len(),
            LebParse::Truncated => r == Err::<(u64, usize), LebError>(LebError::Truncated),
            LebParse::Overflow => r == Err::<(u64, usize), LebError>(LebError::Overflow),
        },
{
    let mut result: u64 = 0;
    let mut scale: u64 = 1;
    let mut read: usize = 0;
    proof {
        reveal_with_fuel(pow128, 6);
        lemma_parse_bounds(data@, offset as nat, MAX_GROUPS as nat);
    }
    while read < MAX_GROUPS
        invariant
            read <= MAX_GROUPS,
            scale == pow128(read as nat),
            result < scale,
            read > 0 ==> offset + read <= data.len(),
            match leb128_parse(data@, (offset + read) as nat, (MAX_GROUPS - read) as nat) {
                LebParse::Value { value, consumed } => leb128_parse(
                    data@,
                    offset as nat,
                    MAX_GROUPS as nat,
                ) == (LebParse::Value {
                    value: result as nat + scale as nat * value,
                    consumed: consumed + read as nat,
                }),
                LebParse::Truncated => leb128_parse(data@, offset as nat, MAX_GROUPS as nat)
                    == LebParse::Truncated,
                LebParse::Overflow => leb128_parse(data@, offset as nat, MAX_GROUPS as nat)
                    == LebParse::Overflow,
            },
        decreases MAX_GROUPS - read,
    {
        if offset >= data.len() || read >= data.len() - offset {
            return Err(LebError::Truncated);
        }
        let byte: u8 = data[offset + read];
        proof {
            reveal_with_fuel(pow128, 6);
            assert(scale <= 268435456);
        }
        if byte < 128 {
            assert(scale * (byte as u64) <= 268435456 * 127) by (nonlinear_arith)
                requires
                    scale <= 268435456,
                    byte <= 127,
            ;
            result = result + scale * (byte as u64);
            return Ok((result, read + 1));
        }
        let digit: u64 = (byte - 128) as u64;
        let ghost inner = leb128_parse(
            data@,
            (offset + read + 1) as nat,
            (MAX_GROUPS - read - 1) as nat,
        );
        proof {
            assert(scale * digit <= scale * 127 && scale * 127 <= 268435456 * 127)
                by (nonlinear_arith)
                requires
                    scale <= 268435456,
                    digit <= 127,
            ;
            assert(result + scale * digit < scale * 128) by (nonlinear_arith)
                requires
                    result < scale,
                    digit <= 127,
            ;
            match inner {
                LebParse::Value { value, consumed } => {
                    assert(result as nat + scale as nat * (digit as nat + 128 * value) == (result
                        + scale * digit) as nat + (scale * 128) as nat * value)
                        by (nonlinear_arith);
                },
                _ => {},
            }
        }
        result = result + scale * digit;
        scale = scale * 128;
        read = read + 1;
    }
    Err(LebError::Overflow)
}

} // verus!
