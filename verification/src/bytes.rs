//! Little-endian integer encodings used by the hash chain, the associated
//! data and the on-disk frames.

use vstd::prelude::*;

verus! {

/// The `n` least significant base-256 digits of `x`, least significant first.
pub open spec fn le_bytes(x: nat, n: nat) -> Seq<u8>
    decreases n,
{
    if n == 0 {
        Seq::empty()
    } else {
        seq![(x % 256) as u8] + le_bytes(x / 256, (n - 1) as nat)
    }
}

/// The number whose little-endian digits are `s`.
pub open spec fn le_value(s: Seq<u8>) -> nat
    decreases s.len(),
{
    if s.len() == 0 {
        0
    } else {
        s[0] as nat + 256 * le_value(s.drop_first())
    }
}

/// `u64::to_le_bytes` as a sequence.
pub open spec fn u64_le(x: u64) -> Seq<u8> {
    le_bytes(x as nat, 8)
}

/// `i64::to_le_bytes` as a sequence: the two's complement bits of `x`.
pub open spec fn i64_le(x: i64) -> Seq<u8> {
    le_bytes((x as u64) as nat, 8)
}

/// `u32::to_le_bytes` as a sequence.
pub open spec fn u32_le(x: u32) -> Seq<u8> {
    le_bytes(x as nat, 4)
}

pub proof fn lemma_le_bytes_len(x: nat, n: nat)
    ensures
        le_bytes(x, n).len() == n,
    decreases n,
{
    if n > 0 {
        lemma_le_bytes_len(x / 256, (n - 1) as nat);
    }
}

/// Decoding the digits of a number that fits gives the number back.
pub proof fn lemma_le_value_of_le_bytes(x: nat, n: nat)
    requires
        x < vstd::arithmetic::power::pow(256, n),
    ensures
        le_value(le_bytes(x, n)) == x,
    decreases n,
{
    vstd::arithmetic::power::lemma_pow_positive(256, n);
    if n == 0 {
        vstd::arithmetic::power::lemma_pow0(256);
    } else {
        let rest = le_bytes(x / 256, (n - 1) as nat);
        let all = le_bytes(x, n);
        vstd::arithmetic::power::lemma_pow_adds(256, 1, (n - 1) as nat);
        vstd::arithmetic::power::lemma_pow1(256);
        let p = vstd::arithmetic::power::pow(256, (n - 1) as nat);
        assert(x / 256 < p) by (nonlinear_arith)
            requires
                x < 256 * p,
        ;
        lemma_le_value_of_le_bytes(x / 256, (n - 1) as nat);
        assert(all.drop_first() =~= rest);
        assert(all[0] as nat == x % 256);
        assert(x % 256 + 256 * (x / 256) == x) by (nonlinear_arith);
    }
}

/// Append `le_bytes(x, n)` digit by digit.
fn push_le(out: &mut Vec<u8>, x: u128, n: usize)
    requires
        n <= 16,
    ensures
        final(out)@ == old(out)@ + le_bytes(x as nat, n as nat),
{
    let mut v: u128 = x;
    let mut i: usize = 0;
    while i < n
        invariant
            i <= n,
            old(out)@ + le_bytes(x as nat, n as nat) == out@ + le_bytes(v as nat, (n - i) as nat),
        decreases n - i,
    {
        let ghost before = out@;
        let digit: u8 = (v % 256) as u8;
        out.push(digit);
        assert(le_bytes(v as nat, (n - i) as nat) == seq![digit] + le_bytes(
            (v / 256) as nat,
            (n - i - 1) as nat,
        ));
        assert(before + (seq![digit] + le_bytes((v / 256) as nat, (n - i - 1) as nat)) =~= out@
            + le_bytes((v / 256) as nat, (n - i - 1) as nat));
        v = v / 256;
        i = i + 1;
    }
    assert(le_bytes(v as nat, 0) =~= Seq::<u8>::empty());
    assert(out@ + Seq::<u8>::empty() =~= out@);
}

/// Append `x.to_le_bytes()`.
pub fn push_u64_le(out: &mut Vec<u8>, x: u64)
    ensures
        final(out)@ == old(out)@ + u64_le(x),
{
    push_le(out, x as u128, 8);
}

/// Append `x.to_le_bytes()`.
pub fn push_i64_le(out: &mut Vec<u8>, x: i64)
    ensures
        final(out)@ == old(out)@ + i64_le(x),
{
    push_le(out, (x as u64) as u128, 8);
}

/// Append `x.to_le_bytes()`.
pub fn push_u32_le(out: &mut Vec<u8>, x: u32)
    ensures
        final(out)@ == old(out)@ + u32_le(x),
{
    push_le(out, x as u128, 4);
}

/// The big-endian bytes of a 128-bit value, most significant first (as
/// `uuid::Uuid::as_bytes` lays out a UUID).
pub open spec fn u128_be(x: u128) -> Seq<u8> {
    le_bytes(x as nat, 16).reverse()
}

/// Append the big-endian bytes of `x`.
pub fn push_u128_be(out: &mut Vec<u8>, x: u128)
    ensures
        final(out)@ == old(out)@ + u128_be(x),
{
    let mut digits: Vec<u8> = Vec::new();
    push_le(&mut digits, x, 16);
    proof {
        lemma_le_bytes_len(x as nat, 16);
        assert(digits@ =~= le_bytes(x as nat, 16));
    }
    let ghost start = out@;
    let mut j: usize = 0;
    while j < 16
        invariant
            j <= 16,
            digits@.len() == 16,
            digits@ == le_bytes(x as nat, 16),
            out@ == start + digits@.reverse().take(j as int),
        decreases 16 - j,
    {
        out.push(digits[15 - j]);
        assert(digits@.reverse().take(j + 1) =~= digits@.reverse().take(j as int).push(
            digits@[15 - j],
        ));
        j = j + 1;
    }
    assert(digits@.reverse().take(16) =~= digits@.reverse());
}

/// `u32::from_le_bytes` of the four bytes of `b` starting at `at`.
pub fn read_u32_le(b: &[u8], at: usize) -> (r: u32)
    requires
        at + 4 <= b@.len(),
    ensures
        r as nat == le_value(b@.subrange(at as int, at + 4)),
{
    let b0 = b[at] as u32;
    let b1 = b[at + 1] as u32;
    let b2 = b[at + 2] as u32;
    let b3 = b[at + 3] as u32;
    let ghost s = b@.subrange(at as int, at + 4);
    let ghost s1 = s.drop_first();
    let ghost s2 = s1.drop_first();
    let ghost s3 = s2.drop_first();
    assert(s3.drop_first() =~= Seq::<u8>::empty());
    assert(s3[0] == b3);
    assert(s2[0] == b2);
    assert(s1[0] == b1);
    assert(s[0] == b0);
    assert(le_value(s3.drop_first()) == 0);
    assert(le_value(s3) == b3);
    assert(le_value(s2) == b2 + 256 * b3);
    assert(le_value(s1) == b1 + 256 * (b2 + 256 * b3));
    assert(le_value(s) == b0 + 256 * (b1 + 256 * (b2 + 256 * b3)));
    b0 + 256 * (b1 + 256 * (b2 + 256 * b3))
}

} // verus!
