//! Little-endian encoding of integers.

use vstd::prelude::*;

verus! {

/// The `n` low bytes of `v`, least significant first. For a negative `v`
/// this is the two's complement form.
pub open spec fn le_bytes(v: int, n: nat) -> Seq<u8>
    decreases n,
{
    if n == 0 {
        Seq::empty()
    } else {
        seq![(v % 256) as u8] + le_bytes(v / 256, (n - 1) as nat)
    }
}

/// 256 to the power `n`.
pub open spec fn radix(n: nat) -> int
    decreases n,
{
    if n == 0 {
        1
    } else {
        256 * radix((n - 1) as nat)
    }
}

/// An encoding has as many bytes as were asked for.
pub proof fn lemma_le_len(v: int, n: nat)
    ensures
        le_bytes(v, n).len() == n,
    decreases n,
{
    if n > 0 {
        lemma_le_len(v / 256, (n - 1) as nat);
    }
}

/// The encoding in `n` bytes does not change when a multiple of 256 to the
/// `n` is added: only the `n` low bytes count.
pub proof fn lemma_le_wraps(v: int, k: int, n: nat)
    ensures
        le_bytes(v + k * radix(n), n) == le_bytes(v, n),
    decreases n,
{
    if n > 0 {
        let r = radix((n - 1) as nat);
        assert(k * radix(n) == 256 * (k * r)) by (nonlinear_arith)
            requires
                radix(n) == 256 * r,
        ;
        let m = k * r;
        assert((v + 256 * m) % 256 == v % 256 && (v + 256 * m) / 256 == v / 256 + m) by {
            vstd::arithmetic::div_mod::lemma_fundamental_div_mod(v, 256);
            vstd::arithmetic::div_mod::lemma_fundamental_div_mod_converse(
                v + 256 * m,
                256,
                v / 256 + m,
                v % 256,
            );
        }
        lemma_le_wraps(v / 256, k, (n - 1) as nat);
    }
}

/// Appends the `n` low bytes of `v` to `out`, least significant first.
pub fn push_le(out: &mut Vec<u8>, v: u64, n: usize)
    requires
        n <= 8,
    ensures
        final(out)@ == old(out)@ + le_bytes(v as int, n as nat),
    decreases n,
{
    if n == 0 {
        assert(out@ =~= old(out)@ + le_bytes(v as int, 0));
    } else {
        out.push((v % 256) as u8);
        push_le(out, v / 256, n - 1);
        assert(out@ =~= old(out)@ + le_bytes(v as int, n as nat));
    }
}

/// Appends the `n` low bytes of the two's complement form of `v` to `out`.
pub fn push_le_signed(out: &mut Vec<u8>, v: i64, n: usize)
    requires
        n <= 8,
    ensures
        final(out)@ == old(out)@ + le_bytes(v as int, n as nat),
{
    if v >= 0 {
        push_le(out, v as u64, n);
    } else {
        let low: u64 = (v - i64::MIN) as u64;
        let u: u64 = low + 0x8000_0000_0000_0000;
        proof {
            assert(u as int == v + 0x1_0000_0000_0000_0000);
            lemma_low_bytes(v as int, 1, n as nat);
        }
        push_le(out, u, n);
    }
}

/// 256 to the power 8 is 2 to the power 64.
pub proof fn lemma_radix_8()
    ensures
        radix(8) == 0x1_0000_0000_0000_0000,
        radix(4) == 0x1_0000_0000,
{
    reveal_with_fuel(radix, 9);
}

/// The encoding in at most 8 bytes does not change when a multiple of 2 to
/// the power 64 is added.
pub proof fn lemma_low_bytes(v: int, k: int, n: nat)
    requires
        n <= 8,
    ensures
        le_bytes(v + k * 0x1_0000_0000_0000_0000, n) == le_bytes(v, n),
{
    lemma_radix_8();
    lemma_radix_split(n, (8 - n) as nat);
    let high = radix((8 - n) as nat);
    assert(k * 0x1_0000_0000_0000_0000 == (k * high) * radix(n)) by (nonlinear_arith)
        requires
            radix(n) * high == 0x1_0000_0000_0000_0000,
    ;
    lemma_le_wraps(v, k * high, n);
}

/// Powers of 256 multiply.
pub proof fn lemma_radix_split(a: nat, b: nat)
    ensures
        radix(a) * radix(b) == radix(a + b),
    decreases a,
{
    if a > 0 {
        lemma_radix_split((a - 1) as nat, b);
        assert(radix(a) * radix(b) == 256 * (radix((a - 1) as nat) * radix(b))) by (nonlinear_arith)
            requires
                radix(a) == 256 * radix((a - 1) as nat),
        ;
    }
}

/// A number of zero bytes.
pub open spec fn zeros(n: nat) -> Seq<u8> {
    Seq::new(n, |i: int| 0u8)
}

/// Appends `n` zero bytes to `out`.
pub fn push_zeros(out: &mut Vec<u8>, n: usize)
    ensures
        final(out)@ == old(out)@ + zeros(n as nat),
{
    let mut i: usize = 0;
    assert(out@ =~= old(out)@ + zeros(0));
    while i < n
        invariant
            i <= n,
            out@ == old(out)@ + zeros(i as nat),
        decreases n - i,
    {
        out.push(0);
        i += 1;
        assert(out@ =~= old(out)@ + zeros(i as nat));
    }
}

/// Appends the bytes of `s` to `out`.
pub fn push_all(out: &mut Vec<u8>, s: &[u8])
    ensures
        final(out)@ == old(out)@ + s@,
{
    let mut i: usize = 0;
    assert(out@ =~= old(out)@ + s@.subrange(0, 0));
    while i < s.len()
        invariant
            i <= s.len(),
            out@ == old(out)@ + s@.subrange(0, i as int),
        decreases s.len() - i,
    {
        out.push(s[i]);
        i += 1;
        assert(out@ =~= old(out)@ + s@.subrange(0, i as int));
    }
    assert(s@.subrange(0, s@.len() as int) =~= s@);
}

} // verus!
