//! Little-endian numbers as byte strings.
//!
//! Every number of a cache image, and every scalar value that a slot holds
//! inline, is a little-endian byte string.  This module defines that encoding
//! and proves that it loses nothing in either direction.

use vstd::prelude::*;

verus! {

/// 256 to the power `n`.
pub open spec fn pow256(n: nat) -> nat
    decreases n,
{
    if n == 0 {
        1
    } else {
        256 * pow256((n - 1) as nat)
    }
}

/// 2 to the power `n`.
pub open spec fn two_to(n: nat) -> nat
    decreases n,
{
    if n == 0 {
        1
    } else {
        2 * two_to((n - 1) as nat)
    }
}

/// Powers of two grow with the exponent.
pub proof fn lemma_two_to_grows(a: nat, b: nat)
    requires
        a <= b,
    ensures
        0 < two_to(a) <= two_to(b),
    decreases b,
{
    if a < b {
        lemma_two_to_grows(a, (b - 1) as nat);
    } else if a > 0 {
        lemma_two_to_grows((a - 1) as nat, (a - 1) as nat);
    }
}

/// The power of two that bounds every offset of the widest address space.
pub proof fn lemma_two_to_61()
    ensures
        two_to(61) == 0x2000_0000_0000_0000,
{
    reveal_with_fuel(two_to, 62);
}

/// Computes 2 to the power `n`.
pub fn power_of_two(n: u8) -> (p: u64)
    requires
        n <= 61,
    ensures
        p == two_to(n as nat),
        0 < p <= 0x2000_0000_0000_0000,
{
    let mut p: u64 = 1;
    let mut i: u8 = 0;
    while i < n
        invariant
            i <= n <= 61,
            p == two_to(i as nat),
        decreases n - i,
    {
        proof {
            lemma_two_to_grows((i + 1) as nat, 61);
            lemma_two_to_61();
        }
        p = p * 2;
        i = i + 1;
    }
    proof {
        lemma_two_to_grows(n as nat, 61);
        lemma_two_to_61();
    }
    p
}

/// The number that `bytes` spells, least significant byte first.
pub open spec fn le_value(bytes: Seq<u8>) -> nat
    decreases bytes.len(),
{
    if bytes.len() == 0 {
        0
    } else {
        bytes[0] as nat + 256 * le_value(bytes.subrange(1, bytes.len() as int))
    }
}

/// The number that the first `width` bytes of a value spell; a shorter value
/// counts as padded with zero bytes.
pub open spec fn scalar_bits(value: Seq<u8>, width: int) -> nat {
    le_value(
        value.subrange(
            0,
            if value.len() < width {
                value.len() as int
            } else {
                width
            },
        ),
    )
}

/// The `n` low bytes of `v`, least significant byte first.
pub open spec fn le_bytes(v: nat, n: nat) -> Seq<u8>
    decreases n,
{
    if n == 0 {
        Seq::<u8>::empty()
    } else {
        seq![(v % 256) as u8] + le_bytes(v / 256, (n - 1) as nat)
    }
}

/// The powers of 256 that fit the widths used here.
pub proof fn lemma_pow256_values()
    ensures
        pow256(0) == 1,
        pow256(1) == 0x100,
        pow256(2) == 0x1_0000,
        pow256(3) == 0x100_0000,
        pow256(4) == 0x1_0000_0000,
        pow256(5) == 0x100_0000_0000,
        pow256(6) == 0x1_0000_0000_0000,
        pow256(7) == 0x100_0000_0000_0000,
        pow256(8) == 0x1_0000_0000_0000_0000,
{
    reveal_with_fuel(pow256, 9);
}

/// Powers of 256 grow with the exponent.
pub proof fn lemma_pow256_grows(a: nat, b: nat)
    requires
        a <= b,
    ensures
        0 < pow256(a) <= pow256(b),
    decreases b,
{
    if a < b {
        lemma_pow256_grows(a, (b - 1) as nat);
    } else if a > 0 {
        lemma_pow256_grows((a - 1) as nat, (a - 1) as nat);
    }
}

/// `le_bytes` gives exactly `n` bytes.
pub proof fn lemma_le_bytes_len(v: nat, n: nat)
    ensures
        le_bytes(v, n).len() == n,
    decreases n,
{
    if n > 0 {
        lemma_le_bytes_len(v / 256, (n - 1) as nat);
    }
}

/// A byte string of length `n` spells a number below `256^n`.
pub proof fn lemma_le_value_bound(bytes: Seq<u8>)
    ensures
        le_value(bytes) < pow256(bytes.len()),
    decreases bytes.len(),
{
    if bytes.len() > 0 {
        lemma_le_value_bound(bytes.subrange(1, bytes.len() as int));
    }
}

/// The first `width` bytes of a value spell a number below `256^width`.
pub proof fn lemma_scalar_bits_bound(value: Seq<u8>, width: nat)
    ensures
        scalar_bits(value, width as int) < pow256(width),
{
    let n = if value.len() < width {
        value.len()
    } else {
        width
    };
    lemma_le_value_bound(value.subrange(0, n as int));
    lemma_pow256_grows(n, width);
}

/// Spelling a byte string as a number and writing the number back in as many
/// bytes gives the byte string.
pub proof fn lemma_bytes_round_trip(bytes: Seq<u8>)
    ensures
        le_bytes(le_value(bytes), bytes.len()) == bytes,
    decreases bytes.len(),
{
    if bytes.len() > 0 {
        let rest = bytes.subrange(1, bytes.len() as int);
        lemma_bytes_round_trip(rest);
        let v = le_value(bytes);
        assert(v % 256 == bytes[0] as nat && v / 256 == le_value(rest)) by {
            assert(v == bytes[0] as nat + 256 * le_value(rest));
        }
        assert(le_bytes(v, bytes.len()) =~= bytes);
    } else {
        assert(le_bytes(le_value(bytes), 0) =~= bytes);
    }
}

/// Writing a number below `256^n` in `n` bytes and spelling the bytes gives
/// the number.
pub proof fn lemma_value_round_trip(v: nat, n: nat)
    requires
        v < pow256(n),
    ensures
        le_value(le_bytes(v, n)) == v,
    decreases n,
{
    if n > 0 {
        let rest = le_bytes(v / 256, (n - 1) as nat);
        lemma_value_round_trip(v / 256, (n - 1) as nat);
        let all = le_bytes(v, n);
        assert(all.subrange(1, all.len() as int) =~= rest);
        assert(all[0] == (v % 256) as u8);
    }
}

/// The first `k` of the `n` low bytes of a number are its `k` low bytes.
pub proof fn lemma_le_bytes_prefix(v: nat, n: nat, k: nat)
    requires
        k <= n,
    ensures
        le_bytes(v, n).subrange(0, k as int) == le_bytes(v, k),
    decreases k,
{
    lemma_le_bytes_len(v, n);
    if k == 0 {
        assert(le_bytes(v, n).subrange(0, 0) =~= le_bytes(v, 0));
    } else {
        lemma_le_bytes_prefix(v / 256, (n - 1) as nat, (k - 1) as nat);
        lemma_le_bytes_len(v / 256, (n - 1) as nat);
        let rest = le_bytes(v / 256, (n - 1) as nat);
        assert(le_bytes(v, n).subrange(0, k as int) =~= seq![(v % 256) as u8] + rest.subrange(
            0,
            k - 1,
        ));
    }
}

/// The `k` low bytes of a number spell the number modulo `256^k`.
pub proof fn lemma_low_bytes_value(v: nat, k: nat)
    ensures
        le_value(le_bytes(v, k)) == v % pow256(k),
    decreases k,
{
    if k > 0 {
        lemma_low_bytes_value(v / 256, (k - 1) as nat);
        lemma_pow256_grows(0, (k - 1) as nat);
        let all = le_bytes(v, k);
        let rest = le_bytes(v / 256, (k - 1) as nat);
        assert(all.subrange(1, all.len() as int) =~= rest);
        assert(all[0] == (v % 256) as u8);
        let p = pow256((k - 1) as nat);
        assert(v % 256 + 256 * ((v / 256) % p) == v % (256 * p)) by (nonlinear_arith)
            requires
                p > 0,
        ;
    }
}

/// The `k` low bytes of `v`, as a number.
pub fn low_bytes(v: u64, k: usize) -> (low: u64)
    requires
        k <= 8,
    ensures
        low == v as nat % pow256(k as nat),
{
    proof {
        lemma_pow256_values();
    }
    if k >= 8 {
        assert(v as nat % 0x1_0000_0000_0000_0000 == v as nat);
        v
    } else {
        let mut modulus: u64 = 1;
        let mut i: usize = 0;
        while i < k
            invariant
                i <= k < 8,
                modulus == pow256(i as nat),
            decreases k - i,
        {
            proof {
                lemma_pow256_grows((i + 1) as nat, 7);
                lemma_pow256_values();
            }
            modulus = modulus * 256;
            i = i + 1;
        }
        assert(modulus == pow256(k as nat));
        v % modulus
    }
}

/// Copies the `len` bytes of `bytes` from `start` on.
pub fn copy_range(bytes: &[u8], start: usize, len: usize) -> (copy: Vec<u8>)
    requires
        start + len <= bytes.len(),
    ensures
        copy@ == bytes@.subrange(start as int, start + len),
{
    let mut copy: Vec<u8> = Vec::new();
    let mut i: usize = 0;
    while i < len
        invariant
            i <= len,
            start + len <= bytes.len(),
            copy@ == bytes@.subrange(start as int, start + i),
        decreases len - i,
    {
        copy.push(bytes[start + i]);
        i = i + 1;
        proof {
            assert(copy@ =~= bytes@.subrange(start as int, start + i));
        }
    }
    copy
}

/// Reads the little-endian number that the `n` bytes of `bytes` from `pos` on
/// spell.
pub fn read_le(bytes: &[u8], pos: usize, n: usize) -> (v: u64)
    requires
        n <= 8,
        pos + n <= bytes.len(),
    ensures
        v == le_value(bytes@.subrange(pos as int, pos + n)),
{
    let mut acc: u64 = 0;
    let mut i: usize = 0;
    proof {
        lemma_pow256_values();
        assert(bytes@.subrange(pos + n, pos + n) =~= Seq::<u8>::empty());
    }
    while i < n
        invariant
            n <= 8,
            i <= n,
            pos + n <= bytes.len(),
            acc == le_value(bytes@.subrange(pos + n - i, pos + n)),
            acc < pow256(i as nat),
        decreases n - i,
    {
        let byte: u8 = bytes[pos + n - i - 1];
        proof {
            let tail = bytes@.subrange(pos + n - i - 1, pos + n);
            assert(tail.subrange(1, tail.len() as int) =~= bytes@.subrange(pos + n - i, pos + n));
            assert(tail[0] == byte);
            lemma_le_value_bound(tail);
            lemma_pow256_values();
            assert(pow256((i + 1) as nat) <= pow256(8)) by {
                lemma_pow256_values();
            }
        }
        acc = acc * 256 + byte as u64;
        i = i + 1;
    }
    acc
}

/// Appends the `n` low bytes of `v` to `out`, least significant byte first.
pub fn write_le(out: &mut Vec<u8>, v: u64, n: usize)
    requires
        n <= 8,
    ensures
        final(out)@ == old(out)@ + le_bytes(v as nat, n as nat),
{
    let mut rest: u64 = v;
    let mut i: usize = 0;
    proof {
        assert(out@ + le_bytes(rest as nat, (n - i) as nat) == old(out)@ + le_bytes(
            v as nat,
            n as nat,
        ));
    }
    while i < n
        invariant
            i <= n,
            out@ + le_bytes(rest as nat, (n - i) as nat) == old(out)@ + le_bytes(
                v as nat,
                n as nat,
            ),
        decreases n - i,
    {
        let ghost before = out@;
        out.push((rest % 256) as u8);
        proof {
            let tail = le_bytes((rest / 256) as nat, (n - i - 1) as nat);
            assert(le_bytes(rest as nat, (n - i) as nat) == seq![(rest % 256) as u8] + tail);
            assert(out@ + tail =~= before + (seq![(rest % 256) as u8] + tail));
        }
        rest = rest / 256;
        i = i + 1;
    }
    proof {
        assert(out@ + le_bytes(rest as nat, 0) =~= out@);
    }
}

} // verus!
