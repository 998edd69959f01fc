//! The difficulty predicate: leading zero bits of a digest.

use vstd::prelude::*;
use vstd::std_specs::bits::u8_leading_zeros;
use vstd::std_specs::bits::axiom_u8_leading_zeros;

verus! {

/// Number of leading zero bits of `v`, read from index 0 upward: every
/// all-zero byte counts 8, the first non-zero byte counts its own leading
/// zeros and ends the scan.
pub open spec fn leading_zero_bits(v: Seq<u8>) -> nat
    decreases v.len(),
{
    if v.len() == 0 {
        0
    } else if v[0] == 0 {
        8 + leading_zero_bits(v.skip(1))
    } else {
        u8_leading_zeros(v[0]) as nat
    }
}

/// `v` is zero at every index below `n`.
pub open spec fn zero_prefix(v: Seq<u8>, n: int) -> bool {
    forall|j: int| 0 <= j < n ==> v[j] == 0
}

/// The difficulty predicate: the digest has exactly `bits` leading zero bits.
pub open spec fn satisfies(bits: u16, digest: Seq<u8>) -> bool {
    leading_zero_bits(digest) == bits as nat
}

/// After `n` zero bytes the count is `8 * n` plus the count of the rest.
pub proof fn lemma_zero_prefix(v: Seq<u8>, n: int)
    requires
        0 <= n <= v.len(),
        zero_prefix(v, n),
    ensures
        leading_zero_bits(v) == 8 * n + leading_zero_bits(v.skip(n)),
    decreases n,
{
    if n == 0 {
        assert(v.skip(0) =~= v);
    } else {
        let rest = v.skip(1);
        assert(zero_prefix(rest, n - 1)) by {
            assert forall|j: int| 0 <= j < n - 1 implies rest[j] == 0 by {
                assert(rest[j] == v[j + 1]);
            }
        }
        lemma_zero_prefix(rest, n - 1);
        assert(rest.skip(n - 1) =~= v.skip(n));
        assert(v[0] == 0);
    }
}

/// The count never exceeds the number of bits in `v`.
pub proof fn lemma_leading_zero_bits_bound(v: Seq<u8>)
    ensures
        leading_zero_bits(v) <= 8 * v.len(),
    decreases v.len(),
{
    if v.len() == 0 {
    } else if v[0] == 0 {
        lemma_leading_zero_bits_bound(v.skip(1));
    } else {
        axiom_u8_leading_zeros(v[0]);
    }
}

/// An all-zero sequence of length `n` counts `8 * n`.
pub proof fn lemma_leading_zero_bits_all_zero(v: Seq<u8>)
    requires
        zero_prefix(v, v.len() as int),
    ensures
        leading_zero_bits(v) == 8 * v.len(),
{
    lemma_zero_prefix(v, v.len() as int);
    assert(v.skip(v.len() as int).len() == 0);
}

/// With the first non-zero byte at index `i`, the count is `8 * i` plus that
/// byte's leading zeros.
pub proof fn lemma_leading_zero_bits_first_nonzero(v: Seq<u8>, i: int)
    requires
        0 <= i < v.len(),
        zero_prefix(v, i),
        v[i] != 0,
    ensures
        leading_zero_bits(v) == 8 * i + u8_leading_zeros(v[i]),
        8 * i <= leading_zero_bits(v) < 8 * i + 8,
{
    lemma_zero_prefix(v, i);
    assert(v.skip(i)[0] == v[i]);
    axiom_u8_leading_zeros(v[i]);
}

/// The three laws of the count at once, for every sequence: it is at most
/// the number of bits, it is the number of bits where every byte is zero, and
/// with the first non-zero byte at index `i` it is `8 * i` plus that byte's
/// leading zeros, whatever follows.
pub proof fn lemma_leading_zero_bits_laws(v: Seq<u8>)
    ensures
        leading_zero_bits(v) <= 8 * v.len(),
        zero_prefix(v, v.len() as int) ==> leading_zero_bits(v) == 8 * v.len(),
        forall|i: int|
            0 <= i < v.len() && #[trigger] zero_prefix(v, i) && v[i] != 0 ==> leading_zero_bits(v)
                == 8 * i + u8_leading_zeros(v[i]),
{
    lemma_leading_zero_bits_bound(v);
    if zero_prefix(v, v.len() as int) {
        lemma_leading_zero_bits_all_zero(v);
    }
    assert forall|i: int| 0 <= i < v.len() && #[trigger] zero_prefix(v, i) && v[i]
        != 0 implies leading_zero_bits(v) == 8 * i + u8_leading_zeros(v[i]) by {
        lemma_leading_zero_bits_first_nonzero(v, i);
    }
}

/// Counts the leading zero bits of `v`: at most the number of bits of `v`,
/// all of them where `v` is zero throughout, and otherwise eight for each
/// byte before the first non-zero byte and that byte's own leading zeros.
pub fn u8_slice_clz(v: &[u8]) -> (n: usize)
    requires
        8 * v@.len() <= usize::MAX,
    ensures
        n == leading_zero_bits(v@),
        n <= 8 * v@.len(),
        zero_prefix(v@, v@.len() as int) ==> n == 8 * v@.len(),
        forall|i: int|
            0 <= i < v@.len() && #[trigger] zero_prefix(v@, i) && v@[i] != 0 ==> n == 8 * i
                + u8_leading_zeros(v@[i]),
{
    proof {
        lemma_leading_zero_bits_laws(v@);
    }
    let len: usize = v.len();
    let mut i: usize = 0;
    while i < len
        invariant
            len == v@.len(),
            8 * v@.len() <= usize::MAX,
            0 <= i <= len,
            zero_prefix(v@, i as int),
        decreases len - i,
    {
        let b: u8 = v[i];
        if b != 0 {
            proof {
                lemma_leading_zero_bits_first_nonzero(v@, i as int);
                axiom_u8_leading_zeros(b);
            }
            let z: u32 = b.leading_zeros();
            return i * 8 + z as usize;
        }
        i = i + 1;
    }
    proof {
        lemma_leading_zero_bits_all_zero(v@);
    }
    len * 8
}

/// Whether `digest` has exactly `bits` leading zero bits.
pub fn meets_difficulty(bits: u16, digest: &[u8]) -> (ok: bool)
    requires
        8 * digest@.len() <= usize::MAX,
    ensures
        ok == satisfies(bits, digest@),
{
    u8_slice_clz(digest) == bits as usize
}

} // verus!
