//! Big-endian bit strings and their numeric values.
//!
//! The wire format packs every fixed-width field most-significant bit first.
//! `uint_bits` gives the bit string of a value, `bits_val` reads a bit string
//! back; the lemmas here make the two inverses of each other.

use vstd::arithmetic::power2::{lemma2_to64, lemma_pow2_adds, lemma_pow2_unfold, pow2};
use vstd::prelude::*;

verus! {

/// The low `n` bits of `v`, most significant first.
pub open spec fn uint_bits(v: nat, n: nat) -> Seq<bool>
    decreases n,
{
    if n == 0 {
        Seq::empty()
    } else {
        uint_bits(v / 2, (n - 1) as nat).push(v % 2 == 1)
    }
}

/// The value of a big-endian bit string.
pub open spec fn bits_val(s: Seq<bool>) -> nat
    decreases s.len(),
{
    if s.len() == 0 {
        0
    } else {
        2 * bits_val(s.drop_last()) + (if s.last() {
            1nat
        } else {
            0nat
        })
    }
}

pub proof fn lemma_uint_bits_len(v: nat, n: nat)
    ensures
        uint_bits(v, n).len() == n,
    decreases n,
{
    if n > 0 {
        lemma_uint_bits_len(v / 2, (n - 1) as nat);
    }
}

/// Reading back the bit string of `v` recovers `v`, provided `v` fits in `n` bits.
pub proof fn lemma_bits_val_uint_bits(v: nat, n: nat)
    requires
        v < pow2(n),
    ensures
        bits_val(uint_bits(v, n)) == v,
    decreases n,
{
    if n == 0 {
        lemma2_to64();
    } else {
        lemma_pow2_unfold(n);
        lemma_uint_bits_len(v / 2, (n - 1) as nat);
        assert(uint_bits(v, n).drop_last() =~= uint_bits(v / 2, (n - 1) as nat));
        lemma_bits_val_uint_bits(v / 2, (n - 1) as nat);
    }
}

/// A bit string of length `n` denotes a value below `pow2(n)`.
pub proof fn lemma_bits_val_bound(s: Seq<bool>)
    ensures
        bits_val(s) < pow2(s.len()),
    decreases s.len(),
{
    if s.len() == 0 {
        lemma2_to64();
    } else {
        lemma_bits_val_bound(s.drop_last());
        lemma_pow2_unfold(s.len());
    }
}

/// Unfolding `bits_val` over a growing prefix of `s`.
pub proof fn lemma_bits_val_take_step(s: Seq<bool>, i: int)
    requires
        0 <= i < s.len(),
    ensures
        bits_val(s.take(i + 1)) == 2 * bits_val(s.take(i)) + (if s[i] {
            1nat
        } else {
            0nat
        }),
{
    assert(s.take(i + 1).drop_last() =~= s.take(i));
    assert(s.take(i + 1).last() == s[i]);
}

/// Equal-length bit strings with equal values are equal.
pub proof fn lemma_bits_val_injective(s1: Seq<bool>, s2: Seq<bool>)
    requires
        s1.len() == s2.len(),
        bits_val(s1) == bits_val(s2),
    ensures
        s1 =~= s2,
    decreases s1.len(),
{
    if s1.len() > 0 {
        let b1: nat = if s1.last() {
            1
        } else {
            0
        };
        let b2: nat = if s2.last() {
            1
        } else {
            0
        };
        assert(2 * bits_val(s1.drop_last()) + b1 == 2 * bits_val(s2.drop_last()) + b2);
        assert(b1 == b2) by {
            assert((2 * bits_val(s1.drop_last()) + b1) % 2 == b1 % 2);
            assert((2 * bits_val(s2.drop_last()) + b2) % 2 == b2 % 2);
        }
        lemma_bits_val_injective(s1.drop_last(), s2.drop_last());
        assert(s1 =~= s1.drop_last().push(s1.last()));
        assert(s2 =~= s2.drop_last().push(s2.last()));
    }
}

/// Appends the low `n` bits of `v` to `out`, most significant first.
pub fn push_uint_bits(out: &mut Vec<bool>, v: u128, n: usize)
    requires
        n <= 128,
    ensures
        final(out)@ == old(out)@ + uint_bits(v as nat, n as nat),
    decreases n,
{
    if n == 0 {
        assert(out@ =~= old(out)@ + uint_bits(v as nat, 0));
    } else {
        push_uint_bits(out, v / 2, n - 1);
        out.push(v % 2 == 1);
        assert(out@ =~= old(out)@ + uint_bits(v as nat, n as nat));
    }
}

/// Reads the first `n` bits of `s`, starting at `from`, as a big-endian value.
pub fn read_uint_bits(s: &Vec<bool>, from: usize, n: usize)
    -> (r: u128)
    requires
        n <= 128,
        from + n <= s@.len(),
    ensures
        r as nat == bits_val(s@.subrange(from as int, from + n)),
{
    let ghost chunk = s@.subrange(from as int, from + n);
    let slen = s.len();
    let mut acc: u128 = 0;
    let mut i: usize = 0;
    while i < n
        invariant
            i <= n <= 128,
            from + n <= slen == s@.len(),
            acc as nat == bits_val(chunk.take(i as int)),
            chunk == s@.subrange(from as int, from + n),
        decreases n - i,
    {
        proof {
            lemma_bits_val_bound(chunk.take(i as int));
            assert(chunk.take(i as int).len() == i);
            lemma_pow2_increase_to_127(i as nat);
            lemma_bits_val_take_step(chunk, i as int);
        }
        let b = s[from + i];
        assert(b == chunk[i as int]);
        acc = acc * 2 + (if b {
            1
        } else {
            0
        });
        i = i + 1;
    }
    assert(chunk.take(n as int) =~= chunk);
    acc
}

/// `pow2(i) <= pow2(127)` for `i < 128`, and `2 * pow2(127) - 1` is `u128::MAX`.
proof fn lemma_pow2_increase_to_127(i: nat)
    requires
        i < 128,
    ensures
        pow2(i) <= pow2(127),
        2 * pow2(127) - 1 == u128::MAX,
{
    lemma2_to64();
    vstd::arithmetic::power2::lemma2_to64_rest();
    lemma_pow2_adds(63, 64);
    assert(pow2(63) == 0x8000000000000000 && pow2(64) == 0x10000000000000000);
    assert(pow2(127) == 0x8000000000000000 * 0x10000000000000000);
    if i < 127 {
        vstd::arithmetic::power2::lemma_pow2_strictly_increases(i, 127);
    }
}

} // verus!
