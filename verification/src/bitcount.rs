//! Counting set bits of a 64-bit bitboard, with the lemmas the rest of the
//! crate needs: a bound on the count, additivity over disjoint boards, and
//! that a nonzero board has a set bit.

use vstd::prelude::*;

verus! {

/// Whether bit `i` of `x` is set.
pub open spec fn bit64(x: u64, i: u64) -> bool {
    (x >> i) & 1u64 == 1u64
}

/// Number of set bits among the low `n` bits of `x`.
pub open spec fn popn(x: u64, n: nat) -> nat
    decreases n,
{
    if n == 0 {
        0
    } else {
        popn(x, (n - 1) as nat) + if bit64(x, (n - 1) as u64) {
            1nat
        } else {
            0nat
        }
    }
}

/// Number of set bits of `x`.
pub open spec fn pop64(x: u64) -> nat {
    popn(x, 64)
}

pub proof fn lemma_popn_le(x: u64, n: nat)
    ensures
        popn(x, n) <= n,
    decreases n,
{
    if n > 0 {
        lemma_popn_le(x, (n - 1) as nat);
    }
}

/// The count never exceeds the width of the board.
pub proof fn lemma_pop64_le(x: u64)
    ensures
        pop64(x) <= 64,
{
    lemma_popn_le(x, 64);
}

proof fn lemma_bit_or_disjoint(x: u64, y: u64, i: u64)
    by (bit_vector)
    requires
        x & y == 0,
    ensures
        bit64(x | y, i) == (bit64(x, i) || bit64(y, i)),
        !(bit64(x, i) && bit64(y, i)),
{
}

pub proof fn lemma_popn_disjoint(x: u64, y: u64, n: nat)
    requires
        x & y == 0,
    ensures
        popn(x | y, n) == popn(x, n) + popn(y, n),
    decreases n,
{
    if n > 0 {
        lemma_popn_disjoint(x, y, (n - 1) as nat);
        lemma_bit_or_disjoint(x, y, (n - 1) as u64);
    }
}

/// Disjoint boards have additive counts.
pub proof fn lemma_pop64_disjoint(x: u64, y: u64)
    requires
        x & y == 0,
    ensures
        pop64(x | y) == pop64(x) + pop64(y),
{
    lemma_popn_disjoint(x, y, 64);
}

/// A nonzero board has a set bit: the one its trailing-zero count points at.
pub proof fn lemma_nonzero_has_bit(x: u64)
    requires
        x != 0,
    ensures
        exists|i: u64| i < 64 && #[trigger] bit64(x, i),
{
    vstd::std_specs::bits::axiom_u64_trailing_zeros(x);
    let tz = vstd::std_specs::bits::u64_trailing_zeros(x) as u64;
    assert(bit64(x, tz));
}

/// A board with no set bit is the empty board.
pub proof fn lemma_no_bits_zero(x: u64)
    requires
        forall|i: u64| i < 64 ==> !#[trigger] bit64(x, i),
    ensures
        x == 0,
{
    if x != 0 {
        lemma_nonzero_has_bit(x);
    }
}

/// Two boards agreeing on all 64 bits are equal.
pub proof fn lemma_u64_bit_ext(x: u64, y: u64)
    requires
        forall|i: u64| i < 64 ==> (#[trigger] bit64(x, i)) == bit64(y, i),
    ensures
        x == y,
{
    let z = x ^ y;
    assert forall|i: u64| i < 64 implies !#[trigger] bit64(z, i) by {
        assert(bit64(x, i) == bit64(y, i));
        assert(bit64(x ^ y, i) == (bit64(x, i) != bit64(y, i))) by (bit_vector);
    }
    lemma_no_bits_zero(z);
    assert(x ^ y == 0 ==> x == y) by (bit_vector);
}

proof fn lemma_bit_popn(x: u64, i: u64, n: nat)
    requires
        i < n,
        bit64(x, i),
    ensures
        popn(x, n) >= 1,
    decreases n,
{
    if i + 1 < n {
        lemma_bit_popn(x, i, (n - 1) as nat);
    }
}

/// A nonzero board contributes at least one disk to the count.
pub proof fn lemma_pop64_nonzero(x: u64)
    requires
        x != 0,
    ensures
        pop64(x) >= 1,
{
    lemma_nonzero_has_bit(x);
    let i = choose|i: u64| i < 64 && #[trigger] bit64(x, i);
    lemma_bit_popn(x, i, 64);
}

/// Facts about one-bit boards.
pub proof fn lemma_single_bit_facts(x: u64, i: u64, j: u64)
    by (bit_vector)
    requires
        i < 64,
        j < 64,
    ensures
        bit64(1u64 << i, j) == (i == j),
        bit64(x, i) ==> (1u64 << i) & x == 1u64 << i,
        i < j ==> (1u64 << i) < (1u64 << j),
        !bit64(0u64, j),
{
}

/// Facts about clearing one set bit of a board.
pub proof fn lemma_remove_bit_facts(x: u64, i: u64, j: u64)
    by (bit_vector)
    requires
        i < 64,
        j < 64,
        bit64(x, i),
    ensures
        bit64(x & !(1u64 << i), j) == (bit64(x, j) && j != i),
        (x & !(1u64 << i)) < x,
        (x & !(1u64 << i)) & (1u64 << i) == 0,
        (x & !(1u64 << i)) | (1u64 << i) == x,
{
}

proof fn lemma_popn_single(i: u64, n: nat)
    requires
        i < 64,
        n <= 64,
    ensures
        popn(1u64 << i, n) == if i < n {
            1nat
        } else {
            0nat
        },
    decreases n,
{
    if n > 0 {
        lemma_popn_single(i, (n - 1) as nat);
        lemma_single_bit_facts(0, i, (n - 1) as u64);
    }
}

/// A one-bit board counts one disk.
pub proof fn lemma_pop64_single(i: u64)
    requires
        i < 64,
    ensures
        pop64(1u64 << i) == 1,
{
    lemma_popn_single(i, 64);
}

proof fn lemma_popn_zero(n: nat)
    requires
        n <= 64,
    ensures
        popn(0u64, n) == 0,
    decreases n,
{
    if n > 0 {
        lemma_popn_zero((n - 1) as nat);
        lemma_single_bit_facts(0, 0, (n - 1) as u64);
    }
}

/// The empty board counts no disk.
pub proof fn lemma_pop64_zero()
    ensures
        pop64(0u64) == 0,
{
    lemma_popn_zero(64);
}

/// Clearing a set bit lowers the count by exactly one and shrinks the board.
pub proof fn lemma_pop64_remove_bit(x: u64, i: u64)
    requires
        i < 64,
        bit64(x, i),
    ensures
        pop64(x & !(1u64 << i)) == pop64(x) - 1,
        (x & !(1u64 << i)) < x,
{
    lemma_remove_bit_facts(x, i, 0);
    lemma_pop64_disjoint(x & !(1u64 << i), 1u64 << i);
    lemma_pop64_single(i);
}

/// Count the set bits of `x`.
pub fn popcount64(x: u64) -> (r: u32)
    ensures
        r == pop64(x),
{
    let mut i: u64 = 0;
    let mut acc: u32 = 0;
    while i < 64
        invariant
            i <= 64,
            acc == popn(x, i as nat),
        decreases 64 - i,
    {
        proof {
            lemma_popn_le(x, i as nat);
        }
        if (x >> i) & 1u64 == 1u64 {
            acc = acc + 1;
        }
        i = i + 1;
    }
    acc
}

} // verus!
