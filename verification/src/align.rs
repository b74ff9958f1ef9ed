//! Arithmetic of sizes and alignments: powers of two and the padding that
//! brings an address up to an alignment.

use vstd::arithmetic::div_mod::{lemma_fundamental_div_mod_converse_mod, lemma_small_mod};
use vstd::prelude::*;

verus! {

/// Whether `n` is a power of two: 1, 2, 4, 8, ...
pub open spec fn is_power_of_two(n: nat) -> bool
    decreases n,
{
    n == 1 || (n > 1 && n % 2 == 0 && is_power_of_two(n / 2))
}

/// The smallest power of two that is at least `n`; 1 for `n == 0`.
pub open spec fn next_power_of_two(n: nat) -> nat
    decreases n,
{
    if n <= 1 {
        1
    } else {
        2 * next_power_of_two((n + 1) / 2)
    }
}

/// Whether `addr` is a multiple of `align`. Meaningful for `align > 0`.
pub open spec fn is_aligned(addr: nat, align: nat) -> bool {
    addr % align == 0
}

/// The number of bytes to skip from `addr` to reach the next address that is a
/// multiple of `align`. Meaningful for `align > 0`.
pub open spec fn padding(addr: nat, align: nat) -> nat {
    if addr % align == 0 {
        0
    } else {
        (align - addr % align) as nat
    }
}

/// The first address at or after `addr` that is a multiple of `align`.
pub open spec fn align_up(addr: nat, align: nat) -> nat {
    addr + padding(addr, align)
}

/// Of two different powers of two, the larger is at least twice the smaller.
pub proof fn lemma_powers_of_two_are_spread(a: nat, b: nat)
    requires
        is_power_of_two(a),
        is_power_of_two(b),
        a < b,
    ensures
        2 * a <= b,
    decreases a,
{
    if a > 1 {
        lemma_powers_of_two_are_spread(a / 2, b / 2);
    }
}

/// `next_power_of_two(n)` is a power of two, is at least `n`, and no power of
/// two that is at least `n` is smaller.
pub proof fn lemma_next_power_of_two(n: nat)
    ensures
        is_power_of_two(next_power_of_two(n)),
        next_power_of_two(n) >= n,
        next_power_of_two(n) >= 1,
        forall|p: nat| is_power_of_two(p) && p >= n ==> next_power_of_two(n) <= p,
    decreases n,
{
    if n > 1 {
        let h = ((n + 1) / 2) as nat;
        lemma_next_power_of_two(h);
        assert forall|p: nat| is_power_of_two(p) && p >= n implies next_power_of_two(n) <= p by {
            assert(is_power_of_two(p / 2));
        }
    } else {
        assert forall|p: nat| is_power_of_two(p) && p >= n implies next_power_of_two(n) <= p by {}
    }
}

/// A power of two `p` with `p >= n` whose half is below `n` is the next power
/// of two of `n`.
pub proof fn lemma_next_power_of_two_unique(n: nat, p: nat)
    requires
        is_power_of_two(p),
        p >= n,
        p == 1 || p / 2 < n,
    ensures
        p == next_power_of_two(n),
{
    lemma_next_power_of_two(n);
    let q = next_power_of_two(n);
    if q < p {
        lemma_powers_of_two_are_spread(q, p);
    }
}

/// The padding is the least number of bytes that brings `addr` to a multiple of
/// `align`.
pub proof fn lemma_padding(addr: nat, align: nat)
    requires
        align > 0,
    ensures
        padding(addr, align) < align,
        is_aligned(align_up(addr, align), align),
        forall|k: nat| k < padding(addr, align) ==> !#[trigger] is_aligned(addr + k, align),
{
    let a = addr as int;
    let m = align as int;
    let q = a / m;
    let r = a % m;
    assert(a == m * q + r && 0 <= r < m) by {
        vstd::arithmetic::div_mod::lemma_fundamental_div_mod(a, m);
        vstd::arithmetic::div_mod::lemma_mod_pos_bound(a, m);
    }
    if r != 0 {
        assert(a + (m - r) == m * (q + 1) + 0) by (nonlinear_arith)
            requires
                a == m * q + r,
        ;
        lemma_fundamental_div_mod_converse_mod(a + (m - r), m, q + 1, 0);
        assert forall|k: nat| k < padding(addr, align) implies !#[trigger] is_aligned(
            addr + k,
            align,
        ) by {
            lemma_fundamental_div_mod_converse_mod(a + k, m, q, r + k);
        }
    }
}

/// The smallest power of two that is at least `n`, or `None` where it does not
/// fit the machine word.
pub fn checked_next_power_of_two(n: usize) -> (r: Option<usize>)
    ensures
        match r {
            Some(p) => p == next_power_of_two(n as nat),
            None => next_power_of_two(n as nat) > usize::MAX,
        },
{
    let mut p: usize = 1;
    while p < n
        invariant
            p >= 1,
            is_power_of_two(p as nat),
            p == 1 || p / 2 < n,
        decreases usize::MAX - p,
    {
        if p > usize::MAX / 2 {
            proof {
                lemma_next_power_of_two(n as nat);
                lemma_powers_of_two_are_spread(p as nat, next_power_of_two(n as nat));
            }
            return None;
        }
        p = p * 2;
    }
    proof {
        lemma_next_power_of_two_unique(n as nat, p as nat);
    }
    Some(p)
}

/// The number of bytes from `addr` to the next multiple of `align`.
pub fn align_offset(addr: usize, align: usize) -> (pad: usize)
    requires
        align > 0,
    ensures
        pad == padding(addr as nat, align as nat),
        pad < align,
{
    let r: usize = addr % align;
    proof {
        lemma_padding(addr as nat, align as nat);
    }
    if r == 0 {
        0
    } else {
        align - r
    }
}

} // verus!
