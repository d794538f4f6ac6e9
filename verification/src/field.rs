//! Constraints are polynomial identities over a prime field of 32-bit order; a cell holds
//! the canonical representative of its field element.

use vstd::prelude::*;
use vstd::arithmetic::div_mod::{lemma_fundamental_div_mod, lemma_mod_multiples_basic, lemma_mod_multiples_vanish};

verus! {

/// `x` is zero in the field of order `order`.
pub open spec fn vanishes(x: int, order: int) -> bool {
    x % order == 0
}

proof fn lemma_vanishes_neg(x: int, m: int)
    requires
        m > 0,
    ensures
        vanishes(x, m) <==> vanishes(-x, m),
{
    if x % m == 0 {
        lemma_fundamental_div_mod(x, m);
        let q = x / m;
        assert(-x == (-q) * m) by (nonlinear_arith)
            requires
                x == m * q + x % m,
                x % m == 0,
        ;
        lemma_mod_multiples_basic(-q, m);
    }
    if (-x) % m == 0 {
        lemma_fundamental_div_mod(-x, m);
        let q = (-x) / m;
        assert(x == (-q) * m) by (nonlinear_arith)
            requires
                -x == m * q + (-x) % m,
                (-x) % m == 0,
        ;
        lemma_mod_multiples_basic(-q, m);
    }
}

/// Whether `pos - neg` is zero in the field of order `order`.
pub fn vanishes_difference(pos: u128, neg: u128, order: u32) -> (b: bool)
    requires
        order > 0,
    ensures
        b == vanishes(pos - neg, order as int),
{
    proof {
        lemma_vanishes_neg(pos - neg, order as int);
    }
    if pos >= neg {
        (pos - neg) % (order as u128) == 0
    } else {
        assert(neg - pos == -(pos - neg));
        (neg - pos) % (order as u128) == 0
    }
}

/// Adding a multiple of the order does not change whether a value vanishes.
pub proof fn lemma_vanishes_shift(a: int, d: int, m: int)
    requires
        m > 0,
    ensures
        vanishes(a + d * m, m) <==> vanishes(a, m),
{
    lemma_mod_multiples_vanish(d, a, m);
    assert(m * d + a == a + d * m) by (nonlinear_arith);
}

/// Whether `x * (s - y)` vanishes depends on `s` only through `s % m`.
pub proof fn lemma_vanishes_scaled_residue(x: int, s: int, y: int, m: int)
    requires
        m > 0,
    ensures
        vanishes(x * (s - y), m) <==> vanishes(x * (s % m - y), m),
{
    lemma_fundamental_div_mod(s, m);
    let q = s / m;
    assert(x * (s - y) == x * (s % m - y) + (x * q) * m) by (nonlinear_arith)
        requires
            s == m * q + s % m,
    ;
    lemma_vanishes_shift(x * (s % m - y), x * q, m);
}

/// `p` is prime.
pub open spec fn is_prime(p: int) -> bool {
    &&& p > 1
    &&& forall|d: int| 1 < d < p ==> #[trigger] (p % d) != 0
}

/// A prime that divides a product of a positive number below it and `b` divides `b`.
pub proof fn lemma_prime_divides_factor(p: int, a: int, b: int)
    requires
        is_prime(p),
        0 < a < p,
        vanishes(a * b, p),
    ensures
        vanishes(b, p),
    decreases a,
{
    if a == 1 {
        assert(a * b == b);
    } else {
        let q = p / a;
        let r = p % a;
        lemma_fundamental_div_mod(p, a);
        assert(r != 0);
        lemma_fundamental_div_mod(a * b, p);
        let k = (a * b) / p;
        assert(a * b == p * k);
        assert(r * b == p * (b - q * k)) by (nonlinear_arith)
            requires
                p == a * q + r,
                a * b == p * k,
        ;
        lemma_mod_multiples_basic(b - q * k, p);
        assert((b - q * k) * p == p * (b - q * k)) by (nonlinear_arith);
        lemma_prime_divides_factor(p, r, b);
    }
}

/// In a prime field, a canonical `x` with `x * (x - 1) = 0` is 0 or 1.
pub proof fn lemma_boolean_in_prime_field(x: int, p: int)
    requires
        is_prime(p),
        0 <= x < p,
        vanishes(x * (x - 1), p),
    ensures
        x == 0 || x == 1,
{
    if x != 0 {
        lemma_prime_divides_factor(p, x, x - 1);
        vstd::arithmetic::div_mod::lemma_small_mod((x - 1) as nat, p as nat);
    }
}

/// Every cell is canonical for the field of order `order`.
pub open spec fn cells_canonical(cells: Seq<u32>, order: int) -> bool {
    forall|i: int| 0 <= i < cells.len() ==> #[trigger] cells[i] < order
}

/// Whether every cell is canonical for the field of order `order`.
pub fn all_canonical(cells: &Vec<u32>, order: u32) -> (b: bool)
    ensures
        b == cells_canonical(cells@, order as int),
{
    let mut i: usize = 0;
    while i < cells.len()
        invariant
            i <= cells@.len(),
            forall|j: int| 0 <= j < i ==> #[trigger] cells@[j] < order,
        decreases cells@.len() - i,
    {
        if cells[i] >= order {
            return false;
        }
        i = i + 1;
    }
    true
}

} // verus!
