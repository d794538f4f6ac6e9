//! Padding a trace to a height the prover accepts.

use vstd::prelude::*;
use vstd::arithmetic::power2::{pow2, lemma_pow2_unfold, lemma2_to64};

verus! {

/// `h` is a power of two.
pub open spec fn is_power_of_two(h: nat) -> bool {
    exists|k: nat| #[trigger] pow2(k) == h
}

/// The height to which `n` rows are padded: `2^k` where the shape fixes `k`; else the least
/// power of two that is at least `n`, and at least 16.
pub open spec fn is_padded_height(n: nat, fixed_power: Option<usize>, h: nat) -> bool {
    match fixed_power {
        Some(k) => h == pow2(k as nat),
        None => is_power_of_two(h) && n <= h && 16 <= h && (h == 16 || h < 2 * n),
    }
}

/// When `n` rows can be padded without a panic: they fit in the fixed height, or the next
/// power of two fits in a `usize`.
pub open spec fn can_pad(n: nat, fixed_power: Option<usize>) -> bool {
    match fixed_power {
        Some(k) => pow2(k as nat) <= usize::MAX && n <= pow2(k as nat),
        None => n <= usize::MAX / 2 + 1,
    }
}

/// The height to which a trace of `n` rows is padded.
pub fn next_power_of_two(n: usize, fixed_power: Option<usize>) -> (h: usize)
    requires
        can_pad(n as nat, fixed_power),
    ensures
        is_padded_height(n as nat, fixed_power, h as nat),
{
    match fixed_power {
        Some(power) => {
            let mut p: usize = 1;
            let mut i: usize = 0;
            proof {
                lemma2_to64();
            }
            while i < power
                invariant
                    i <= power,
                    p == pow2(i as nat),
                    pow2(power as nat) <= usize::MAX,
                decreases power - i,
            {
                proof {
                    lemma_pow2_unfold((i + 1) as nat);
                }
                assert(pow2((i + 1) as nat) <= pow2(power as nat)) by {
                    if i + 1 < power {
                        vstd::arithmetic::power2::lemma_pow2_strictly_increases((i + 1) as nat, power as nat);
                    }
                }
                p = p * 2;
                i = i + 1;
            }
            p
        },
        None => {
            let mut p: usize = 1;
            let ghost mut k: nat = 0;
            proof {
                lemma2_to64();
            }
            while p < n
                invariant
                    p == pow2(k),
                    p >= 1,
                    n <= usize::MAX / 2 + 1,
                    p == 1 || p < 2 * n,
                decreases usize::MAX - p,
            {
                proof {
                    lemma_pow2_unfold(k + 1);
                }
                p = p * 2;
                proof {
                    k = k + 1;
                }
            }
            if p < 16 {
                proof {
                    assert(pow2(4) == 16);
                    assert(is_power_of_two(16));
                }
                16
            } else {
                assert(is_power_of_two(p as nat));
                p
            }
        },
    }
}

/// Pads `rows` with copies of `dummy` up to the padded height.
pub fn pad_rows_fixed<R: Copy>(rows: &mut Vec<R>, dummy: R, size_log2: Option<usize>)
    requires
        can_pad(old(rows)@.len(), size_log2),
    ensures
        is_padded_height(old(rows)@.len(), size_log2, final(rows)@.len()),
        final(rows)@.subrange(0, old(rows)@.len() as int) == old(rows)@,
        forall|i: int| old(rows)@.len() <= i < final(rows)@.len() ==> #[trigger] final(rows)@[i] == dummy,
{
    let n = rows.len();
    let h = next_power_of_two(n, size_log2);
    while rows.len() < h
        invariant
            n == old(rows)@.len(),
            n <= rows@.len() <= h,
            rows@.subrange(0, n as int) == old(rows)@,
            forall|i: int| n <= i < rows@.len() ==> #[trigger] rows@[i] == dummy,
        decreases h - rows@.len(),
    {
        rows.push(dummy);
        assert(rows@.subrange(0, n as int) =~= old(rows)@);
    }
}

/// There is one padded height.
pub proof fn lemma_padded_height_unique(n: nat, fixed_power: Option<usize>, h1: nat, h2: nat)
    requires
        is_padded_height(n, fixed_power, h1),
        is_padded_height(n, fixed_power, h2),
    ensures
        h1 == h2,
{
    if fixed_power is None {
        let k1 = choose|k: nat| #[trigger] pow2(k) == h1;
        let k2 = choose|k: nat| #[trigger] pow2(k) == h2;
        if k1 < k2 {
            lemma_pow2_double_le(k1, k2);
        } else if k2 < k1 {
            lemma_pow2_double_le(k2, k1);
        }
    }
}

/// A larger power of two is at least twice a smaller one.
proof fn lemma_pow2_double_le(k1: nat, k2: nat)
    requires
        k1 < k2,
    ensures
        2 * pow2(k1) <= pow2(k2),
{
    lemma_pow2_unfold(k1 + 1);
    if k1 + 1 < k2 {
        vstd::arithmetic::power2::lemma_pow2_strictly_increases(k1 + 1, k2);
    }
}

/// Whether `n` rows can be padded without a panic.
pub fn can_pad_rows(n: usize, fixed_power: Option<usize>) -> (b: bool)
    ensures
        b == can_pad(n as nat, fixed_power),
{
    match fixed_power {
        Some(power) => {
            let mut p: usize = 1;
            let mut i: usize = 0;
            proof {
                lemma2_to64();
            }
            while i < power
                invariant
                    fixed_power == Some(power),
                    i <= power,
                    p == pow2(i as nat),
                decreases power - i,
            {
                proof {
                    lemma_pow2_unfold((i + 1) as nat);
                }
                if p > usize::MAX / 2 {
                    assert(pow2((i + 1) as nat) > usize::MAX);
                    proof {
                        if i + 1 < power {
                            vstd::arithmetic::power2::lemma_pow2_strictly_increases((i + 1) as nat, power as nat);
                        }
                    }
                    assert(pow2(power as nat) > usize::MAX);
                    assert(!can_pad(n as nat, fixed_power));
                    return false;
                }
                p = p * 2;
                i = i + 1;
            }
            n <= p
        },
        None => n <= usize::MAX / 2 + 1,
    }
}

} // verus!
