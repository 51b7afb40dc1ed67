//! Level planning: how many pyramid levels a canvas needs, and how the tile
//! grid shrinks from one level to the next.

use vstd::prelude::*;
use vstd::arithmetic::power2::{pow2, lemma_pow2_unfold, lemma_pow2_pos, lemma2_to64};
use vstd::layout::size_of;

verus! {

/// Largest `k` with `2^k <= n`; zero for `n <= 1`.
pub open spec fn floor_log2(n: nat) -> nat
    decreases n,
{
    if n <= 1 {
        0
    } else {
        1 + floor_log2(n / 2)
    }
}

/// Number of pyramid levels for a canvas whose larger side is `n`.
pub open spec fn levels_spec(n: nat) -> nat {
    if n <= 1 {
        1
    } else if n == pow2(floor_log2(n)) {
        floor_log2(n) + 1
    } else {
        floor_log2(n) + 2
    }
}

/// Number of times `n` has to be halved, rounding up, until it is 1.
pub open spec fn halvings(n: nat) -> nat
    decreases n,
{
    if n <= 1 {
        0
    } else {
        1 + halvings((n + 1) / 2)
    }
}

/// Ceiling of `len / tile_size`.
pub open spec fn tile_count_spec(len: nat, tile_size: nat) -> nat {
    if len == 0 {
        0
    } else {
        ((len - 1) / (tile_size as int) + 1) as nat
    }
}

/// Ceiling of `count / 2`.
pub open spec fn half_count_spec(count: nat) -> nat {
    (count + 1) / 2
}

/// Tile count along one axis after `steps` halvings of `count`.
pub open spec fn count_after(count: nat, steps: nat) -> nat
    decreases steps,
{
    if steps == 0 {
        count
    } else {
        count_after(half_count_spec(count), (steps - 1) as nat)
    }
}

/// `2^floor_log2(n) <= n < 2^(floor_log2(n) + 1)` for positive `n`.
pub proof fn lemma_floor_log2_bounds(n: nat)
    requires
        n >= 1,
    ensures
        pow2(floor_log2(n)) <= n < pow2(floor_log2(n) + 1),
    decreases n,
{
    lemma2_to64();
    if n > 1 {
        lemma_floor_log2_bounds(n / 2);
        lemma_pow2_unfold(floor_log2(n));
        lemma_pow2_unfold(floor_log2(n) + 1);
    }
}

/// The exponent of the power-of-two interval that holds `n` is its
/// `floor_log2`.
pub proof fn lemma_floor_log2_unique(n: nat, k: nat)
    requires
        pow2(k) <= n < pow2(k + 1),
    ensures
        floor_log2(n) == k,
    decreases k,
{
    lemma2_to64();
    lemma_pow2_pos(k);
    if k == 0 {
        assert(pow2(1) == 2);
    } else {
        lemma_pow2_unfold(k);
        lemma_pow2_unfold(k + 1);
        lemma_floor_log2_unique(n / 2, (k - 1) as nat);
    }
}

/// A power of two `2^k` needs `k + 1` levels.
pub proof fn law_levels_power_of_two(k: nat)
    ensures
        levels_spec(pow2(k)) == k + 1,
{
    lemma2_to64();
    lemma_pow2_pos(k);
    lemma_pow2_unfold(k + 1);
    lemma_floor_log2_unique(pow2(k), k);
    if k > 0 {
        lemma_pow2_unfold(k);
    }
}

/// A number strictly between `2^k` and `2^(k+1)` needs `k + 2` levels.
pub proof fn law_levels_between(n: nat, k: nat)
    requires
        pow2(k) < n < pow2(k + 1),
    ensures
        levels_spec(n) == k + 2,
{
    lemma_pow2_pos(k);
    lemma_floor_log2_unique(n, k);
}

/// The level count is one more than the number of rounding-up halvings that
/// bring `n` down to 1.
pub proof fn law_levels_count_halvings(n: nat)
    requires
        n >= 1,
    ensures
        levels_spec(n) == halvings(n) + 1,
    decreases n,
{
    lemma2_to64();
    if n > 1 {
        let h = (n + 1) / 2;
        let k = floor_log2(n);
        lemma_floor_log2_bounds(n);
        lemma_pow2_unfold(k);
        lemma_pow2_unfold(k + 1);
        law_levels_count_halvings(h);
        if n == pow2(k) {
            if k == 1 {
                assert(h == 1);
            } else {
                lemma_pow2_unfold((k - 1) as nat);
                assert(h == pow2((k - 1) as nat));
                law_levels_power_of_two((k - 1) as nat);
            }
        } else {
            // pow2(k) < n < pow2(k + 1), hence pow2(k - 1) < h <= pow2(k)
            if h == pow2(k) {
                law_levels_power_of_two(k);
            } else {
                law_levels_between(h, (k - 1) as nat);
            }
        }
    }
}

/// Halving the tile count of the finest level once per level below it
/// leaves a single tile at level 0, whenever that count is no larger than
/// the side `n` by which the levels were counted.
pub proof fn law_root_is_single_tile(count: nat, n: nat)
    requires
        1 <= count <= n,
    ensures
        count_after(count, halvings(n)) == 1,
        count_after(count, (levels_spec(n) - 1) as nat) == 1,
    decreases n,
{
    law_levels_count_halvings(n);
    if n > 1 {
        law_root_is_single_tile(half_count_spec(count), (n + 1) / 2);
    }
}

/// Number of bits of a value of type `T`.
pub fn num_bits<T>() -> (bits: usize)
    requires
        size_of::<T>() * 8 <= usize::MAX,
    ensures
        bits == size_of::<T>() * 8,
{
    core::mem::size_of::<T>() * 8
}

/// `floor_log2(x)` together with the power of two it stands for.
fn log_2_with_power(x: usize) -> (r: (usize, usize))
    requires
        x > 0,
    ensures
        r.0 == floor_log2(x as nat),
        r.1 == pow2(r.0 as nat),
{
    let mut k: usize = 0;
    let mut p: usize = 1;
    proof {
        lemma2_to64();
    }
    while x - p >= p
        invariant
            p == pow2(k as nat),
            1 <= p <= x,
            k < p,
        decreases x - p,
    {
        proof {
            lemma_pow2_unfold((k + 1) as nat);
        }
        p = p + p;
        k = k + 1;
    }
    proof {
        lemma_pow2_unfold((k + 1) as nat);
        lemma_floor_log2_unique(x as nat, k as nat);
    }
    (k, p)
}

/// Base-two logarithm of `x`, rounded down.
pub fn log_2(x: usize) -> (l2: usize)
    requires
        x > 0,
    ensures
        l2 == floor_log2(x as nat),
        pow2(l2 as nat) <= x < pow2(l2 as nat + 1),
{
    proof {
        lemma_floor_log2_bounds(x as nat);
    }
    log_2_with_power(x).0
}

/// Number of pyramid levels for a canvas whose larger side is `n` pixels:
/// level 0 is the single coarsest tile, level `levels - 1` the native
/// resolution.
pub fn levels_for(n: usize) -> (levels: usize)
    requires
        n > 0,
    ensures
        levels == levels_spec(n as nat),
        levels == halvings(n as nat) + 1,
        levels >= 1,
{
    proof {
        law_levels_count_halvings(n as nat);
    }
    if n == 1 {
        1
    } else {
        let (l2, power) = log_2_with_power(n);
        proof {
            lemma_floor_log2_bounds(n as nat);
            lemma_log2_below_value(n as nat);
            lemma_pow2_pos(l2 as nat);
        }
        if n % power != 0 {
            proof {
                vstd::arithmetic::div_mod::lemma_mod_self_0(power as int);
                assert(n != 2);
            }
            l2 + 2
        } else {
            proof {
                // a multiple of `power` below `2 * power` is `power` itself
                lemma_pow2_unfold((l2 + 1) as nat);
                assert(n == power) by (nonlinear_arith)
                    requires
                        n % power == 0,
                        0 < power <= n,
                        n < 2 * power,
                ;
            }
            l2 + 1
        }
    }
}

/// The logarithm stays far enough below its argument for the level count
/// to fit the machine word whenever `n` does.
pub proof fn lemma_log2_below_value(n: nat)
    requires
        n >= 2,
    ensures
        floor_log2(n) + 1 <= n,
        n >= 3 ==> floor_log2(n) + 2 <= n,
    decreases n,
{
    if n >= 6 {
        lemma_log2_below_value(n / 2);
    } else {
        assert(floor_log2(1) == 0);
        assert(floor_log2(2) == 1);
        assert(floor_log2(3) == 1);
        assert(floor_log2(4) == 2);
        assert(floor_log2(5) == 2);
    }
}

/// Number of tiles of edge `tile_size` that span `len` pixels.
pub fn tile_count(len: usize, tile_size: usize) -> (count: usize)
    requires
        tile_size > 0,
    ensures
        count == tile_count_spec(len as nat, tile_size as nat),
        (count - 1) * tile_size < len <= count * tile_size || (len == 0 && count == 0),
{
    if len == 0 {
        0
    } else {
        let q: usize = (len - 1) / tile_size;
        proof {
            assert(q * tile_size <= len - 1 < (q + 1) * tile_size) by (nonlinear_arith)
                requires
                    q == (len - 1) / (tile_size as int),
                    tile_size > 0,
                    len >= 1,
            ;
            assert(q <= len - 1) by (nonlinear_arith)
                requires
                    q * tile_size <= len - 1,
                    tile_size > 0,
                    q >= 0,
            ;
        }
        q + 1
    }
}

/// Number of tiles along one axis of the next coarser level.
pub fn half_count(count: usize) -> (half: usize)
    ensures
        half == half_count_spec(count as nat),
{
    count / 2 + count % 2
}

} // verus!
