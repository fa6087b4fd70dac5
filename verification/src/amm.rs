//! Constant-product (x·y = k) swap arithmetic with a fee in basis points:
//! the full input enters the input reserve and the fee stays in the pool.

use vstd::prelude::*;

verus! {

/// Basis points in one whole.
pub const BPS_DENOMINATOR: u32 = 10_000;

/// The output of swapping `input` into a pool holding `reserve_in` and
/// `reserve_out`, with `fee_bps` of the input kept as fee:
/// `floor(input·(10000 − fee)·reserve_out / (reserve_in·10000 + input·(10000 − fee)))`.
/// `None` when an amount or reserve is zero, the fee is a whole or more, the
/// product does not fit 128 bits, or the output rounds to zero.
pub open spec fn spec_constant_product_output(input: u64, reserve_in: u64, reserve_out: u64, fee_bps: u32) -> Option<u64> {
    if input == 0 || reserve_in == 0 || reserve_out == 0 || fee_bps >= 10_000 {
        None
    } else {
        let inf: int = input * (10_000 - fee_bps);
        let num: int = inf * reserve_out;
        let den: int = reserve_in * 10_000 + inf;
        if num > u128::MAX {
            None
        } else if num / den == 0 {
            None
        } else {
            Some((num / den) as u64)
        }
    }
}

proof fn lemma_quotient_below_reserve(inf: int, ro: int, den: int)
    requires
        inf > 0,
        ro > 0,
        den >= inf,
    ensures
        (inf * ro) / den <= ro,
        (inf * ro) / den >= 0,
{
    assert((inf * ro) / den <= ro) by (nonlinear_arith)
        requires
            inf > 0,
            ro > 0,
            den >= inf,
    {
        assert(inf * ro <= den * ro);
        assert(((inf * ro) / den) * den <= inf * ro);
    }
    assert((inf * ro) / den >= 0) by (nonlinear_arith)
        requires
            inf > 0,
            ro > 0,
            den >= inf,
    ;
}

/// The constant-product swap output (see [`spec_constant_product_output`]).
pub fn constant_product_output(input: u64, reserve_in: u64, reserve_out: u64, fee_bps: u32) -> (r: Option<u64>)
    ensures
        r == spec_constant_product_output(input, reserve_in, reserve_out, fee_bps),
        r matches Some(o) ==> 0 < o <= reserve_out,
{
    if input == 0 || reserve_in == 0 || reserve_out == 0 || fee_bps >= 10_000 {
        return None;
    }
    let g: u128 = (10_000 - fee_bps) as u128;
    let wide_in: u128 = input as u128;
    assert(wide_in * g <= 0xffff_ffff_ffff_ffffu128 * 10_000) by (nonlinear_arith)
        requires
            g <= 10_000,
            wide_in <= 0xffff_ffff_ffff_ffffu128,
    ;
    let inf: u128 = wide_in * g;
    let num = match inf.checked_mul(reserve_out as u128) {
        Some(v) => v,
        None => return None,
    };
    let den: u128 = (reserve_in as u128) * 10_000 + inf;
    proof {
        assert(inf > 0) by (nonlinear_arith)
            requires
                inf == wide_in * g,
                g >= 1,
                wide_in >= 1,
        ;
        lemma_quotient_below_reserve(inf as int, reserve_out as int, den as int);
    }
    let out = num / den;
    if out == 0 {
        return None;
    }
    Some(out as u64)
}

/// A swap the curve produces never lowers the pool's product: with the full
/// input added to the input reserve and the output taken from the output
/// reserve, `(reserve_in + input)·(reserve_out − output) ≥ reserve_in·reserve_out`.
pub proof fn lemma_swap_never_lowers_k(input: u64, reserve_in: u64, reserve_out: u64, fee_bps: u32)
    requires
        spec_constant_product_output(input, reserve_in, reserve_out, fee_bps) is Some,
    ensures
        ({
            let o = spec_constant_product_output(input, reserve_in, reserve_out, fee_bps)->0;
            &&& o <= reserve_out
            &&& (reserve_in + input) * (reserve_out - o) >= reserve_in * reserve_out
        }),
{
    let o = spec_constant_product_output(input, reserve_in, reserve_out, fee_bps)->0;
    let g: int = 10_000 - fee_bps;
    let i: int = input as int;
    let ri: int = reserve_in as int;
    let ro: int = reserve_out as int;
    let inf: int = i * g;
    let num: int = inf * ro;
    let den: int = ri * 10_000 + inf;
    assert(inf > 0) by (nonlinear_arith)
        requires
            inf == i * g,
            g >= 1,
            i >= 1,
    ;
    lemma_quotient_below_reserve(inf, ro, den);
    let q: int = num / den;
    assert(o == q);
    assert(q * den <= num) by (nonlinear_arith)
        requires
            den > 0,
            q == num / den,
    ;
    // o·g·(ri + i) ≤ o·(ri·10000 + i·g) ≤ i·g·ro, and g > 0.
    assert(q * (ri + i) <= i * ro) by (nonlinear_arith)
        requires
            q * den <= num,
            num == inf * ro,
            den == ri * 10_000 + inf,
            inf == i * g,
            1 <= g <= 10_000,
            q >= 0,
            ri >= 1,
            i >= 1,
    {
        assert(q * (ri * g + i * g) <= q * den);
        assert(g * (q * (ri + i)) <= g * (i * ro));
    }
    assert((ri + i) * (ro - q) >= ri * ro) by (nonlinear_arith)
        requires
            q * (ri + i) <= i * ro,
    ;
}

} // verus!
