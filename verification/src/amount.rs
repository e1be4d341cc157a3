//! Arithmetic on token amounts.

use vstd::prelude::*;
use vstd::arithmetic::div_mod::{
    lemma_div_is_ordered, lemma_div_multiples_vanish, lemma_fundamental_div_mod,
    lemma_fundamental_div_mod_converse,
};
use crate::types::Amount;

verus! {

/// The sum of two amounts, capped at the largest amount that can be represented.
pub open spec fn saturating_sum(a: Amount, b: Amount) -> Amount {
    if a + b > u128::MAX {
        u128::MAX
    } else {
        (a + b) as u128
    }
}

/// A sum brought back into the range of an amount: sums saturate.
pub open spec fn capped(sum: nat) -> Amount {
    if sum > u128::MAX {
        u128::MAX
    } else {
        sum as u128
    }
}

/// Adds two amounts with `linera_base::data_types::Amount::saturating_add`,
/// wrapping them with `Amount::from_attos` and unwrapping the result with
/// `Amount::to_attos`. Assumed, not proved: wrapping and unwrapping keep the
/// number of attotokens, and the sum is exact where it fits in 128 bits and
/// the largest amount otherwise.
#[verifier::external_body]
pub(crate) fn saturating_add(a: Amount, b: Amount) -> (sum: Amount)
    ensures
        sum == saturating_sum(a, b),
{
    let left = linera_base::data_types::Amount::from_attos(a);
    let right = linera_base::data_types::Amount::from_attos(b);
    left.saturating_add(right).to_attos()
}

/// The part of `pool` that falls to `stake` out of `total`: the product of
/// stake and pool divided by the total, rounded down, and capped at the
/// largest amount that can be represented.
pub open spec fn proportional_share(stake: Amount, pool: Amount, total: Amount) -> Amount
    recommends
        total > 0,
{
    let exact = (stake as int * pool as int) / (total as int);
    if exact > u128::MAX {
        u128::MAX
    } else {
        exact as u128
    }
}

/// A number that is at least `k` times `d` holds `d` at least `k` times.
proof fn lemma_quotient_at_least(x: int, d: int, k: int)
    requires
        d > 0,
        x >= k * d,
    ensures
        x / d >= k,
{
    lemma_div_is_ordered(k * d, x, d);
    lemma_div_multiples_vanish(k, d);
    assert(d * k == k * d) by (nonlinear_arith);
}

/// Multiplying by a positive number keeps the order.
proof fn lemma_scale_bound(k: int, m: int, d: int)
    requires
        k <= m,
        d > 0,
    ensures
        k * d <= m * d,
{
    assert(k * d <= m * d) by (nonlinear_arith)
        requires
            k <= m,
            d > 0,
    ;
}

/// Halving the multiplier and doubling the weight keeps the product, up to
/// the one weight that an odd multiplier leaves over.
proof fn lemma_halve(rest: int, weight: int)
    requires
        rest >= 0,
    ensures
        rest % 2 == 0 ==> rest * weight == (rest / 2) * (2 * weight),
        rest % 2 == 1 ==> rest * weight == (rest / 2) * (2 * weight) + weight,
{
    assert(rest == 2 * (rest / 2) + rest % 2);
    assert((2 * (rest / 2)) * weight == (rest / 2) * (2 * weight)) by (nonlinear_arith);
    assert((2 * (rest / 2) + 1) * weight == (rest / 2) * (2 * weight) + weight)
        by (nonlinear_arith);
}

/// Two divisions by `d` add up: quotients, remainders and dividends.
proof fn lemma_combine(q1: int, r1: int, x1: int, q2: int, r2: int, x2: int, d: int, b: int)
    requires
        q1 * d + r1 == x1 * b,
        q2 * d + r2 == x2 * b,
    ensures
        (q1 + q2) * d + (r1 + r2) == (x1 + x2) * b,
{
    assert((q1 + q2) * d == q1 * d + q2 * d) by (nonlinear_arith);
    assert((x1 + x2) * b == x1 * b + x2 * b) by (nonlinear_arith);
}

/// Adds two remainders of a division by `d` and brings the sum back below `d`,
/// saying whether `d` had to be taken off.
fn add_below(r: u128, s: u128, d: u128) -> (out: (bool, u128))
    requires
        r < d,
        s < d,
    ensures
        out.1 < d,
        r + s == out.1 + (if out.0 { d as int } else { 0 }),
{
    if r >= d - s {
        (true, r - (d - s))
    } else {
        (false, r + s)
    }
}

/// Adds two quotients and the one carried over, if the sum fits.
fn add_carried(a: u128, b: u128, carry: bool) -> (sum: Option<u128>)
    ensures
        match sum {
            Some(sum) => sum == a + b + (if carry { 1int } else { 0 }),
            None => a + b + (if carry { 1int } else { 0 }) > u128::MAX,
        },
{
    let carried: u128 = if carry { 1 } else { 0 };
    match a.checked_add(b) {
        Some(sum) => sum.checked_add(carried),
        None => None,
    }
}

/// Computes the share of `pool` that a `stake` earns out of `total`, without
/// ever leaving 128 bits: the stake is taken bit by bit, lowest first, and
/// the quotient and remainder of the matching multiple of `pool` are kept.
pub fn share_of_pool(stake: Amount, pool: Amount, total: Amount) -> (share: Amount)
    requires
        total > 0,
    ensures
        share == proportional_share(stake, pool, total),
{
    let mut rest: u128 = stake;
    let mut quotient: u128 = 0;
    let mut remainder: u128 = 0;
    let mut step_quotient: u128 = pool / total;
    let mut step_remainder: u128 = pool % total;
    let ghost d: int = total as int;
    let ghost b: int = pool as int;
    let ghost mut weight: int = 1;
    let ghost mut done: int = 0;
    proof {
        lemma_fundamental_div_mod(b, d);
        assert(d * (b / d) == (b / d) * d) by (nonlinear_arith);
    }
    while rest > 0
        invariant
            d == total as int,
            b == pool as int,
            d > 0,
            weight >= 1,
            done >= 0,
            stake as int == rest as int * weight + done,
            quotient as int * d + remainder as int == done * b,
            remainder < total,
            step_quotient as int * d + step_remainder as int == weight * b,
            step_remainder < total,
        decreases rest,
    {
        if rest % 2 == 1 {
            let (carry, reduced) = add_below(remainder, step_remainder, total);
            let ghost carry_unit: int = if carry { 1 } else { 0 };
            proof {
                lemma_combine(
                    quotient as int,
                    remainder as int,
                    done,
                    step_quotient as int,
                    step_remainder as int,
                    weight,
                    d,
                    b,
                );
                assert((quotient + step_quotient + carry_unit) * d == (quotient + step_quotient)
                    * d + carry_unit * d) by (nonlinear_arith);
                assert((quotient + step_quotient + carry_unit) * d + reduced == (done + weight)
                    * b);
                assert(rest as int * weight >= weight) by (nonlinear_arith)
                    requires
                        rest >= 1,
                        weight >= 1,
                ;
                assert(stake as int * b >= (done + weight) * b) by (nonlinear_arith)
                    requires
                        stake as int >= done + weight,
                        b >= 0,
                ;
            }
            match add_carried(quotient, step_quotient, carry) {
                Some(sum) => {
                    quotient = sum;
                    remainder = reduced;
                    proof {
                        done = done + weight;
                    }
                },
                None => {
                    proof {
                        lemma_scale_bound(
                            u128::MAX + 1,
                            quotient + step_quotient + carry_unit,
                            d,
                        );
                        lemma_quotient_at_least(stake as int * b, d, u128::MAX + 1);
                    }
                    return u128::MAX;
                },
            }
        }
        proof {
            lemma_halve(rest as int, weight);
        }
        rest = rest / 2;
        assert(stake as int == rest as int * (2 * weight) + done);
        if rest > 0 {
            let (carry, reduced) = add_below(step_remainder, step_remainder, total);
            let ghost carry_unit: int = if carry { 1 } else { 0 };
            proof {
                lemma_combine(
                    step_quotient as int,
                    step_remainder as int,
                    weight,
                    step_quotient as int,
                    step_remainder as int,
                    weight,
                    d,
                    b,
                );
                assert((step_quotient + step_quotient + carry_unit) * d == (step_quotient
                    + step_quotient) * d + carry_unit * d) by (nonlinear_arith);
                assert((step_quotient + step_quotient + carry_unit) * d + reduced == (weight
                    + weight) * b);
                assert(rest as int * (2 * weight) >= 2 * weight) by (nonlinear_arith)
                    requires
                        rest >= 1,
                        weight >= 1,
                ;
                assert(stake as int * b >= (weight + weight) * b) by (nonlinear_arith)
                    requires
                        stake as int >= weight + weight,
                        b >= 0,
                ;
            }
            match add_carried(step_quotient, step_quotient, carry) {
                Some(sum) => {
                    step_quotient = sum;
                    step_remainder = reduced;
                },
                None => {
                    proof {
                        lemma_scale_bound(
                            u128::MAX + 1,
                            step_quotient + step_quotient + carry_unit,
                            d,
                        );
                        lemma_quotient_at_least(stake as int * b, d, u128::MAX + 1);
                    }
                    return u128::MAX;
                },
            }
        }
        proof {
            if rest > 0 {
                weight = 2 * weight;
            } else {
                assert(rest as int * (2 * weight) == 0 && rest as int * weight == 0)
                    by (nonlinear_arith)
                    requires
                        rest == 0,
                ;
            }
        }
    }
    proof {
        assert(rest as int * weight == 0) by (nonlinear_arith)
            requires
                rest == 0,
        ;
        lemma_fundamental_div_mod_converse(stake as int * b, d, quotient as int, remainder as int);
    }
    quotient
}

} // verus!
