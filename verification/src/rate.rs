//! Exchange-rate engine: pure conversions between base-asset amounts and
//! derivative-token amounts at a given fixed-point rate.

use vstd::prelude::*;

verus! {

/// Fixed-point scale of the exchange rate: a rate of `RATE_SCALE` means one
/// derivative unit is worth exactly one base unit.
pub const RATE_SCALE: u128 = 1_000_000_000;

/// Largest principal the pool accounts for: any larger value could overflow
/// the widened product `total * RATE_SCALE` that the conversions and the rate
/// computation form before dividing.
pub const MAX_TOTAL_STAKED: u128 = u128::MAX / RATE_SCALE;

/// Derivative amount minted for `base` base units at `rate`, rounded toward
/// zero so the pool never over-mints.
pub open spec fn spec_to_derivative(base: int, rate: int) -> int {
    base * (RATE_SCALE as int) / rate
}

/// Base amount owed for `derivative` derivative units at `rate`, rounded
/// toward zero so the pool never over-pays.
pub open spec fn spec_to_base(derivative: int, rate: int) -> int {
    derivative * rate / (RATE_SCALE as int)
}

pub fn to_derivative(base: u128, rate: u128) -> (r: u128)
    requires
        1 <= rate,
        base <= MAX_TOTAL_STAKED,
    ensures
        r == spec_to_derivative(base as int, rate as int),
{
    proof {
        assert((base as int) * (RATE_SCALE as int) <= (MAX_TOTAL_STAKED as int) * (RATE_SCALE as int)) by {
            vstd::arithmetic::mul::lemma_mul_inequality(base as int, MAX_TOTAL_STAKED as int, RATE_SCALE as int);
        }
    }
    (base * RATE_SCALE) / rate
}

pub fn to_base(derivative: u128, rate: u128) -> (r: u128)
    requires
        (derivative as int) * (rate as int) <= u128::MAX as int,
    ensures
        r == spec_to_base(derivative as int, rate as int),
{
    (derivative * rate) / RATE_SCALE
}

/// Round trip through the engine loses value to truncation and never gains
/// any: converting `base` to derivative units and back returns at most
/// `base`, and exactly `base` precisely when `rate` divides `base * RATE_SCALE`
/// evenly.
pub proof fn lemma_round_trip(base: int, rate: int)
    requires
        0 <= base,
        1 <= rate,
    ensures
        spec_to_base(spec_to_derivative(base, rate), rate) <= base,
        spec_to_base(spec_to_derivative(base, rate), rate) == base <==> (base * RATE_SCALE) % rate
            == 0,
{
    let s = RATE_SCALE as int;
    let p = base * s;
    let q = p / rate;
    let r = p % rate;
    vstd::arithmetic::mul::lemma_mul_nonnegative(base, s);
    vstd::arithmetic::div_mod::lemma_fundamental_div_mod(p, rate);
    vstd::arithmetic::div_mod::lemma_mod_bound(p, rate);
    assert(q * rate == p - r) by {
        vstd::arithmetic::mul::lemma_mul_is_commutative(rate, q);
    }
    vstd::arithmetic::div_mod::lemma_div_multiples_vanish(base, s);
    assert(p / s == base);
    if r == 0 {
        assert(spec_to_base(q, rate) == base);
    } else {
        assert(p - r <= p - 1);
        vstd::arithmetic::div_mod::lemma_div_is_ordered(p - r, p - 1, s);
        assert((p - 1) / s <= base - 1) by {
            vstd::arithmetic::div_mod::lemma_fundamental_div_mod_converse(
                p - 1,
                s,
                base - 1,
                s - 1,
            );
        }
        assert(spec_to_base(q, rate) <= base - 1);
    }
}

} // verus!
