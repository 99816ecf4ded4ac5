//! Fixed-point pricing of ads, rewards and conversions.
//!
//! Percentages are integers over a denominator of one million, so `100_000`
//! stands for 10%. Every division rounds down. Amounts are 128-bit: a formula
//! has a result here whenever its value fits, whatever the size of the
//! products on the way to it.

use vstd::prelude::*;
use vstd::arithmetic::div_mod::lemma_div_is_ordered;
use crate::arith::{lemma_div_rem_unique, mul_div_div, mul_div_rem, mul_mul_div};

verus! {

/// The denominator of every percentage.
pub const PERCENT_SCALE: u128 = 1_000_000;

/// The part of a deposit that is left for rewards once the commission is taken.
pub open spec fn split_deposit_spec(value: int, commission_pct: int) -> int {
    value * (PERCENT_SCALE - commission_pct) / (PERCENT_SCALE as int)
}

/// The reward currency minted for one watch of an ad.
pub open spec fn per_watch_reward_spec(
    amount_to_pay: int,
    watch_pct: int,
    price: int,
    milestone_pct: int,
) -> int {
    amount_to_pay * watch_pct * price / (PERCENT_SCALE + milestone_pct)
}

/// The number of watches that an ad pays for.
pub open spec fn watcher_cap_spec(watch_pct: int) -> int {
    (PERCENT_SCALE as int) / watch_pct
}

/// The base currency paid out for an amount of reward currency.
pub open spec fn convert_rate_spec(
    distancia_amount: int,
    price: int,
    milestone_pct: int,
    cleared: bool,
) -> int {
    if cleared {
        distancia_amount * (PERCENT_SCALE + milestone_pct) / (price * PERCENT_SCALE)
    } else {
        distancia_amount / price
    }
}

/// Whether the per-watch reward has a value here: the bonus factor and the
/// reward itself fit in 128 bits.
pub open spec fn per_watch_reward_fits(
    amount_to_pay: int,
    watch_pct: int,
    price: int,
    milestone_pct: int,
) -> bool {
    &&& PERCENT_SCALE + milestone_pct <= u128::MAX
    &&& per_watch_reward_spec(amount_to_pay, watch_pct, price, milestone_pct) <= u128::MAX
}

/// Whether a conversion has a value here: at the plain price always; with
/// the milestone bonus, when the bonus factor and the payout itself fit in
/// 128 bits.
pub open spec fn convert_rate_fits(
    distancia_amount: int,
    price: int,
    milestone_pct: int,
    cleared: bool,
) -> bool {
    cleared ==> {
        &&& PERCENT_SCALE + milestone_pct <= u128::MAX
        &&& convert_rate_spec(distancia_amount, price, milestone_pct, true) <= u128::MAX
    }
}

/// Splits a deposit: what is left of `value` after the commission, rounded
/// down. `None` when the commission is more than the whole.
pub fn split_deposit(value: u128, commission_pct: u128) -> (r: Option<u128>)
    ensures
        r is Some <==> commission_pct <= PERCENT_SCALE,
        r matches Some(a) ==> a == split_deposit_spec(value as int, commission_pct as int),
{
    if commission_pct > PERCENT_SCALE {
        return None;
    }
    let kept = PERCENT_SCALE - commission_pct;
    proof {
        // what is left is no more than the deposit, so it fits
        assert(value * kept <= value * PERCENT_SCALE) by (nonlinear_arith)
            requires
                kept <= PERCENT_SCALE,
        ;
        lemma_div_is_ordered(value * kept, value * PERCENT_SCALE, PERCENT_SCALE as int);
        lemma_div_rem_unique(value * PERCENT_SCALE, PERCENT_SCALE as int, value as int, 0);
    }
    match mul_div_rem(value, kept, PERCENT_SCALE) {
        Some((left, _)) => Some(left),
        None => None,
    }
}

/// The number of watches that an ad pays for at `watch_pct` per watch,
/// rounded down.
pub fn watcher_cap(watch_pct: u128) -> (r: u128)
    requires
        watch_pct > 0,
    ensures
        r == watcher_cap_spec(watch_pct as int),
{
    PERCENT_SCALE / watch_pct
}

/// The reward currency minted for one watch, rounded down. `None` when the
/// bonus factor or the reward does not fit in 128 bits.
pub fn per_watch_reward(
    amount_to_pay: u128,
    watch_pct: u128,
    price: u128,
    milestone_pct: u128,
) -> (r: Option<u128>)
    ensures
        r is Some <==> per_watch_reward_fits(
            amount_to_pay as int,
            watch_pct as int,
            price as int,
            milestone_pct as int,
        ),
        r matches Some(v) ==> v == per_watch_reward_spec(
            amount_to_pay as int,
            watch_pct as int,
            price as int,
            milestone_pct as int,
        ),
{
    match PERCENT_SCALE.checked_add(milestone_pct) {
        Some(factor) => mul_mul_div(amount_to_pay, watch_pct, price, factor),
        None => None,
    }
}

/// The base currency paid out for `distancia_amount` of reward currency,
/// rounded down: at the plain price, or with the milestone bonus when
/// `cleared`. `None` when the bonus factor or the payout does not fit in 128
/// bits.
pub fn convert_rate(distancia_amount: u128, price: u128, milestone_pct: u128, cleared: bool) -> (r:
    Option<u128>)
    requires
        price > 0,
    ensures
        r is Some <==> convert_rate_fits(
            distancia_amount as int,
            price as int,
            milestone_pct as int,
            cleared,
        ),
        r matches Some(v) ==> v == convert_rate_spec(
            distancia_amount as int,
            price as int,
            milestone_pct as int,
            cleared,
        ),
{
    if !cleared {
        return Some(distancia_amount / price);
    }
    match PERCENT_SCALE.checked_add(milestone_pct) {
        Some(factor) => mul_div_div(distancia_amount, factor, price, PERCENT_SCALE),
        None => None,
    }
}

/// The rewards that an ad can pay out never exceed its budget, as long as the
/// price does not exceed the milestone bonus factor: with
/// `price * 1_000_000 <= 1_000_000 + milestone_pct`, the per-watch reward times
/// the watcher cap is at most the amount to pay.
pub proof fn lemma_rewards_within_budget(
    amount_to_pay: nat,
    watch_pct: nat,
    price: nat,
    milestone_pct: nat,
)
    requires
        watch_pct > 0,
        price * PERCENT_SCALE <= PERCENT_SCALE + milestone_pct,
    ensures
        per_watch_reward_spec(
            amount_to_pay as int,
            watch_pct as int,
            price as int,
            milestone_pct as int,
        ) * watcher_cap_spec(watch_pct as int) <= amount_to_pay,
{
    let s = PERCENT_SCALE as int;
    let a = amount_to_pay as int;
    let w = watch_pct as int;
    let p = price as int;
    let d = s + milestone_pct;
    let n = a * w * p;
    let reward = n / d;
    let cap = s / w;
    assert(n >= 0) by (nonlinear_arith)
        requires
            n == a * w * p,
            a >= 0,
            w >= 0,
            p >= 0,
    ;
    assert(reward * d <= n && 0 <= reward) by (nonlinear_arith)
        requires
            reward == n / d,
            d > 0,
            n >= 0,
    ;
    assert(cap * w <= s && 0 <= cap) by (nonlinear_arith)
        requires
            cap == s / w,
            w > 0,
            s >= 0,
    ;
    assert(reward * cap * d <= a * d) by (nonlinear_arith)
        requires
            reward * d <= n,
            n == a * w * p,
            cap * w <= s,
            p * s <= d,
            0 <= cap,
            0 <= reward,
            0 <= a,
            0 <= p,
            0 <= w,
    ;
    assert(reward * cap <= a) by (nonlinear_arith)
        requires
            reward * cap * d <= a * d,
            d > 0,
    ;
}

/// The condition of `lemma_rewards_within_budget` cannot be dropped: at any
/// price above the milestone bonus factor there is an ad whose rewards exceed
/// its budget.
pub proof fn lemma_rewards_can_exceed_budget(price: nat, milestone_pct: nat)
    requires
        price * PERCENT_SCALE > PERCENT_SCALE + milestone_pct,
    ensures
        exists|amount_to_pay: nat, watch_pct: nat|
            watch_pct > 0 && #[trigger] per_watch_reward_spec(
                amount_to_pay as int,
                watch_pct as int,
                price as int,
                milestone_pct as int,
            ) * watcher_cap_spec(watch_pct as int) > amount_to_pay,
{
    let s = PERCENT_SCALE as int;
    let p = price as int;
    let d = s + milestone_pct;
    let amount_to_pay: nat = d as nat;
    let watch_pct: nat = PERCENT_SCALE as nat;
    let n = d * s * p;
    assert(n == (s * p) * d) by (nonlinear_arith)
        requires
            n == d * s * p,
    ;
    assert(n / d == s * p) by (nonlinear_arith)
        requires
            n == (s * p) * d,
            d > 0,
    ;
    assert(s / (watch_pct as int) == 1);
    assert(per_watch_reward_spec(
        amount_to_pay as int,
        watch_pct as int,
        price as int,
        milestone_pct as int,
    ) * watcher_cap_spec(watch_pct as int) > amount_to_pay) by (nonlinear_arith)
        requires
            per_watch_reward_spec(
                amount_to_pay as int,
                watch_pct as int,
                price as int,
                milestone_pct as int,
            ) == s * price,
            watcher_cap_spec(watch_pct as int) == 1,
            price * s > d,
            amount_to_pay == d,
    ;
}

} // verus!
