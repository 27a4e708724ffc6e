//! The two fee models: each a product of independently computed WAD-scaled multipliers.
use vstd::prelude::*;
use crate::word::{Uint256, u256_max, checked_mul};
use vstd::arithmetic::div_mod::{lemma_div_is_ordered, lemma_div_is_ordered_by_denominator};
use crate::math::{Error, WAD, outcome, add_c, sub_c, mul_c, div_c, wad_div_spec, try_add, try_sub, try_mul, try_div, wad_div};

verus! {

/// Insurance base fee, 0.1% in WAD.
pub const INSURANCE_BASE_FEE: u64 = 1_000_000_000_000_000;

/// Flash-loan base fee, 0.05% in WAD.
pub const FLASH_LOAN_BASE_FEE: u64 = 500_000_000_000_000;

/// Largest volume discount, 0.9 in WAD.
pub const MAX_VOLUME_DISCOUNT: u64 = 900_000_000_000_000_000;

/// 2.0 in WAD: the multiplier used where there is no liquidity.
pub const TWO_WAD: u64 = 2_000_000_000_000_000_000;

pub open spec fn wad_cubed() -> nat {
    1_000_000_000_000_000_000_000_000_000_000_000_000_000_000_000_000_000_000nat
}

pub open spec fn volume_multiplier_spec(total_volume: nat) -> Option<nat> {
    if total_volume == 0 {
        Some(WAD as nat)
    } else {
        match add_c(Some(total_volume), WAD as nat) {
            None => None,
            Some(d) => match div_c(mul_c(Some(total_volume), MAX_VOLUME_DISCOUNT as nat), d) {
                None => None,
                Some(f) => sub_c(Some(WAD as nat), f),
            },
        }
    }
}

pub open spec fn volatility_multiplier_spec(volatility: nat) -> Option<nat> {
    match mul_c(Some(volatility), 2) {
        None => None,
        Some(t) => add_c(Some(WAD as nat), t),
    }
}

pub open spec fn il_multiplier_spec(historical_il: nat) -> Option<nat> {
    match mul_c(Some(historical_il), 3) {
        None => None,
        Some(t) => add_c(Some(WAD as nat), t),
    }
}

pub open spec fn size_multiplier_spec(amount: nat, total_liquidity: nat) -> Option<nat> {
    if total_liquidity == 0 {
        Some(TWO_WAD as nat)
    } else {
        add_c(wad_div_spec(amount, total_liquidity), WAD as nat)
    }
}

/// `base * volume * il * size / WAD^3`, then scaled by the volatility multiplier in WAD.
pub open spec fn combine_spec(vm: nat, volm: nat, ilm: nat, sm: nat) -> Option<nat> {
    div_c(
        mul_c(
            div_c(mul_c(mul_c(mul_c(Some(INSURANCE_BASE_FEE as nat), vm), ilm), sm), wad_cubed()),
            volm,
        ),
        WAD as nat,
    )
}

/// The insurance fee for the given parameters and pool volatility.
pub open spec fn insurance_fee_spec(
    amount: nat,
    total_liquidity: nat,
    total_volume: nat,
    volatility: nat,
    historical_il: nat,
) -> Option<nat> {
    match (
        volume_multiplier_spec(total_volume),
        volatility_multiplier_spec(volatility),
        il_multiplier_spec(historical_il),
        size_multiplier_spec(amount, total_liquidity),
    ) {
        (Some(vm), Some(volm), Some(ilm), Some(sm)) => combine_spec(vm, volm, ilm, sm),
        _ => None,
    }
}

pub open spec fn utilization_multiplier_spec(utilization_rate: nat) -> Option<nat> {
    if utilization_rate == 0 {
        Some(WAD as nat)
    } else {
        match mul_c(Some(utilization_rate), 2) {
            None => None,
            Some(t) => add_c(Some(WAD as nat), t),
        }
    }
}

pub open spec fn liquidity_multiplier_spec(total_liquidity: nat) -> Option<nat> {
    if total_liquidity == 0 {
        Some(TWO_WAD as nat)
    } else {
        match add_c(Some(total_liquidity), WAD as nat) {
            None => None,
            Some(d) => add_c(wad_div_spec(WAD as nat, d), WAD as nat),
        }
    }
}

pub open spec fn default_multiplier_spec(default_history: nat) -> Option<nat> {
    add_c(Some(WAD as nat), default_history)
}

/// The flash-loan fee: `base * utilization * liquidity * default / WAD^3`, times
/// `amount / WAD`.
pub open spec fn flash_loan_fee_spec(
    amount: nat,
    total_liquidity: nat,
    utilization_rate: nat,
    default_history: nat,
) -> Option<nat> {
    match (
        utilization_multiplier_spec(utilization_rate),
        liquidity_multiplier_spec(total_liquidity),
        default_multiplier_spec(default_history),
    ) {
        (Some(um), Some(lm), Some(dm)) => match div_c(
            mul_c(mul_c(mul_c(Some(FLASH_LOAN_BASE_FEE as nat), um), lm), dm),
            wad_cubed(),
        ) {
            None => None,
            Some(fee) => div_c(mul_c(Some(fee), amount), WAD as nat),
        },
        _ => None,
    }
}

/// Volume discount: `1 - 0.9 * volume / (volume + 1)` in WAD, or exactly 1.0 with no volume.
pub fn volume_multiplier(total_volume: Uint256) -> (r: Result<Uint256, Error>)
    ensures
        outcome(r, volume_multiplier_spec(total_volume.value())),
        total_volume.value() == 0 ==> r is Ok && r->Ok_0.value() == WAD as nat,
{
    if total_volume.is_zero() {
        return Ok(Uint256::from_u64(WAD));
    }
    let d = try_add(total_volume, Uint256::from_u64(WAD))?;
    let p = try_mul(total_volume, Uint256::from_u64(MAX_VOLUME_DISCOUNT))?;
    let f = try_div(p, d)?;
    try_sub(Uint256::from_u64(WAD), f)
}

/// WAD cubed, 10^54.
fn wad_cubed_value() -> (r: Uint256)
    ensures
        r.value() == wad_cubed(),
{
    let w = Uint256::from_u64(WAD);
    let sq = checked_mul(w, w).unwrap();
    checked_mul(sq, w).unwrap()
}

/// Volatility multiplier `1 + 2 * volatility` in WAD.
pub fn volatility_multiplier(volatility: Uint256) -> (r: Result<Uint256, Error>)
    ensures
        outcome(r, volatility_multiplier_spec(volatility.value())),
{
    let t = try_mul(volatility, Uint256::from_u64(2))?;
    try_add(Uint256::from_u64(WAD), t)
}

/// Impermanent-loss multiplier `1 + 3 * il` in WAD.
pub fn il_multiplier(historical_il: Uint256) -> (r: Result<Uint256, Error>)
    ensures
        outcome(r, il_multiplier_spec(historical_il.value())),
{
    let t = try_mul(historical_il, Uint256::from_u64(3))?;
    try_add(Uint256::from_u64(WAD), t)
}

/// Size multiplier `1 + amount / total_liquidity` in WAD, or exactly 2.0 with no liquidity.
pub fn size_multiplier(amount: Uint256, total_liquidity: Uint256) -> (r: Result<Uint256, Error>)
    ensures
        outcome(r, size_multiplier_spec(amount.value(), total_liquidity.value())),
        total_liquidity.value() == 0 ==> r is Ok && r->Ok_0.value() == TWO_WAD as nat,
{
    if total_liquidity.is_zero() {
        return Ok(Uint256::from_u64(TWO_WAD));
    }
    let ratio = wad_div(amount, total_liquidity)?;
    try_add(ratio, Uint256::from_u64(WAD))
}

/// The insurance fee from its parameters and the pool's volatility and impermanent loss.
pub fn insurance_fee(
    amount: Uint256,
    total_liquidity: Uint256,
    total_volume: Uint256,
    volatility: Uint256,
    historical_il: Uint256,
) -> (r: Result<Uint256, Error>)
    ensures
        outcome(
            r,
            insurance_fee_spec(
                amount.value(),
                total_liquidity.value(),
                total_volume.value(),
                volatility.value(),
                historical_il.value(),
            ),
        ),
{
    let vm = volume_multiplier(total_volume)?;
    let volm = volatility_multiplier(volatility)?;
    let ilm = il_multiplier(historical_il)?;
    let sm = size_multiplier(amount, total_liquidity)?;
    let p1 = try_mul(Uint256::from_u64(INSURANCE_BASE_FEE), vm)?;
    let p2 = try_mul(p1, ilm)?;
    let p3 = try_mul(p2, sm)?;
    let fee = try_div(p3, wad_cubed_value())?;
    let scaled = try_mul(fee, volm)?;
    try_div(scaled, Uint256::from_u64(WAD))
}

/// Utilization multiplier `1 + 2 * utilization_rate` in WAD, or exactly 1.0 at zero.
pub fn utilization_multiplier(utilization_rate: Uint256) -> (r: Result<Uint256, Error>)
    ensures
        outcome(r, utilization_multiplier_spec(utilization_rate.value())),
{
    if utilization_rate.is_zero() {
        return Ok(Uint256::from_u64(WAD));
    }
    let t = try_mul(utilization_rate, Uint256::from_u64(2))?;
    try_add(Uint256::from_u64(WAD), t)
}

/// Liquidity multiplier `1 + 1 / (total_liquidity + 1)` in WAD, or exactly 2.0 with no
/// liquidity.
pub fn liquidity_multiplier(total_liquidity: Uint256) -> (r: Result<Uint256, Error>)
    ensures
        outcome(r, liquidity_multiplier_spec(total_liquidity.value())),
        total_liquidity.value() == 0 ==> r is Ok && r->Ok_0.value() == TWO_WAD as nat,
{
    if total_liquidity.is_zero() {
        return Ok(Uint256::from_u64(TWO_WAD));
    }
    let d = try_add(total_liquidity, Uint256::from_u64(WAD))?;
    let ratio = wad_div(Uint256::from_u64(WAD), d)?;
    try_add(ratio, Uint256::from_u64(WAD))
}

/// Default multiplier `1 + default_history` in WAD.
pub fn default_multiplier(default_history: Uint256) -> (r: Result<Uint256, Error>)
    ensures
        outcome(r, default_multiplier_spec(default_history.value())),
{
    try_add(Uint256::from_u64(WAD), default_history)
}

/// The flash-loan fee for borrowing `amount`.
pub fn flash_loan_fee(
    amount: Uint256,
    total_liquidity: Uint256,
    utilization_rate: Uint256,
    default_history: Uint256,
) -> (r: Result<Uint256, Error>)
    ensures
        outcome(
            r,
            flash_loan_fee_spec(
                amount.value(),
                total_liquidity.value(),
                utilization_rate.value(),
                default_history.value(),
            ),
        ),
{
    let um = utilization_multiplier(utilization_rate)?;
    let lm = liquidity_multiplier(total_liquidity)?;
    let dm = default_multiplier(default_history)?;
    let p1 = try_mul(Uint256::from_u64(FLASH_LOAN_BASE_FEE), um)?;
    let p2 = try_mul(p1, lm)?;
    let p3 = try_mul(p2, dm)?;
    let fee = try_div(p3, wad_cubed_value())?;
    let scaled = try_mul(fee, amount)?;
    try_div(scaled, Uint256::from_u64(WAD))
}

proof fn lemma_mul_le(a: nat, b: nat, c: nat, d: nat)
    requires
        a <= c,
        b <= d,
    ensures
        a * b <= c * d,
{
    assert(a * b <= c * d) by (nonlinear_arith) requires a <= c, b <= d;
}

proof fn lemma_div_le(a: nat, b: nat, d: nat)
    requires
        a <= b,
        d > 0,
    ensures
        a / d <= b / d,
{
    lemma_div_is_ordered(a as int, b as int, d as int);
}

/// Smaller multipliers never give a larger fee, nor fail where larger ones succeed.
proof fn lemma_combine_monotone(
    vm: nat, volm: nat, ilm: nat, sm: nat,
    vm2: nat, volm2: nat, ilm2: nat, sm2: nat,
)
    requires
        vm <= vm2,
        volm <= volm2,
        ilm <= ilm2,
        sm <= sm2,
        combine_spec(vm2, volm2, ilm2, sm2) is Some,
    ensures
        combine_spec(vm, volm, ilm, sm) is Some,
        combine_spec(vm, volm, ilm, sm)->0 <= combine_spec(vm2, volm2, ilm2, sm2)->0,
{
    let b = INSURANCE_BASE_FEE as nat;
    lemma_mul_le(b, vm, b, vm2);
    lemma_mul_le(b * vm, ilm, b * vm2, ilm2);
    lemma_mul_le(b * vm * ilm, sm, b * vm2 * ilm2, sm2);
    let p = b * vm * ilm * sm;
    let p2 = b * vm2 * ilm2 * sm2;
    lemma_div_le(p, p2, wad_cubed());
    lemma_mul_le(p / wad_cubed(), volm, p2 / wad_cubed(), volm2);
    lemma_div_le(p / wad_cubed() * volm, p2 / wad_cubed() * volm2, WAD as nat);
}

proof fn lemma_add_multiplier_monotone(x: nat, y: nat, f: nat)
    requires
        x <= y,
        match mul_c(Some(y), f) {
            None => false,
            Some(t) => add_c(Some(WAD as nat), t) is Some,
        },
    ensures
        match (mul_c(Some(x), f), mul_c(Some(y), f)) {
            (Some(t), Some(t2)) => add_c(Some(WAD as nat), t) is Some && add_c(Some(WAD as nat), t)->0
                <= add_c(Some(WAD as nat), t2)->0,
            _ => false,
        },
{
    lemma_mul_le(x, f, y, f);
}

/// The insurance fee does not decrease as the pool's impermanent-loss estimate grows.
pub proof fn lemma_insurance_fee_monotone_in_il(
    amount: nat,
    total_liquidity: nat,
    total_volume: nat,
    volatility: nat,
    il: nat,
    il2: nat,
)
    requires
        il <= il2,
        insurance_fee_spec(amount, total_liquidity, total_volume, volatility, il2) is Some,
    ensures
        insurance_fee_spec(amount, total_liquidity, total_volume, volatility, il) is Some,
        insurance_fee_spec(amount, total_liquidity, total_volume, volatility, il)->0
            <= insurance_fee_spec(amount, total_liquidity, total_volume, volatility, il2)->0,
{
    lemma_add_multiplier_monotone(il, il2, 3);
    let vm = volume_multiplier_spec(total_volume)->0;
    let volm = volatility_multiplier_spec(volatility)->0;
    let sm = size_multiplier_spec(amount, total_liquidity)->0;
    lemma_combine_monotone(
        vm, volm, il_multiplier_spec(il)->0, sm,
        vm, volm, il_multiplier_spec(il2)->0, sm,
    );
}

/// The insurance fee does not decrease as the pool's volatility grows.
pub proof fn lemma_insurance_fee_monotone_in_volatility(
    amount: nat,
    total_liquidity: nat,
    total_volume: nat,
    volatility: nat,
    volatility2: nat,
    il: nat,
)
    requires
        volatility <= volatility2,
        insurance_fee_spec(amount, total_liquidity, total_volume, volatility2, il) is Some,
    ensures
        insurance_fee_spec(amount, total_liquidity, total_volume, volatility, il) is Some,
        insurance_fee_spec(amount, total_liquidity, total_volume, volatility, il)->0
            <= insurance_fee_spec(amount, total_liquidity, total_volume, volatility2, il)->0,
{
    lemma_add_multiplier_monotone(volatility, volatility2, 2);
    let vm = volume_multiplier_spec(total_volume)->0;
    let ilm = il_multiplier_spec(il)->0;
    let sm = size_multiplier_spec(amount, total_liquidity)->0;
    lemma_combine_monotone(
        vm, volatility_multiplier_spec(volatility)->0, ilm, sm,
        vm, volatility_multiplier_spec(volatility2)->0, ilm, sm,
    );
}

/// The insurance fee does not decrease as the traded amount grows.
pub proof fn lemma_insurance_fee_monotone_in_amount(
    amount: nat,
    amount2: nat,
    total_liquidity: nat,
    total_volume: nat,
    volatility: nat,
    il: nat,
)
    requires
        amount <= amount2,
        insurance_fee_spec(amount2, total_liquidity, total_volume, volatility, il) is Some,
    ensures
        insurance_fee_spec(amount, total_liquidity, total_volume, volatility, il) is Some,
        insurance_fee_spec(amount, total_liquidity, total_volume, volatility, il)->0
            <= insurance_fee_spec(amount2, total_liquidity, total_volume, volatility, il)->0,
{
    if total_liquidity > 0 {
        lemma_mul_le(amount, WAD as nat, amount2, WAD as nat);
        lemma_div_le(amount * WAD as nat, amount2 * WAD as nat, total_liquidity);
    }
    let vm = volume_multiplier_spec(total_volume)->0;
    let volm = volatility_multiplier_spec(volatility)->0;
    let ilm = il_multiplier_spec(il)->0;
    lemma_combine_monotone(
        vm, volm, ilm, size_multiplier_spec(amount, total_liquidity)->0,
        vm, volm, ilm, size_multiplier_spec(amount2, total_liquidity)->0,
    );
}

/// With liquidity in the pool, the insurance fee does not increase as liquidity grows.
pub proof fn lemma_insurance_fee_antitone_in_liquidity(
    amount: nat,
    total_liquidity: nat,
    total_liquidity2: nat,
    total_volume: nat,
    volatility: nat,
    il: nat,
)
    requires
        0 < total_liquidity <= total_liquidity2,
        insurance_fee_spec(amount, total_liquidity, total_volume, volatility, il) is Some,
    ensures
        insurance_fee_spec(amount, total_liquidity2, total_volume, volatility, il) is Some,
        insurance_fee_spec(amount, total_liquidity2, total_volume, volatility, il)->0
            <= insurance_fee_spec(amount, total_liquidity, total_volume, volatility, il)->0,
{
    lemma_div_is_ordered_by_denominator(
        (amount * WAD as nat) as int,
        total_liquidity as int,
        total_liquidity2 as int,
    );
    let vm = volume_multiplier_spec(total_volume)->0;
    let volm = volatility_multiplier_spec(volatility)->0;
    let ilm = il_multiplier_spec(il)->0;
    lemma_combine_monotone(
        vm, volm, ilm, size_multiplier_spec(amount, total_liquidity2)->0,
        vm, volm, ilm, size_multiplier_spec(amount, total_liquidity)->0,
    );
}

/// With liquidity in the pool, an amount of 2^256 - 1 makes the insurance fee fail
/// rather than wrap.
pub proof fn lemma_insurance_fee_overflows_at_max_amount(
    total_liquidity: nat,
    total_volume: nat,
    volatility: nat,
    il: nat,
)
    requires
        total_liquidity > 0,
    ensures
        insurance_fee_spec(u256_max(), total_liquidity, total_volume, volatility, il) is None,
{
    assert(u256_max() * WAD as nat > u256_max());
}

/// An amount of 2^256 - 1 makes the flash-loan fee fail rather than wrap.
pub proof fn lemma_flash_loan_fee_overflows_at_max_amount(
    total_liquidity: nat,
    utilization_rate: nat,
    default_history: nat,
)
    ensures
        flash_loan_fee_spec(u256_max(), total_liquidity, utilization_rate, default_history) is None,
{
    let um = utilization_multiplier_spec(utilization_rate);
    let lm = liquidity_multiplier_spec(total_liquidity);
    let dm = default_multiplier_spec(default_history);
    if um is Some && lm is Some && dm is Some {
        let b = FLASH_LOAN_BASE_FEE as nat;
        let w = WAD as nat;
        assert(um->0 >= w && lm->0 >= w && dm->0 >= w);
        lemma_mul_le(b, w, b, um->0);
        lemma_mul_le(b * w, w, b * um->0, lm->0);
        lemma_mul_le(b * w * w, w, b * um->0 * lm->0, dm->0);
        let p = b * um->0 * lm->0 * dm->0;
        lemma_div_le(b * w * w * w, p, wad_cubed());
        assert(b * w * w * w / wad_cubed() == b);
        let fee = p / wad_cubed();
        assert(fee * u256_max() > u256_max()) by (nonlinear_arith) requires fee >= 2;
    }
}

/// A total liquidity of 2^256 - 1 makes the flash-loan fee fail rather than wrap.
pub proof fn lemma_flash_loan_fee_overflows_at_max_liquidity(
    amount: nat,
    utilization_rate: nat,
    default_history: nat,
)
    ensures
        flash_loan_fee_spec(amount, u256_max(), utilization_rate, default_history) is None,
{
}

} // verus!
