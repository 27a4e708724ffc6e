//! Per-pool price history and the decayed volatility estimate drawn from it.
use vstd::prelude::*;
use crate::word::{Uint256, u256_max, checked_mul, checked_div, checked_sub, lt};
use crate::math::{Error, WAD, outcome, add_c, mul_c, div_c, wad_mul_spec, wad_div_spec, is_isqrt, try_add, try_mul, try_div, wad_mul, wad_div, isqrt};

verus! {

/// Number of slots in a pool's circular price history.
pub const HISTORY_LEN: usize = 30;

/// Seconds that must pass between two accepted price samples.
pub const UPDATE_INTERVAL: u64 = 3600;

/// Samples per year for annualisation: 365 days of 24 hourly samples.
pub const SAMPLES_PER_YEAR: u64 = 8760;

/// The square root of `WAD`.
pub const SQRT_WAD: u64 = 1_000_000_000;

/// What the engine keeps for one pool.
#[derive(Clone, Debug)]
pub struct PoolState {
    /// Circular buffer of WAD-scaled prices; a zero slot holds no sample.
    pub price_history: Vec<Uint256>,
    /// Slot of the latest accepted sample.
    pub price_update_index: usize,
    /// Time, in seconds, of the latest accepted sample.
    pub price_data_timestamp: Uint256,
    /// Impermanent-loss estimate, WAD-scaled; maintained from outside the engine.
    pub historical_il: Uint256,
}

pub open spec fn natural_power(b: nat, e: nat) -> nat
    decreases e,
{
    if e == 0 { 1 } else { b * natural_power(b, (e - 1) as nat) }
}

/// Weight of slot `i`: `95^i / 100^i` in plain integer division.
pub open spec fn slot_decay(i: nat) -> nat {
    natural_power(95, i) / natural_power(100, i)
}

pub open spec fn abs_diff(a: nat, b: nat) -> nat {
    if a >= b { (a - b) as nat } else { (b - a) as nat }
}

/// The contribution of a sample whose WAD-scaled return is `ret`, in slot `i`:
/// `(ret * ret / WAD) * decay / WAD`, checked.
pub open spec fn weighted_square(ret: nat, i: nat) -> Option<nat> {
    div_c(mul_c(wad_mul_spec(ret, ret), slot_decay(i)), WAD as nat)
}

/// The running sum after taking in sample `p` of slot `i`, the previous valid price
/// being `last`: the return `|last - p| * WAD / p`, weighed and added, all checked.
pub open spec fn sample_step(sum: nat, last: nat, p: nat, i: nat) -> Option<nat> {
    match wad_div_spec(abs_diff(last, p), p) {
        None => None,
        Some(ret) => match weighted_square(ret, i) {
            None => None,
            Some(w) => add_c(Some(sum), w),
        },
    }
}

/// Running `(sum of weighted squared returns, valid samples, last valid price)` after
/// the first `n` slots of `h`, scanned in stored order from `current`; `None` once a step
/// fails.
pub open spec fn accumulate(h: Seq<nat>, current: nat, n: nat) -> Option<(nat, nat, nat)>
    decreases n,
{
    if n == 0 {
        Some((0, 0, current))
    } else {
        match accumulate(h, current, (n - 1) as nat) {
            None => None,
            Some((sum, valid, last)) => {
                let p = h[n - 1];
                if p == 0 {
                    Some((sum, valid, last))
                } else {
                    match sample_step(sum, last, p, (n - 1) as nat) {
                        None => None,
                        Some(s) => Some((s, valid + 1, p)),
                    }
                }
            },
        }
    }
}

/// The model of a pool never written to.
pub open spec fn fresh_model() -> (Seq<nat>, nat, nat) {
    (Seq::new(HISTORY_LEN as nat, |i: int| 0nat), 0, 0)
}

/// How one call of the update step moves a pool from `before` to `after`: a sample
/// taken at least `UPDATE_INTERVAL` after the latest one goes into the next slot,
/// modulo the buffer length; an earlier one changes nothing.
pub open spec fn recorded(
    before: (Seq<nat>, nat, nat),
    after: (Seq<nat>, nat, nat),
    price: nat,
    timestamp: nat,
) -> bool {
    if timestamp >= before.2 + UPDATE_INTERVAL {
        let next = ((before.1 + 1) as int % (HISTORY_LEN as int)) as nat;
        after == (before.0.update(next as int, price), next, timestamp)
    } else {
        after == before
    }
}

/// Some `r` with `is_isqrt(x, r)`; there is exactly one.
pub open spec fn isqrt_spec(x: nat) -> nat {
    choose|r: nat| is_isqrt(x, r)
}

/// The annualised volatility of history `h` seen from price `current`.
pub open spec fn volatility_spec(h: Seq<nat>, current: nat) -> Option<nat> {
    match accumulate(h, current, h.len()) {
        None => None,
        Some((sum, valid, _)) => if valid == 0 {
            Some(0)
        } else {
            match div_c(mul_c(Some(sum), WAD as nat), valid) {
                None => None,
                Some(avg) => div_c(
                    mul_c(Some(isqrt_spec(avg)), isqrt_spec(SAMPLES_PER_YEAR as nat)),
                    SQRT_WAD as nat,
                ),
            }
        },
    }
}

proof fn lemma_power_monotone(b: nat, i: nat, j: nat)
    requires
        b >= 1,
        i <= j,
    ensures
        natural_power(b, i) <= natural_power(b, j),
    decreases j,
{
    if i < j {
        lemma_power_monotone(b, i, (j - 1) as nat);
        let q = natural_power(b, (j - 1) as nat);
        assert(q <= b * q) by (nonlinear_arith) requires b >= 1;
    }
}

proof fn lemma_power_base_monotone(i: nat)
    ensures
        natural_power(95, i) <= natural_power(100, i),
    decreases i,
{
    if i > 0 {
        lemma_power_base_monotone((i - 1) as nat);
        let a = natural_power(95, (i - 1) as nat);
        let c = natural_power(100, (i - 1) as nat);
        assert(95 * a <= 100 * c) by (nonlinear_arith) requires a <= c;
    }
}

/// `95^i / 100^i`, the weight of slot `i`.
fn decay_weight(i: usize) -> (r: Uint256)
    requires
        i < HISTORY_LEN,
    ensures
        r.value() == slot_decay(i as nat),
{
    proof {
        reveal_with_fuel(natural_power, 30);
        assert(natural_power(100, 29) == 10_000_000_000_000_000_000_000_000_000_000_000_000_000_000_000_000_000_000_000nat);
    }
    let mut num = Uint256::from_u64(1);
    let mut den = Uint256::from_u64(1);
    let mut j: usize = 0;
    while j < i
        invariant
            j <= i < HISTORY_LEN,
            num.value() == natural_power(95, j as nat),
            den.value() == natural_power(100, j as nat),
            natural_power(100, 29) <= u256_max(),
        decreases i - j,
    {
        proof {
            lemma_power_monotone(100, (j + 1) as nat, 29);
            lemma_power_base_monotone((j + 1) as nat);
        }
        num = checked_mul(num, Uint256::from_u64(95)).unwrap();
        den = checked_mul(den, Uint256::from_u64(100)).unwrap();
        j = j + 1;
    }
    proof {
        assert(den.value() > 0) by {
            lemma_power_monotone(100, 0, j as nat);
        }
    }
    checked_div(num, den).unwrap()
}

/// Exec form of `sample_step`.
fn take_sample(sum: Uint256, last: Uint256, p: Uint256, i: usize) -> (r: Result<Uint256, Error>)
    requires
        i < HISTORY_LEN,
    ensures
        outcome(r, sample_step(sum.value(), last.value(), p.value(), i as nat)),
{
    let diff = if lt(last, p) {
        checked_sub(p, last).unwrap()
    } else {
        checked_sub(last, p).unwrap()
    };
    let ret = wad_div(diff, p)?;
    let sq = wad_mul(ret, ret)?;
    let weighted = try_mul(sq, decay_weight(i))?;
    let w = try_div(weighted, Uint256::from_u64(WAD))?;
    try_add(sum, w)
}

proof fn lemma_accumulate_fails(h: Seq<nat>, current: nat, n: nat, m: nat)
    requires
        accumulate(h, current, n) is None,
        n <= m,
    ensures
        accumulate(h, current, m) is None,
    decreases m,
{
    if n < m {
        lemma_accumulate_fails(h, current, n, (m - 1) as nat);
    }
}

pub proof fn lemma_isqrt_unique(x: nat, r: nat)
    requires
        is_isqrt(x, r),
    ensures
        isqrt_spec(x) == r,
{
    let s = isqrt_spec(x);
    assert(is_isqrt(x, s));
    if s < r {
        assert((s + 1) * (s + 1) <= r * r) by (nonlinear_arith) requires s + 1 <= r;
    } else if r < s {
        assert((r + 1) * (r + 1) <= s * s) by (nonlinear_arith) requires r + 1 <= s;
    }
}

proof fn lemma_accumulate_zero_history(h: Seq<nat>, current: nat, n: nat)
    requires
        n <= h.len(),
        forall|i: int| 0 <= i < h.len() ==> h[i] == 0,
    ensures
        accumulate(h, current, n) == Some((0nat, 0nat, current)),
    decreases n,
{
    if n > 0 {
        lemma_accumulate_zero_history(h, current, (n - 1) as nat);
    }
}

/// A history with no sample in it gives volatility zero, whatever the current price.
pub proof fn lemma_empty_history_zero_volatility(h: Seq<nat>, current: nat)
    requires
        forall|i: int| 0 <= i < h.len() ==> h[i] == 0,
    ensures
        volatility_spec(h, current) == Some(0nat),
{
    lemma_accumulate_zero_history(h, current, h.len());
}

/// Two updates whose timestamps are less than `UPDATE_INTERVAL` apart leave the pool as
/// the first one left it, provided the first took its sample or the second comes before
/// the interval since the pool's earlier sample has passed.
pub proof fn lemma_update_gate_idempotent(
    before: (Seq<nat>, nat, nat),
    middle: (Seq<nat>, nat, nat),
    after: (Seq<nat>, nat, nat),
    price: nat,
    timestamp: nat,
    price2: nat,
    timestamp2: nat,
)
    requires
        recorded(before, middle, price, timestamp),
        recorded(middle, after, price2, timestamp2),
        timestamp2 < timestamp + UPDATE_INTERVAL,
        timestamp >= before.2 + UPDATE_INTERVAL || timestamp2 < before.2 + UPDATE_INTERVAL,
    ensures
        after == middle,
{
}

impl PoolState {
    /// The state of a pool never written to: every field zero.
    pub fn new() -> (r: PoolState)
        ensures
            r.wf(),
            r.history() == Seq::new(HISTORY_LEN as nat, |i: int| 0nat),
            r.price_update_index == 0,
            r.price_data_timestamp.value() == 0,
            r.historical_il.value() == 0,
    {
        let mut price_history: Vec<Uint256> = Vec::new();
        let mut i: usize = 0;
        while i < HISTORY_LEN
            invariant
                i <= HISTORY_LEN,
                price_history@.len() == i,
                forall|j: int| 0 <= j < i ==> price_history@[j].value() == 0,
            decreases HISTORY_LEN - i,
        {
            price_history.push(Uint256::from_u64(0));
            i = i + 1;
        }
        let r = PoolState {
            price_history,
            price_update_index: 0,
            price_data_timestamp: Uint256::from_u64(0),
            historical_il: Uint256::from_u64(0),
        };
        assert(r.history() =~= Seq::new(HISTORY_LEN as nat, |i: int| 0nat));
        r
    }

    /// The buffer holds exactly `HISTORY_LEN` slots and the cursor points into it.
    pub open spec fn wf(&self) -> bool {
        self.price_history@.len() == HISTORY_LEN && self.price_update_index < HISTORY_LEN
    }

    /// `(history, update index, timestamp of the latest sample)`.
    pub open spec fn model(&self) -> (Seq<nat>, nat, nat) {
        (self.history(), self.price_update_index as nat, self.price_data_timestamp.value())
    }

    /// The price history as numbers.
    pub open spec fn history(&self) -> Seq<nat> {
        self.price_history@.map_values(|p: Uint256| p.value())
    }

    /// The volatility of the stored history, seen from `current_price`.
    pub fn estimate(&self, current_price: Uint256) -> (r: Result<Uint256, Error>)
        requires
            self.wf(),
        ensures
            outcome(r, volatility_spec(self.history(), current_price.value())),
    {
        let ghost h = self.history();
        let ghost cur = current_price.value();
        let mut sum = Uint256::from_u64(0);
        let mut valid: u64 = 0;
        let mut last = current_price;
        let mut i: usize = 0;
        while i < HISTORY_LEN
            invariant
                self.wf(),
                h == self.history(),
                cur == current_price.value(),
                i <= HISTORY_LEN,
                valid <= i,
                accumulate(h, cur, i as nat) == Some((sum.value(), valid as nat, last.value())),
            decreases HISTORY_LEN - i,
        {
            let p = self.price_history[i];
            assert(h[i as int] == p.value());
            if !p.is_zero() {
                match take_sample(sum, last, p, i) {
                    Ok(s) => {
                        sum = s;
                        valid = valid + 1;
                        last = p;
                    },
                    Err(e) => {
                        proof {
                            lemma_accumulate_fails(h, cur, (i + 1) as nat, HISTORY_LEN as nat);
                        }
                        return Err(e);
                    },
                }
            }
            i = i + 1;
        }
        if valid == 0 {
            return Ok(Uint256::from_u64(0));
        }
        let scaled = try_mul(sum, Uint256::from_u64(WAD))?;
        let avg = try_div(scaled, Uint256::from_u64(valid))?;
        let root = isqrt(avg);
        let year_root = isqrt(Uint256::from_u64(SAMPLES_PER_YEAR));
        proof {
            lemma_isqrt_unique(avg.value(), root.value());
            lemma_isqrt_unique(SAMPLES_PER_YEAR as nat, year_root.value());
        }
        let annual = try_mul(root, year_root)?;
        try_div(annual, Uint256::from_u64(SQRT_WAD))
    }

    /// Takes `current_price` into the history when `timestamp` is at least an hour past the
    /// latest sample (the next slot, modulo the buffer length), then estimates the
    /// volatility of the history as it then stands.
    pub fn update_and_estimate(&mut self, current_price: Uint256, timestamp: Uint256) -> (r: Result<
        Uint256,
        Error,
    >)
        requires
            old(self).wf(),
        ensures
            final(self).wf(),
            final(self).historical_il == old(self).historical_il,
            old(self).price_data_timestamp.value() + UPDATE_INTERVAL > u256_max() ==> r == Err::<
                Uint256,
                Error,
            >(Error::CalculationError) && final(self).model() == old(self).model(),
            old(self).price_data_timestamp.value() + UPDATE_INTERVAL <= u256_max() ==> {
                &&& recorded(old(self).model(), final(self).model(), current_price.value(), timestamp.value())
                &&& outcome(r, volatility_spec(final(self).history(), current_price.value()))
            },
    {
        let due = try_add(self.price_data_timestamp, Uint256::from_u64(UPDATE_INTERVAL))?;
        if !lt(timestamp, due) {
            let next = (self.price_update_index + 1) % HISTORY_LEN;
            self.price_history.set(next, current_price);
            self.price_update_index = next;
            self.price_data_timestamp = timestamp;
            assert(self.history() =~= old(self).history().update(next as int, current_price.value()));
        }
        self.estimate(current_price)
    }
}

} // verus!
