//! WAD-scaled checked arithmetic and the integer square root.
use vstd::prelude::*;
use vstd::arithmetic::div_mod::*;
use crate::word::{Uint256, u256_max, checked_add, checked_sub, checked_mul, checked_div, lt};

verus! {

/// One in fixed point: 10^18.
pub const WAD: u64 = 1_000_000_000_000_000_000;

/// The ways a fee computation can fail.
#[derive(Clone, Copy, Debug, PartialEq, Eq)]
pub enum Error {
    /// An arithmetic step overflowed, underflowed or divided by zero.
    CalculationError,
    /// Malformed parameters; no computation of this library reports it.
    InvalidInput,
}

/// Checked sum on 256-bit values; `None` stands for a failed step.
pub open spec fn add_c(a: Option<nat>, b: nat) -> Option<nat> {
    match a {
        Some(a) => if a + b <= u256_max() { Some(a + b) } else { None },
        None => None,
    }
}

/// Checked difference on 256-bit values.
pub open spec fn sub_c(a: Option<nat>, b: nat) -> Option<nat> {
    match a {
        Some(a) => if b <= a { Some((a - b) as nat) } else { None },
        None => None,
    }
}

/// Checked product on 256-bit values.
pub open spec fn mul_c(a: Option<nat>, b: nat) -> Option<nat> {
    match a {
        Some(a) => if a * b <= u256_max() { Some(a * b) } else { None },
        None => None,
    }
}

/// Checked quotient, rounded down; `None` when dividing by zero.
pub open spec fn div_c(a: Option<nat>, b: nat) -> Option<nat> {
    match a {
        Some(a) => if b != 0 { Some(a / b) } else { None },
        None => None,
    }
}

/// `a * b / WAD`, checked.
pub open spec fn wad_mul_spec(a: nat, b: nat) -> Option<nat> {
    div_c(mul_c(Some(a), b), WAD as nat)
}

/// `a * WAD / b`, checked.
pub open spec fn wad_div_spec(a: nat, b: nat) -> Option<nat> {
    div_c(mul_c(Some(a), WAD as nat), b)
}

/// Whether `r` is the result that `expected` describes: `Ok` with that value,
/// or `CalculationError` where `expected` is `None`.
pub open spec fn outcome(r: Result<Uint256, Error>, expected: Option<nat>) -> bool {
    match r {
        Ok(v) => expected == Some(v.value()),
        Err(e) => expected is None && e == Error::CalculationError,
    }
}

pub fn try_add(a: Uint256, b: Uint256) -> (r: Result<Uint256, Error>)
    ensures
        outcome(r, add_c(Some(a.value()), b.value())),
{
    match checked_add(a, b) {
        Some(v) => Ok(v),
        None => Err(Error::CalculationError),
    }
}

pub fn try_sub(a: Uint256, b: Uint256) -> (r: Result<Uint256, Error>)
    ensures
        outcome(r, sub_c(Some(a.value()), b.value())),
{
    match checked_sub(a, b) {
        Some(v) => Ok(v),
        None => Err(Error::CalculationError),
    }
}

pub fn try_mul(a: Uint256, b: Uint256) -> (r: Result<Uint256, Error>)
    ensures
        outcome(r, mul_c(Some(a.value()), b.value())),
{
    match checked_mul(a, b) {
        Some(v) => Ok(v),
        None => Err(Error::CalculationError),
    }
}

pub fn try_div(a: Uint256, b: Uint256) -> (r: Result<Uint256, Error>)
    ensures
        outcome(r, div_c(Some(a.value()), b.value())),
{
    match checked_div(a, b) {
        Some(v) => Ok(v),
        None => Err(Error::CalculationError),
    }
}

/// Fixed-point product `a * b / WAD`.
pub fn wad_mul(a: Uint256, b: Uint256) -> (r: Result<Uint256, Error>)
    ensures
        outcome(r, wad_mul_spec(a.value(), b.value())),
{
    let p = try_mul(a, b)?;
    try_div(p, Uint256::from_u64(WAD))
}

/// Fixed-point quotient `a * WAD / b`.
pub fn wad_div(a: Uint256, b: Uint256) -> (r: Result<Uint256, Error>)
    ensures
        outcome(r, wad_div_spec(a.value(), b.value())),
{
    let p = try_mul(a, Uint256::from_u64(WAD))?;
    try_div(p, b)
}

/// `r` is the integer square root of `x`: the largest integer whose square is at most `x`.
pub open spec fn is_isqrt(x: nat, r: nat) -> bool {
    r * r <= x && x < (r + 1) * (r + 1)
}

pub open spec fn sq(k: int) -> int {
    k * k
}

/// One Newton step from `z` never falls below a number whose square is at most `x`.
proof fn lemma_newton_step_bound(x: int, z: int, k: int)
    requires
        z >= 1,
        k >= 0,
        sq(k) <= x,
    ensures
        (x / z + z) / 2 >= k,
{
    assert(z * (2 * k - z) <= k * k) by (nonlinear_arith);
    if 2 * k - z > 0 {
        let q = x / z;
        lemma_fundamental_div_mod(x, z);
        assert(x % z < z) by {
            lemma_mod_pos_bound(x, z);
        }
        if q < 2 * k - z {
            assert(x < (q + 1) * z) by (nonlinear_arith)
                requires x == z * q + x % z, x % z < z;
            assert((q + 1) * z <= z * (2 * k - z)) by (nonlinear_arith)
                requires q + 1 <= 2 * k - z, z >= 1;
            assert(false);
        }
    }
}

/// A Newton step from `z` does not overflow: `x / z + z` fits in 256 bits.
proof fn lemma_newton_step_fits(x: int, z: int)
    requires
        1 <= z < x,
        x <= u256_max(),
        z <= x - x / 2,
        x >= 0x8000_0000_0000_0000_0000_0000_0000_0000_0000_0000_0000_0000_0000_0000_0000_0000
            ==> z >= 0x8000_0000_0000_0000_0000_0000_0000_0000,
    ensures
        x / z + z <= u256_max(),
{
    lemma_div_is_ordered_by_denominator(x, 1, z);
    if x >= 0x8000_0000_0000_0000_0000_0000_0000_0000_0000_0000_0000_0000_0000_0000_0000_0000 {
        let k: int = 0x8000_0000_0000_0000_0000_0000_0000_0000;
        lemma_div_is_ordered_by_denominator(x, k, z);
        lemma_div_is_ordered(x, u256_max() as int, k);
        lemma_fundamental_div_mod(u256_max() as int, k);
        lemma_mod_pos_bound(u256_max() as int, k);
        assert(u256_max() as int / k < 0x2_0000_0000_0000_0000_0000_0000_0000_0000) by (nonlinear_arith)
            requires u256_max() as int == k * (u256_max() as int / k) + u256_max() as int % k,
                u256_max() as int % k >= 0,
                k == 0x8000_0000_0000_0000_0000_0000_0000_0000;
    }
}

/// Where the next Newton step does not go below `y`, `y` squared is at most `x`.
proof fn lemma_newton_stop(x: int, y: int)
    requires
        y >= 1,
        x >= 0,
        (x / y + y) / 2 >= y,
    ensures
        y * y <= x,
{
    let q = x / y;
    lemma_fundamental_div_mod(x, y);
    lemma_mod_pos_bound(x, y);
    assert(q >= y);
    assert(x == y * q + x % y);
    assert(y * y <= y * q) by (nonlinear_arith)
        requires q >= y, y >= 1;
}

/// Integer square root by Newton's iteration: start from `z = (x + 1) / 2`, `y = x`,
/// and step `y = z; z = (x / z + z) / 2` while `z < y`; the answer is `y`.
pub fn isqrt(x: Uint256) -> (r: Uint256)
    ensures
        is_isqrt(x.value(), r.value()),
{
    let xv = Ghost(x.value() as int);
    let two = Uint256::from_u64(2);
    let half = checked_div(x, two).unwrap();
    // (x + 1) / 2, computed as x - x / 2 so that it cannot overflow.
    let mut z = checked_sub(x, half).unwrap();
    let mut y = x;
    if x.is_zero() {
        assert(is_isqrt(0, 0)) by (nonlinear_arith);
        return y;
    }
    assert(z.value() == (xv@ / xv@ + xv@) / 2) by {
        lemma_div_by_self(xv@);
    }
    proof {
        assert forall|k: int| k >= 0 && sq(k) <= xv@ implies k <= xv@ by {
            if k > xv@ {
                assert(k * k > xv@) by (nonlinear_arith) requires k > xv@, xv@ >= 1;
            }
        }
        assert forall|k: int| k >= 0 && sq(k) <= xv@ implies k <= z.value() by {
            lemma_newton_step_bound(xv@, xv@, k);
            lemma_div_by_self(xv@);
        }
    }
    while lt(z, y)
        invariant
            xv@ == x.value() as int,
            xv@ >= 1,
            two.value() == 2,
            y.value() >= 1,
            y.value() <= xv@,
            z.value() == (xv@ / (y.value() as int) + y.value()) / 2,
            z.value() < y.value() ==> z.value() <= xv@ - xv@ / 2,
            forall|k: int| k >= 0 && sq(k) <= xv@ ==> k <= y.value(),
            forall|k: int| k >= 0 && sq(k) <= xv@ ==> k <= z.value(),
        decreases y.value(),
    {
        let zv = Ghost(z.value() as int);
        assert(sq(1) <= xv@);
        assert(zv@ >= 1);
        let q = checked_div(x, z).unwrap();
        proof {
            let k: int = 0x8000_0000_0000_0000_0000_0000_0000_0000;
            assert(sq(k) == 0x4000_0000_0000_0000_0000_0000_0000_0000_0000_0000_0000_0000_0000_0000_0000_0000);
            lemma_newton_step_fits(xv@, zv@);
        }
        let s = checked_add(q, z).unwrap();
        let nz = checked_div(s, two).unwrap();
        proof {
            assert forall|k: int| k >= 0 && sq(k) <= xv@ implies k <= nz.value() by {
                lemma_newton_step_bound(xv@, zv@, k);
            }
        }
        y = z;
        z = nz;
    }
    proof {
        lemma_newton_stop(xv@, y.value() as int);
        let yv = y.value() as int;
        assert(sq(yv + 1) > xv@);
        assert(sq(yv + 1) == (yv + 1) * (yv + 1));
    }
    y
}

} // verus!
