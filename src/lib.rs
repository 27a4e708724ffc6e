//! Risk-adjusted insurance and flash-loan fees for liquidity pools, computed in
//! checked 256-bit fixed-point arithmetic, with a per-pool decayed volatility estimate.
use vstd::prelude::*;

pub mod word;
pub mod math;
pub mod volatility;
pub mod fees;
pub mod calculator;

pub use word::Uint256;
pub use math::{Error, WAD, isqrt, wad_mul, wad_div};
pub use volatility::PoolState;
pub use calculator::{InsuranceCalculator, PoolId};

verus! {

} // verus!
