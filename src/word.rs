//! Unsigned 256-bit integers held as four little-endian 64-bit limbs.
//! The arithmetic itself is done by `ruint` (through `stylus_sdk::alloy_primitives`).
use vstd::prelude::*;
use stylus_sdk::alloy_primitives::U256;

verus! {

/// 2^64.
pub open spec fn limb_base() -> nat {
    0x1_0000_0000_0000_0000nat
}

/// 2^256 - 1, the largest value a `Uint256` holds.
pub open spec fn u256_max() -> nat {
    0xffff_ffff_ffff_ffff_ffff_ffff_ffff_ffff_ffff_ffff_ffff_ffff_ffff_ffff_ffff_ffffnat
}

/// An unsigned 256-bit integer; `limbs[0]` is the least significant limb.
#[derive(Clone, Copy, Debug, PartialEq, Eq)]
pub struct Uint256 {
    pub limbs: [u64; 4],
}

impl Uint256 {
    /// The number this value stands for.
    pub open spec fn value(self) -> nat {
        self.limbs[0] as nat + self.limbs[1] as nat * 0x1_0000_0000_0000_0000nat
            + self.limbs[2] as nat * 0x1_0000_0000_0000_0000_0000_0000_0000_0000nat
            + self.limbs[3] as nat * 0x1_0000_0000_0000_0000_0000_0000_0000_0000_0000_0000_0000_0000nat
    }

    /// The integer `v`.
    pub fn from_u64(v: u64) -> (r: Uint256)
        ensures
            r.value() == v as nat,
    {
        Uint256 { limbs: [v, 0, 0, 0] }
    }

    /// Whether the value is zero.
    pub fn is_zero(&self) -> (r: bool)
        ensures
            r == (self.value() == 0),
    {
        self.limbs[0] == 0 && self.limbs[1] == 0 && self.limbs[2] == 0 && self.limbs[3] == 0
    }
}

/// Relies on ruint's `Uint::checked_add` (limbs in and out through `from_limbs` /
/// `into_limbs`): the sum, or `None` when it exceeds 2^256 - 1.
#[verifier::external_body]
pub(crate) fn checked_add(a: Uint256, b: Uint256) -> (r: Option<Uint256>)
    ensures
        r is Some <==> a.value() + b.value() <= u256_max(),
        r is Some ==> r->0.value() == a.value() + b.value(),
{
    let s = U256::from_limbs(a.limbs).checked_add(U256::from_limbs(b.limbs));
    s.map(|v| Uint256 { limbs: v.into_limbs() })
}

/// Relies on ruint's `Uint::checked_sub`: the difference, or `None` when `b > a`.
#[verifier::external_body]
pub(crate) fn checked_sub(a: Uint256, b: Uint256) -> (r: Option<Uint256>)
    ensures
        r is Some <==> b.value() <= a.value(),
        r is Some ==> r->0.value() == a.value() - b.value(),
{
    let s = U256::from_limbs(a.limbs).checked_sub(U256::from_limbs(b.limbs));
    s.map(|v| Uint256 { limbs: v.into_limbs() })
}

/// Relies on ruint's `Uint::checked_mul`: the product, or `None` when it exceeds
/// 2^256 - 1.
#[verifier::external_body]
pub(crate) fn checked_mul(a: Uint256, b: Uint256) -> (r: Option<Uint256>)
    ensures
        r is Some <==> a.value() * b.value() <= u256_max(),
        r is Some ==> r->0.value() == a.value() * b.value(),
{
    let s = U256::from_limbs(a.limbs).checked_mul(U256::from_limbs(b.limbs));
    s.map(|v| Uint256 { limbs: v.into_limbs() })
}

/// Relies on ruint's `Uint::checked_div`: the quotient rounded down, or `None`
/// when `b` is zero.
#[verifier::external_body]
pub(crate) fn checked_div(a: Uint256, b: Uint256) -> (r: Option<Uint256>)
    ensures
        r is Some <==> b.value() != 0,
        r is Some ==> r->0.value() == a.value() / b.value(),
{
    let s = U256::from_limbs(a.limbs).checked_div(U256::from_limbs(b.limbs));
    s.map(|v| Uint256 { limbs: v.into_limbs() })
}

/// Relies on ruint's `PartialOrd` for `Uint`: numeric order.
#[verifier::external_body]
pub(crate) fn lt(a: Uint256, b: Uint256) -> (r: bool)
    ensures
        r == (a.value() < b.value()),
{
    U256::from_limbs(a.limbs) < U256::from_limbs(b.limbs)
}

} // verus!
