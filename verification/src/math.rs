use vstd::prelude::*;

use crate::error::ContractError;

verus! {

/// Checked addition of two 64-bit counters; wraparound is surfaced, never
/// clamped.
pub fn add_u64(a: u64, b: u64) -> (r: Result<u64, ContractError>)
    ensures
        a + b <= u64::MAX ==> (r matches Ok(c) && c == a + b),
        a + b > u64::MAX ==> (r matches Err(e) && e is ArithmeticOverflow),
{
    if a <= u64::MAX - b {
        Ok(a + b)
    } else {
        Err(ContractError::ArithmeticOverflow)
    }
}

/// Checked subtraction of two 64-bit counters.
pub fn sub_u64(a: u64, b: u64) -> (r: Result<u64, ContractError>)
    ensures
        b <= a ==> (r matches Ok(c) && c == a - b),
        b > a ==> (r matches Err(e) && e is ArithmeticUnderflow),
{
    if b <= a {
        Ok(a - b)
    } else {
        Err(ContractError::ArithmeticUnderflow)
    }
}

/// Checked addition of two token amounts.
pub fn add_u128(a: u128, b: u128) -> (r: Result<u128, ContractError>)
    ensures
        a + b <= u128::MAX ==> (r matches Ok(c) && c == a + b),
        a + b > u128::MAX ==> (r matches Err(e) && e is ArithmeticOverflow),
{
    if a <= u128::MAX - b {
        Ok(a + b)
    } else {
        Err(ContractError::ArithmeticOverflow)
    }
}

/// Checked subtraction of two token amounts.
pub fn sub_u128(a: u128, b: u128) -> (r: Result<u128, ContractError>)
    ensures
        b <= a ==> (r matches Ok(c) && c == a - b),
        b > a ==> (r matches Err(e) && e is ArithmeticUnderflow),
{
    if b <= a {
        Ok(a - b)
    } else {
        Err(ContractError::ArithmeticUnderflow)
    }
}

/// A 256-bit unsigned integer, wide enough for the running minted and burned
/// totals to never realistically wrap over a token's lifetime.
#[derive(Clone, Copy, Debug, PartialEq, Eq, Structural)]
pub struct U256 {
    pub hi: u128,
    pub lo: u128,
}

impl U256 {
    /// The mathematical value represented: `hi * 2^128 + lo`.
    pub open spec fn value(self) -> int {
        self.hi * 0x1_0000_0000_0000_0000_0000_0000_0000_0000 + self.lo
    }

    pub open spec fn max_value() -> int {
        0x1_0000_0000_0000_0000_0000_0000_0000_0000
            * 0x1_0000_0000_0000_0000_0000_0000_0000_0000 - 1
    }

    pub fn zero() -> (r: U256)
        ensures
            r.value() == 0,
    {
        U256 { hi: 0, lo: 0 }
    }
}

/// Checked addition of a token amount into a 256-bit running total.
pub fn add_u256(a: U256, b: u128) -> (r: Result<U256, ContractError>)
    ensures
        a.value() + b <= U256::max_value() ==> (r matches Ok(c) && c.value() == a.value() + b),
        a.value() + b > U256::max_value() ==> (r matches Err(e) && e is ArithmeticOverflow),
{
    if a.lo <= u128::MAX - b {
        Ok(U256 { hi: a.hi, lo: a.lo + b })
    } else if a.hi < u128::MAX {
        // the low limb wraps: lo + b - 2^128, with a carry into the high limb
        Ok(U256 { hi: a.hi + 1, lo: b - (u128::MAX - a.lo) - 1 })
    } else {
        Err(ContractError::ArithmeticOverflow)
    }
}

} // verus!
