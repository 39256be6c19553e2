//! Transfer sanity checks.
use vstd::prelude::*;
use crate::guards_ranges::web3::Address;

verus! {

#[derive(Debug, Clone, Copy, PartialEq, Eq, Structural)]
pub enum ValidateResult {
    Accepted,
    ZeroAddress,
    ZeroAmount,
    Overflow,
}

/// Whether every byte of the address is zero.
pub open spec fn is_zero_addr(a: Address) -> bool {
    forall|i: int| 0 <= i < 20 ==> a@[i] == 0
}

fn zero_addr(a: &Address) -> (r: bool)
    ensures
        r == is_zero_addr(*a),
{
    let mut i: usize = 0;
    while i < 20
        invariant
            i <= 20,
            forall|k: int| 0 <= k < i ==> a@[k] == 0,
        decreases 20 - i,
    {
        if a[i] != 0 {
            return false;
        }
        i = i + 1;
    }
    true
}

pub open spec fn validate_spec(from: Address, to: Address, amount: u128) -> ValidateResult {
    if is_zero_addr(from) || is_zero_addr(to) {
        ValidateResult::ZeroAddress
    } else if amount == 0 {
        ValidateResult::ZeroAmount
    } else if amount > u128::MAX / 2 {
        ValidateResult::Overflow
    } else {
        ValidateResult::Accepted
    }
}

pub fn validate(from: Address, to: Address, amount: u128) -> (r: ValidateResult)
    ensures
        r == validate_spec(from, to, amount),
{
    if zero_addr(&from) || zero_addr(&to) {
        ValidateResult::ZeroAddress
    } else if amount == 0 {
        ValidateResult::ZeroAmount
    } else if amount > u128::MAX / 2 {
        ValidateResult::Overflow
    } else {
        ValidateResult::Accepted
    }
}

} // verus!
