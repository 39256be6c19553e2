//! Calldata classification by length and selector.
use vstd::prelude::*;

verus! {

#[derive(Debug, Clone, Copy, PartialEq, Eq, Structural)]
pub enum CalldataKind {
    Empty,
    Erc20Transfer,
    Erc20Approve,
    ContractCall,
}

/// Whether `s` begins with the four bytes `a b c d`.
pub open spec fn starts_with4(s: Seq<u8>, a: u8, b: u8, c: u8, d: u8) -> bool {
    s.len() >= 4 && s[0] == a && s[1] == b && s[2] == c && s[3] == d
}

/// Empty input; ERC-20 `transfer` / `approve` selectors on inputs of 4 to 68 bytes;
/// anything else is a contract call.
pub open spec fn classify_spec(input: Seq<u8>) -> CalldataKind {
    if input.len() == 0 {
        CalldataKind::Empty
    } else if 4 <= input.len() <= 68 && starts_with4(input, 0xa9, 0x05, 0x9c, 0xbb) {
        CalldataKind::Erc20Transfer
    } else if 4 <= input.len() <= 68 && starts_with4(input, 0x09, 0x5e, 0xa7, 0xb3) {
        CalldataKind::Erc20Approve
    } else {
        CalldataKind::ContractCall
    }
}

pub fn classify(input: &[u8]) -> (r: CalldataKind)
    ensures
        r == classify_spec(input@),
{
    let n = input.len();
    if n == 0 {
        CalldataKind::Empty
    } else if n >= 4 && n <= 68 && input[0] == 0xa9 && input[1] == 0x05 && input[2] == 0x9c && input[3] == 0xbb {
        CalldataKind::Erc20Transfer
    } else if n >= 4 && n <= 68 && input[0] == 0x09 && input[1] == 0x5e && input[2] == 0xa7 && input[3] == 0xb3 {
        CalldataKind::Erc20Approve
    } else {
        CalldataKind::ContractCall
    }
}

} // verus!
