//! Common event signatures.

use vstd::prelude::*;

verus! {

/// `Transfer(address,address,uint256)`.
pub const TRANSFER: u32 = 0xddf2_52ad;

/// `Approval(address,address,uint256)`.
pub const APPROVAL: u32 = 0x8c5b_e1e5;

/// `Deposit(address,uint256)`.
pub const DEPOSIT: u32 = 0xe1ff_fcc4;

/// `Withdrawal(address,uint256)`.
pub const WITHDRAWAL: u32 = 0x7fcf_532c;

/// `Swap(address,uint256,uint256,uint256,uint256,address)`.
pub const SWAP: u32 = 0xd78a_d95f;

} // verus!
