//! Field tags of market data messages.

use vstd::prelude::*;

verus! {

/// Message type.
pub const MSG_TYPE: u16 = 35;

/// Sender.
pub const SENDER_COMP_ID: u16 = 49;

/// Target.
pub const TARGET_COMP_ID: u16 = 56;

/// Message sequence number.
pub const MSG_SEQ_NUM: u16 = 34;

/// Sending time.
pub const SENDING_TIME: u16 = 52;

/// Symbol.
pub const SYMBOL: u16 = 55;

/// Security.
pub const SECURITY_ID: u16 = 48;

/// Market data update type.
pub const MD_UPDATE_TYPE: u16 = 264;

/// Market data entry type.
pub const MD_ENTRY_TYPE: u16 = 269;

/// Market data entry price.
pub const MD_ENTRY_PRICE: u16 = 270;

/// Market data entry size.
pub const MD_ENTRY_SIZE: u16 = 271;

/// Number of market data entries.
pub const NUMBER_OF_ENTRIES: u16 = 268;

/// Checksum.
pub const CHECK_SUM: u16 = 10;

} // verus!
