//! Accounts of the ledger.
use vstd::prelude::*;
use crate::address_map::Address;

verus! {

/// An account: its address, its balance and the number of transactions it has sent.
#[derive(Debug, Clone, Copy, PartialEq, Eq)]
pub struct Account {
    pub address: Address,
    pub balance: u64,
    pub nonce: u64,
}

} // verus!
