//! The state of the contract: its configuration and its four tables.

use vstd::prelude::*;
use crate::channel::Channels;
use crate::coin::Coin;
use crate::factory::FactoryBridge;
use crate::ledger::DenomTraceLedger;
use crate::registry::AccountRegistry;

verus! {

/// How listings are paged.
#[derive(Clone, Copy, Debug, PartialEq, Eq, Structural)]
pub struct Config {
    /// The length of a page where the query names none.
    pub default_limit: u32,
    /// The greatest length of a page.
    pub max_limit: u32,
}

/// What the contract is set up with.
#[derive(Clone, Debug, PartialEq, Eq)]
pub struct InstantiateMsg {
    /// The checksum of the code of an account.
    pub account_checksum: Vec<u8>,
    /// The canonical address of the factory, which creates the accounts.
    pub factory: Vec<u8>,
    pub default_limit: u32,
    pub max_limit: u32,
    /// What the chain charges for the creation of a voucher token.
    pub token_creation_fee: Vec<Coin>,
}

/// All that the contract keeps from one call to the next.
#[derive(Debug)]
pub struct State {
    pub config: Config,
    pub channels: Channels,
    pub accounts: AccountRegistry,
    pub factory: FactoryBridge,
    pub traces: DenomTraceLedger,
}

impl State {
    /// Every table of the state is sound.
    pub open spec fn wf(&self) -> bool {
        &&& self.channels.wf()
        &&& self.accounts.wf()
        &&& self.factory.wf()
        &&& self.traces.wf()
    }
}

} // verus!
