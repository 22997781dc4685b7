use vstd::prelude::*;

verus! {

/// How a foreign ledger's balances are merged into the local one:
/// `Replace` overwrites the local balance, `Increment` adds to it with
/// checked arithmetic.
#[derive(Clone, Copy, Debug, PartialEq, Eq, Structural)]
pub enum BalanceCopyMode {
    Replace,
    Increment,
}

/// A structured ledger-change event fanned out to registered listeners.
#[derive(Clone, Copy, Debug, PartialEq, Eq, Structural)]
pub enum BalanceChangeEvent {
    Transfer { initiator: u64, recipient: u64, amount: u128 },
    Burn { initiator: u64, amount: u128 },
    Mint { initiator: u64, recipient: u64, amount: u128 },
}

/// The interface offered by observer contracts; each listener receives one
/// such call per ledger change.
#[derive(Clone, Copy, Debug, PartialEq, Eq, Structural)]
pub enum BalanceChangeListenerInterface {
    OnBalanceChange { event: BalanceChangeEvent },
}

/// One outbound fire-and-forget call to a registered listener.
#[derive(Clone, Copy, Debug, PartialEq, Eq, Structural)]
pub struct ListenerSubMsg {
    pub contract_addr: u64,
    pub msg: BalanceChangeListenerInterface,
}

/// One (recipient, amount) pair of a mint request.
#[derive(Clone, Copy, Debug, PartialEq, Eq, Structural)]
pub struct MintParams {
    pub address: u64,
    pub amount: u128,
}

/// One entry of a balance listing.
#[derive(Clone, Copy, Debug, PartialEq, Eq, Structural)]
pub struct AccountBalance {
    pub address: u64,
    pub amount: u128,
}

/// A page of ranked balances; `cursor` is present exactly when more entries
/// may follow, and absent when the listing is complete.
#[derive(Clone, Debug, PartialEq, Eq)]
pub struct BalancesResponse {
    pub balances: Vec<AccountBalance>,
    pub cursor: Option<(u128, u64)>,
}

#[derive(Clone, Copy, Debug, PartialEq, Eq, Structural)]
pub struct MigrateMsg {}

} // verus!
