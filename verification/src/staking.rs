//! Event records of a token-staking ledger, as plain data.
//!
//! The ledger itself runs on a contract runtime that the library does not
//! model; what it reports are these records. An account is identified by 32
//! raw bytes and balances are 128-bit amounts.

use vstd::prelude::*;

verus! {

/// An account identifier: 32 raw bytes.
#[derive(Debug, Clone, Copy, PartialEq, Eq)]
pub struct AccountId(pub [u8; 32]);

/// A token amount.
pub type Balance = u128;

/// Tokens moved between accounts; `None` stands for minting or burning.
pub struct Transfer {
    pub from: Option<AccountId>,
    pub to: Option<AccountId>,
    pub value: Balance,
}

/// A spender was approved to draw from an owner's account.
pub struct Approval {
    pub owner: AccountId,
    pub spender: AccountId,
    pub value: Balance,
}

/// A user staked an amount at a time.
pub struct Stake {
    pub user: AccountId,
    pub amount: Balance,
    pub staked_at: u64,
}

/// A user unstaked an amount of a token, with the reward accrued so far.
pub struct Unstake {
    pub user: AccountId,
    pub amount: Balance,
    pub token_addr: AccountId,
    pub reward: Balance,
    pub unstaked_at: u64,
}

/// A user withdrew previously unstaked tokens.
pub struct WithdrawUnstaked {
    pub user: AccountId,
    pub amount: Balance,
    pub withdraw_at: u64,
}

/// A user withdrew reward tokens.
pub struct WithdrawRewards {
    pub user: AccountId,
    pub amount: Balance,
    pub withdraw_at: u64,
}

/// The owner withdrew a user's tokens, leaving the new balance.
pub struct WithdrawByOwner {
    pub user: AccountId,
    pub token_addr: AccountId,
    pub amount: Balance,
    pub new_balance: Balance,
}

/// The reward rate of a token was changed.
pub struct SetRewardRate {
    pub token_addr: AccountId,
    pub new_reward_rate: Balance,
}

} // verus!
