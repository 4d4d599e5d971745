use vstd::prelude::*;

verus! {

/// Sets the ledger up: the caller becomes the owner, `fees` is the percentage
/// of every deposit that the owner collects.
#[derive(Clone, Copy, Debug, PartialEq, Eq, Structural)]
pub struct InstantiateMsg {
    pub fees: u8,
}

/// The operations that change the ledger.
#[derive(Debug)]
pub enum ExecuteMsg {
    /// Splits the attached funds between the owner and two accounts.
    Send { account1: String, account2: String },
    /// Withdraws `amount` of `denom` from the caller's balance.
    Withdraw { amount: u128, denom: String },
    /// Withdraws the caller's whole balance of `denom`.
    WithdrawAll { denom: String },
}

/// The read-only queries.
#[derive(Debug)]
pub enum QueryMsg {
    /// The account that collects the fees.
    GetOwner {},
    /// The fee percentage.
    GetFees {},
    /// What `account` holds in `denom`.
    GetBalance { account: String, denom: String },
}

#[derive(Debug)]
pub struct GetOwnerResponse {
    pub owner: String,
}

#[derive(Clone, Copy, Debug, PartialEq, Eq, Structural)]
pub struct GetFeesResponse {
    pub fees: u8,
}

#[derive(Clone, Copy, Debug, PartialEq, Eq, Structural)]
pub struct GetBalanceResponse {
    pub balance: u128,
}

/// The answer to a query.
#[derive(Debug)]
pub enum QueryResponse {
    Owner(GetOwnerResponse),
    Fees(GetFeesResponse),
    Balance(GetBalanceResponse),
}

/// An amount of one denomination attached to a call.
#[derive(Debug)]
pub struct Coin {
    pub denom: String,
    pub amount: u128,
}

/// Who makes a call, and the funds attached to it.
#[derive(Debug)]
pub struct MessageInfo {
    pub sender: String,
    pub funds: Vec<Coin>,
}

/// An instruction to move `amount` of `denom` out of the ledger to `to_address`.
#[derive(Debug)]
pub struct BankSend {
    pub to_address: String,
    pub denom: String,
    pub amount: u128,
}

/// The outbound transfers that an operation asks for.
#[derive(Debug)]
pub struct Response {
    pub messages: Vec<BankSend>,
}

} // verus!
