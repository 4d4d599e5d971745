use vstd::prelude::*;

verus! {

/// Why an operation on the ledger failed. A failed operation changes nothing.
#[derive(Clone, Copy, Debug, PartialEq, Eq, Structural)]
pub enum ContractError {
    /// A withdrawal asked for more than the account holds in that denomination.
    InsufficientBalanceError { balance: u128, requested: u128 },
    /// Setup was asked for a fee above one hundred percent.
    InvalidFeePercentageError { fees: u8 },
    /// The ledger has no configuration yet.
    NotInitialized,
    /// The ledger already has a configuration, which is never replaced.
    AlreadyInitialized,
    /// A credit would take a balance past the largest representable amount.
    ArithmeticOverflow,
    /// A debit would take a balance below zero.
    Underflow,
}

} // verus!
