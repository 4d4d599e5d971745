//! A multi-denomination fee-splitting ledger.
//!
//! Deposits are split per denomination: a configured percentage goes to the
//! owner, the remainder is shared between two recipients. Every account can
//! later withdraw what it has been credited.
pub mod split;

pub mod contract;
pub mod error;
pub mod msg;
pub mod state;
