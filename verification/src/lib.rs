//! A fungible-token ledger: a fixed total supply spread over account balances,
//! moved between accounts by transfers that conserve the supply.

pub mod account;
pub mod balances;
pub mod error;
pub mod history;
pub mod ledger;
pub mod steps;

pub use account::{AccountId, Balance};
pub use error::Error;
pub use ledger::LiquidZeroDogToken;
