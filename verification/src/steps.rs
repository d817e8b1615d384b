//! The rules of the ledger on single balances: how a missing entry reads, and
//! the two steps of a transfer.

use vstd::prelude::*;
use crate::account::Balance;
use crate::error::Error;

verus! {

/// What an account holds, given its entry if it has one: an account without
/// an entry holds nothing.
pub fn balance_or_zero(entry: Option<Balance>) -> (r: Balance)
    ensures
        r == match entry {
            Some(balance) => balance,
            None => 0,
        },
{
    match entry {
        Some(balance) => balance,
        None => 0,
    }
}

/// Takes `value` out of `balance`: what is left, or `InsufficientBalance`
/// where `balance` is less than `value`.
pub fn debit(balance: Balance, value: Balance) -> (r: Result<Balance, Error>)
    ensures
        r == if balance < value {
            Err::<Balance, Error>(Error::InsufficientBalance)
        } else {
            Ok::<Balance, Error>((balance - value) as Balance)
        },
{
    if balance < value {
        Err(Error::InsufficientBalance)
    } else {
        Ok(balance - value)
    }
}

/// Adds `value` to `balance`.
pub fn credit(balance: Balance, value: Balance) -> (r: Balance)
    requires
        balance + value <= Balance::MAX,
    ensures
        r == balance + value,
{
    balance + value
}

} // verus!
