//! The mathematical model of a ledger's holdings: a finite map from account
//! to balance, in which an account without an entry holds nothing.

use vstd::prelude::*;
use crate::account::AccountId;

verus! {

/// What `account` holds in `holdings`: its entry, or nothing where it has none.
pub open spec fn balance_at(holdings: Map<AccountId, nat>, account: AccountId) -> nat {
    if holdings.dom().contains(account) {
        holdings[account]
    } else {
        0
    }
}

/// The sum of all balances in `holdings`.
pub open spec fn total_of(holdings: Map<AccountId, nat>) -> nat
    decreases holdings.dom().len(),
    when holdings.dom().finite()
{
    if holdings.dom().len() == 0 {
        0
    } else {
        let account = holdings.dom().choose();
        holdings[account] + total_of(holdings.remove(account))
    }
}

/// The holdings after `value` has moved from `from` to `to`: `from` is debited
/// first, and `to` is credited on what the debit left, so that a transfer to
/// oneself changes nothing.
pub open spec fn transferred(
    holdings: Map<AccountId, nat>,
    from: AccountId,
    to: AccountId,
    value: nat,
) -> Map<AccountId, nat>
    recommends
        value <= balance_at(holdings, from),
{
    let debited = holdings.insert(from, (balance_at(holdings, from) - value) as nat);
    debited.insert(to, balance_at(debited, to) + value)
}

/// The holdings after a request to move `value` from `from` to `to`: moved
/// where `from` holds at least `value`, untouched where it holds less.
pub open spec fn after_transfer(
    holdings: Map<AccountId, nat>,
    from: AccountId,
    to: AccountId,
    value: nat,
) -> Map<AccountId, nat> {
    if value <= balance_at(holdings, from) {
        transferred(holdings, from, to, value)
    } else {
        holdings
    }
}

/// The sum of all balances is the balance of any one account with an entry
/// plus the sum over the others.
pub proof fn lemma_total_split(holdings: Map<AccountId, nat>, account: AccountId)
    requires
        holdings.dom().finite(),
        holdings.dom().contains(account),
    ensures
        total_of(holdings) == holdings[account] + total_of(holdings.remove(account)),
    decreases holdings.dom().len(),
{
    let first = holdings.dom().choose();
    if first != account {
        let rest = holdings.remove(first);
        lemma_total_split(rest, account);
        lemma_total_split(holdings.remove(account), first);
        assert(rest.remove(account) =~= holdings.remove(account).remove(first));
    }
}

/// Writing an entry changes the sum by the difference between the new balance
/// and what the account held before.
pub proof fn lemma_total_insert(holdings: Map<AccountId, nat>, account: AccountId, balance: nat)
    requires
        holdings.dom().finite(),
    ensures
        total_of(holdings.insert(account, balance)) == total_of(holdings) - balance_at(
            holdings,
            account,
        ) + balance,
{
    let written = holdings.insert(account, balance);
    lemma_total_split(written, account);
    assert(written.remove(account) =~= holdings.remove(account));
    if holdings.dom().contains(account) {
        lemma_total_split(holdings, account);
    } else {
        assert(holdings.remove(account) =~= holdings);
    }
}

/// No account holds more than the sum of all balances.
pub proof fn lemma_balance_within_total(holdings: Map<AccountId, nat>, account: AccountId)
    requires
        holdings.dom().finite(),
    ensures
        balance_at(holdings, account) <= total_of(holdings),
{
    if holdings.dom().contains(account) {
        lemma_total_split(holdings, account);
    }
}

/// What a transfer does to each account: `value` leaves `from` and reaches
/// `to`, nobody else's balance changes, and where `from` and `to` are one
/// account no balance changes at all.
pub proof fn lemma_transferred_balances(
    holdings: Map<AccountId, nat>,
    from: AccountId,
    to: AccountId,
    value: nat,
    account: AccountId,
)
    requires
        value <= balance_at(holdings, from),
    ensures
        from == to ==> balance_at(transferred(holdings, from, to, value), account) == balance_at(
            holdings,
            account,
        ),
        from != to && account == from ==> balance_at(
            transferred(holdings, from, to, value),
            account,
        ) == balance_at(holdings, from) - value,
        from != to && account == to ==> balance_at(
            transferred(holdings, from, to, value),
            account,
        ) == balance_at(holdings, to) + value,
        account != from && account != to ==> balance_at(
            transferred(holdings, from, to, value),
            account,
        ) == balance_at(holdings, account),
{
}

/// A transfer gives entries to `from` and `to` and to nobody else.
pub proof fn lemma_transferred_accounts(
    holdings: Map<AccountId, nat>,
    from: AccountId,
    to: AccountId,
    value: nat,
)
    ensures
        transferred(holdings, from, to, value).dom() == holdings.dom().insert(from).insert(to),
        holdings.dom().finite() ==> transferred(holdings, from, to, value).dom().finite(),
{
    assert(transferred(holdings, from, to, value).dom() =~= holdings.dom().insert(from).insert(to));
}

/// A transfer leaves the sum of all balances as it was.
pub proof fn lemma_transferred_total(
    holdings: Map<AccountId, nat>,
    from: AccountId,
    to: AccountId,
    value: nat,
)
    requires
        holdings.dom().finite(),
        value <= balance_at(holdings, from),
    ensures
        total_of(transferred(holdings, from, to, value)) == total_of(holdings),
{
    let left = (balance_at(holdings, from) - value) as nat;
    let debited = holdings.insert(from, left);
    lemma_total_insert(holdings, from, left);
    lemma_total_insert(debited, to, balance_at(debited, to) + value);
}

} // verus!
