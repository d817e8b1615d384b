//! The ledger: a fixed total supply and the balances it is spread over.

use vstd::prelude::*;
use crate::account::{AccountId, Balance};
use crate::balances::{
    after_transfer, balance_at, lemma_balance_within_total, lemma_total_insert, total_of,
};
use crate::error::Error;
use crate::steps::{balance_or_zero, credit, debit};

verus! {

/// One account's entry in the ledger.
struct Entry {
    account: AccountId,
    balance: Balance,
}

/// The holdings that a sequence of entries stands for; a later entry for an
/// account would replace an earlier one.
spec fn holdings_of(entries: Seq<Entry>) -> Map<AccountId, nat>
    decreases entries.len(),
{
    if entries.len() == 0 {
        Map::empty()
    } else {
        holdings_of(entries.drop_last()).insert(
            entries.last().account,
            entries.last().balance as nat,
        )
    }
}

/// No account has two entries.
spec fn one_entry_each(entries: Seq<Entry>) -> bool {
    forall|i: int, j: int|
        0 <= i < j < entries.len() ==> entries[i].account != entries[j].account
}

/// The accounts of `holdings_of` are those of the entries, and they are
/// finitely many.
proof fn lemma_holdings_domain(entries: Seq<Entry>)
    ensures
        holdings_of(entries).dom().finite(),
        forall|account: AccountId|
            holdings_of(entries).dom().contains(account) <==> exists|i: int|
                0 <= i < entries.len() && #[trigger] entries[i].account == account,
    decreases entries.len(),
{
    if entries.len() > 0 {
        let front = entries.drop_last();
        lemma_holdings_domain(front);
        assert forall|account: AccountId|
            holdings_of(entries).dom().contains(account) implies exists|i: int|
            0 <= i < entries.len() && #[trigger] entries[i].account == account by {
            if account == entries.last().account {
                assert(entries[entries.len() - 1].account == account);
            } else {
                let i = choose|i: int| 0 <= i < front.len() && #[trigger] front[i].account == account;
                assert(entries[i].account == account);
            }
        }
        assert forall|account: AccountId|
            (exists|i: int| 0 <= i < entries.len() && #[trigger] entries[i].account == account)
            implies holdings_of(entries).dom().contains(account) by {
            let i = choose|i: int| 0 <= i < entries.len() && #[trigger] entries[i].account == account;
            if i < front.len() {
                assert(front[i].account == account);
            }
        }
    }
}

/// Where no account has two entries, each entry is what its account holds.
proof fn lemma_holdings_at(entries: Seq<Entry>, i: int)
    requires
        one_entry_each(entries),
        0 <= i < entries.len(),
    ensures
        holdings_of(entries).dom().contains(entries[i].account),
        holdings_of(entries)[entries[i].account] == entries[i].balance,
    decreases entries.len(),
{
    if i < entries.len() - 1 {
        let front = entries.drop_last();
        lemma_holdings_at(front, i);
        assert(front[i] == entries[i]);
    }
}

/// Replacing the balance of an entry writes that balance into the holdings.
proof fn lemma_holdings_update(entries: Seq<Entry>, i: int, balance: Balance)
    requires
        one_entry_each(entries),
        0 <= i < entries.len(),
    ensures
        holdings_of(entries.update(i, Entry { account: entries[i].account, balance }))
            == holdings_of(entries).insert(entries[i].account, balance as nat),
    decreases entries.len(),
{
    let account = entries[i].account;
    let updated = entries.update(i, Entry { account, balance });
    let front = entries.drop_last();
    if i == entries.len() - 1 {
        assert(updated.drop_last() =~= front);
    } else {
        lemma_holdings_update(front, i, balance);
        assert(front[i] == entries[i]);
        assert(updated.drop_last() =~= front.update(i, Entry { account, balance }));
        assert(holdings_of(updated) =~= holdings_of(entries).insert(account, balance as nat));
    }
}

/// Where `account` has an entry, its place among the entries.
fn find(entries: &Vec<Entry>, account: AccountId) -> (r: Option<usize>)
    ensures
        match r {
            Some(i) => i < entries.len() && entries[i as int].account == account,
            None => forall|i: int| 0 <= i < entries.len() ==> entries[i].account != account,
        },
{
    let mut i: usize = 0;
    while i < entries.len()
        invariant
            i <= entries.len(),
            forall|j: int| 0 <= j < i ==> entries[j].account != account,
        decreases entries.len() - i,
    {
        if entries[i].account == account {
            return Some(i);
        }
        i += 1;
    }
    None
}

/// The entry of `account`, where it has one.
fn get(entries: &Vec<Entry>, account: AccountId) -> (r: Option<Balance>)
    requires
        one_entry_each(entries@),
    ensures
        r is Some <==> holdings_of(entries@).dom().contains(account),
        r is Some ==> r->0 == holdings_of(entries@)[account],
{
    proof {
        lemma_holdings_domain(entries@);
    }
    match find(entries, account) {
        Some(i) => {
            proof {
                lemma_holdings_at(entries@, i as int);
            }
            Some(entries[i].balance)
        },
        None => None,
    }
}

/// Makes `balance` what `account` holds, in its entry or in a new one.
fn insert(entries: &mut Vec<Entry>, account: AccountId, balance: Balance)
    requires
        one_entry_each(old(entries)@),
    ensures
        one_entry_each(final(entries)@),
        holdings_of(final(entries)@) == holdings_of(old(entries)@).insert(account, balance as nat),
{
    match find(entries, account) {
        Some(i) => {
            proof {
                lemma_holdings_update(entries@, i as int, balance);
            }
            entries[i] = Entry { account, balance };
            assert(entries@ =~= old(entries)@.update(i as int, Entry { account, balance }));
        },
        None => {
            entries.push(Entry { account, balance });
            assert(entries@.drop_last() =~= old(entries)@);
        },
    }
}

/// A ledger of one token: the total supply, fixed when the ledger is made,
/// and what each account holds of it.
pub struct LiquidZeroDogToken {
    total_supply: Balance,
    entries: Vec<Entry>,
}

impl View for LiquidZeroDogToken {
    type V = Map<AccountId, nat>;

    /// What each account with an entry holds.
    closed spec fn view(&self) -> Map<AccountId, nat> {
        holdings_of(self.entries@)
    }
}

impl Default for LiquidZeroDogToken {
    /// The ledger of a token without supply: nobody holds anything.
    fn default() -> (ledger: Self)
        ensures
            ledger.wf(),
            ledger.supply() == 0,
            ledger@ == Map::<AccountId, nat>::empty(),
    {
        proof {
            assert(holdings_of(Seq::<Entry>::empty()) =~= Map::<AccountId, nat>::empty());
            assert(total_of(Map::<AccountId, nat>::empty()) == 0);
        }
        LiquidZeroDogToken { total_supply: 0, entries: Vec::new() }
    }
}

impl LiquidZeroDogToken {
    /// The total supply that the ledger was made with.
    pub closed spec fn supply(&self) -> nat {
        self.total_supply as nat
    }

    /// The ledger is well formed: no account has two entries, and the balances
    /// add up to the total supply.
    pub closed spec fn wf(&self) -> bool {
        &&& one_entry_each(self.entries@)
        &&& total_of(holdings_of(self.entries@)) == self.total_supply
    }

    /// In a well-formed ledger finitely many accounts have an entry, the
    /// balances add up to the total supply, and no balance is below zero or
    /// above the total supply.
    pub proof fn lemma_supply_conserved(&self)
        requires
            self.wf(),
        ensures
            self@.dom().finite(),
            total_of(self@) == self.supply(),
            self.supply() <= Balance::MAX,
            forall|account: AccountId| 0 <= #[trigger] balance_at(self@, account) <= self.supply(),
    {
        lemma_holdings_domain(self.entries@);
        assert forall|account: AccountId| 0 <= #[trigger] balance_at(self@, account)
            <= self.supply() by {
            lemma_balance_within_total(self@, account);
        }
    }

    /// A ledger in which `caller` holds the whole of `total_supply` and nobody
    /// else holds anything.
    pub fn new(caller: AccountId, total_supply: Balance) -> (ledger: Self)
        ensures
            ledger.wf(),
            ledger.supply() == total_supply,
            ledger@ == Map::<AccountId, nat>::empty().insert(caller, total_supply as nat),
    {
        let mut entries: Vec<Entry> = Vec::new();
        insert(&mut entries, caller, total_supply);
        proof {
            assert(holdings_of(Seq::<Entry>::empty()) =~= Map::<AccountId, nat>::empty());
            assert(total_of(Map::<AccountId, nat>::empty()) == 0);
            lemma_total_insert(Map::<AccountId, nat>::empty(), caller, total_supply as nat);
        }
        LiquidZeroDogToken { total_supply, entries }
    }

    /// The total supply, as fixed when the ledger was made.
    pub fn total_supply(&self) -> (r: Balance)
        ensures
            r == self.supply(),
    {
        self.total_supply
    }

    /// What `owner` holds: nothing where the ledger has no entry for it.
    pub fn balance_of(&self, owner: AccountId) -> (r: Balance)
        requires
            self.wf(),
        ensures
            r == balance_at(self@, owner),
    {
        balance_or_zero(get(&self.entries, owner))
    }

    /// Moves `value` from `caller` to `to`, or refuses with
    /// `InsufficientBalance` and changes nothing where `caller` holds less than
    /// `value`. The debit comes first and the credit is made on what it left,
    /// so a transfer to oneself leaves the balance as it was.
    pub fn transfer(&mut self, caller: AccountId, to: AccountId, value: Balance) -> (r: Result<
        (),
        Error,
    >)
        requires
            old(self).wf(),
        ensures
            final(self).wf(),
            final(self).supply() == old(self).supply(),
            r == if balance_at(old(self)@, caller) < value {
                Err::<(), Error>(Error::InsufficientBalance)
            } else {
                Ok::<(), Error>(())
            },
            final(self)@ == after_transfer(old(self)@, caller, to, value as nat),
            r is Err ==> *final(self) == *old(self),
    {
        let from_balance = self.balance_of(caller);
        let left = match debit(from_balance, value) {
            Ok(left) => left,
            Err(e) => {
                return Err(e);
            },
        };
        let ghost before = self@;
        let ghost debited = before.insert(caller, left as nat);
        proof {
            lemma_holdings_domain(self.entries@);
            lemma_total_insert(before, caller, left as nat);
            lemma_balance_within_total(debited, to);
            lemma_total_insert(debited, to, balance_at(debited, to) + value as nat);
        }
        insert(&mut self.entries, caller, left);
        let to_balance = balance_or_zero(get(&self.entries, to));
        insert(&mut self.entries, to, credit(to_balance, value));
        Ok(())
    }
}

} // verus!
