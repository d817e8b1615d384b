//! Sequences of transfer requests, and what they leave of the holdings.

use vstd::prelude::*;
use crate::account::AccountId;
use crate::balances::{
    after_transfer, balance_at, lemma_transferred_accounts, lemma_transferred_balances,
    lemma_transferred_total, total_of,
};

verus! {

/// A request to move `value` from `from` to `to`.
pub struct Transfer {
    pub from: AccountId,
    pub to: AccountId,
    pub value: nat,
}

/// The holdings after a sequence of requests, taken in order; a request for
/// more than its sender then holds is refused and changes nothing.
pub open spec fn after_transfers(holdings: Map<AccountId, nat>, requests: Seq<Transfer>) -> Map<
    AccountId,
    nat,
>
    decreases requests.len(),
{
    if requests.len() == 0 {
        holdings
    } else {
        let request = requests.last();
        after_transfer(
            after_transfers(holdings, requests.drop_last()),
            request.from,
            request.to,
            request.value,
        )
    }
}

/// Whatever requests are made, in whatever order, and whichever of them are
/// refused, the sum of all balances stays what it was at the start.
pub proof fn lemma_transfers_conserve_total(
    holdings: Map<AccountId, nat>,
    requests: Seq<Transfer>,
)
    requires
        holdings.dom().finite(),
    ensures
        after_transfers(holdings, requests).dom().finite(),
        total_of(after_transfers(holdings, requests)) == total_of(holdings),
    decreases requests.len(),
{
    if requests.len() > 0 {
        let earlier = after_transfers(holdings, requests.drop_last());
        let request = requests.last();
        lemma_transfers_conserve_total(holdings, requests.drop_last());
        if request.value <= balance_at(earlier, request.from) {
            lemma_transferred_accounts(earlier, request.from, request.to, request.value);
            lemma_transferred_total(earlier, request.from, request.to, request.value);
        }
    }
}

/// An account that no request names, as sender or as receiver, holds after
/// the requests what it held before them: an account that held nothing and
/// was never credited still holds nothing.
pub proof fn lemma_unnamed_account_keeps_balance(
    holdings: Map<AccountId, nat>,
    requests: Seq<Transfer>,
    account: AccountId,
)
    requires
        forall|i: int|
            0 <= i < requests.len() ==> requests[i].from != account && requests[i].to != account,
    ensures
        balance_at(after_transfers(holdings, requests), account) == balance_at(holdings, account),
    decreases requests.len(),
{
    if requests.len() > 0 {
        let earlier = after_transfers(holdings, requests.drop_last());
        let request = requests.last();
        assert forall|i: int| 0 <= i < requests.drop_last().len() implies requests.drop_last()[i].from
            != account && requests.drop_last()[i].to != account by {
            assert(requests.drop_last()[i] == requests[i]);
        }
        lemma_unnamed_account_keeps_balance(holdings, requests.drop_last(), account);
        assert(request == requests[requests.len() - 1]);
        if request.value <= balance_at(earlier, request.from) {
            lemma_transferred_balances(earlier, request.from, request.to, request.value, account);
        }
    }
}

} // verus!
