//! The library's stated laws: properties that relate several operations,
//! proved once and for all over the transition functions of [`crate::model`].

use vstd::prelude::*;

use crate::data::MarketView;
use crate::errors::MarketError;
use crate::data::OfferView;
use crate::data::SharePairView;
use crate::data::CreditEntryView;
use crate::model::ContractView;
use crate::model::credit_apply;
use crate::model::credit_balance;
use crate::model::credit_has;
use crate::model::credit_index;
use crate::model::credit_ok;
use crate::model::credit_unique;
use crate::model::lemma_credit_apply_unique;
use crate::model::lemma_settle_credits_sum;
use crate::model::lemma_settle_credits_unique;
use crate::model::lemma_sum_credit_remove;
use crate::model::lemma_sum_markets_push;
use crate::model::lemma_sum_markets_update;
use crate::model::lemma_sum_offers_push;
use crate::model::lemma_sum_offers_remove;
use crate::model::lemma_sum_pairs_push;
use crate::model::payout_of;
use crate::model::settle_credits;
use crate::model::settle_ok;
use crate::model::winner_of;
use crate::model::winnings_of;
use crate::model::market_escrow;
use crate::model::new_market;
use crate::model::offer_has;
use crate::model::offer_index;
use crate::model::st_accept_offer;
use crate::model::st_close_market;
use crate::model::st_create_market;
use crate::model::st_create_offer;
use crate::model::st_init;
use crate::model::st_withdraw;

verus! {

/// The freshly initialized state is well formed; in particular it
/// conserves value trivially.
pub proof fn lemma_init_wf()
    ensures
        st_init().wf(),
{
}


/// Creating a market preserves the invariant: the new market starts open
/// with no positions, so it escrows nothing and conservation is untouched.
pub proof fn lemma_create_market_preserves_wf(s: ContractView, description: Seq<char>, owner: Seq<char>)
    requires
        s.wf(),
        s.markets.len() < u32::MAX,
    ensures
        st_create_market(s, description, owner).wf(),
{
    let m = new_market(s.markets.len() as u32, description, owner);
    lemma_sum_markets_push(s.markets, m);
    assert(market_escrow(m) == 0);
}

/// Creating an offer preserves the invariant: the fresh id sits above
/// every stored id, and the new escrow is matched by the same deposit.
pub proof fn lemma_create_offer_preserves_wf(
    s: ContractView,
    market_id: u32,
    is_long: bool,
    account: Seq<char>,
    amount: u128,
)
    requires
        s.wf(),
    ensures
        st_create_offer(s, market_id, is_long, account, amount).0.wf(),
{
    if amount != 0 && s.next_offer_id != u32::MAX {
        let o = OfferView { id: s.next_offer_id, market_id, is_long, account_id: account, amount };
        let s2 = st_create_offer(s, market_id, is_long, account, amount).0;
        lemma_sum_offers_push(s.offers, o);
        assert forall|i: int, j: int| 0 <= i < j < s2.offers.len() implies (
        #[trigger] s2.offers[i]).id != (#[trigger] s2.offers[j]).id by {
            if j < s.offers.len() {
                assert(s2.offers[i] == s.offers[i]);
                assert(s2.offers[j] == s.offers[j]);
            } else {
                assert(s2.offers[i] == s.offers[i]);
                assert(s2.offers[j] == o);
                assert(s.offers[i].id < s.next_offer_id);
            }
        }
        assert forall|i: int| 0 <= i < s2.offers.len() implies (#[trigger] s2.offers[i]).id
            < s2.next_offer_id && s2.offers[i].amount > 0 by {
            if i < s.offers.len() {
                assert(s2.offers[i] == s.offers[i]);
            } else {
                assert(s2.offers[i] == o);
            }
        }
    }
}

/// Accepting an offer preserves the invariant: the offer's escrow and the
/// acceptor's equal deposit together become the new position's two-sided
/// collateral, so conservation is exact.
pub proof fn lemma_accept_offer_preserves_wf(
    s: ContractView,
    offer_id: u32,
    acceptor: Seq<char>,
    amount: u128,
)
    requires
        s.wf(),
    ensures
        st_accept_offer(s, offer_id, acceptor, amount).0.wf(),
{
    let (s2, r) = st_accept_offer(s, offer_id, acceptor, amount);
    if r is Ok {
        let i = offer_index(s.offers, offer_id);
        assert(0 <= i < s.offers.len() && s.offers[i].id == offer_id);
        let o = s.offers[i];
        let mid = o.market_id as int;
        let m = s.markets[mid];
        let pair = SharePairView {
            long: if o.is_long { o.account_id } else { acceptor },
            short: if o.is_long { acceptor } else { o.account_id },
            amount,
        };
        let m2 = MarketView { shares: m.shares.push(pair), ..m };
        lemma_sum_pairs_push(m.shares, pair);
        lemma_sum_markets_update(s.markets, mid, m2);
        lemma_sum_offers_remove(s.offers, i);
        assert forall|k: int| 0 <= k < s2.markets.len() implies (#[trigger] s2.markets[k]).id
            == k by {
            if k != mid {
                assert(s2.markets[k] == s.markets[k]);
            }
        }
        assert forall|k: int, j: int|
            0 <= k < s2.markets.len() && 0 <= j < s2.markets[k].shares.len() implies (
        #[trigger] s2.markets[k].shares[j]).amount > 0 by {
            if k == mid {
                if j < m.shares.len() {
                    assert(s2.markets[k].shares[j] == m.shares[j]);
                    assert(s.markets[mid].shares[j].amount > 0);
                } else {
                    assert(s2.markets[k].shares[j] == pair);
                }
            } else {
                assert(s2.markets[k] == s.markets[k]);
                assert(s.markets[k].shares[j].amount > 0);
            }
        }
        assert forall|a: int, b: int| 0 <= a < b < s2.offers.len() implies (
        #[trigger] s2.offers[a]).id != (#[trigger] s2.offers[b]).id by {
            let sa = if a < i { a } else { a + 1 };
            let sb = if b < i { b } else { b + 1 };
            assert(s2.offers[a] == s.offers[sa]);
            assert(s2.offers[b] == s.offers[sb]);
        }
        assert forall|a: int| 0 <= a < s2.offers.len() implies (#[trigger] s2.offers[a]).id
            < s2.next_offer_id && s2.offers[a].amount > 0 by {
            let sa = if a < i { a } else { a + 1 };
            assert(s2.offers[a] == s.offers[sa]);
        }
    }
}

/// Crediting an account raises exactly that account's balance, by exactly
/// the payout, and leaves every other balance alone.
pub proof fn lemma_credit_apply_balance(
    credit: Seq<CreditEntryView>,
    account: Seq<char>,
    pay: u128,
    other: Seq<char>,
)
    requires
        credit_unique(credit),
        credit_ok(credit, account, pay as int),
    ensures
        credit_balance(credit_apply(credit, account, pay), account) == credit_balance(
            credit,
            account,
        ) + pay,
        other != account ==> credit_balance(credit_apply(credit, account, pay), other)
            == credit_balance(credit, other),
{
    let c2 = credit_apply(credit, account, pay);
    lemma_credit_apply_unique(credit, account, pay);
    if credit_has(credit, account) {
        let i = credit_index(credit, account);
        assert(0 <= i < credit.len() && credit[i].account_id == account);
        assert(c2[i] == CreditEntryView {
            account_id: account,
            amount: (credit[i].amount + pay) as u128,
        });
        assert(0 <= i < c2.len() && c2[i].account_id == account);
        assert(credit_has(c2, account));
        let i2 = credit_index(c2, account);
        assert(0 <= i2 < c2.len() && c2[i2].account_id == account);
        assert(i2 == i);
        if other != account {
            if credit_has(credit, other) {
                let j = credit_index(credit, other);
                assert(0 <= j < credit.len() && credit[j].account_id == other);
                assert(j != i);
                assert(c2[j].account_id == other);
                assert(credit_has(c2, other));
                let j2 = credit_index(c2, other);
                assert(0 <= j2 < c2.len() && c2[j2].account_id == other);
                assert(j2 == j);
            } else {
                assert forall|k: int| 0 <= k < c2.len() implies (#[trigger] c2[k]).account_id
                    != other by {
                    if k == i {
                        assert(c2[k].account_id == account);
                    } else {
                        assert(c2[k].account_id == credit[k].account_id);
                    }
                }
                assert(!credit_has(c2, other));
            }
        }
    } else {
        let i = credit.len() as int;
        assert(c2[i] == CreditEntryView { account_id: account, amount: pay });
        assert(0 <= i < c2.len() && c2[i].account_id == account);
        assert(credit_has(c2, account));
        let i2 = credit_index(c2, account);
        assert(0 <= i2 < c2.len() && c2[i2].account_id == account);
        assert forall|k: int| 0 <= k < credit.len() implies (#[trigger] credit[k]).account_id
            != account by {}
        assert(i2 == i);
        assert(credit_balance(credit, account) == 0);
        if other != account {
            if credit_has(credit, other) {
                let j = credit_index(credit, other);
                assert(0 <= j < credit.len() && credit[j].account_id == other);
                assert(c2[j].account_id == other);
                assert(credit_has(c2, other));
                let j2 = credit_index(c2, other);
                assert(0 <= j2 < c2.len() && c2[j2].account_id == other);
                assert(j2 == j);
            } else {
                assert forall|k: int| 0 <= k < c2.len() implies (#[trigger] c2[k]).account_id
                    != other by {
                    if k < credit.len() {
                        assert(c2[k].account_id == credit[k].account_id);
                    } else {
                        assert(c2[k].account_id == account);
                    }
                }
                assert(!credit_has(c2, other));
            }
        }
    }
}

/// Exactly-once consumption of offers: after one successful acceptance of
/// an offer id, any further acceptance of the same id, by anyone and with
/// any positive amount, fails with `NotFound`.
pub proof fn lemma_accept_offer_exactly_once(
    s: ContractView,
    offer_id: u32,
    first_acceptor: Seq<char>,
    first_amount: u128,
    second_acceptor: Seq<char>,
    second_amount: u128,
)
    requires
        s.wf(),
        st_accept_offer(s, offer_id, first_acceptor, first_amount).1 is Ok,
        second_amount > 0,
    ensures
        st_accept_offer(
            st_accept_offer(s, offer_id, first_acceptor, first_amount).0,
            offer_id,
            second_acceptor,
            second_amount,
        ).1 == Err::<(), MarketError>(MarketError::NotFound),
{
    let s1 = st_accept_offer(s, offer_id, first_acceptor, first_amount).0;
    let i = offer_index(s.offers, offer_id);
    assert(0 <= i < s.offers.len() && s.offers[i].id == offer_id);
    assert forall|j: int| 0 <= j < s1.offers.len() implies (#[trigger] s1.offers[j]).id
        != offer_id by {
        let sj = if j < i { j } else { j + 1 };
        assert(s1.offers[j] == s.offers[sj]);
        assert(s.offers[i].id == offer_id);
    }
    assert(!offer_has(s1.offers, offer_id));
}

/// A market closes exactly once: after one successful close, a second
/// close of the same market, by anyone and towards either side, fails
/// with `AlreadyClosed` and leaves the state — the positions list
/// included — unchanged.
pub proof fn lemma_close_market_exactly_once(
    s: ContractView,
    market_id: u32,
    first_side: bool,
    first_caller: Seq<char>,
    second_side: bool,
    second_caller: Seq<char>,
)
    requires
        s.wf(),
        st_close_market(s, market_id, first_side, first_caller).1 is Ok,
    ensures
        st_close_market(
            st_close_market(s, market_id, first_side, first_caller).0,
            market_id,
            second_side,
            second_caller,
        ).1 == Err::<(), MarketError>(MarketError::AlreadyClosed),
        st_close_market(
            st_close_market(s, market_id, first_side, first_caller).0,
            market_id,
            second_side,
            second_caller,
        ).0 == st_close_market(s, market_id, first_side, first_caller).0,
{
    let s1 = st_close_market(s, market_id, first_side, first_caller).0;
    assert(!s1.markets[market_id as int].is_open);
}


/// Settlement credits each account with exactly the sum of twice its
/// stakes over the positions it wins — one credit per position, never
/// netted or deduplicated — and touches no other account's balance.
pub proof fn lemma_settle_credits_balance(
    credit: Seq<CreditEntryView>,
    pairs: Seq<SharePairView>,
    long_wins: bool,
    account: Seq<char>,
)
    requires
        credit_unique(credit),
        settle_ok(credit, pairs, long_wins),
    ensures
        credit_balance(settle_credits(credit, pairs, long_wins), account) == credit_balance(
            credit,
            account,
        ) + winnings_of(pairs, account, long_wins),
    decreases pairs.len(),
{
    if pairs.len() > 0 {
        let rest = pairs.drop_last();
        lemma_settle_credits_balance(credit, rest, long_wins, account);
        lemma_settle_credits_unique(credit, rest, long_wins);
        let c1 = settle_credits(credit, rest, long_wins);
        let w = winner_of(pairs.last(), long_wins);
        lemma_credit_apply_balance(c1, w, payout_of(pairs.last()) as u128, account);
    }
}

/// Closing a market pays the winners and nobody else: afterwards, every
/// account's balance is its old balance plus twice its stake in each of
/// that market's positions it won.
pub proof fn lemma_close_market_pays_winners(
    s: ContractView,
    market_id: u32,
    long_wins: bool,
    caller: Seq<char>,
    account: Seq<char>,
)
    requires
        s.wf(),
        st_close_market(s, market_id, long_wins, caller).1 is Ok,
    ensures
        credit_balance(st_close_market(s, market_id, long_wins, caller).0.credit, account)
            == credit_balance(s.credit, account) + winnings_of(
            s.markets[market_id as int].shares,
            account,
            long_wins,
        ),
{
    lemma_settle_credits_balance(s.credit, s.markets[market_id as int].shares, long_wins, account);
}

/// Closing a market preserves the invariant: the closed market stops
/// escrowing its positions' two-sided collateral, and settlement credits
/// exactly that collateral to the winners, so conservation is exact.
pub proof fn lemma_close_market_preserves_wf(
    s: ContractView,
    market_id: u32,
    long_wins: bool,
    caller: Seq<char>,
)
    requires
        s.wf(),
    ensures
        st_close_market(s, market_id, long_wins, caller).0.wf(),
{
    let (s2, r) = st_close_market(s, market_id, long_wins, caller);
    if r is Ok {
        let mid = market_id as int;
        let m = s.markets[mid];
        let m2 = MarketView { is_open: false, ..m };
        lemma_sum_markets_update(s.markets, mid, m2);
        lemma_settle_credits_sum(s.credit, m.shares, long_wins);
        lemma_settle_credits_unique(s.credit, m.shares, long_wins);
        assert forall|k: int| 0 <= k < s2.markets.len() implies (#[trigger] s2.markets[k]).id
            == k by {
            if k != mid {
                assert(s2.markets[k] == s.markets[k]);
            }
        }
        assert forall|k: int, j: int|
            0 <= k < s2.markets.len() && 0 <= j < s2.markets[k].shares.len() implies (
        #[trigger] s2.markets[k].shares[j]).amount > 0 by {
            if k == mid {
                assert(s2.markets[k].shares[j] == s.markets[mid].shares[j]);
                assert(s.markets[mid].shares[j].amount > 0);
            } else {
                assert(s2.markets[k] == s.markets[k]);
                assert(s.markets[k].shares[j].amount > 0);
            }
        }
    }
}

/// Withdrawing preserves the invariant: the removed entry's balance moves,
/// whole, from the ledger total to the withdrawn total.
pub proof fn lemma_withdraw_preserves_wf(s: ContractView, account: Seq<char>)
    requires
        s.wf(),
    ensures
        st_withdraw(s, account).0.wf(),
{
    if credit_has(s.credit, account) {
        let s2 = st_withdraw(s, account).0;
        let i = credit_index(s.credit, account);
        assert(0 <= i < s.credit.len() && s.credit[i].account_id == account);
        lemma_sum_credit_remove(s.credit, i);
        assert forall|a: int, b: int| 0 <= a < b < s2.credit.len() implies (
        #[trigger] s2.credit[a]).account_id != (#[trigger] s2.credit[b]).account_id by {
            let sa = if a < i { a } else { a + 1 };
            let sb = if b < i { b } else { b + 1 };
            assert(s2.credit[a] == s.credit[sa]);
            assert(s2.credit[b] == s.credit[sb]);
        }
    }
}

} // verus!

