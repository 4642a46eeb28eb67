//! The mathematical model: the contract's view, the conservation-of-value
//! invariant, and one transition function per operation. Every executable
//! operation's contract says that its result and its new state are exactly
//! what the corresponding transition function yields.

use vstd::prelude::*;

use crate::data::CreditEntryView;
use crate::data::EventView;
use crate::data::MarketView;
use crate::data::OfferView;
use crate::data::SharePairView;
use crate::data::ViewMarketView;
use crate::errors::MarketError;

verus! {

/// The element-wise view of a sequence of viewable values.
pub open spec fn views_of<T: View>(s: Seq<T>) -> Seq<T::V> {
    Seq::new(s.len(), |i: int| s[i]@)
}

/// The whole ledger state: the market registry, the offer book, the credit
/// ledger, the event log, and two ghost running totals that let the
/// conservation invariant speak about the full history of deposits and
/// withdrawals.
#[verifier::ext_equal]
pub ghost struct ContractView {
    pub next_offer_id: u32,
    pub markets: Seq<MarketView>,
    pub offers: Seq<OfferView>,
    pub credit: Seq<CreditEntryView>,
    pub events: Seq<EventView>,
    /// Total value ever deposited via offer creation and acceptance.
    pub deposited: int,
    /// Total value ever paid out via withdrawal.
    pub withdrawn: int,
}

// ---------------------------------------------------------------------
// Escrow sums
// ---------------------------------------------------------------------

/// Total escrow held by pending offers.
pub open spec fn sum_offers(s: Seq<OfferView>) -> int
    decreases s.len(),
{
    if s.len() == 0 {
        0
    } else {
        sum_offers(s.drop_last()) + s.last().amount
    }
}

/// Total stake recorded by a sequence of matched positions, one side only.
pub open spec fn sum_pairs(s: Seq<SharePairView>) -> int
    decreases s.len(),
{
    if s.len() == 0 {
        0
    } else {
        sum_pairs(s.drop_last()) + s.last().amount
    }
}

/// Collateral a single market still holds: both sides of every position
/// while it is open, nothing once it has been closed and settled.
pub open spec fn market_escrow(m: MarketView) -> int {
    if m.is_open {
        2 * sum_pairs(m.shares)
    } else {
        0
    }
}

/// Collateral held across all markets.
pub open spec fn sum_markets(s: Seq<MarketView>) -> int
    decreases s.len(),
{
    if s.len() == 0 {
        0
    } else {
        sum_markets(s.drop_last()) + market_escrow(s.last())
    }
}

/// Total balance owed by the credit ledger.
pub open spec fn sum_credit(s: Seq<CreditEntryView>) -> int
    decreases s.len(),
{
    if s.len() == 0 {
        0
    } else {
        sum_credit(s.drop_last()) + s.last().amount
    }
}

// ---------------------------------------------------------------------
// Credit ledger helpers
// ---------------------------------------------------------------------

/// Whether the ledger holds an entry for `account`.
pub open spec fn credit_has(credit: Seq<CreditEntryView>, account: Seq<char>) -> bool {
    exists|i: int| 0 <= i < credit.len() && credit[i].account_id == account
}

/// The index of `account`'s entry; meaningful only when `credit_has` holds
/// and entries are unique.
pub open spec fn credit_index(credit: Seq<CreditEntryView>, account: Seq<char>) -> int {
    choose|i: int| 0 <= i < credit.len() && credit[i].account_id == account
}

/// The balance the ledger owes `account` (zero when it has no entry).
pub open spec fn credit_balance(credit: Seq<CreditEntryView>, account: Seq<char>) -> int {
    if credit_has(credit, account) {
        credit[credit_index(credit, account)].amount as int
    } else {
        0
    }
}

/// No account owns two ledger entries.
pub open spec fn credit_unique(credit: Seq<CreditEntryView>) -> bool {
    forall|i: int, j: int|
        0 <= i < j < credit.len() ==> (#[trigger] credit[i]).account_id != (
        #[trigger] credit[j]).account_id
}

/// Whether crediting `account` with `pay` stays within the value type.
pub open spec fn credit_ok(credit: Seq<CreditEntryView>, account: Seq<char>, pay: int) -> bool {
    credit_balance(credit, account) + pay <= u128::MAX
}

/// The ledger after crediting `account` with `pay`: the existing entry is
/// increased, or a fresh entry is appended.
pub open spec fn credit_apply(
    credit: Seq<CreditEntryView>,
    account: Seq<char>,
    pay: u128,
) -> Seq<CreditEntryView> {
    if credit_has(credit, account) {
        let i = credit_index(credit, account);
        credit.update(i, CreditEntryView { account_id: account, amount: (credit[i].amount + pay) as u128 })
    } else {
        credit.push(CreditEntryView { account_id: account, amount: pay })
    }
}

// ---------------------------------------------------------------------
// Settlement
// ---------------------------------------------------------------------

/// The account a position pays when the market resolves.
pub open spec fn winner_of(p: SharePairView, long_wins: bool) -> Seq<char> {
    if long_wins {
        p.long
    } else {
        p.short
    }
}

/// The payout of a settled position: the winner recovers their own stake
/// plus the loser's equal stake.
pub open spec fn payout_of(p: SharePairView) -> int {
    2 * p.amount
}

/// The credit ledger after settling `pairs` in order, crediting each
/// position's winner independently (no netting across positions).
pub open spec fn settle_credits(
    credit: Seq<CreditEntryView>,
    pairs: Seq<SharePairView>,
    long_wins: bool,
) -> Seq<CreditEntryView>
    decreases pairs.len(),
{
    if pairs.len() == 0 {
        credit
    } else {
        let rest = settle_credits(credit, pairs.drop_last(), long_wins);
        credit_apply(rest, winner_of(pairs.last(), long_wins), payout_of(pairs.last()) as u128)
    }
}

/// Whether settling `pairs` stays within the value type at every step.
pub open spec fn settle_ok(
    credit: Seq<CreditEntryView>,
    pairs: Seq<SharePairView>,
    long_wins: bool,
) -> bool
    decreases pairs.len(),
{
    if pairs.len() == 0 {
        true
    } else {
        let rest = pairs.drop_last();
        settle_ok(credit, rest, long_wins) && payout_of(pairs.last()) <= u128::MAX && credit_ok(
            settle_credits(credit, rest, long_wins),
            winner_of(pairs.last(), long_wins),
            payout_of(pairs.last()),
        )
    }
}


/// The total payout a settlement owes one account: twice its stake in
/// every position it wins, summed position by position.
pub open spec fn winnings_of(pairs: Seq<SharePairView>, account: Seq<char>, long_wins: bool) -> int
    decreases pairs.len(),
{
    if pairs.len() == 0 {
        0
    } else {
        winnings_of(pairs.drop_last(), account, long_wins) + if winner_of(
            pairs.last(),
            long_wins,
        ) == account {
            payout_of(pairs.last())
        } else {
            0
        }
    }
}

/// The credit notifications settlement emits, one per position, in
/// position order.
pub open spec fn settle_events(pairs: Seq<SharePairView>, long_wins: bool) -> Seq<EventView>
    decreases pairs.len(),
{
    if pairs.len() == 0 {
        Seq::empty()
    } else {
        settle_events(pairs.drop_last(), long_wins).push(
            EventView::Credit {
                account_id: winner_of(pairs.last(), long_wins),
                amount: payout_of(pairs.last()) as u128,
            },
        )
    }
}

// ---------------------------------------------------------------------
// Offer book helpers
// ---------------------------------------------------------------------

/// Whether the offer book holds an offer with this id.
pub open spec fn offer_has(offers: Seq<OfferView>, offer_id: u32) -> bool {
    exists|i: int| 0 <= i < offers.len() && offers[i].id == offer_id
}

/// The index of the offer with this id; meaningful only when `offer_has`
/// holds and ids are unique.
pub open spec fn offer_index(offers: Seq<OfferView>, offer_id: u32) -> int {
    choose|i: int| 0 <= i < offers.len() && offers[i].id == offer_id
}

/// No two offers share an id.
pub open spec fn offers_unique(offers: Seq<OfferView>) -> bool {
    forall|i: int, j: int|
        0 <= i < j < offers.len() ==> (#[trigger] offers[i]).id != (#[trigger] offers[j]).id
}

/// The offers that target one market, in book order.
pub open spec fn offers_for(offers: Seq<OfferView>, market_id: u32) -> Seq<OfferView>
    decreases offers.len(),
{
    if offers.len() == 0 {
        Seq::empty()
    } else {
        let rest = offers_for(offers.drop_last(), market_id);
        if offers.last().market_id == market_id {
            rest.push(offers.last())
        } else {
            rest
        }
    }
}

// ---------------------------------------------------------------------
// Well-formedness
// ---------------------------------------------------------------------

impl ContractView {
    /// Conservation of value: pending offer escrow, open-position
    /// collateral, and credited balances, together with everything already
    /// withdrawn, account exactly for everything ever deposited.
    pub open spec fn conserves(self) -> bool {
        sum_offers(self.offers) + sum_markets(self.markets) + sum_credit(self.credit)
            + self.withdrawn == self.deposited
    }

    /// Every market sits at the index its id names, and every recorded
    /// position holds a positive stake.
    pub open spec fn markets_wf(self) -> bool {
        &&& forall|i: int| 0 <= i < self.markets.len() ==> (#[trigger] self.markets[i]).id == i
        &&& forall|i: int, j: int|
            0 <= i < self.markets.len() && 0 <= j < self.markets[i].shares.len() ==> (
            #[trigger] self.markets[i].shares[j]).amount > 0
    }

    /// Offer ids are unique, below the monotonic counter, and every
    /// pending offer escrows a positive amount.
    pub open spec fn offers_wf(self) -> bool {
        &&& offers_unique(self.offers)
        &&& forall|i: int|
            0 <= i < self.offers.len() ==> (#[trigger] self.offers[i]).id < self.next_offer_id
                && self.offers[i].amount > 0
    }

    /// The state invariant every operation preserves.
    pub open spec fn wf(self) -> bool {
        &&& self.markets_wf()
        &&& self.offers_wf()
        &&& credit_unique(self.credit)
        &&& self.deposited >= 0
        &&& self.withdrawn >= 0
        &&& self.conserves()
    }
}

// ---------------------------------------------------------------------
// Transitions
// ---------------------------------------------------------------------

/// The freshly initialized state: empty tables, nothing deposited.
pub open spec fn st_init() -> ContractView {
    ContractView {
        next_offer_id: 0,
        markets: Seq::empty(),
        offers: Seq::empty(),
        credit: Seq::empty(),
        events: Seq::empty(),
        deposited: 0,
        withdrawn: 0,
    }
}

/// A new market record.
pub open spec fn new_market(id: u32, description: Seq<char>, owner: Seq<char>) -> MarketView {
    MarketView { id, is_open: true, description, owner, shares: Seq::empty() }
}

/// The read-only projection of a market.
pub open spec fn market_projection(m: MarketView) -> ViewMarketView {
    ViewMarketView {
        id: m.id,
        is_open: m.is_open,
        description: m.description,
        owner: m.owner,
        shares: m.shares.len() as usize,
    }
}

/// `create_market`: append a fresh open market whose id is its index.
pub open spec fn st_create_market(
    s: ContractView,
    description: Seq<char>,
    owner: Seq<char>,
) -> ContractView {
    let id = s.markets.len() as u32;
    ContractView {
        markets: s.markets.push(new_market(id, description, owner)),
        events: s.events.push(EventView::MarketCreated { market_id: id, owner }),
        ..s
    }
}

/// `create_offer`: escrow a fresh one-sided bet under the next offer id.
pub open spec fn st_create_offer(
    s: ContractView,
    market_id: u32,
    is_long: bool,
    account: Seq<char>,
    amount: u128,
) -> (ContractView, Result<OfferView, MarketError>) {
    if amount == 0 {
        (s, Err(MarketError::InvalidAmount))
    } else if s.next_offer_id == u32::MAX {
        (s, Err(MarketError::ArithmeticOverflow))
    } else {
        let o = OfferView { id: s.next_offer_id, market_id, is_long, account_id: account, amount };
        (
            ContractView {
                next_offer_id: (s.next_offer_id + 1) as u32,
                offers: s.offers.push(o),
                deposited: s.deposited + amount,
                events: s.events.push(
                    EventView::OfferCreated {
                        offer_id: s.next_offer_id,
                        market_id,
                        is_long,
                        account_id: account,
                        amount,
                    },
                ),
                ..s
            },
            Ok(o),
        )
    }
}

/// `append_position`: record a matched pair on a market that still exists
/// and is still open.
pub open spec fn st_append_position(
    s: ContractView,
    market_id: u32,
    pair: SharePairView,
) -> (ContractView, Result<(), MarketError>) {
    if market_id >= s.markets.len() {
        (s, Err(MarketError::NotFound))
    } else if !s.markets[market_id as int].is_open {
        (s, Err(MarketError::MarketClosed))
    } else {
        let m = s.markets[market_id as int];
        (
            ContractView {
                markets: s.markets.update(
                    market_id as int,
                    MarketView { shares: m.shares.push(pair), ..m },
                ),
                ..s
            },
            Ok(()),
        )
    }
}

/// `accept_offer`: consume a pending offer exactly once and convert it,
/// together with the acceptor's equal escrow, into a matched position.
/// All checks precede every state change, so a failing call commits
/// nothing.
pub open spec fn st_accept_offer(
    s: ContractView,
    offer_id: u32,
    acceptor: Seq<char>,
    amount: u128,
) -> (ContractView, Result<(), MarketError>) {
    if amount == 0 {
        (s, Err(MarketError::InvalidAmount))
    } else if !offer_has(s.offers, offer_id) {
        (s, Err(MarketError::NotFound))
    } else {
        let i = offer_index(s.offers, offer_id);
        let o = s.offers[i];
        if o.amount != amount {
            (s, Err(MarketError::AmountMismatch))
        } else if o.account_id == acceptor {
            (s, Err(MarketError::SelfTrade))
        } else if o.market_id >= s.markets.len() {
            (s, Err(MarketError::MarketNotFound))
        } else if !s.markets[o.market_id as int].is_open {
            (s, Err(MarketError::MarketClosed))
        } else {
            let pair = SharePairView {
                long: if o.is_long { o.account_id } else { acceptor },
                short: if o.is_long { acceptor } else { o.account_id },
                amount,
            };
            let s1 = st_append_position(s, o.market_id, pair).0;
            (
                ContractView {
                    offers: s1.offers.remove(i),
                    deposited: s1.deposited + amount,
                    events: s1.events.push(
                        EventView::OfferAccepted {
                            offer_id,
                            market_id: o.market_id,
                            account_id: acceptor,
                        },
                    ),
                    ..s1
                },
                Ok(()),
            )
        }
    }
}

/// `close_market`: flip the market closed exactly once and credit every
/// position's winner with double its stake, or refuse the whole call.
pub open spec fn st_close_market(
    s: ContractView,
    market_id: u32,
    long_wins: bool,
    caller: Seq<char>,
) -> (ContractView, Result<(), MarketError>) {
    if market_id >= s.markets.len() {
        (s, Err(MarketError::NotFound))
    } else {
        let m = s.markets[market_id as int];
        if !m.is_open {
            (s, Err(MarketError::AlreadyClosed))
        } else if m.owner != caller {
            (s, Err(MarketError::NotOwner))
        } else if !settle_ok(s.credit, m.shares, long_wins) {
            (s, Err(MarketError::ArithmeticOverflow))
        } else {
            (
                ContractView {
                    markets: s.markets.update(market_id as int, MarketView { is_open: false, ..m }),
                    credit: settle_credits(s.credit, m.shares, long_wins),
                    events: s.events.push(EventView::MarketClosed { market_id }) + settle_events(
                        m.shares,
                        long_wins,
                    ),
                    ..s
                },
                Ok(()),
            )
        }
    }
}

/// `withdraw`: remove the caller's whole entry from the credit ledger and
/// report the amount the host should transfer.
pub open spec fn st_withdraw(
    s: ContractView,
    account: Seq<char>,
) -> (ContractView, Result<u128, MarketError>) {
    if !credit_has(s.credit, account) {
        (s, Err(MarketError::NothingToWithdraw))
    } else {
        let i = credit_index(s.credit, account);
        let amount = s.credit[i].amount;
        (
            ContractView {
                credit: s.credit.remove(i),
                withdrawn: s.withdrawn + amount,
                events: s.events.push(EventView::Withdraw { account_id: account, amount }),
                ..s
            },
            Ok(amount),
        )
    }
}

/// `get_market`: the projection of the named market, or nothing.
pub open spec fn spec_get_market(s: ContractView, market_id: u32) -> Option<ViewMarketView> {
    if market_id < s.markets.len() {
        Some(market_projection(s.markets[market_id as int]))
    } else {
        None
    }
}

/// `list_markets`: every market's projection, in creation order.
pub open spec fn spec_list_markets(s: ContractView) -> Seq<ViewMarketView> {
    Seq::new(s.markets.len(), |i: int| market_projection(s.markets[i]))
}

} // verus!

// The lemma section lives in its own `verus!` block to keep the spec part
// above readable.

verus! {

// ---------------------------------------------------------------------
// Sum lemmas
// ---------------------------------------------------------------------

/// Appending an offer adds its escrow to the offer-book total.
pub proof fn lemma_sum_offers_push(s: Seq<OfferView>, x: OfferView)
    ensures
        sum_offers(s.push(x)) == sum_offers(s) + x.amount,
{
    assert(s.push(x).drop_last() =~= s);
}

/// Removing an offer subtracts its escrow from the offer-book total.
pub proof fn lemma_sum_offers_remove(s: Seq<OfferView>, i: int)
    requires
        0 <= i < s.len(),
    ensures
        sum_offers(s.remove(i)) == sum_offers(s) - s[i].amount,
    decreases s.len(),
{
    if i == s.len() - 1 {
        assert(s.remove(i) =~= s.drop_last());
    } else {
        lemma_sum_offers_remove(s.drop_last(), i);
        assert(s.remove(i).drop_last() =~= s.drop_last().remove(i));
        assert(s.remove(i).last() == s.last());
    }
}

/// Appending a position adds its stake to the one-sided total.
pub proof fn lemma_sum_pairs_push(s: Seq<SharePairView>, x: SharePairView)
    ensures
        sum_pairs(s.push(x)) == sum_pairs(s) + x.amount,
{
    assert(s.push(x).drop_last() =~= s);
}

/// Appending a market adds its escrow to the registry total.
pub proof fn lemma_sum_markets_push(s: Seq<MarketView>, m: MarketView)
    ensures
        sum_markets(s.push(m)) == sum_markets(s) + market_escrow(m),
{
    assert(s.push(m).drop_last() =~= s);
}

/// Replacing one market changes the registry total by the difference of
/// the two escrows.
pub proof fn lemma_sum_markets_update(s: Seq<MarketView>, i: int, m: MarketView)
    requires
        0 <= i < s.len(),
    ensures
        sum_markets(s.update(i, m)) == sum_markets(s) - market_escrow(s[i]) + market_escrow(m),
    decreases s.len(),
{
    if i == s.len() - 1 {
        assert(s.update(i, m).drop_last() =~= s.drop_last());
        assert(s.update(i, m).last() == m);
    } else {
        lemma_sum_markets_update(s.drop_last(), i, m);
        assert(s.update(i, m).drop_last() =~= s.drop_last().update(i, m));
        assert(s.update(i, m).last() == s.last());
    }
}

/// Appending a ledger entry adds its balance to the ledger total.
pub proof fn lemma_sum_credit_push(s: Seq<CreditEntryView>, x: CreditEntryView)
    ensures
        sum_credit(s.push(x)) == sum_credit(s) + x.amount,
{
    assert(s.push(x).drop_last() =~= s);
}

/// Replacing one ledger entry changes the ledger total by the difference
/// of the two balances.
pub proof fn lemma_sum_credit_update(s: Seq<CreditEntryView>, i: int, x: CreditEntryView)
    requires
        0 <= i < s.len(),
    ensures
        sum_credit(s.update(i, x)) == sum_credit(s) - s[i].amount + x.amount,
    decreases s.len(),
{
    if i == s.len() - 1 {
        assert(s.update(i, x).drop_last() =~= s.drop_last());
        assert(s.update(i, x).last() == x);
    } else {
        lemma_sum_credit_update(s.drop_last(), i, x);
        assert(s.update(i, x).drop_last() =~= s.drop_last().update(i, x));
        assert(s.update(i, x).last() == s.last());
    }
}

/// Removing a ledger entry subtracts its balance from the ledger total.
pub proof fn lemma_sum_credit_remove(s: Seq<CreditEntryView>, i: int)
    requires
        0 <= i < s.len(),
    ensures
        sum_credit(s.remove(i)) == sum_credit(s) - s[i].amount,
    decreases s.len(),
{
    if i == s.len() - 1 {
        assert(s.remove(i) =~= s.drop_last());
    } else {
        lemma_sum_credit_remove(s.drop_last(), i);
        assert(s.remove(i).drop_last() =~= s.drop_last().remove(i));
        assert(s.remove(i).last() == s.last());
    }
}

} // verus!

verus! {

// ---------------------------------------------------------------------
// Credit and settlement lemmas
// ---------------------------------------------------------------------

/// Crediting an account adds exactly the payout to the ledger total.
pub proof fn lemma_credit_apply_sum(credit: Seq<CreditEntryView>, account: Seq<char>, pay: u128)
    requires
        credit_ok(credit, account, pay as int),
    ensures
        sum_credit(credit_apply(credit, account, pay)) == sum_credit(credit) + pay,
{
    if credit_has(credit, account) {
        let i = credit_index(credit, account);
        assert(0 <= i < credit.len() && credit[i].account_id == account);
        lemma_sum_credit_update(
            credit,
            i,
            CreditEntryView { account_id: account, amount: (credit[i].amount + pay) as u128 },
        );
    } else {
        lemma_sum_credit_push(credit, CreditEntryView { account_id: account, amount: pay });
    }
}

/// Crediting an account keeps ledger entries unique.
pub proof fn lemma_credit_apply_unique(credit: Seq<CreditEntryView>, account: Seq<char>, pay: u128)
    requires
        credit_unique(credit),
    ensures
        credit_unique(credit_apply(credit, account, pay)),
{
    let c2 = credit_apply(credit, account, pay);
    if credit_has(credit, account) {
        let i = credit_index(credit, account);
        assert(0 <= i < credit.len() && credit[i].account_id == account);
        assert forall|a: int, b: int| 0 <= a < b < c2.len() implies (#[trigger] c2[a]).account_id
            != (#[trigger] c2[b]).account_id by {
            assert(c2[a].account_id == credit[a].account_id);
            assert(c2[b].account_id == credit[b].account_id);
        }
    } else {
        assert forall|a: int, b: int| 0 <= a < b < c2.len() implies (#[trigger] c2[a]).account_id
            != (#[trigger] c2[b]).account_id by {
            if b < credit.len() {
                assert(c2[a].account_id == credit[a].account_id);
                assert(c2[b].account_id == credit[b].account_id);
            } else {
                assert(c2[a].account_id == credit[a].account_id);
                assert(credit[a].account_id != account);
            }
        }
    }
}

/// Settlement adds exactly twice the one-sided stake total to the ledger.
pub proof fn lemma_settle_credits_sum(
    credit: Seq<CreditEntryView>,
    pairs: Seq<SharePairView>,
    long_wins: bool,
)
    requires
        settle_ok(credit, pairs, long_wins),
    ensures
        sum_credit(settle_credits(credit, pairs, long_wins)) == sum_credit(credit) + 2 * sum_pairs(
            pairs,
        ),
    decreases pairs.len(),
{
    if pairs.len() > 0 {
        lemma_settle_credits_sum(credit, pairs.drop_last(), long_wins);
        lemma_credit_apply_sum(
            settle_credits(credit, pairs.drop_last(), long_wins),
            winner_of(pairs.last(), long_wins),
            payout_of(pairs.last()) as u128,
        );
    }
}

/// Settlement keeps ledger entries unique.
pub proof fn lemma_settle_credits_unique(
    credit: Seq<CreditEntryView>,
    pairs: Seq<SharePairView>,
    long_wins: bool,
)
    requires
        credit_unique(credit),
    ensures
        credit_unique(settle_credits(credit, pairs, long_wins)),
    decreases pairs.len(),
{
    if pairs.len() > 0 {
        lemma_settle_credits_unique(credit, pairs.drop_last(), long_wins);
        lemma_credit_apply_unique(
            settle_credits(credit, pairs.drop_last(), long_wins),
            winner_of(pairs.last(), long_wins),
            payout_of(pairs.last()) as u128,
        );
    }
}

/// If a whole settlement stays within the value type, so does every
/// prefix of it.
pub proof fn lemma_settle_ok_prefix(
    credit: Seq<CreditEntryView>,
    pairs: Seq<SharePairView>,
    long_wins: bool,
    j: int,
)
    requires
        settle_ok(credit, pairs, long_wins),
        0 <= j <= pairs.len(),
    ensures
        settle_ok(credit, pairs.take(j), long_wins),
    decreases pairs.len(),
{
    if j == pairs.len() {
        assert(pairs.take(j) =~= pairs);
    } else {
        assert(pairs.drop_last().take(j) =~= pairs.take(j));
        lemma_settle_ok_prefix(credit, pairs.drop_last(), long_wins, j);
    }
}

} // verus!

verus! {

// ---------------------------------------------------------------------
// Rehydration
// ---------------------------------------------------------------------

/// What must hold of plain stored tables for them to be a valid ledger
/// state: markets indexed by id, positive stakes, unique offer ids below
/// the counter, positive offer escrows, and unique ledger accounts.
pub open spec fn tables_wf(
    next_offer_id: u32,
    markets: Seq<MarketView>,
    offers: Seq<OfferView>,
    credit: Seq<CreditEntryView>,
) -> bool {
    &&& forall|i: int| 0 <= i < markets.len() ==> (#[trigger] markets[i]).id == i
    &&& forall|i: int, j: int|
        0 <= i < markets.len() && 0 <= j < markets[i].shares.len() ==> (
        #[trigger] markets[i].shares[j]).amount > 0
    &&& offers_unique(offers)
    &&& forall|i: int|
        0 <= i < offers.len() ==> (#[trigger] offers[i]).id < next_offer_id && offers[i].amount
            > 0
    &&& credit_unique(credit)
}

/// Offer escrows are never negative.
pub proof fn lemma_sum_offers_nonneg(s: Seq<OfferView>)
    ensures
        sum_offers(s) >= 0,
    decreases s.len(),
{
    if s.len() > 0 {
        lemma_sum_offers_nonneg(s.drop_last());
    }
}

/// Position stakes are never negative.
pub proof fn lemma_sum_pairs_nonneg(s: Seq<SharePairView>)
    ensures
        sum_pairs(s) >= 0,
    decreases s.len(),
{
    if s.len() > 0 {
        lemma_sum_pairs_nonneg(s.drop_last());
    }
}

/// Market collateral is never negative.
pub proof fn lemma_sum_markets_nonneg(s: Seq<MarketView>)
    ensures
        sum_markets(s) >= 0,
    decreases s.len(),
{
    if s.len() > 0 {
        lemma_sum_markets_nonneg(s.drop_last());
        lemma_sum_pairs_nonneg(s.last().shares);
    }
}

/// Credited balances are never negative.
pub proof fn lemma_sum_credit_nonneg(s: Seq<CreditEntryView>)
    ensures
        sum_credit(s) >= 0,
    decreases s.len(),
{
    if s.len() > 0 {
        lemma_sum_credit_nonneg(s.drop_last());
    }
}

} // verus!
