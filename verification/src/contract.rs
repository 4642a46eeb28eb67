//! The executable state container and its operations. Every operation
//! either commits exactly the state change its transition function
//! describes, or returns an error and commits nothing.

use vstd::prelude::*;

use crate::data::AccountId;
use crate::data::CreditEntry;
use crate::data::Event;
use crate::data::Market;
use crate::data::Offer;
use crate::data::SharePair;
use crate::data::ViewMarket;
use crate::errors::MarketError;
use crate::laws;
use crate::model::ContractView;
use crate::model::credit_apply;
use crate::model::credit_has;
use crate::model::credit_index;
use crate::model::credit_ok;
use crate::model::credit_unique;
use crate::model::lemma_credit_apply_unique;
use crate::model::lemma_settle_ok_prefix;
use crate::model::lemma_sum_credit_nonneg;
use crate::model::lemma_sum_markets_nonneg;
use crate::model::lemma_sum_offers_nonneg;
use crate::model::sum_credit;
use crate::model::sum_markets;
use crate::model::sum_offers;
use crate::model::tables_wf;
use crate::model::market_projection;
use crate::model::offer_has;
use crate::model::offer_index;
use crate::model::offers_for;
use crate::model::settle_credits;
use crate::model::settle_events;
use crate::model::settle_ok;
use crate::model::spec_get_market;
use crate::model::spec_list_markets;
use crate::model::st_accept_offer;
use crate::model::st_append_position;
use crate::model::st_close_market;
use crate::model::st_create_market;
use crate::model::st_create_offer;
use crate::model::st_init;
use crate::model::st_withdraw;
use crate::model::views_of;
use crate::model::winner_of;

verus! {

/// The ledger state: an append-only market table, a mutable offer table,
/// a mutable balance table, the event log, and two ghost totals recording
/// the deposit and withdrawal history for the conservation invariant.
pub struct Contract {
    pub next_offer_id: u32,
    pub markets: Vec<Market>,
    pub offers: Vec<Offer>,
    pub credit: Vec<CreditEntry>,
    pub events: Vec<Event>,
    pub deposited: Ghost<int>,
    pub withdrawn: Ghost<int>,
}

/// The first index in the book holding the offer with this id.
fn find_offer(offers: &Vec<Offer>, offer_id: u32) -> (r: Option<usize>)
    ensures
        match r {
            Some(i) => i < offers@.len() && offers@[i as int]@.id == offer_id,
            None => !offer_has(views_of(offers@), offer_id),
        },
{
    let mut k: usize = 0;
    while k < offers.len()
        invariant
            k <= offers@.len(),
            forall|i: int| 0 <= i < k ==> (#[trigger] offers@[i])@.id != offer_id,
        decreases offers@.len() - k,
    {
        if offers[k].id == offer_id {
            return Some(k);
        }
        k += 1;
    }
    proof {
        assert forall|i: int| 0 <= i < views_of(offers@).len() implies (#[trigger] views_of(
            offers@,
        )[i]).id != offer_id by {
            assert(views_of(offers@)[i] == offers@[i]@);
        }
    }
    None
}

/// The index of `account_id`'s ledger entry, if it has one.
fn find_credit(credit: &Vec<CreditEntry>, account_id: &AccountId) -> (r: Option<usize>)
    ensures
        match r {
            Some(i) => i < credit@.len() && credit@[i as int]@.account_id == account_id@,
            None => !credit_has(views_of(credit@), account_id@),
        },
{
    let mut k: usize = 0;
    while k < credit.len()
        invariant
            k <= credit@.len(),
            forall|i: int| 0 <= i < k ==> (#[trigger] credit@[i])@.account_id != account_id@,
        decreases credit@.len() - k,
    {
        if credit[k].account_id == *account_id {
            return Some(k);
        }
        k += 1;
    }
    proof {
        assert forall|i: int| 0 <= i < views_of(credit@).len() implies (#[trigger] views_of(
            credit@,
        )[i]).account_id != account_id@ by {
            assert(views_of(credit@)[i] == credit@[i]@);
        }
    }
    None
}

/// Credits `pay` to `account_id` on a ledger vector: increases the
/// existing entry, or appends a fresh one. Returns false, changing
/// nothing, exactly when the addition would overflow the value type.
fn apply_credit(credit: &mut Vec<CreditEntry>, account_id: &AccountId, pay: u128) -> (r: bool)
    requires
        credit_unique(views_of(old(credit)@)),
    ensures
        r == credit_ok(views_of(old(credit)@), account_id@, pay as int),
        r ==> views_of(final(credit)@) == credit_apply(views_of(old(credit)@), account_id@, pay),
        !r ==> final(credit)@ == old(credit)@,
{
    let ghost cv = views_of(old(credit)@);
    let mut k: usize = 0;
    while k < credit.len()
        invariant
            credit@ == old(credit)@,
            credit_unique(views_of(credit@)),
            k <= credit@.len(),
            forall|i: int| 0 <= i < k ==> (#[trigger] credit@[i])@.account_id != account_id@,
        decreases credit@.len() - k,
    {
        if credit[k].account_id == *account_id {
            proof {
                let cvl = views_of(old(credit)@);
                assert(cvl[k as int] == old(credit)@[k as int]@);
                assert(cvl[k as int].account_id == account_id@);
                assert(credit_has(cvl, account_id@));
                let ci = credit_index(cvl, account_id@);
                assert(0 <= ci < cvl.len() && cvl[ci].account_id == account_id@);
                assert(cvl[ci] == old(credit)@[ci]@);
                assert(ci == k as int);
            }
            if pay > u128::MAX - credit[k].amount {
                return false;
            }
            let newamt: u128 = credit[k].amount + pay;
            credit[k].amount = newamt;
            proof {
                assert(views_of(credit@) =~= credit_apply(views_of(old(credit)@), account_id@, pay));
            }
            return true;
        }
        k += 1;
    }
    proof {
        assert forall|i: int| 0 <= i < cv.len() implies (#[trigger] cv[i]).account_id
            != account_id@ by {
            assert(cv[i] == credit@[i]@);
        }
        assert(!credit_has(cv, account_id@));
    }
    credit.push(CreditEntry { account_id: account_id.clone(), amount: pay });
    proof {
        assert(views_of(credit@) =~= credit_apply(cv, account_id@, pay));
    }
    true
}

impl View for Contract {
    type V = ContractView;

    open spec fn view(&self) -> ContractView {
        ContractView {
            next_offer_id: self.next_offer_id,
            markets: views_of(self.markets@),
            offers: views_of(self.offers@),
            credit: views_of(self.credit@),
            events: views_of(self.events@),
            deposited: self.deposited@,
            withdrawn: self.withdrawn@,
        }
    }
}

impl Contract {
    /// Constructs the empty ledger state.
    pub fn new() -> (r: Contract)
        ensures
            r@ == st_init(),
            r@.wf(),
    {
        let c = Contract {
            next_offer_id: 0,
            markets: Vec::new(),
            offers: Vec::new(),
            credit: Vec::new(),
            events: Vec::new(),
            deposited: Ghost(0),
            withdrawn: Ghost(0),
        };
        proof {
            assert(c@ =~~= st_init());
            laws::lemma_init_wf();
        }
        c
    }

    /// Rebuilds the ledger state from its plain stored tables, as handed
    /// back by the host's durable storage. Validates every structural
    /// invariant — markets indexed by id, positive stakes, unique offer
    /// ids below the counter, positive offer escrows, unique ledger
    /// accounts — and yields nothing if any of them fails; the
    /// conservation totals are re-established from the tables themselves.
    pub fn restore(
        next_offer_id: u32,
        markets: Vec<Market>,
        offers: Vec<Offer>,
        credit: Vec<CreditEntry>,
        events: Vec<Event>,
    ) -> (r: Option<Contract>)
        ensures
            r is Some <==> tables_wf(
                next_offer_id,
                views_of(markets@),
                views_of(offers@),
                views_of(credit@),
            ),
            r matches Some(c) ==> c@.wf() && c@.next_offer_id == next_offer_id && c@.markets
                == views_of(markets@) && c@.offers == views_of(offers@) && c@.credit == views_of(
                credit@,
            ) && c@.events == views_of(events@) && c@.withdrawn == 0,
    {
        let mut k: usize = 0;
        while k < markets.len()
            invariant
                k <= markets@.len(),
                forall|i: int| 0 <= i < k ==> (#[trigger] views_of(markets@)[i]).id == i,
                forall|i: int, j: int|
                    0 <= i < k && 0 <= j < views_of(markets@)[i].shares.len() ==> (
                    #[trigger] views_of(markets@)[i].shares[j]).amount > 0,
            decreases markets@.len() - k,
        {
            if markets[k].id as usize != k {
                proof {
                    assert(views_of(markets@)[k as int] == markets@[k as int]@);
                }
                return None;
            }
            let mut j: usize = 0;
            while j < markets[k].shares.len()
                invariant
                    k < markets@.len(),
                    j <= views_of(markets@)[k as int].shares.len(),
                    forall|jj: int|
                        0 <= jj < j ==> (#[trigger] views_of(markets@)[k as int].shares[jj]).amount
                            > 0,
                decreases markets@[k as int].shares@.len() - j,
            {
                if markets[k].shares[j].amount == 0 {
                    proof {
                        assert(views_of(markets@)[k as int] == markets@[k as int]@);
                        assert(views_of(markets@)[k as int].shares[j as int].amount == 0);
                    }
                    return None;
                }
                j += 1;
            }
            k += 1;
        }
        let mut a: usize = 0;
        while a < offers.len()
            invariant
                a <= offers@.len(),
                forall|i: int|
                    0 <= i < a ==> (#[trigger] views_of(offers@)[i]).id < next_offer_id
                        && views_of(offers@)[i].amount > 0,
                forall|i: int, j: int|
                    0 <= i < a && i < j < offers@.len() ==> (#[trigger] views_of(offers@)[i]).id
                        != (#[trigger] views_of(offers@)[j]).id,
            decreases offers@.len() - a,
        {
            if offers[a].amount == 0 || offers[a].id >= next_offer_id {
                proof {
                    assert(views_of(offers@)[a as int] == offers@[a as int]@);
                }
                return None;
            }
            let mut b: usize = a + 1;
            while b < offers.len()
                invariant
                    a < b <= offers@.len(),
                    forall|j: int|
                        a < j < b ==> (#[trigger] views_of(offers@)[j]).id != views_of(
                            offers@,
                        )[a as int].id,
                decreases offers@.len() - b,
            {
                if offers[a].id == offers[b].id {
                    proof {
                        let v = views_of(offers@);
                        assert(v[a as int] == offers@[a as int]@);
                        assert(v[b as int] == offers@[b as int]@);
                        assert(v[a as int].id == v[b as int].id);
                        assert(!crate::model::offers_unique(v));
                    }
                    return None;
                }
                b += 1;
            }
            a += 1;
        }
        let mut p: usize = 0;
        while p < credit.len()
            invariant
                p <= credit@.len(),
                forall|i: int, j: int|
                    0 <= i < p && i < j < credit@.len() ==> (
                    #[trigger] views_of(credit@)[i]).account_id != (
                    #[trigger] views_of(credit@)[j]).account_id,
            decreases credit@.len() - p,
        {
            let mut q: usize = p + 1;
            while q < credit.len()
                invariant
                    p < q <= credit@.len(),
                    forall|j: int|
                        p < j < q ==> (#[trigger] views_of(credit@)[j]).account_id != views_of(
                            credit@,
                        )[p as int].account_id,
                decreases credit@.len() - q,
            {
                if credit[p].account_id == credit[q].account_id {
                    proof {
                        let v = views_of(credit@);
                        assert(v[p as int] == credit@[p as int]@);
                        assert(v[q as int] == credit@[q as int]@);
                        assert(v[p as int].account_id == v[q as int].account_id);
                        assert(!credit_unique(v));
                    }
                    return None;
                }
                q += 1;
            }
            p += 1;
        }
        let ghost dep = sum_offers(views_of(offers@)) + sum_markets(views_of(markets@))
            + sum_credit(views_of(credit@));
        let c = Contract {
            next_offer_id,
            markets,
            offers,
            credit,
            events,
            deposited: Ghost(dep),
            withdrawn: Ghost(0),
        };
        proof {
            lemma_sum_offers_nonneg(views_of(offers@));
            lemma_sum_markets_nonneg(views_of(markets@));
            lemma_sum_credit_nonneg(views_of(credit@));
            assert(c@.wf());
        }
        Some(c)
    }

    /// Appends a new open market owned by `owner`, with an id equal to its
    /// index in the registry, emits the market-created notification, and
    /// returns the new market's read-only projection.
    pub fn create_market(&mut self, description: String, owner: AccountId) -> (r: ViewMarket)
        requires
            old(self)@.wf(),
            old(self)@.markets.len() < u32::MAX,
        ensures
            final(self)@ == st_create_market(old(self)@, description@, owner@),
            final(self)@.wf(),
            r@ == market_projection(final(self)@.markets.last()),
    {
        let id: u32 = self.markets.len() as u32;
        let m = Market {
            id,
            is_open: true,
            description: description.clone(),
            owner: owner.clone(),
            shares: Vec::new(),
        };
        self.markets.push(m);
        self.events.push(Event::MarketCreated { market_id: id, owner: owner.clone() });
        proof {
            let s0 = old(self)@;
            assert(self@ =~~= st_create_market(s0, description@, owner@));
            laws::lemma_create_market_preserves_wf(s0, description@, owner@);
        }
        ViewMarket { id, is_open: true, description, owner, shares: 0 }
    }

    /// Escrows `amount` from `account_id` as a fresh one-sided bet on
    /// `market_id`, stores it under the next unused offer id, and emits
    /// the offer-created notification. Fails with `InvalidAmount` exactly
    /// when `amount` is zero and with `ArithmeticOverflow` exactly when
    /// the id counter is exhausted, committing nothing in either case.
    /// Mirroring `append_position`'s own checks at acceptance time, the
    /// target market is not validated here.
    pub fn create_offer(
        &mut self,
        market_id: u32,
        is_long: bool,
        account_id: AccountId,
        amount: u128,
    ) -> (r: Result<Offer, MarketError>)
        requires
            old(self)@.wf(),
        ensures
            final(self)@.wf(),
            ({
                let (s2, r2) = st_create_offer(old(self)@, market_id, is_long, account_id@, amount);
                final(self)@ == s2 && (match (r, r2) {
                    (Ok(o), Ok(ov)) => o@ == ov,
                    (Err(e), Err(e2)) => e == e2,
                    _ => false,
                })
            }),
            r is Err ==> final(self)@ == old(self)@,
            amount == 0 ==> r == Err::<Offer, MarketError>(MarketError::InvalidAmount),
    {
        if amount == 0 {
            return Err(MarketError::InvalidAmount);
        }
        if self.next_offer_id == u32::MAX {
            return Err(MarketError::ArithmeticOverflow);
        }
        let id: u32 = self.next_offer_id;
        self.next_offer_id = id + 1;
        self.offers.push(
            Offer { id, market_id, is_long, account_id: account_id.clone(), amount },
        );
        self.deposited = Ghost(self.deposited@ + amount);
        self.events.push(
            Event::OfferCreated {
                offer_id: id,
                market_id,
                is_long,
                account_id: account_id.clone(),
                amount,
            },
        );
        proof {
            let s0 = old(self)@;
            assert(self@ =~~= st_create_offer(s0, market_id, is_long, account_id@, amount).0);
            laws::lemma_create_offer_preserves_wf(s0, market_id, is_long, account_id@, amount);
        }
        Ok(Offer { id, market_id, is_long, account_id, amount })
    }

    /// Records a matched pair on a market. Internal to the crate: only
    /// offer acceptance creates positions. Fails with `NotFound` if the
    /// market does not exist and with `MarketClosed` if its open flag has
    /// already flipped; positions can only grow, and only while open.
    fn append_position(&mut self, market_id: u32, pair: SharePair) -> (r: Result<
        (),
        MarketError,
    >)
        ensures
            ({
                let (s2, r2) = st_append_position(old(self)@, market_id, pair@);
                final(self)@ == s2 && r == r2
            }),
    {
        if (market_id as usize) >= self.markets.len() {
            return Err(MarketError::NotFound);
        }
        if !self.markets[market_id as usize].is_open {
            return Err(MarketError::MarketClosed);
        }
        self.markets[market_id as usize].shares.push(pair);
        proof {
            assert(self@ =~~= st_append_position(old(self)@, market_id, pair@).0);
        }
        Ok(())
    }

    /// Consumes the named offer exactly once: checks the attached amount,
    /// the offer's existence, the exact-match rule, the self-trade rule,
    /// and the target market's existence and openness, and only then
    /// removes the offer and records the matched position, with the
    /// acceptor on the side opposite the offer. A failing call commits
    /// nothing; in particular the offer stays in the book on every error.
    pub fn accept_offer(&mut self, offer_id: u32, acceptor: AccountId, amount: u128) -> (r:
        Result<(), MarketError>)
        requires
            old(self)@.wf(),
        ensures
            final(self)@.wf(),
            ({
                let (s2, r2) = st_accept_offer(old(self)@, offer_id, acceptor@, amount);
                final(self)@ == s2 && r == r2
            }),
            r is Err ==> final(self)@ == old(self)@,
    {
        if amount == 0 {
            return Err(MarketError::InvalidAmount);
        }
        let oi = match find_offer(&self.offers, offer_id) {
            Some(i) => i,
            None => {
                return Err(MarketError::NotFound);
            },
        };
        proof {
            let ov = old(self)@.offers;
            assert(ov[oi as int].id == offer_id);
            assert(offer_has(ov, offer_id));
            let k = offer_index(ov, offer_id);
            assert(0 <= k < ov.len() && ov[k].id == offer_id);
            assert(k == oi as int);
        }
        if self.offers[oi].amount != amount {
            return Err(MarketError::AmountMismatch);
        }
        if self.offers[oi].account_id == acceptor {
            return Err(MarketError::SelfTrade);
        }
        let market_id: u32 = self.offers[oi].market_id;
        let (long, short) = if self.offers[oi].is_long {
            (self.offers[oi].account_id.clone(), acceptor.clone())
        } else {
            (acceptor.clone(), self.offers[oi].account_id.clone())
        };
        // The registry alone enforces that the market still exists and is
        // still open. The append comes before the removal, so a failing
        // append leaves the offer in the book: a closed-market race cannot
        // destroy the escrow.
        match self.append_position(market_id, SharePair { long, short, amount }) {
            Err(MarketError::NotFound) => {
                return Err(MarketError::MarketNotFound);
            },
            Err(e) => {
                return Err(e);
            },
            Ok(()) => {},
        }
        let _consumed = self.offers.remove(oi);
        self.deposited = Ghost(self.deposited@ + amount);
        self.events.push(
            Event::OfferAccepted { offer_id, market_id, account_id: acceptor },
        );
        proof {
            let s0 = old(self)@;
            assert(self@ =~~= st_accept_offer(s0, offer_id, acceptor@, amount).0);
            laws::lemma_accept_offer_preserves_wf(s0, offer_id, acceptor@, amount);
        }
        Ok(())
    }

    /// Looks a market up by id; an absent id yields an empty result, not
    /// an error.
    pub fn get_market(&self, market_id: u32) -> (r: Option<ViewMarket>)
        ensures
            ({
                let sg = spec_get_market(self@, market_id);
                match r {
                    Some(vm) => sg == Some(vm@),
                    None => sg is None,
                }
            }),
    {
        if (market_id as usize) < self.markets.len() {
            let m = &self.markets[market_id as usize];
            Some(
                ViewMarket {
                    id: m.id,
                    is_open: m.is_open,
                    description: m.description.clone(),
                    owner: m.owner.clone(),
                    shares: m.shares.len(),
                },
            )
        } else {
            None
        }
    }

    /// Every market's read-only projection, in creation order. A pure
    /// read: the result is a function of the state alone.
    pub fn list_markets(&self) -> (r: Vec<ViewMarket>)
        ensures
            r@.len() == spec_list_markets(self@).len(),
            forall|i: int| 0 <= i < r@.len() ==> r@[i]@ == spec_list_markets(self@)[i],
    {
        let mut r: Vec<ViewMarket> = Vec::new();
        let mut k: usize = 0;
        while k < self.markets.len()
            invariant
                k <= self.markets.len(),
                r@.len() == k,
                forall|i: int| 0 <= i < k ==> r@[i]@ == spec_list_markets(self@)[i],
            decreases self.markets.len() - k,
        {
            let m = &self.markets[k];
            r.push(
                ViewMarket {
                    id: m.id,
                    is_open: m.is_open,
                    description: m.description.clone(),
                    owner: m.owner.clone(),
                    shares: m.shares.len(),
                },
            );
            k += 1;
        }
        r
    }

    /// The pending offers that target one market, in book order. A pure
    /// read: the result is a function of the state alone.
    pub fn get_offers(&self, market_id: u32) -> (r: Vec<Offer>)
        ensures
            views_of(r@) == offers_for(self@.offers, market_id),
    {
        let mut r: Vec<Offer> = Vec::new();
        let mut k: usize = 0;
        while k < self.offers.len()
            invariant
                k <= self.offers@.len(),
                views_of(r@) == offers_for(self@.offers.take(k as int), market_id),
            decreases self.offers@.len() - k,
        {
            let o = &self.offers[k];
            proof {
                assert(self@.offers.take(k as int + 1).drop_last() =~= self@.offers.take(
                    k as int,
                ));
                assert(self@.offers.take(k as int + 1).last() == self@.offers[k as int]);
            }
            if o.market_id == market_id {
                r.push(
                    Offer {
                        id: o.id,
                        market_id: o.market_id,
                        is_long: o.is_long,
                        account_id: o.account_id.clone(),
                        amount: o.amount,
                    },
                );
            }
            k += 1;
            proof {
                assert(views_of(r@) =~= offers_for(self@.offers.take(k as int), market_id));
            }
        }
        proof {
            assert(self@.offers.take(self.offers@.len() as int) =~= self@.offers);
        }
        r
    }

    /// Resolves a market: only its owner may close it, exactly once. On
    /// success the open flag flips, and every position's winner — the long
    /// account when `is_long`, else the short account — is credited twice
    /// that position's stake, each credit a separate ledger mutation and a
    /// separate notification, with no netting across positions. If any
    /// payout would overflow, the whole call fails and commits nothing.
    pub fn close_market(&mut self, market_id: u32, is_long: bool, caller: AccountId) -> (r:
        Result<(), MarketError>)
        requires
            old(self)@.wf(),
        ensures
            final(self)@.wf(),
            ({
                let (s2, r2) = st_close_market(old(self)@, market_id, is_long, caller@);
                final(self)@ == s2 && r == r2
            }),
            r is Err ==> final(self)@ == old(self)@,
    {
        let ghost s0 = old(self)@;
        if (market_id as usize) >= self.markets.len() {
            return Err(MarketError::NotFound);
        }
        let mi: usize = market_id as usize;
        if !self.markets[mi].is_open {
            return Err(MarketError::AlreadyClosed);
        }
        if !(self.markets[mi].owner == caller) {
            return Err(MarketError::NotOwner);
        }
        let ghost m = s0.markets[market_id as int];

        // Collect each position's winner and stake, in position order.
        let mut payouts: Vec<CreditEntry> = Vec::new();
        let mut k: usize = 0;
        while k < self.markets[mi].shares.len()
            invariant
                self@ == s0,
                mi == market_id as usize,
                m == s0.markets[market_id as int],
                market_id < s0.markets.len(),
                k <= m.shares.len(),
                payouts@.len() == k,
                forall|i: int|
                    0 <= i < k ==> (#[trigger] payouts@[i])@.account_id == winner_of(
                        m.shares[i],
                        is_long,
                    ) && payouts@[i]@.amount == m.shares[i].amount,
            decreases m.shares.len() - k,
        {
            let p = &self.markets[mi].shares[k];
            let w = if is_long {
                p.long.clone()
            } else {
                p.short.clone()
            };
            payouts.push(CreditEntry { account_id: w, amount: p.amount });
            k += 1;
        }

        // Replay the whole settlement on a scratch ledger first, so that an
        // overflow anywhere refuses the call before anything is committed.
        let mut scratch: Vec<CreditEntry> = Vec::new();
        let mut k2: usize = 0;
        while k2 < self.credit.len()
            invariant
                self@ == s0,
                k2 <= self.credit@.len(),
                scratch@.len() == k2,
                forall|i: int| 0 <= i < k2 ==> (#[trigger] scratch@[i])@ == self.credit@[i]@,
            decreases self.credit@.len() - k2,
        {
            let e = &self.credit[k2];
            scratch.push(CreditEntry { account_id: e.account_id.clone(), amount: e.amount });
            k2 += 1;
        }
        proof {
            assert(views_of(scratch@) =~= s0.credit);
        }

        let ghost credit0 = s0.credit;
        let mut pending: Vec<Event> = Vec::new();
        let mut k3: usize = 0;
        while k3 < payouts.len()
            invariant
                self@ == s0,
                s0 == old(self)@,
                s0.wf(),
                mi == market_id as usize,
                m == s0.markets[market_id as int],
                market_id < s0.markets.len(),
                m.is_open,
                m.owner == caller@,
                credit0 == s0.credit,
                payouts@.len() == m.shares.len(),
                forall|i: int|
                    0 <= i < payouts@.len() ==> (#[trigger] payouts@[i])@.account_id == winner_of(
                        m.shares[i],
                        is_long,
                    ) && payouts@[i]@.amount == m.shares[i].amount,
                k3 <= payouts@.len(),
                settle_ok(credit0, m.shares.take(k3 as int), is_long),
                views_of(scratch@) == settle_credits(credit0, m.shares.take(k3 as int), is_long),
                credit_unique(views_of(scratch@)),
                views_of(pending@) == settle_events(m.shares.take(k3 as int), is_long),
            decreases payouts@.len() - k3,
        {
            let stake = payouts[k3].amount;
            proof {
                assert(m.shares.take(k3 as int + 1).drop_last() =~= m.shares.take(k3 as int));
                assert(m.shares.take(k3 as int + 1).last() == m.shares[k3 as int]);
            }
            if stake > u128::MAX / 2 {
                proof {
                    assert(!settle_ok(credit0, m.shares.take(k3 as int + 1), is_long));
                    if settle_ok(credit0, m.shares, is_long) {
                        lemma_settle_ok_prefix(credit0, m.shares, is_long, k3 as int + 1);
                    }
                }
                return Err(MarketError::ArithmeticOverflow);
            }
            let pay: u128 = 2 * stake;
            let ghost scratch0 = views_of(scratch@);
            let ok = apply_credit(&mut scratch, &payouts[k3].account_id, pay);
            if !ok {
                proof {
                    assert(!settle_ok(credit0, m.shares.take(k3 as int + 1), is_long));
                    if settle_ok(credit0, m.shares, is_long) {
                        lemma_settle_ok_prefix(credit0, m.shares, is_long, k3 as int + 1);
                    }
                }
                return Err(MarketError::ArithmeticOverflow);
            }
            pending.push(Event::Credit { account_id: payouts[k3].account_id.clone(), amount: pay });
            k3 += 1;
            proof {
                lemma_credit_apply_unique(
                    scratch0,
                    winner_of(m.shares[k3 - 1 as int], is_long),
                    pay,
                );
                assert(views_of(pending@) =~= settle_events(m.shares.take(k3 as int), is_long));
            }
        }
        proof {
            assert(m.shares.take(payouts@.len() as int) =~= m.shares);
        }

        // Commit: flip the open flag exactly once, install the settled
        // ledger, and emit the market-closed and credit notifications.
        self.markets[mi].is_open = false;
        self.events.push(Event::MarketClosed { market_id });
        self.events.append(&mut pending);
        self.credit = scratch;
        proof {
            assert(self@ =~~= st_close_market(s0, market_id, is_long, caller@).0);
            laws::lemma_close_market_preserves_wf(s0, market_id, is_long, caller@);
        }
        Ok(())
    }

    /// Removes and returns the caller's entire credit entry — the only
    /// debit path, all-or-nothing — and emits the withdraw notification.
    /// The host is then responsible for transferring the returned amount.
    /// Fails with `NothingToWithdraw` exactly when no entry exists.
    pub fn withdraw(&mut self, account_id: AccountId) -> (r: Result<u128, MarketError>)
        requires
            old(self)@.wf(),
        ensures
            final(self)@.wf(),
            ({
                let (s2, r2) = st_withdraw(old(self)@, account_id@);
                final(self)@ == s2 && r == r2
            }),
            r is Err ==> final(self)@ == old(self)@,
    {
        let ci = match find_credit(&self.credit, &account_id) {
            Some(i) => i,
            None => {
                return Err(MarketError::NothingToWithdraw);
            },
        };
        proof {
            let cv = old(self)@.credit;
            assert(cv[ci as int].account_id == account_id@);
            assert(credit_has(cv, account_id@));
            let k = credit_index(cv, account_id@);
            assert(0 <= k < cv.len() && cv[k].account_id == account_id@);
            assert(k == ci as int);
        }
        let e = self.credit.remove(ci);
        let amount = e.amount;
        self.withdrawn = Ghost(self.withdrawn@ + amount);
        self.events.push(Event::Withdraw { account_id, amount });
        proof {
            let s0 = old(self)@;
            assert(self@ =~~= st_withdraw(s0, e.account_id@).0);
            laws::lemma_withdraw_preserves_wf(s0, e.account_id@);
        }
        Ok(amount)
    }
}

} // verus!
