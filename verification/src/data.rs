//! The data model: markets, matched positions, pending offers, credit
//! ledger entries, and the notifications the operations emit. Each
//! executable type has a mathematical view (`@`) over which all contracts
//! are stated.

use vstd::prelude::*;

verus! {

/// An account identity, supplied by the host environment with every call.
pub type AccountId = String;

/// A pending, fully collateralized one-sided bet awaiting a counterparty.
/// `amount` worth of `account_id`'s stake is escrowed in this record.
#[derive(Debug, Clone, PartialEq, Eq)]
pub struct Offer {
    pub id: u32,
    pub market_id: u32,
    pub is_long: bool,
    pub account_id: AccountId,
    pub amount: u128,
}

/// The view of an [`Offer`].
#[verifier::ext_equal]
pub ghost struct OfferView {
    pub id: u32,
    pub market_id: u32,
    pub is_long: bool,
    pub account_id: Seq<char>,
    pub amount: u128,
}

impl View for Offer {
    type V = OfferView;

    open spec fn view(&self) -> OfferView {
        OfferView {
            id: self.id,
            market_id: self.market_id,
            is_long: self.is_long,
            account_id: self.account_id@,
            amount: self.amount,
        }
    }
}

/// A matched position: both `amount` worth of the long account's stake and
/// `amount` worth of the short account's stake are locked in this record,
/// so the collateral it holds is `2 * amount`. Immutable once appended.
#[derive(Debug, Clone, PartialEq, Eq)]
pub struct SharePair {
    pub long: AccountId,
    pub short: AccountId,
    pub amount: u128,
}

/// The view of a [`SharePair`].
#[verifier::ext_equal]
pub ghost struct SharePairView {
    pub long: Seq<char>,
    pub short: Seq<char>,
    pub amount: u128,
}

impl View for SharePair {
    type V = SharePairView;

    open spec fn view(&self) -> SharePairView {
        SharePairView { long: self.long@, short: self.short@, amount: self.amount }
    }
}

/// A proposition open for positions until its owner closes it. `id` equals
/// the market's index in the registry and never changes; `is_open` flips
/// true to false exactly once; `shares` only grows, and only while open.
#[derive(Debug, Clone, PartialEq, Eq)]
pub struct Market {
    pub id: u32,
    pub is_open: bool,
    pub description: String,
    pub owner: AccountId,
    pub shares: Vec<SharePair>,
}

/// The view of a [`Market`].
#[verifier::ext_equal]
pub ghost struct MarketView {
    pub id: u32,
    pub is_open: bool,
    pub description: Seq<char>,
    pub owner: Seq<char>,
    pub shares: Seq<SharePairView>,
}

impl View for Market {
    type V = MarketView;

    open spec fn view(&self) -> MarketView {
        MarketView {
            id: self.id,
            is_open: self.is_open,
            description: self.description@,
            owner: self.owner@,
            shares: Seq::new(self.shares@.len(), |i: int| self.shares@[i]@),
        }
    }
}

/// A read-only projection of a market, the only form in which the registry
/// hands a market out.
#[derive(Debug, Clone, PartialEq, Eq)]
pub struct ViewMarket {
    pub id: u32,
    pub is_open: bool,
    pub description: String,
    pub owner: AccountId,
    pub shares: usize,
}

/// The view of a [`ViewMarket`].
#[verifier::ext_equal]
pub ghost struct ViewMarketView {
    pub id: u32,
    pub is_open: bool,
    pub description: Seq<char>,
    pub owner: Seq<char>,
    pub shares: usize,
}

impl View for ViewMarket {
    type V = ViewMarketView;

    open spec fn view(&self) -> ViewMarketView {
        ViewMarketView {
            id: self.id,
            is_open: self.is_open,
            description: self.description@,
            owner: self.owner@,
            shares: self.shares,
        }
    }
}

/// One credit-ledger entry: funds owed to `account_id`, available for
/// withdrawal. An entry is removed, not zeroed, on withdrawal.
#[derive(Debug, Clone, PartialEq, Eq)]
pub struct CreditEntry {
    pub account_id: AccountId,
    pub amount: u128,
}

/// The view of a [`CreditEntry`].
#[verifier::ext_equal]
pub ghost struct CreditEntryView {
    pub account_id: Seq<char>,
    pub amount: u128,
}

impl View for CreditEntry {
    type V = CreditEntryView;

    open spec fn view(&self) -> CreditEntryView {
        CreditEntryView { account_id: self.account_id@, amount: self.amount }
    }
}

/// A notification announcing a state transition, appended to the
/// contract's event log for external observers; the contract itself never
/// reads it back.
#[derive(Debug, Clone, PartialEq, Eq)]
pub enum Event {
    MarketCreated { market_id: u32, owner: AccountId },
    OfferCreated { offer_id: u32, market_id: u32, is_long: bool, account_id: AccountId, amount: u128 },
    OfferAccepted { offer_id: u32, market_id: u32, account_id: AccountId },
    MarketClosed { market_id: u32 },
    Credit { account_id: AccountId, amount: u128 },
    Withdraw { account_id: AccountId, amount: u128 },
}

/// The view of an [`Event`].
#[verifier::ext_equal]
pub ghost enum EventView {
    MarketCreated { market_id: u32, owner: Seq<char> },
    OfferCreated { offer_id: u32, market_id: u32, is_long: bool, account_id: Seq<char>, amount: u128 },
    OfferAccepted { offer_id: u32, market_id: u32, account_id: Seq<char> },
    MarketClosed { market_id: u32 },
    Credit { account_id: Seq<char>, amount: u128 },
    Withdraw { account_id: Seq<char>, amount: u128 },
}

impl View for Event {
    type V = EventView;

    open spec fn view(&self) -> EventView {
        match *self {
            Event::MarketCreated { market_id, owner } => EventView::MarketCreated {
                market_id,
                owner: owner@,
            },
            Event::OfferCreated { offer_id, market_id, is_long, account_id, amount } => EventView::OfferCreated {
                offer_id,
                market_id,
                is_long,
                account_id: account_id@,
                amount: amount,
            },
            Event::OfferAccepted { offer_id, market_id, account_id } => EventView::OfferAccepted {
                offer_id,
                market_id,
                account_id: account_id@,
            },
            Event::MarketClosed { market_id } => EventView::MarketClosed { market_id },
            Event::Credit { account_id, amount } => EventView::Credit {
                account_id: account_id@,
                amount: amount,
            },
            Event::Withdraw { account_id, amount } => EventView::Withdraw {
                account_id: account_id@,
                amount: amount,
            },
        }
    }
}

} // verus!
