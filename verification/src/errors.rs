//! The failure taxonomy: every operation either commits all of its state
//! changes and returns a value, or commits none of them and returns one of
//! these errors.

use vstd::prelude::*;

verus! {

/// Why an operation refused to run. Each variant is tied by the operations'
/// contracts to the exact inputs on which it is returned.
#[derive(Clone, Copy, Debug, PartialEq, Eq, Structural)]
pub enum MarketError {
    /// A zero escrow amount was attached where a positive one is required.
    InvalidAmount,
    /// The named market or offer id is unknown (for offers this includes
    /// ids that were already consumed: removal is the race-avoidance
    /// mechanism, so a second acceptance observes `NotFound`).
    NotFound,
    /// The market referenced by an offer no longer exists.
    MarketNotFound,
    /// `close_market` on a market whose open flag was already flipped.
    AlreadyClosed,
    /// `close_market` by anyone but the market's owner.
    NotOwner,
    /// The acceptor's escrow does not exactly equal the offer's amount.
    AmountMismatch,
    /// The acceptor is the offer's own creator.
    SelfTrade,
    /// A position append on a market that is no longer open.
    MarketClosed,
    /// `withdraw` by an account with no credit entry.
    NothingToWithdraw,
    /// A payout or counter computation would overflow its value type;
    /// the call is refused rather than wrapping.
    ArithmeticOverflow,
}

} // verus!
