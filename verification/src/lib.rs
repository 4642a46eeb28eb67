//! A ledger-backed prediction-market settlement engine.
//!
//! Parties open a market on a binary proposition, post collateralized
//! long/short offers against it, match offers pairwise into escrowed
//! positions, and, when the market owner resolves the market, the escrowed
//! funds are paid out double to the winning side of every position and
//! credited to an internal balance that the winner later withdraws.
//!
//! The host environment (caller identity, attached payments, durable
//! storage, asynchronous transfers) is kept outside: every operation takes
//! the caller and the attached amount as plain arguments and mutates an
//! explicit in-memory state container, so the whole accounting core is
//! verified, including conservation of value across every operation.

pub mod contract;
pub mod data;
pub mod errors;
pub mod laws;
pub mod model;

pub use contract::Contract;
pub use data::AccountId;
pub use data::CreditEntry;
pub use data::Event;
pub use data::Market;
pub use data::Offer;
pub use data::SharePair;
pub use data::ViewMarket;
pub use errors::MarketError;
