//! A single-instrument limit order book with verified matching.
//!
//! The engine keeps resting liquidity in two price ledgers (bids and asks),
//! matches incoming limit orders under strict price-time priority, and
//! records every execution in an append-only trade log. The central
//! invariants — the book is never crossed, quantity is conserved by every
//! call, and queues are consumed strictly from the front — are stated as
//! contracts and proved.

pub mod book;
pub mod ledger;
pub mod order;
mod stamp;
pub mod trade;

pub use book::OrderBook;
pub use ledger::PriceLevel;
pub use order::Order;
pub use order::OrderError;
pub use order::Side;
pub use trade::Trade;
