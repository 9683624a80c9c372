//! Order values: the side of the market an order belongs to, and the
//! limit-order record handed to the matching engine.

use crate::stamp::fresh_id;
use crate::stamp::now_millis;
use vstd::prelude::*;

verus! {

/// Which side of the market an order is on.
#[derive(Debug, Clone, Copy, PartialEq, Eq, Structural)]
pub enum Side {
    Buy,
    Sell,
}

impl Side {
    /// The side an order on this side trades against.
    pub open spec fn opposite(self) -> Side {
        match self {
            Side::Buy => Side::Sell,
            Side::Sell => Side::Buy,
        }
    }

    /// Rendering of the side as the conventional upper-case tag.
    pub fn label(self) -> (r: &'static str)
        ensures
            self == Side::Buy ==> r@ == "BUY"@,
            self == Side::Sell ==> r@ == "SELL"@,
    {
        match self {
            Side::Buy => "BUY",
            Side::Sell => "SELL",
        }
    }
}

/// A limit order: a request to buy or sell `quantity` units at `price` or
/// better. The `quantity` field always holds the *remaining* unfilled
/// amount; an order whose quantity reaches zero is removed from the book.
#[derive(Debug, PartialEq, Eq)]
pub struct Order {
    /// Unique identifier assigned at creation.
    pub id: String,
    /// Opaque reference to the originator; never interpreted by the engine.
    pub trader_id: String,
    /// Instrument identifier; must equal the owning book's symbol.
    pub symbol: String,
    /// Limit price in integer ticks; strictly positive for a valid order.
    pub price: u64,
    /// Remaining unfilled amount; strictly positive while the order is live.
    pub quantity: u64,
    /// Whether the order buys or sells.
    pub side: Side,
    /// Creation instant in milliseconds since the Unix epoch. Informational
    /// only: time priority is tracked by queue position, not by this value.
    pub timestamp: i64,
}

impl Clone for Order {
    /// An exact copy of the order record.
    fn clone(&self) -> (res: Order)
        ensures
            res == *self,
    {
        Order {
            id: self.id.clone(),
            trader_id: self.trader_id.clone(),
            symbol: self.symbol.clone(),
            price: self.price,
            quantity: self.quantity,
            side: self.side,
            timestamp: self.timestamp,
        }
    }
}

impl Order {
    /// Build a new order with a fresh identifier and the current time.
    pub fn new(trader_id: String, symbol: String, price: u64, quantity: u64, side: Side) -> (r:
        Order)
        ensures
            r.trader_id == trader_id,
            r.symbol == symbol,
            r.price == price,
            r.quantity == quantity,
            r.side == side,
            r.id@.len() == 36,
    {
        Order {
            id: fresh_id(),
            trader_id,
            symbol,
            price,
            quantity,
            side,
            timestamp: now_millis(),
        }
    }
}

/// Why an order was rejected before any matching was attempted. A rejected
/// order leaves the book completely unchanged.
#[derive(Debug, Clone, Copy, PartialEq, Eq, Structural)]
pub enum OrderError {
    /// The order's symbol does not equal the book's symbol.
    SymbolMismatch,
    /// The order was submitted with zero quantity.
    InvalidQuantity,
    /// The order was submitted with a zero price.
    InvalidPrice,
}

} // verus!
