//! The order book: owns all resting liquidity for one symbol, matches
//! incoming limit orders under price-time priority, and records every
//! execution in an append-only trade log.

use crate::ledger::PriceLevel;
use crate::ledger::ahead;
use crate::ledger::crosses;
use crate::ledger::fill_of;
use crate::ledger::flatten_ledger;
use crate::ledger::insert_resting;
use crate::ledger::ledger_consumed;
use crate::ledger::ledger_qty;
use crate::ledger::ledger_wf;
use crate::ledger::level_snapshot;
use crate::ledger::qty_clamped;
use crate::ledger::rested;
use crate::ledger::spec_fills;
use crate::ledger::sweep;
use crate::ledger::trade_matches_resting;
use crate::order::Order;
use crate::order::OrderError;
use crate::order::Side;
use crate::trade::Trade;
use crate::trade::append_trades;
use crate::trade::lemma_trades_qty_concat;
use crate::trade::trades_qty;
use vstd::prelude::*;

verus! {

/// A continuous double-auction book for a single instrument.
pub struct OrderBook {
    /// The instrument this book trades; fixed at construction.
    symbol: String,
    /// Bid ledger: price levels descending, best (highest) bid first.
    buy_orders: Vec<PriceLevel>,
    /// Ask ledger: price levels ascending, best (lowest) ask first.
    sell_orders: Vec<PriceLevel>,
    /// Append-only log of every trade this book has produced.
    trades: Vec<Trade>,
}

/// `o` with its remaining quantity replaced by `q`; every other field,
/// identity included, is unchanged.
pub open spec fn with_quantity(o: Order, q: u64) -> Order {
    Order {
        id: o.id,
        trader_id: o.trader_id,
        symbol: o.symbol,
        price: o.price,
        quantity: q,
        side: o.side,
        timestamp: o.timestamp,
    }
}

impl OrderBook {
    /// The bid ledger, best bid first.
    pub closed spec fn bids(self) -> Seq<PriceLevel> {
        self.buy_orders@
    }

    /// The ask ledger, best ask first.
    pub closed spec fn asks(self) -> Seq<PriceLevel> {
        self.sell_orders@
    }

    /// The ledger holding resting orders of side `s`.
    pub open spec fn side_levels(self, s: Side) -> Seq<PriceLevel> {
        match s {
            Side::Buy => self.bids(),
            Side::Sell => self.asks(),
        }
    }

    /// The book's instrument identifier.
    pub closed spec fn sym(self) -> Seq<char> {
        self.symbol@
    }

    /// Every trade this book has ever produced, in order of execution.
    pub closed spec fn log(self) -> Seq<Trade> {
        self.trades@
    }

    /// The book is never crossed: while both sides hold liquidity, the
    /// best bid is strictly below the best ask.
    pub open spec fn uncrossed(self) -> bool {
        self.bids().len() > 0 && self.asks().len() > 0 ==> self.bids()[0].price
            < self.asks()[0].price
    }

    /// Well-formedness of the whole book: both ledgers well formed for
    /// their side and symbol, and the book uncrossed. Established by
    /// `new` and preserved by every call.
    pub open spec fn wf(self) -> bool {
        &&& ledger_wf(self.sym(), Side::Buy, self.bids())
        &&& ledger_wf(self.sym(), Side::Sell, self.asks())
        &&& self.uncrossed()
    }

    /// The best (highest) resting bid price, if any.
    pub open spec fn spec_best_bid(self) -> Option<u64> {
        if self.bids().len() == 0 {
            None
        } else {
            Some(self.bids()[0].price)
        }
    }

    /// The best (lowest) resting ask price, if any.
    pub open spec fn spec_best_ask(self) -> Option<u64> {
        if self.asks().len() == 0 {
            None
        } else {
            Some(self.asks()[0].price)
        }
    }

    /// An empty book for `symbol`: no resting orders, no trades.
    pub fn new(symbol: String) -> (r: OrderBook)
        ensures
            r.wf(),
            r.sym() == symbol@,
            r.bids().len() == 0,
            r.asks().len() == 0,
            r.log().len() == 0,
    {
        OrderBook {
            symbol,
            buy_orders: Vec::new(),
            sell_orders: Vec::new(),
            trades: Vec::new(),
        }
    }

    /// The best resting bid price, or `None` if no buys rest.
    pub fn get_best_bid(&self) -> (r: Option<u64>)
        ensures
            r == self.spec_best_bid(),
    {
        if self.buy_orders.len() == 0 {
            None
        } else {
            Some(self.buy_orders[0].price)
        }
    }

    /// The best resting ask price, or `None` if no sells rest.
    pub fn get_best_ask(&self) -> (r: Option<u64>)
        ensures
            r == self.spec_best_ask(),
    {
        if self.sell_orders.len() == 0 {
            None
        } else {
            Some(self.sell_orders[0].price)
        }
    }

    /// Read-only reporting view of the bid ledger: one (price, aggregate
    /// resting quantity) pair per level, best bid first. Aggregates
    /// saturate at `u64::MAX`.
    pub fn bid_levels(&self) -> (r: Vec<(u64, u64)>)
        ensures
            r@.len() == self.bids().len(),
            forall|i: int|
                0 <= i < r@.len() ==> (#[trigger] r@[i]).0 == self.bids()[i].price && r@[i].1
                    == qty_clamped(self.bids()[i].orders@),
    {
        level_snapshot(&self.buy_orders)
    }

    /// Read-only reporting view of the ask ledger: one (price, aggregate
    /// resting quantity) pair per level, best ask first. Aggregates
    /// saturate at `u64::MAX`.
    pub fn ask_levels(&self) -> (r: Vec<(u64, u64)>)
        ensures
            r@.len() == self.asks().len(),
            forall|i: int|
                0 <= i < r@.len() ==> (#[trigger] r@[i]).0 == self.asks()[i].price && r@[i].1
                    == qty_clamped(self.asks()[i].orders@),
    {
        level_snapshot(&self.sell_orders)
    }

    /// Every trade this book has produced, oldest first.
    pub fn trade_log(&self) -> (r: &Vec<Trade>)
        ensures
            r@ == self.log(),
    {
        &self.trades
    }

    /// Rest a validated buy order that could not (fully) match.
    fn add_buy_order(&mut self, order: Order)
        requires
            ledger_wf(old(self).sym(), Side::Buy, old(self).bids()),
            order.side == Side::Buy,
            order.symbol@ == old(self).sym(),
            order.price >= 1,
            order.quantity >= 1,
        ensures
            ledger_wf(final(self).sym(), Side::Buy, final(self).bids()),
            ledger_qty(final(self).bids()) == ledger_qty(old(self).bids()) + order.quantity,
            rested(old(self).bids(), final(self).bids(), order),
            final(self).bids().len() >= 1,
            final(self).bids()[0].price == if old(self).bids().len() == 0 {
                order.price
            } else if ahead(Side::Buy, old(self).bids()[0].price, order.price) {
                old(self).bids()[0].price
            } else {
                order.price
            },
            final(self).asks() == old(self).asks(),
            final(self).log() == old(self).log(),
            final(self).sym() == old(self).sym(),
    {
        insert_resting(&mut self.buy_orders, order);
    }

    /// Rest a validated sell order that could not (fully) match.
    fn add_sell_order(&mut self, order: Order)
        requires
            ledger_wf(old(self).sym(), Side::Sell, old(self).asks()),
            order.side == Side::Sell,
            order.symbol@ == old(self).sym(),
            order.price >= 1,
            order.quantity >= 1,
        ensures
            ledger_wf(final(self).sym(), Side::Sell, final(self).asks()),
            ledger_qty(final(self).asks()) == ledger_qty(old(self).asks()) + order.quantity,
            rested(old(self).asks(), final(self).asks(), order),
            final(self).asks().len() >= 1,
            final(self).asks()[0].price == if old(self).asks().len() == 0 {
                order.price
            } else if ahead(Side::Sell, old(self).asks()[0].price, order.price) {
                old(self).asks()[0].price
            } else {
                order.price
            },
            final(self).bids() == old(self).bids(),
            final(self).log() == old(self).log(),
            final(self).sym() == old(self).sym(),
    {
        insert_resting(&mut self.sell_orders, order);
    }

    /// Submit a limit order. The order is validated, then matched against
    /// the opposite ledger under price-time priority; any strictly
    /// positive residual rests on its own ledger. Returns the trades this
    /// call produced, in execution order; they are also appended to the
    /// book's trade log. Rejected orders leave the book untouched.
    pub fn place_order(&mut self, order: Order) -> (r: Result<Vec<Trade>, OrderError>)
        requires
            old(self).wf(),
        ensures
            final(self).wf(),
            final(self).sym() == old(self).sym(),
            r is Err ==> *final(self) == *old(self),
            r == Err::<Vec<Trade>, OrderError>(OrderError::SymbolMismatch) <==> order.symbol@
                != old(self).sym(),
            r == Err::<Vec<Trade>, OrderError>(OrderError::InvalidQuantity) <==> order.symbol@
                == old(self).sym() && order.quantity == 0,
            r == Err::<Vec<Trade>, OrderError>(OrderError::InvalidPrice) <==> order.symbol@ == old(
                self,
            ).sym() && order.quantity >= 1 && order.price == 0,
            r is Ok <==> order.symbol@ == old(self).sym() && order.quantity >= 1 && order.price
                >= 1,
            r matches Ok(ts) ==> ({
                let traded = trades_qty(ts@);
                let residual = order.quantity - traded;
                let own0 = old(self).side_levels(order.side);
                let own1 = final(self).side_levels(order.side);
                let opp0 = old(self).side_levels(order.side.opposite());
                let opp1 = final(self).side_levels(order.side.opposite());
                &&& 0 <= traded <= order.quantity
                &&& opp1.len() <= opp0.len()
                &&& final(self).log() == old(self).log() + ts@
                &&& ledger_qty(opp1) == ledger_qty(opp0) - traded
                &&& ledger_qty(own1) == ledger_qty(own0) + residual
                &&& ledger_qty(own1) + ledger_qty(opp1) + 2 * trades_qty(final(self).log())
                    == ledger_qty(own0) + ledger_qty(opp0) + 2 * trades_qty(old(self).log())
                    + order.quantity
                &&& forall|i: int|
                    0 <= i < ts@.len() ==> ({
                        let t = #[trigger] ts@[i];
                        &&& t.symbol@ == old(self).sym()
                        &&& t.quantity >= 1
                        &&& t.quantity <= order.quantity
                        &&& crosses(order.side, order.price, t.price)
                        &&& trade_matches_resting(t, order.side, order.id@, opp0)
                    })
                &&& forall|i1: int, i2: int|
                    0 <= i1 <= i2 < ts@.len() ==> !ahead(
                        order.side.opposite(),
                        (#[trigger] ts@[i2]).price,
                        (#[trigger] ts@[i1]).price,
                    )
                &&& ts@.len() == spec_fills(
                    flatten_ledger(opp0),
                    order.side,
                    order.price,
                    order.quantity as int,
                ).len()
                &&& forall|i: int|
                    0 <= i < ts@.len() ==> fill_of(#[trigger] ts@[i], order.side) == spec_fills(
                        flatten_ledger(opp0),
                        order.side,
                        order.price,
                        order.quantity as int,
                    )[i]
                &&& ledger_consumed(opp0, opp1)
                &&& residual > 0 ==> rested(own0, own1, with_quantity(order, residual as u64))
                &&& residual == 0 ==> own1 == own0
                &&& (opp0.len() == 0 || !crosses(order.side, order.price, opp0[0].price))
                    ==> ts@.len() == 0
            }),
    {
        if order.symbol != self.symbol {
            return Err(OrderError::SymbolMismatch);
        }
        if order.quantity == 0 {
            return Err(OrderError::InvalidQuantity);
        }
        if order.price == 0 {
            return Err(OrderError::InvalidPrice);
        }
        let mut new_trades: Vec<Trade> = Vec::new();
        let mut remaining = order.quantity;
        match order.side {
            Side::Buy => {
                sweep(
                    &mut self.sell_orders,
                    Side::Buy,
                    order.price,
                    &order.id,
                    &self.symbol,
                    &mut remaining,
                    &mut new_trades,
                );
                proof {
                    assert(new_trades@.skip(0) =~= new_trades@);
                }
                if remaining > 0 {
                    let residual = Order {
                        id: order.id,
                        trader_id: order.trader_id,
                        symbol: order.symbol,
                        price: order.price,
                        quantity: remaining,
                        side: order.side,
                        timestamp: order.timestamp,
                    };
                    self.add_buy_order(residual);
                }
            },
            Side::Sell => {
                sweep(
                    &mut self.buy_orders,
                    Side::Sell,
                    order.price,
                    &order.id,
                    &self.symbol,
                    &mut remaining,
                    &mut new_trades,
                );
                proof {
                    assert(new_trades@.skip(0) =~= new_trades@);
                }
                if remaining > 0 {
                    let residual = Order {
                        id: order.id,
                        trader_id: order.trader_id,
                        symbol: order.symbol,
                        price: order.price,
                        quantity: remaining,
                        side: order.side,
                        timestamp: order.timestamp,
                    };
                    self.add_sell_order(residual);
                }
            },
        }
        append_trades(&mut self.trades, &new_trades);
        proof {
            lemma_trades_qty_concat(old(self).trades@, new_trades@);
        }
        Ok(new_trades)
    }
}

/// The book is never crossed: after any completed call, while both sides
/// hold liquidity, the best bid price is strictly below the best ask
/// price. This follows from well-formedness, which every mutating call
/// preserves.
pub proof fn lemma_no_crossed_book(b: OrderBook)
    requires
        b.wf(),
    ensures
        b.spec_best_bid() is Some && b.spec_best_ask() is Some
            ==> b.spec_best_bid()->Some_0 < b.spec_best_ask()->Some_0,
{
}

} // verus!
