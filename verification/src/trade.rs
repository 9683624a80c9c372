//! Trade values: the immutable record of one match between two orders.

use vstd::prelude::*;

verus! {

/// One execution between a buy order and a sell order. Immutable once
/// created; the book's trade log only ever grows.
#[derive(Debug)]
pub struct Trade {
    /// Unique identifier of this trade.
    pub id: String,
    /// Identifier of the buy order involved.
    pub buy_order_id: String,
    /// Identifier of the sell order involved.
    pub sell_order_id: String,
    /// Instrument the trade executed on.
    pub symbol: String,
    /// Execution price: always the *resting* order's limit price.
    pub price: u64,
    /// Executed amount; strictly positive.
    pub quantity: u64,
    /// Creation instant of the match in milliseconds since the Unix epoch.
    pub timestamp: i64,
}

impl Clone for Trade {
    /// An exact copy of the trade record.
    fn clone(&self) -> (res: Trade)
        ensures
            res == *self,
    {
        Trade {
            id: self.id.clone(),
            buy_order_id: self.buy_order_id.clone(),
            sell_order_id: self.sell_order_id.clone(),
            symbol: self.symbol.clone(),
            price: self.price,
            quantity: self.quantity,
            timestamp: self.timestamp,
        }
    }
}

/// Append a copy of every trade in `src` to the back of `dst`, in order.
pub(crate) fn append_trades(dst: &mut Vec<Trade>, src: &Vec<Trade>)
    ensures
        final(dst)@ == old(dst)@ + src@,
{
    let ghost d0 = dst@;
    let mut i: usize = 0;
    while i < src.len()
        invariant
            0 <= i <= src@.len(),
            dst@ == d0 + src@.take(i as int),
        decreases src@.len() - i,
    {
        proof {
            assert(src@.take(i + 1) =~= src@.take(i as int).push(src@[i as int]));
            assert(d0 + src@.take(i + 1) =~= (d0 + src@.take(i as int)).push(src@[i as int]));
        }
        dst.push(src[i].clone());
        i = i + 1;
    }
    proof {
        assert(src@.take(i as int) =~= src@);
    }
}

/// Total executed quantity over a sequence of trades.
pub open spec fn trades_qty(ts: Seq<Trade>) -> int
    decreases ts.len(),
{
    if ts.len() == 0 {
        0
    } else {
        ts[0].quantity + trades_qty(ts.skip(1))
    }
}

pub proof fn lemma_trades_qty_concat(a: Seq<Trade>, b: Seq<Trade>)
    ensures
        trades_qty(a + b) == trades_qty(a) + trades_qty(b),
    decreases a.len(),
{
    if a.len() == 0 {
        assert(a + b =~= b);
    } else {
        assert((a + b).skip(1) =~= a.skip(1) + b);
        assert((a + b)[0] == a[0]);
        lemma_trades_qty_concat(a.skip(1), b);
        assert(trades_qty(a + b) == (a + b)[0].quantity + trades_qty((a + b).skip(1)));
    }
}

pub proof fn lemma_trades_qty_push(ts: Seq<Trade>, t: Trade)
    ensures
        trades_qty(ts.push(t)) == trades_qty(ts) + t.quantity,
    decreases ts.len(),
{
    if ts.len() == 0 {
        assert(ts.push(t).skip(1) =~= Seq::<Trade>::empty());
        assert(ts.push(t)[0] == t);
        assert(trades_qty(ts.push(t)) == t.quantity + trades_qty(ts.push(t).skip(1)));
    } else {
        assert(ts.push(t).skip(1) =~= ts.skip(1).push(t));
        lemma_trades_qty_push(ts.skip(1), t);
        assert(ts.push(t)[0] == ts[0]);
        assert(trades_qty(ts.push(t)) == ts[0].quantity + trades_qty(ts.push(t).skip(1)));
    }
}

} // verus!
