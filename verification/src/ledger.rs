//! Price-level ledgers: one side of the book as a vector of price levels,
//! best price first, each level a FIFO queue of resting orders. This module
//! holds the two verified mutations — sweeping the opposite ledger when an
//! order arrives, and resting a residual order on its own ledger — together
//! with the specification vocabulary their contracts are written in.

use crate::order::Order;
use crate::order::Side;
use crate::stamp::fresh_id;
use crate::stamp::now_millis;
use crate::trade::Trade;
use crate::trade::lemma_trades_qty_push;
use crate::trade::trades_qty;
use vstd::prelude::*;

verus! {

/// All resting orders at one price on one side, queued in arrival order:
/// the front of `orders` is matched first.
#[derive(Debug)]
pub struct PriceLevel {
    /// The price shared by every order queued here.
    pub price: u64,
    /// The FIFO queue of resting orders; never empty while the level exists.
    pub orders: Vec<Order>,
}

/// Ledger ordering: on a ledger of side `side`, a level priced `p1` stands
/// ahead of (is matched before) one priced `p2`. Bids are ordered
/// descending, asks ascending, so the best price is always at index 0.
pub open spec fn ahead(side: Side, p1: u64, p2: u64) -> bool {
    match side {
        Side::Buy => p1 > p2,
        Side::Sell => p1 < p2,
    }
}

/// An incoming order of side `taker` with limit `limit` is willing to trade
/// at the resting price `resting`: a buy crosses asks at or below its
/// limit, a sell crosses bids at or above its limit.
pub open spec fn crosses(taker: Side, limit: u64, resting: u64) -> bool {
    match taker {
        Side::Buy => resting <= limit,
        Side::Sell => resting >= limit,
    }
}

/// A well-formed queue for a level priced `price` on side `side` of a book
/// for `sym`: non-empty, and every order in it carries that side, symbol
/// and price and a strictly positive remaining quantity.
pub open spec fn queue_wf(sym: Seq<char>, side: Side, price: u64, q: Seq<Order>) -> bool {
    &&& q.len() > 0
    &&& forall|i: int|
        0 <= i < q.len() ==> {
            &&& (#[trigger] q[i]).side == side
            &&& q[i].symbol@ == sym
            &&& q[i].price == price
            &&& q[i].quantity >= 1
        }
}

/// A well-formed ledger: positive prices, strictly ordered best-first,
/// no empty levels, and every queue well formed for its level.
pub open spec fn ledger_wf(sym: Seq<char>, side: Side, ls: Seq<PriceLevel>) -> bool {
    &&& forall|i: int, j: int|
        0 <= i < j < ls.len() ==> ahead(side, (#[trigger] ls[i]).price, (#[trigger] ls[j]).price)
    &&& forall|i: int|
        0 <= i < ls.len() ==> {
            &&& (#[trigger] ls[i]).price >= 1
            &&& queue_wf(sym, side, ls[i].price, ls[i].orders@)
        }
}

/// Total resting quantity in one queue.
pub open spec fn queue_qty(q: Seq<Order>) -> int
    decreases q.len(),
{
    if q.len() == 0 {
        0
    } else {
        q[0].quantity + queue_qty(q.skip(1))
    }
}

/// Total resting quantity on one ledger.
pub open spec fn ledger_qty(ls: Seq<PriceLevel>) -> int
    decreases ls.len(),
{
    if ls.len() == 0 {
        0
    } else {
        queue_qty(ls[0].orders@) + ledger_qty(ls.skip(1))
    }
}

pub proof fn lemma_queue_qty_nonneg(q: Seq<Order>)
    ensures
        queue_qty(q) >= 0,
    decreases q.len(),
{
    if q.len() > 0 {
        lemma_queue_qty_nonneg(q.skip(1));
    }
}

pub proof fn lemma_ledger_qty_nonneg(ls: Seq<PriceLevel>)
    ensures
        ledger_qty(ls) >= 0,
    decreases ls.len(),
{
    if ls.len() > 0 {
        lemma_queue_qty_nonneg(ls[0].orders@);
        lemma_ledger_qty_nonneg(ls.skip(1));
    }
}

pub proof fn lemma_queue_qty_push(q: Seq<Order>, o: Order)
    ensures
        queue_qty(q.push(o)) == queue_qty(q) + o.quantity,
    decreases q.len(),
{
    if q.len() == 0 {
        assert(q.push(o).skip(1) =~= Seq::<Order>::empty());
        assert(q.push(o)[0] == o);
        assert(queue_qty(q.push(o)) == o.quantity + queue_qty(q.push(o).skip(1)));
    } else {
        assert(q.push(o).skip(1) =~= q.skip(1).push(o));
        lemma_queue_qty_push(q.skip(1), o);
        assert(q.push(o)[0] == q[0]);
        assert(queue_qty(q.push(o)) == q[0].quantity + queue_qty(q.push(o).skip(1)));
    }
}

pub proof fn lemma_ledger_qty_insert(ls: Seq<PriceLevel>, i: int, lvl: PriceLevel)
    requires
        0 <= i <= ls.len(),
    ensures
        ledger_qty(ls.insert(i, lvl)) == ledger_qty(ls) + queue_qty(lvl.orders@),
    decreases ls.len(),
{
    if i == 0 {
        assert(ls.insert(0, lvl).skip(1) =~= ls);
    } else {
        assert(ls.insert(i, lvl).skip(1) =~= ls.skip(1).insert(i - 1, lvl));
        assert(ls.insert(i, lvl)[0] == ls[0]);
        lemma_ledger_qty_insert(ls.skip(1), i - 1, lvl);
    }
}

pub proof fn lemma_ledger_qty_update(ls: Seq<PriceLevel>, i: int, lvl: PriceLevel)
    requires
        0 <= i < ls.len(),
    ensures
        ledger_qty(ls.update(i, lvl)) == ledger_qty(ls) - queue_qty(ls[i].orders@) + queue_qty(
            lvl.orders@,
        ),
    decreases ls.len(),
{
    if i == 0 {
        assert(ls.update(0, lvl).skip(1) =~= ls.skip(1));
    } else {
        assert(ls.update(i, lvl).skip(1) =~= ls.skip(1).update(i - 1, lvl));
        assert(ls.update(i, lvl)[0] == ls[0]);
        lemma_ledger_qty_update(ls.skip(1), i - 1, lvl);
    }
}

/// `b` is `a` after zero or more partial fills: every field agrees except
/// that the remaining quantity may have shrunk.
pub open spec fn front_reduced(a: Order, b: Order) -> bool {
    &&& b.id == a.id
    &&& b.trader_id == a.trader_id
    &&& b.symbol == a.symbol
    &&& b.price == a.price
    &&& b.side == a.side
    &&& b.timestamp == a.timestamp
    &&& b.quantity <= a.quantity
}

/// Queue `q1` is queue `q0` with its first `k` orders fully consumed and
/// the next one possibly partially filled: consumption strictly from the
/// front, the heart of time priority.
pub open spec fn queue_suffix_at(q0: Seq<Order>, q1: Seq<Order>, k: int) -> bool {
    &&& 0 <= k <= q0.len()
    &&& q1.len() == q0.len() - k
    &&& forall|i: int| 1 <= i < q1.len() ==> q1[i] == q0[k + i]
    &&& q1.len() > 0 ==> front_reduced(q0[k], q1[0])
}

/// Some number of orders was consumed strictly from the front of `q0`,
/// leaving `q1`.
pub open spec fn queue_consumed(q0: Seq<Order>, q1: Seq<Order>) -> bool {
    exists|k: int| #[trigger] queue_suffix_at(q0, q1, k)
}

/// Ledger `l1` is ledger `l0` with its first `m` levels fully consumed and
/// the next one possibly drained from the front of its queue: better
/// levels are exhausted before worse ones are touched, the heart of price
/// priority.
pub open spec fn ledger_consumed_at(l0: Seq<PriceLevel>, l1: Seq<PriceLevel>, m: int) -> bool {
    &&& 0 <= m <= l0.len()
    &&& l1.len() == l0.len() - m
    &&& forall|i: int| 1 <= i < l1.len() ==> l1[i] == l0[m + i]
    &&& l1.len() > 0 ==> l1[0].price == l0[m].price && queue_consumed(l0[m].orders@, l1[0].orders@)
}

/// Some prefix of the ledger's levels was consumed, in order, from the
/// front.
pub open spec fn ledger_consumed(l0: Seq<PriceLevel>, l1: Seq<PriceLevel>) -> bool {
    exists|m: int| #[trigger] ledger_consumed_at(l0, l1, m)
}

/// One planned fill: which resting order trades (by identifier), at what
/// price, and how much. The plan for a whole sweep is a function of the
/// book and the incoming order alone, so the engine's output is pinned
/// down exactly, up to the fresh trade identifiers and timestamps.
pub ghost struct Fill {
    /// Identifier of the resting order consumed by this fill.
    pub maker_id: Seq<char>,
    /// Execution price: the resting order's level price.
    pub price: u64,
    /// Executed amount.
    pub quantity: int,
}

/// The fill a recorded trade stands for: the maker is the side opposite
/// the incoming order.
pub open spec fn fill_of(t: Trade, taker: Side) -> Fill {
    Fill {
        maker_id: match taker {
            Side::Buy => t.sell_order_id@,
            Side::Sell => t.buy_order_id@,
        },
        price: t.price,
        quantity: t.quantity as int,
    }
}

/// A ledger flattened into the order in which a sweep meets its resting
/// orders: best level first, each level front to back. Every order
/// carries its level's price, so no structure is lost.
pub open spec fn flatten_ledger(ls: Seq<PriceLevel>) -> Seq<Order>
    decreases ls.len(),
{
    if ls.len() == 0 {
        Seq::empty()
    } else {
        ls[0].orders@ + flatten_ledger(ls.skip(1))
    }
}

/// The exact sequence of fills produced by matching `r` units with limit
/// `limit` against the resting orders `makers`, met in order: each fill
/// takes the lesser of what remains and the maker's quantity, at the
/// maker's price, and matching stops at the first maker whose price does
/// not cross, or when nothing remains.
pub open spec fn spec_fills(makers: Seq<Order>, taker: Side, limit: u64, r: int) -> Seq<Fill>
    decreases makers.len(),
{
    if r <= 0 || makers.len() == 0 || !crosses(taker, limit, makers[0].price) {
        Seq::empty()
    } else {
        let q = if makers[0].quantity <= r {
            makers[0].quantity as int
        } else {
            r
        };
        let head = Fill { maker_id: makers[0].id@, price: makers[0].price, quantity: q };
        seq![head] + spec_fills(makers.skip(1), taker, limit, r - q)
    }
}

pub proof fn lemma_flatten_front(ls: Seq<PriceLevel>)
    requires
        ls.len() > 0,
        ls[0].orders@.len() > 0,
    ensures
        flatten_ledger(ls).len() == ls[0].orders@.len() + flatten_ledger(ls.skip(1)).len(),
        flatten_ledger(ls)[0] == ls[0].orders@[0],
        flatten_ledger(ls).skip(1) == ls[0].orders@.skip(1) + flatten_ledger(ls.skip(1)),
{
    assert(flatten_ledger(ls) == ls[0].orders@ + flatten_ledger(ls.skip(1)));
    assert(flatten_ledger(ls).skip(1) =~= ls[0].orders@.skip(1) + flatten_ledger(ls.skip(1)));
}

/// Trade `t` executed against an order actually resting in ledger `book0`
/// (the opposite ledger as it stood when the incoming order arrived), at
/// that resting order's level price, with the incoming order `taker_id` of
/// side `taker` on the other side.
pub open spec fn trade_matches_resting(
    t: Trade,
    taker: Side,
    taker_id: Seq<char>,
    book0: Seq<PriceLevel>,
) -> bool {
    exists|i: int, j: int|
        {
            &&& 0 <= i < book0.len()
            &&& 0 <= j < (#[trigger] book0[i]).orders@.len()
            &&& t.price == book0[i].price
            &&& {
                let maker = #[trigger] book0[i].orders@[j];
                match taker {
                    Side::Buy => t.buy_order_id@ == taker_id && t.sell_order_id@ == maker.id@,
                    Side::Sell => t.sell_order_id@ == taker_id && t.buy_order_id@ == maker.id@,
                }
            }
        }
}

/// Ledger `l1` is ledger `l0` with order `o` rested: appended to the back
/// of the queue at its price, the level being created at sorted position
/// `i` if it was absent, and everything else untouched.
pub open spec fn rested_at(l0: Seq<PriceLevel>, l1: Seq<PriceLevel>, o: Order, i: int) -> bool {
    &&& 0 <= i < l1.len()
    &&& l1[i].price == o.price
    &&& l1[i].orders@.len() > 0
    &&& l1[i].orders@.last() == o
    &&& if i < l0.len() && l0[i].price == o.price {
        &&& l1.len() == l0.len()
        &&& l1[i].orders@ == l0[i].orders@.push(o)
        &&& forall|j: int| 0 <= j < l1.len() && j != i ==> l1[j] == l0[j]
    } else {
        &&& l1.len() == l0.len() + 1
        &&& l1[i].orders@ =~= seq![o]
        &&& forall|j: int| 0 <= j < i ==> l1[j] == l0[j]
        &&& forall|j: int| i < j < l1.len() ==> l1[j] == l0[j - 1]
    }
}

/// Order `o` was rested on the ledger, leaving everything else untouched.
pub open spec fn rested(l0: Seq<PriceLevel>, l1: Seq<PriceLevel>, o: Order) -> bool {
    exists|i: int| #[trigger] rested_at(l0, l1, o, i)
}

/// Total queue quantity clamped to the largest representable amount, for
/// reporting.
pub open spec fn qty_clamped(q: Seq<Order>) -> u64 {
    if queue_qty(q) > u64::MAX {
        u64::MAX
    } else {
        queue_qty(q) as u64
    }
}

/// Aggregate remaining quantity in one queue, saturating at `u64::MAX`.
fn queue_quantity(q: &Vec<Order>) -> (r: u64)
    ensures
        r == qty_clamped(q@),
{
    let mut total: u64 = 0;
    let mut i: usize = 0;
    while i < q.len()
        invariant
            0 <= i <= q@.len(),
            total == qty_clamped(q@.take(i as int)),
        decreases q@.len() - i,
    {
        proof {
            lemma_queue_qty_nonneg(q@.take(i as int));
            assert(q@.take(i + 1) =~= q@.take(i as int).push(q@[i as int]));
            lemma_queue_qty_push(q@.take(i as int), q@[i as int]);
        }
        let x = q[i].quantity;
        if total > u64::MAX - x {
            total = u64::MAX;
        } else {
            total = total + x;
        }
        i = i + 1;
    }
    proof {
        assert(q@.take(i as int) =~= q@);
    }
    total
}

/// One (price, aggregate remaining quantity) pair per level, in ledger
/// order (best level first); quantities saturate at `u64::MAX`.
pub(crate) fn level_snapshot(levels: &Vec<PriceLevel>) -> (r: Vec<(u64, u64)>)
    ensures
        r@.len() == levels@.len(),
        forall|i: int|
            0 <= i < r@.len() ==> (#[trigger] r@[i]).0 == levels@[i].price && r@[i].1
                == qty_clamped(levels@[i].orders@),
{
    let mut out: Vec<(u64, u64)> = Vec::new();
    let mut i: usize = 0;
    while i < levels.len()
        invariant
            0 <= i <= levels@.len(),
            out@.len() == i,
            forall|j: int|
                0 <= j < i ==> (#[trigger] out@[j]).0 == levels@[j].price && out@[j].1
                    == qty_clamped(levels@[j].orders@),
        decreases levels@.len() - i,
    {
        let q = queue_quantity(&levels[i].orders);
        out.push((levels[i].price, q));
        i = i + 1;
    }
    out
}

/// Price-time priority: matching consumes a price level's queue strictly
/// from the front. Whenever the order that rested at position `j` of the
/// old queue was touched by a sweep — fully consumed, or left partially
/// filled as the new front — every order that rested ahead of it at the
/// same price (any position `i < j`) was already fully consumed, and the
/// surviving orders are exactly the untouched tail of the old queue.
pub proof fn lemma_price_time_priority(q0: Seq<Order>, q1: Seq<Order>, i: int, j: int)
    requires
        queue_consumed(q0, q1),
        0 <= i < j < q0.len(),
        j < q0.len() - q1.len() || (j == q0.len() - q1.len() && q1.len() > 0 && q1[0].quantity
            < q0[j].quantity),
    ensures
        i < q0.len() - q1.len(),
        forall|n: int| 1 <= n < q1.len() ==> q1[n] == q0[q0.len() - q1.len() + n],
        q1.len() > 0 ==> front_reduced(q0[q0.len() - q1.len()], q1[0]),
{
    let k = choose|k: int| queue_suffix_at(q0, q1, k);
    assert(k == q0.len() - q1.len());
}

/// Price priority across levels: a sweep exhausts better-priced levels
/// entirely before touching a worse one. If the level at position `j` of
/// the old ledger was touched — removed outright, or left (possibly
/// partially drained) as the new front — then every better level, at any
/// position `i < j`, was fully consumed, and the surviving levels are
/// exactly the tail of the old ledger.
pub proof fn lemma_price_priority(l0: Seq<PriceLevel>, l1: Seq<PriceLevel>, i: int, j: int)
    requires
        ledger_consumed(l0, l1),
        0 <= i < j < l0.len(),
        j <= l0.len() - l1.len(),
    ensures
        i < l0.len() - l1.len(),
        forall|n: int| 1 <= n < l1.len() ==> l1[n] == l0[l0.len() - l1.len() + n],
        l1.len() > 0 ==> l1[0].price == l0[l0.len() - l1.len()].price && queue_consumed(
            l0[l0.len() - l1.len()].orders@,
            l1[0].orders@,
        ),
{
    let m = choose|m: int| ledger_consumed_at(l0, l1, m);
    assert(m == l0.len() - l1.len());
}

/// Exec mirror of `ahead`.
fn price_ahead(side: Side, p1: u64, p2: u64) -> (r: bool)
    ensures
        r == ahead(side, p1, p2),
{
    match side {
        Side::Buy => p1 > p2,
        Side::Sell => p1 < p2,
    }
}

/// Exec mirror of `crosses`.
fn price_crosses(taker: Side, limit: u64, resting: u64) -> (r: bool)
    ensures
        r == crosses(taker, limit, resting),
{
    match taker {
        Side::Buy => resting <= limit,
        Side::Sell => resting >= limit,
    }
}

/// Rest `order` on its own ledger: append it to the FIFO queue at its
/// price, creating the level at its sorted position if absent.
pub(crate) fn insert_resting(levels: &mut Vec<PriceLevel>, order: Order)
    requires
        ledger_wf(order.symbol@, order.side, old(levels)@),
        order.price >= 1,
        order.quantity >= 1,
    ensures
        ledger_wf(order.symbol@, order.side, final(levels)@),
        ledger_qty(final(levels)@) == ledger_qty(old(levels)@) + order.quantity,
        rested(old(levels)@, final(levels)@, order),
        final(levels)@.len() >= 1,
        final(levels)@[0].price == if old(levels)@.len() == 0 {
            order.price
        } else if ahead(order.side, old(levels)@[0].price, order.price) {
            old(levels)@[0].price
        } else {
            order.price
        },
{
    let ghost l0 = levels@;
    let mut idx: usize = 0;
    while idx < levels.len() && price_ahead(order.side, levels[idx].price, order.price)
        invariant
            0 <= idx <= levels.len(),
            levels@ == l0,
            forall|j: int| 0 <= j < idx ==> ahead(order.side, (#[trigger] l0[j]).price, order.price),
        decreases levels.len() - idx,
    {
        idx = idx + 1;
    }
    if idx < levels.len() && levels[idx].price == order.price {
        let mut lvl = levels.remove(idx);
        lvl.orders.push(order);
        levels.insert(idx, lvl);
        proof {
            assert(levels@ =~= l0.update(idx as int, PriceLevel { price: order.price, orders: lvl.orders }));
            lemma_ledger_qty_update(l0, idx as int, levels@[idx as int]);
            lemma_queue_qty_push(l0[idx as int].orders@, order);
            assert(rested_at(l0, levels@, order, idx as int));
        }
    } else {
        let price = order.price;
        let mut fresh: Vec<Order> = Vec::new();
        fresh.push(order);
        let lvl = PriceLevel { price, orders: fresh };
        levels.insert(idx, lvl);
        proof {
            lemma_ledger_qty_insert(l0, idx as int, levels@[idx as int]);
            assert(levels@[idx as int].orders@ =~= seq![order]);
            assert(queue_qty(levels@[idx as int].orders@) == order.quantity + queue_qty(
                levels@[idx as int].orders@.skip(1),
            ));
            assert(rested_at(l0, levels@, order, idx as int));
            // sortedness: everything before idx is ahead of the new price,
            // and the new price is ahead of everything at idx and after
            assert forall|j: int| idx < j < levels@.len() implies ahead(
                order.side,
                order.price,
                levels@[j].price,
            ) by {
                assert(levels@[j] == l0[j - 1]);
            }
        }
    }
}

/// Sweep the opposite ledger with an incoming order of side `taker` and
/// limit price `limit`, matching against the best levels in price order
/// and against each level's queue in arrival order, until the incoming
/// order is filled, the ledger is exhausted, or the best level no longer
/// crosses. Emits one trade per resting order touched, priced at the
/// resting level's price, and appends them to `trades`.
pub(crate) fn sweep(
    levels: &mut Vec<PriceLevel>,
    taker: Side,
    limit: u64,
    taker_id: &String,
    sym: &String,
    remaining: &mut u64,
    trades: &mut Vec<Trade>,
)
    requires
        ledger_wf(sym@, taker.opposite(), old(levels)@),
        limit >= 1,
    ensures
        ledger_wf(sym@, taker.opposite(), final(levels)@),
        *final(remaining) <= *old(remaining),
        ledger_qty(final(levels)@) == ledger_qty(old(levels)@) - (*old(remaining)
            - *final(remaining)),
        final(trades)@.len() >= old(trades)@.len(),
        final(trades)@.take(old(trades)@.len() as int) == old(trades)@,
        trades_qty(final(trades)@.skip(old(trades)@.len() as int)) == *old(remaining)
            - *final(remaining),
        forall|i: int|
            old(trades)@.len() <= i < final(trades)@.len() ==> {
                let t = #[trigger] final(trades)@[i];
                &&& t.symbol@ == sym@
                &&& t.quantity >= 1
                &&& t.quantity <= *old(remaining)
                &&& crosses(taker, limit, t.price)
                &&& trade_matches_resting(t, taker, taker_id@, old(levels)@)
            },
        forall|i1: int, i2: int|
            old(trades)@.len() <= i1 <= i2 < final(trades)@.len() ==> !ahead(
                taker.opposite(),
                (#[trigger] final(trades)@[i2]).price,
                (#[trigger] final(trades)@[i1]).price,
            ),
        final(trades)@.len() == old(trades)@.len() + spec_fills(
            flatten_ledger(old(levels)@),
            taker,
            limit,
            *old(remaining) as int,
        ).len(),
        forall|i: int|
            old(trades)@.len() <= i < final(trades)@.len() ==> fill_of(
                #[trigger] final(trades)@[i],
                taker,
            ) == spec_fills(flatten_ledger(old(levels)@), taker, limit, *old(remaining) as int)[i
                - old(trades)@.len()],
        ledger_consumed(old(levels)@, final(levels)@),
        final(levels)@.len() <= old(levels)@.len(),
        final(levels)@.len() > 0 ==> old(levels)@.len() > 0
            && (final(levels)@[0].price == old(levels)@[0].price
            || ahead(taker.opposite(), old(levels)@[0].price, final(levels)@[0].price)),
        *final(remaining) >= 1 ==> final(levels)@.len() == 0
            || !crosses(taker, limit, final(levels)@[0].price),
        (old(levels)@.len() == 0 || !crosses(taker, limit, old(levels)@[0].price)
            || *old(remaining) == 0) ==> final(levels)@ == old(levels)@
            && final(trades)@ == old(trades)@ && *final(remaining) == *old(remaining),
{
    let ghost l0 = levels@;
    let ghost t0 = trades@;
    let ghost r0 = *remaining;
    let ghost mut m: int = 0;
    let ghost mut k: int = 0;
    let ghost mut fills: Seq<Fill> = Seq::empty();
    proof {
        assert(trades@.take(t0.len() as int) =~= t0);
        assert(trades@.skip(t0.len() as int) =~= Seq::<Trade>::empty());
        assert(fills + spec_fills(flatten_ledger(l0), taker, limit, r0 as int) =~= spec_fills(
            flatten_ledger(l0),
            taker,
            limit,
            r0 as int,
        ));
        lemma_ledger_qty_nonneg(levels@);
    }
    while *remaining > 0 && levels.len() > 0 && price_crosses(taker, limit, levels[0].price)
        invariant
            ledger_wf(sym@, taker.opposite(), levels@),
            *remaining <= r0,
            limit >= 1,
            0 <= m <= l0.len(),
            levels@.len() == l0.len() - m,
            forall|i: int| 1 <= i < levels@.len() ==> levels@[i] == l0[m + i],
            levels@.len() > 0 ==> levels@[0].price == l0[m].price && queue_suffix_at(
                l0[m].orders@,
                levels@[0].orders@,
                k,
            ),
            ledger_qty(levels@) == ledger_qty(l0) - (r0 - *remaining),
            trades@.len() >= t0.len(),
            trades@.take(t0.len() as int) == t0,
            trades_qty(trades@.skip(t0.len() as int)) == r0 - *remaining,
            forall|i: int|
                t0.len() <= i < trades@.len() ==> {
                    let t = #[trigger] trades@[i];
                    &&& t.symbol@ == sym@
                    &&& t.quantity >= 1
                    &&& t.quantity <= r0
                    &&& crosses(taker, limit, t.price)
                    &&& trade_matches_resting(t, taker, taker_id@, l0)
                },
            forall|i1: int, i2: int|
                t0.len() <= i1 <= i2 < trades@.len() ==> !ahead(
                    taker.opposite(),
                    (#[trigger] trades@[i2]).price,
                    (#[trigger] trades@[i1]).price,
                ),
            levels@.len() > 0 ==> forall|i: int|
                t0.len() <= i < trades@.len() ==> (#[trigger] trades@[i]).price == levels@[0].price
                    || ahead(taker.opposite(), trades@[i].price, levels@[0].price),
            fills.len() + t0.len() == trades@.len(),
            forall|i: int|
                0 <= i < fills.len() ==> fills[i] == fill_of(
                    #[trigger] trades@[t0.len() + i],
                    taker,
                ),
            fills + spec_fills(flatten_ledger(levels@), taker, limit, *remaining as int)
                == spec_fills(flatten_ledger(l0), taker, limit, r0 as int),
            (r0 > 0 && l0.len() > 0 && crosses(taker, limit, l0[0].price)) || (levels@ == l0
                && trades@ == t0 && *remaining == r0),
        decreases ledger_qty(levels@),
    {
        proof {
            lemma_ledger_qty_nonneg(levels@.skip(1));
            lemma_queue_qty_nonneg(levels@[0].orders@.skip(1));
        }
        let ghost lv_pre = levels@;
        let mut lvl = levels.remove(0);
        let ghost q_pre = lvl.orders@;
        let mut front = lvl.orders.remove(0);
        let maker_qty = front.quantity;
        let trade_qty = if *remaining < maker_qty {
            *remaining
        } else {
            maker_qty
        };
        let (buy_id, sell_id) = match taker {
            Side::Buy => (taker_id.clone(), front.id.clone()),
            Side::Sell => (front.id.clone(), taker_id.clone()),
        };
        let t = Trade {
            id: fresh_id(),
            buy_order_id: buy_id,
            sell_order_id: sell_id,
            symbol: sym.clone(),
            price: lvl.price,
            quantity: trade_qty,
            timestamp: now_millis(),
        };
        proof {
            // the maker this trade executed against is l0[m].orders[k]
            assert(queue_suffix_at(l0[m].orders@, q_pre, k));
            assert(k < l0[m].orders@.len());
            assert(front_reduced(l0[m].orders@[k], q_pre[0]));
            assert(0 <= m < l0.len());
            assert((#[trigger] l0[m]).orders@[k] == l0[m].orders@[k]);
            assert(trade_matches_resting(t, taker, taker_id@, l0));
        }
        let ghost tr_pre = trades@;
        trades.push(t);
        proof {
            assert(trades@.take(t0.len() as int) =~= tr_pre.take(t0.len() as int));
            assert(trades@.skip(t0.len() as int) =~= tr_pre.skip(t0.len() as int).push(t));
            lemma_trades_qty_push(tr_pre.skip(t0.len() as int), t);
            // this trade realises the head of the planned fill sequence
            lemma_flatten_front(lv_pre);
            let flat_pre = flatten_ledger(lv_pre);
            let rem_pre = *remaining as int;
            let head = Fill { maker_id: q_pre[0].id@, price: q_pre[0].price, quantity: trade_qty as int };
            assert(q_pre[0].price == lv_pre[0].price);
            assert(crosses(taker, limit, flat_pre[0].price));
            assert(spec_fills(flat_pre, taker, limit, rem_pre) == seq![head] + spec_fills(
                flat_pre.skip(1),
                taker,
                limit,
                rem_pre - trade_qty,
            ));
            assert(fill_of(t, taker) == head);
            let fills_pre = fills;
            fills = fills.push(head);
            assert(fills + spec_fills(flat_pre.skip(1), taker, limit, rem_pre - trade_qty)
                =~= fills_pre + spec_fills(flat_pre, taker, limit, rem_pre));
        }
        *remaining = *remaining - trade_qty;
        if trade_qty == maker_qty {
            // the resting order is fully filled: drop it from the queue
            if lvl.orders.len() > 0 {
                levels.insert(0, lvl);
                proof {
                    k = k + 1;
                    assert(levels@.skip(1) =~= lv_pre.skip(1));
                    assert(lvl.orders@ =~= q_pre.skip(1));
                    assert(queue_qty(q_pre) == q_pre[0].quantity + queue_qty(q_pre.skip(1)));
                    assert(queue_suffix_at(l0[m].orders@, levels@[0].orders@, k)) by {
                        assert(forall|i: int|
                            1 <= i < q_pre.len() ==> q_pre[i] == l0[m].orders@[(k - 1) + i]);
                        assert(levels@[0].orders@[0] == q_pre[1]);
                        assert(front_reduced(l0[m].orders@[k], levels@[0].orders@[0]));
                    };
                }
            } else {
                // the level is exhausted: it stays removed
                proof {
                    m = m + 1;
                    k = 0;
                    assert(levels@ =~= lv_pre.skip(1));
                    assert(q_pre.len() == 1);
                    assert(queue_qty(q_pre) == q_pre[0].quantity + queue_qty(q_pre.skip(1)));
                    assert(queue_qty(q_pre.skip(1)) == 0);
                    if levels.len() > 0 {
                        assert(levels@[0] == l0[m]);
                        assert(queue_suffix_at(l0[m].orders@, levels@[0].orders@, 0));
                    }
                }
            }
        } else {
            // the incoming order is exhausted: write back the reduced maker
            front.quantity = front.quantity - trade_qty;
            lvl.orders.insert(0, front);
            levels.insert(0, lvl);
            proof {
                assert(levels@.skip(1) =~= lv_pre.skip(1));
                assert(lvl.orders@.skip(1) =~= q_pre.skip(1));
                assert(queue_qty(q_pre) == q_pre[0].quantity + queue_qty(q_pre.skip(1)));
                assert(queue_qty(lvl.orders@) == front.quantity + queue_qty(lvl.orders@.skip(1)));
                assert(front_reduced(l0[m].orders@[k], lvl.orders@[0]));
                assert(queue_suffix_at(l0[m].orders@, levels@[0].orders@, k));
            }
        }
        proof {
            assert(ledger_qty(lv_pre) == queue_qty(q_pre) + ledger_qty(lv_pre.skip(1)));
            if levels@.len() > 0 && levels@[0].price == lv_pre[0].price {
                assert(ledger_qty(levels@) == queue_qty(levels@[0].orders@) + ledger_qty(
                    levels@.skip(1),
                ));
            }
            lemma_ledger_qty_nonneg(levels@);
            // the planned-fill invariant survives the pop or the write-back
            if trade_qty == maker_qty {
                if levels@.len() > 0 && levels@[0].price == lv_pre[0].price {
                    assert(levels@[0].orders@ =~= q_pre.skip(1));
                    assert(flatten_ledger(levels@) == levels@[0].orders@ + flatten_ledger(
                        levels@.skip(1),
                    ));
                    assert(flatten_ledger(levels@) =~= flatten_ledger(lv_pre).skip(1));
                } else {
                    assert(levels@ =~= lv_pre.skip(1));
                    assert(q_pre.skip(1).len() == 0);
                    assert(flatten_ledger(lv_pre).skip(1) =~= flatten_ledger(levels@));
                }
            } else {
                assert(*remaining == 0);
                assert(spec_fills(flatten_ledger(levels@), taker, limit, 0) == Seq::<
                    Fill,
                >::empty());
                assert(spec_fills(flatten_ledger(lv_pre).skip(1), taker, limit, 0) == Seq::<
                    Fill,
                >::empty());
            }
            assert(fills + spec_fills(flatten_ledger(levels@), taker, limit, *remaining as int)
                == spec_fills(flatten_ledger(l0), taker, limit, r0 as int));
        }
    }
    proof {
        assert(ledger_consumed_at(l0, levels@, m));
        assert(queue_consumed(l0[m].orders@, levels@[0].orders@) || levels@.len() == 0) by {
            if levels@.len() > 0 {
                assert(queue_suffix_at(l0[m].orders@, levels@[0].orders@, k));
            }
        };
        if levels@.len() > 0 && m > 0 {
            assert(ahead(taker.opposite(), l0[0].price, l0[m].price));
        }
        // no fill remains planned once the sweep stops
        if *remaining == 0 {
            assert(spec_fills(flatten_ledger(levels@), taker, limit, 0) == Seq::<Fill>::empty());
        } else if levels@.len() == 0 {
            assert(flatten_ledger(levels@) =~= Seq::<Order>::empty());
        } else {
            lemma_flatten_front(levels@);
            assert(flatten_ledger(levels@)[0].price == levels@[0].price);
        }
        assert(spec_fills(flatten_ledger(levels@), taker, limit, *remaining as int) == Seq::<
            Fill,
        >::empty());
        assert(fills + Seq::<Fill>::empty() =~= fills);
        assert(fills == spec_fills(flatten_ledger(l0), taker, limit, r0 as int));
        assert forall|i: int| t0.len() <= i < trades@.len() implies fill_of(
            trades@[i],
            taker,
        ) == spec_fills(flatten_ledger(l0), taker, limit, r0 as int)[i - t0.len()] by {
            assert(fills[i - t0.len()] == fill_of(trades@[t0.len() + (i - t0.len())], taker));
        }
    }
}

} // verus!
