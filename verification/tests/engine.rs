//! Scenario tests for the matching engine: resting, partial fills,
//! multi-level sweeps, price-time priority, and the best-price queries.

use orderbook::Order;
use orderbook::OrderBook;
use orderbook::Side;

fn order(trader: &str, sym: &str, price: u64, qty: u64, side: Side) -> Order {
    Order::new(trader.to_string(), sym.to_string(), price, qty, side)
}

#[test]
fn rests_on_empty_book() {
    let mut book = OrderBook::new("AAPL".to_string());
    let trades = book
        .place_order(order("T1", "AAPL", 100, 10, Side::Buy))
        .unwrap();
    assert_eq!(trades.len(), 0);
    let bids = book.bid_levels();
    assert_eq!(bids.len(), 1);
    assert_eq!(bids[0], (100, 10));
    assert_eq!(book.get_best_bid(), Some(100));
    assert_eq!(book.get_best_ask(), None);
}

#[test]
fn partial_fill_of_resting_bid() {
    let mut book = OrderBook::new("AAPL".to_string());
    book.place_order(order("T1", "AAPL", 100, 10, Side::Buy))
        .unwrap();
    let trades = book
        .place_order(order("T2", "AAPL", 100, 5, Side::Sell))
        .unwrap();
    assert_eq!(trades.len(), 1);
    assert_eq!(trades[0].price, 100);
    assert_eq!(trades[0].quantity, 5);
    let bids = book.bid_levels();
    assert_eq!(bids.len(), 1);
    assert_eq!(bids[0], (100, 5));
    assert_eq!(book.get_best_ask(), None);
}

#[test]
fn sweep_then_rest_residual() {
    let mut book = OrderBook::new("AAPL".to_string());
    book.place_order(order("T1", "AAPL", 100, 10, Side::Buy))
        .unwrap();
    book.place_order(order("T2", "AAPL", 100, 5, Side::Sell))
        .unwrap();
    // the remaining bid is 5 @ 100; a sell of 10 @ 99 takes it and rests
    let trades = book
        .place_order(order("T3", "AAPL", 99, 10, Side::Sell))
        .unwrap();
    assert_eq!(trades.len(), 1);
    assert_eq!(trades[0].price, 100);
    assert_eq!(trades[0].quantity, 5);
    assert_eq!(book.get_best_bid(), None);
    let asks = book.ask_levels();
    assert_eq!(asks.len(), 1);
    assert_eq!(asks[0], (99, 5));
}

#[test]
fn fifo_same_price_level() {
    let mut book = OrderBook::new("AAPL".to_string());
    let first = order("T1", "AAPL", 101, 5, Side::Buy);
    let second = order("T2", "AAPL", 101, 7, Side::Buy);
    let first_id = first.id.clone();
    let second_id = second.id.clone();
    book.place_order(first).unwrap();
    book.place_order(second).unwrap();
    let trades = book
        .place_order(order("T3", "AAPL", 100, 10, Side::Sell))
        .unwrap();
    assert_eq!(trades.len(), 2);
    // the earlier buy at the level is consumed first, and fully
    assert_eq!(trades[0].price, 101);
    assert_eq!(trades[0].quantity, 5);
    assert_eq!(trades[0].buy_order_id, first_id);
    assert_eq!(trades[1].price, 101);
    assert_eq!(trades[1].quantity, 5);
    assert_eq!(trades[1].buy_order_id, second_id);
    // the later buy keeps its residual at the same level
    let bids = book.bid_levels();
    assert_eq!(bids.len(), 1);
    assert_eq!(bids[0], (101, 2));
}

#[test]
fn no_asks_after_lone_bid() {
    let mut book = OrderBook::new("AAPL".to_string());
    let trades = book
        .place_order(order("T1", "AAPL", 50, 3, Side::Buy))
        .unwrap();
    assert_eq!(trades.len(), 0);
    assert_eq!(book.get_best_ask(), None);
    assert_eq!(book.get_best_bid(), Some(50));
}

#[test]
fn trade_priced_at_resting_order() {
    let mut book = OrderBook::new("AAPL".to_string());
    book.place_order(order("T1", "AAPL", 100, 10, Side::Buy))
        .unwrap();
    // the aggressor asks only 90, but executes at the resting bid's 100
    let trades = book
        .place_order(order("T2", "AAPL", 90, 5, Side::Sell))
        .unwrap();
    assert_eq!(trades.len(), 1);
    assert_eq!(trades[0].price, 100);
    assert_eq!(trades[0].quantity, 5);
}

#[test]
fn multi_level_sweep() {
    let mut book = OrderBook::new("AAPL".to_string());
    book.place_order(order("T1", "AAPL", 99, 5, Side::Sell))
        .unwrap();
    book.place_order(order("T2", "AAPL", 100, 7, Side::Sell))
        .unwrap();
    book.place_order(order("T3", "AAPL", 103, 4, Side::Sell))
        .unwrap();
    // a buy for 15 @ 100 clears the two crossing levels, best price first,
    // and rests its remaining 3 as a bid at 100
    let trades = book
        .place_order(order("T4", "AAPL", 100, 15, Side::Buy))
        .unwrap();
    assert_eq!(trades.len(), 2);
    assert_eq!(trades[0].price, 99);
    assert_eq!(trades[0].quantity, 5);
    assert_eq!(trades[1].price, 100);
    assert_eq!(trades[1].quantity, 7);
    assert_eq!(book.get_best_bid(), Some(100));
    assert_eq!(book.get_best_ask(), Some(103));
    let bids = book.bid_levels();
    assert_eq!(bids, vec![(100, 3)]);
    let asks = book.ask_levels();
    assert_eq!(asks, vec![(103, 4)]);
}

#[test]
fn sell_sweeps_bids_from_best_down() {
    let mut book = OrderBook::new("AAPL".to_string());
    book.place_order(order("T1", "AAPL", 100, 5, Side::Buy))
        .unwrap();
    book.place_order(order("T2", "AAPL", 98, 5, Side::Buy))
        .unwrap();
    let trades = book
        .place_order(order("T3", "AAPL", 97, 8, Side::Sell))
        .unwrap();
    assert_eq!(trades.len(), 2);
    assert_eq!(trades[0].price, 100);
    assert_eq!(trades[0].quantity, 5);
    assert_eq!(trades[1].price, 98);
    assert_eq!(trades[1].quantity, 3);
    assert_eq!(book.bid_levels(), vec![(98, 2)]);
    assert_eq!(book.get_best_ask(), None);
}

#[test]
fn levels_stay_sorted() {
    let mut book = OrderBook::new("AAPL".to_string());
    for price in [105, 99, 101] {
        book.place_order(order("T1", "AAPL", price, 1, Side::Sell))
            .unwrap();
    }
    for price in [10, 50, 30] {
        book.place_order(order("T2", "AAPL", price, 1, Side::Buy))
            .unwrap();
    }
    let asks: Vec<u64> = book.ask_levels().iter().map(|level| level.0).collect();
    assert_eq!(asks, vec![99, 101, 105]);
    let bids: Vec<u64> = book.bid_levels().iter().map(|level| level.0).collect();
    assert_eq!(bids, vec![50, 30, 10]);
}

#[test]
fn level_aggregates_orders() {
    let mut book = OrderBook::new("AAPL".to_string());
    book.place_order(order("T1", "AAPL", 101, 5, Side::Buy))
        .unwrap();
    book.place_order(order("T2", "AAPL", 101, 7, Side::Buy))
        .unwrap();
    assert_eq!(book.bid_levels(), vec![(101, 12)]);
}

#[test]
fn aggregate_saturates() {
    let mut book = OrderBook::new("AAPL".to_string());
    book.place_order(order("T1", "AAPL", 7, u64::MAX, Side::Buy))
        .unwrap();
    book.place_order(order("T2", "AAPL", 7, u64::MAX, Side::Buy))
        .unwrap();
    assert_eq!(book.bid_levels(), vec![(7, u64::MAX)]);
}

#[test]
fn book_never_crossed() {
    let mut book = OrderBook::new("AAPL".to_string());
    let submissions = [
        (Side::Buy, 100, 10),
        (Side::Sell, 98, 4),
        (Side::Sell, 105, 6),
        (Side::Buy, 107, 8),
        (Side::Sell, 101, 9),
        (Side::Buy, 99, 2),
    ];
    for (side, price, qty) in submissions {
        book.place_order(order("T1", "AAPL", price, qty, side))
            .unwrap();
        if let (Some(bid), Some(ask)) = (book.get_best_bid(), book.get_best_ask()) {
            assert!(bid < ask);
        }
    }
}
