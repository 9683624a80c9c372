//! Tests for order validation, conservation of quantity, the trade log,
//! and the identifier/side helpers.

use orderbook::Order;
use orderbook::OrderBook;
use orderbook::OrderError;
use orderbook::Side;
use orderbook::Trade;

fn order(trader: &str, sym: &str, price: u64, qty: u64, side: Side) -> Order {
    Order::new(trader.to_string(), sym.to_string(), price, qty, side)
}

#[test]
fn rejects_symbol_mismatch() {
    let mut book = OrderBook::new("AAPL".to_string());
    book.place_order(order("T1", "AAPL", 100, 10, Side::Buy))
        .unwrap();
    let r = book.place_order(order("T2", "MSFT", 100, 5, Side::Sell));
    assert_eq!(r.unwrap_err(), OrderError::SymbolMismatch);
    // the book is untouched
    assert_eq!(book.bid_levels(), vec![(100, 10)]);
    assert_eq!(book.trade_log().len(), 0);
}

#[test]
fn rejects_zero_quantity() {
    let mut book = OrderBook::new("AAPL".to_string());
    let r = book.place_order(order("T1", "AAPL", 100, 0, Side::Buy));
    assert_eq!(r.unwrap_err(), OrderError::InvalidQuantity);
    assert_eq!(book.bid_levels(), vec![]);
}

#[test]
fn rejects_zero_price() {
    let mut book = OrderBook::new("AAPL".to_string());
    let r = book.place_order(order("T1", "AAPL", 0, 5, Side::Sell));
    assert_eq!(r.unwrap_err(), OrderError::InvalidPrice);
    assert_eq!(book.ask_levels(), vec![]);
}

#[test]
fn quantity_mismatch_checked_before_price() {
    let mut book = OrderBook::new("AAPL".to_string());
    let r = book.place_order(order("T1", "AAPL", 0, 0, Side::Buy));
    assert_eq!(r.unwrap_err(), OrderError::InvalidQuantity);
    let r = book.place_order(order("T1", "MSFT", 0, 0, Side::Buy));
    assert_eq!(r.unwrap_err(), OrderError::SymbolMismatch);
}

#[test]
fn conservation_per_order() {
    let mut book = OrderBook::new("AAPL".to_string());
    let submissions = [
        (Side::Buy, 100, 10),
        (Side::Sell, 95, 4),
        (Side::Sell, 100, 8),
        (Side::Buy, 102, 7),
    ];
    let mut ids: Vec<String> = Vec::new();
    let mut submitted: Vec<u64> = Vec::new();
    for (side, price, qty) in submissions {
        let o = order("T1", "AAPL", price, qty, side);
        ids.push(o.id.clone());
        submitted.push(qty);
        book.place_order(o).unwrap();
    }
    // per order: quantity traded across all trades plus quantity still
    // resting equals the quantity submitted
    let log: Vec<Trade> = book.trade_log().clone();
    let mut resting: Vec<(u64, u64)> = book.bid_levels();
    resting.extend(book.ask_levels());
    let total_resting: u64 = resting.iter().map(|level| level.1).sum();
    for (i, id) in ids.iter().enumerate() {
        let traded: u64 = log
            .iter()
            .filter(|t| &t.buy_order_id == id || &t.sell_order_id == id)
            .map(|t| t.quantity)
            .sum();
        assert!(traded <= submitted[i]);
    }
    let total_submitted: u64 = submitted.iter().sum();
    let total_traded: u64 = log.iter().map(|t| t.quantity).sum();
    assert_eq!(total_resting + 2 * total_traded, total_submitted);
}

#[test]
fn trade_log_accumulates() {
    let mut book = OrderBook::new("AAPL".to_string());
    book.place_order(order("T1", "AAPL", 100, 10, Side::Buy))
        .unwrap();
    let first = book
        .place_order(order("T2", "AAPL", 100, 4, Side::Sell))
        .unwrap();
    let second = book
        .place_order(order("T3", "AAPL", 99, 6, Side::Sell))
        .unwrap();
    assert_eq!(first.len(), 1);
    assert_eq!(second.len(), 1);
    let log = book.trade_log();
    assert_eq!(log.len(), 2);
    assert_eq!(log[0].id, first[0].id);
    assert_eq!(log[0].quantity, 4);
    assert_eq!(log[1].id, second[0].id);
    assert_eq!(log[1].quantity, 6);
    assert_eq!(log[1].price, 100);
}

#[test]
fn trade_records_both_parties() {
    let mut book = OrderBook::new("AAPL".to_string());
    let buy = order("T1", "AAPL", 100, 5, Side::Buy);
    let sell = order("T2", "AAPL", 100, 5, Side::Sell);
    let buy_id = buy.id.clone();
    let sell_id = sell.id.clone();
    book.place_order(buy).unwrap();
    let trades = book.place_order(sell).unwrap();
    assert_eq!(trades.len(), 1);
    assert_eq!(trades[0].buy_order_id, buy_id);
    assert_eq!(trades[0].sell_order_id, sell_id);
    assert_eq!(trades[0].symbol, "AAPL");
    assert_eq!(book.get_best_bid(), None);
    assert_eq!(book.get_best_ask(), None);
}

#[test]
fn matches_at_extreme_quantities() {
    let mut book = OrderBook::new("AAPL".to_string());
    book.place_order(order("T1", "AAPL", 100, u64::MAX, Side::Buy))
        .unwrap();
    let trades = book
        .place_order(order("T2", "AAPL", 100, u64::MAX, Side::Sell))
        .unwrap();
    assert_eq!(trades.len(), 1);
    assert_eq!(trades[0].quantity, u64::MAX);
    assert_eq!(trades[0].price, 100);
    assert_eq!(book.get_best_bid(), None);
    assert_eq!(book.get_best_ask(), None);
}

#[test]
fn order_ids_are_uuid_shaped() {
    let a = order("T1", "AAPL", 100, 1, Side::Buy);
    let b = order("T1", "AAPL", 100, 1, Side::Buy);
    assert_eq!(a.id.len(), 36);
    assert_eq!(b.id.len(), 36);
    assert_ne!(a.id, b.id);
}

#[test]
fn side_labels() {
    assert_eq!(Side::Buy.label(), "BUY");
    assert_eq!(Side::Sell.label(), "SELL");
    assert_eq!(Side::Buy, Side::Buy);
    assert_ne!(Side::Buy, Side::Sell);
}
