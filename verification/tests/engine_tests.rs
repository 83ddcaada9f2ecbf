use astrax::domain::{Asset, Market, Order, OrderId, OrderStatus, OrderType, Side, TimeInForce};
use astrax::engine::OrderBook;

fn sol_usdc() -> Market {
    Market { base: Asset::SOL, quote: Asset::USDC }
}

#[test]
fn new_book_is_empty() {
    let book = OrderBook::new();
    assert_eq!(book.best_bid(), None);
    assert_eq!(book.best_ask(), None);
}

#[test]
fn resting_orders_set_best_prices() {
    let mut book = OrderBook::new();
    book.add_resting_order(Order::new_limit(1, 1, Side::Buy, sol_usdc(), 99, 5, 1));
    book.add_resting_order(Order::new_limit(2, 1, Side::Buy, sol_usdc(), 101, 5, 2));
    book.add_resting_order(Order::new_limit(3, 2, Side::Sell, sol_usdc(), 110, 5, 3));
    book.add_resting_order(Order::new_limit(4, 2, Side::Sell, sol_usdc(), 105, 5, 4));
    assert_eq!(book.best_bid(), Some(101));
    assert_eq!(book.best_ask(), Some(105));
    assert_eq!(book.opposite_best_price(Side::Buy), Some(105));
    assert_eq!(book.opposite_best_price(Side::Sell), Some(101));
}

#[test]
fn can_match_compares_with_opposite_best() {
    let mut book = OrderBook::new();
    book.add_resting_order(Order::new_limit(1, 1, Side::Sell, sol_usdc(), 100, 5, 1));
    assert!(book.can_match(&Order::new_limit(2, 2, Side::Buy, sol_usdc(), 100, 1, 2)));
    assert!(!book.can_match(&Order::new_limit(3, 2, Side::Buy, sol_usdc(), 99, 1, 3)));
    assert!(book.can_match(&Order::new_market(4, 2, Side::Buy, sol_usdc(), 1, 4)));
    assert!(!book.can_match(&Order::new_market(5, 2, Side::Sell, sol_usdc(), 1, 5)));
    assert!(!book.can_match(&Order::new_limit(6, 2, Side::Sell, sol_usdc(), 1, 1, 6)));
}

#[test]
fn buy_sweeps_asks_and_rests_remainder() {
    let mut book = OrderBook::new();
    book.submit_order(Order::new_limit(1, 1, Side::Sell, sol_usdc(), 100, 3, 1));
    book.submit_order(Order::new_limit(2, 1, Side::Sell, sol_usdc(), 102, 2, 2));
    let result = book.submit_order(Order::new_limit(3, 2, Side::Buy, sol_usdc(), 105, 6, 3));

    assert_eq!(result.trades.len(), 2);
    let t0 = result.trades[0];
    assert_eq!(t0.trade_id, 1);
    assert_eq!(t0.price, 100);
    assert_eq!(t0.quantity, 3);
    assert_eq!(t0.maker_order_id, OrderId(1));
    assert_eq!(t0.taker_order_id, OrderId(3));
    assert_eq!(t0.buyer_user_id, 2);
    assert_eq!(t0.seller_user_id, 1);
    assert_eq!(t0.market, sol_usdc());
    let t1 = result.trades[1];
    assert_eq!(t1.trade_id, 2);
    assert_eq!(t1.price, 102);
    assert_eq!(t1.quantity, 2);

    assert_eq!(result.updated_orders.len(), 2);
    assert_eq!(result.updated_orders[0].status, OrderStatus::Filled);
    assert_eq!(result.updated_orders[1].remaining_qty, 0);

    assert_eq!(result.new_orders.len(), 1);
    assert_eq!(result.new_orders[0].remaining_qty, 1);
    assert_eq!(result.new_orders[0].status, OrderStatus::PartiallyFilled);

    assert_eq!(book.best_bid(), Some(105));
    assert_eq!(book.best_ask(), None);
}

#[test]
fn partially_filled_maker_keeps_its_place() {
    let mut book = OrderBook::new();
    book.submit_order(Order::new_limit(1, 1, Side::Sell, sol_usdc(), 100, 5, 1));
    book.submit_order(Order::new_limit(2, 3, Side::Sell, sol_usdc(), 100, 5, 2));
    let r1 = book.submit_order(Order::new_limit(3, 2, Side::Buy, sol_usdc(), 100, 2, 3));
    assert_eq!(r1.trades.len(), 1);
    assert_eq!(r1.trades[0].maker_order_id, OrderId(1));
    assert_eq!(r1.updated_orders[0].status, OrderStatus::PartiallyFilled);
    assert_eq!(r1.updated_orders[0].remaining_qty, 3);
    assert!(r1.new_orders.is_empty());

    // the partly filled order is still first in line at its price
    let r2 = book.submit_order(Order::new_limit(4, 2, Side::Buy, sol_usdc(), 100, 4, 4));
    assert_eq!(r2.trades.len(), 2);
    assert_eq!(r2.trades[0].maker_order_id, OrderId(1));
    assert_eq!(r2.trades[0].quantity, 3);
    assert_eq!(r2.trades[0].trade_id, 2);
    assert_eq!(r2.trades[1].maker_order_id, OrderId(2));
    assert_eq!(r2.trades[1].quantity, 1);
    assert_eq!(r2.trades[1].trade_id, 3);
    assert_eq!(book.best_ask(), Some(100));
}

#[test]
fn time_priority_within_a_price() {
    let mut book = OrderBook::new();
    book.add_resting_order(Order::new_limit(1, 1, Side::Buy, sol_usdc(), 100, 1, 1));
    book.add_resting_order(Order::new_limit(2, 2, Side::Buy, sol_usdc(), 100, 1, 2));
    book.add_resting_order(Order::new_limit(3, 3, Side::Buy, sol_usdc(), 101, 1, 3));
    let r = book.submit_order(Order::new_market(4, 9, Side::Sell, sol_usdc(), 3, 4));
    let makers: Vec<u64> = r.trades.iter().map(|t| t.maker_order_id.0).collect();
    assert_eq!(makers, vec![3, 1, 2]);
    let prices: Vec<u64> = r.trades.iter().map(|t| t.price).collect();
    assert_eq!(prices, vec![101, 100, 100]);
    assert_eq!(r.trades[0].buyer_user_id, 3);
    assert_eq!(r.trades[0].seller_user_id, 9);
}

#[test]
fn market_order_remainder_is_dropped() {
    let mut book = OrderBook::new();
    book.add_resting_order(Order::new_limit(1, 1, Side::Sell, sol_usdc(), 100, 2, 1));
    let r = book.submit_order(Order::new_market(2, 2, Side::Buy, sol_usdc(), 5, 2));
    assert_eq!(r.trades.len(), 1);
    assert_eq!(r.trades[0].quantity, 2);
    assert!(r.new_orders.is_empty());
    assert_eq!(book.best_ask(), None);
    assert_eq!(book.best_bid(), None);
}

#[test]
fn limit_order_that_does_not_cross_rests() {
    let mut book = OrderBook::new();
    book.add_resting_order(Order::new_limit(1, 1, Side::Sell, sol_usdc(), 100, 2, 1));
    let r = book.submit_order(Order::new_limit(2, 2, Side::Buy, sol_usdc(), 99, 5, 2));
    assert!(r.trades.is_empty());
    assert_eq!(r.new_orders.len(), 1);
    assert_eq!(r.new_orders[0].status, OrderStatus::Open);
    assert_eq!(book.best_bid(), Some(99));
    assert_eq!(book.best_ask(), Some(100));
}

#[test]
fn cancel_removes_the_order() {
    let mut book = OrderBook::new();
    book.add_resting_order(Order::new_limit(1, 1, Side::Sell, sol_usdc(), 100, 2, 1));
    book.add_resting_order(Order::new_limit(2, 1, Side::Buy, sol_usdc(), 90, 2, 2));
    let c = book.cancel_order(OrderId(1)).unwrap();
    assert_eq!(c.id, OrderId(1));
    assert_eq!(c.limit_price, Some(100));
    assert_eq!(book.best_ask(), None);
    assert!(book.cancel_order(OrderId(1)).is_none());
    assert!(book.cancel_order(OrderId(7)).is_none());
    assert_eq!(book.best_bid(), Some(90));
}

#[test]
fn snapshot_aggregates_levels() {
    let mut book = OrderBook::new();
    book.add_resting_order(Order::new_limit(1, 1, Side::Sell, sol_usdc(), 101, 2, 1));
    book.add_resting_order(Order::new_limit(2, 1, Side::Sell, sol_usdc(), 100, 3, 2));
    book.add_resting_order(Order::new_limit(3, 1, Side::Sell, sol_usdc(), 101, 4, 3));
    book.add_resting_order(Order::new_limit(4, 2, Side::Buy, sol_usdc(), 90, 1, 4));
    book.add_resting_order(Order::new_limit(5, 2, Side::Buy, sol_usdc(), 95, 1, 5));
    let snap = book.snapshot();
    let asks: Vec<(u64, u64)> = snap.asks.iter().map(|l| (l.price, l.quantity)).collect();
    let bids: Vec<(u64, u64)> = snap.bids.iter().map(|l| (l.price, l.quantity)).collect();
    assert_eq!(asks, vec![(100, 3), (101, 6)]);
    assert_eq!(bids, vec![(95, 1), (90, 1)]);
}

#[test]
fn orders_built_by_constructors() {
    let o = Order::new_limit(7, 8, Side::Sell, sol_usdc(), 50, 4, 9);
    assert_eq!(o.order_type, OrderType::Limit);
    assert_eq!(o.time_in_force, TimeInForce::Gtc);
    assert_eq!(o.limit_price, Some(50));
    assert_eq!(o.remaining_qty, 4);
    assert_eq!(o.original_qty, 4);
    assert_eq!(o.status, OrderStatus::Open);
    let m = Order::new_market(7, 8, Side::Buy, sol_usdc(), 4, 9);
    assert_eq!(m.order_type, OrderType::Market);
    assert_eq!(m.time_in_force, TimeInForce::Ioc);
    assert_eq!(m.limit_price, None);
}

#[test]
fn book_never_crosses_after_submissions() {
    let mut book = OrderBook::new();
    let orders = [
        (1, Side::Sell, 103, 4),
        (2, Side::Buy, 99, 2),
        (3, Side::Buy, 104, 5),
        (4, Side::Sell, 98, 1),
        (5, Side::Sell, 101, 7),
        (6, Side::Buy, 100, 3),
    ];
    for (id, side, price, qty) in orders {
        book.submit_order(Order::new_limit(id, id, side, sol_usdc(), price, qty, id));
        if let (Some(bid), Some(ask)) = (book.best_bid(), book.best_ask()) {
            assert!(bid < ask);
        }
    }
    assert_eq!(book.best_bid(), Some(100));
    assert_eq!(book.best_ask(), Some(101));
}

#[test]
fn traded_quantity_equals_filled_quantity() {
    let mut book = OrderBook::new();
    book.add_resting_order(Order::new_limit(1, 1, Side::Buy, sol_usdc(), 100, 4, 1));
    book.add_resting_order(Order::new_limit(2, 1, Side::Buy, sol_usdc(), 99, 4, 2));
    book.add_resting_order(Order::new_limit(3, 1, Side::Buy, sol_usdc(), 90, 4, 3));
    let r = book.submit_order(Order::new_limit(4, 2, Side::Sell, sol_usdc(), 95, 10, 4));
    let traded: u64 = r.trades.iter().map(|t| t.quantity).sum();
    assert_eq!(traded, 8);
    assert_eq!(r.new_orders[0].remaining_qty, 2);
    assert_eq!(r.new_orders[0].original_qty, 10);
    // every trade is at or above the seller's limit, best bid first
    let prices: Vec<u64> = r.trades.iter().map(|t| t.price).collect();
    assert_eq!(prices, vec![100, 99]);
    assert_eq!(book.best_ask(), Some(95));
    assert_eq!(book.best_bid(), Some(90));
    assert_eq!(book.next_trade_id(), 3);
    assert_eq!(book.bid_count(), 1);
    assert_eq!(book.ask_count(), 1);
}

#[test]
fn rest_then_cancel_restores_book() {
    let mut book = OrderBook::new();
    book.add_resting_order(Order::new_limit(1, 1, Side::Sell, sol_usdc(), 100, 2, 1));
    book.add_resting_order(Order::new_limit(2, 1, Side::Sell, sol_usdc(), 100, 2, 2));
    book.add_resting_order(Order::new_limit(3, 1, Side::Sell, sol_usdc(), 100, 2, 3));
    let c = book.cancel_order(OrderId(3)).unwrap();
    assert_eq!(c.id, OrderId(3));
    let r = book.submit_order(Order::new_market(4, 2, Side::Buy, sol_usdc(), 10, 4));
    let makers: Vec<u64> = r.trades.iter().map(|t| t.maker_order_id.0).collect();
    assert_eq!(makers, vec![1, 2]);
}

#[test]
fn restored_crossed_book_still_trades_best_price_first() {
    let mut book = OrderBook::new();
    book.add_resting_order(Order::new_limit(1, 1, Side::Buy, sol_usdc(), 103, 2, 1));
    book.add_resting_order(Order::new_limit(2, 1, Side::Buy, sol_usdc(), 105, 2, 2));
    book.add_resting_order(Order::new_limit(3, 2, Side::Sell, sol_usdc(), 101, 1, 3));
    assert_eq!(book.best_bid(), Some(105));
    assert_eq!(book.best_ask(), Some(101));
    let result = book.submit_order(Order::new_limit(4, 3, Side::Sell, sol_usdc(), 100, 3, 4));
    assert_eq!(result.trades.len(), 2);
    assert_eq!(result.trades[0].price, 105);
    assert_eq!(result.trades[0].quantity, 2);
    assert_eq!(result.trades[1].price, 103);
    assert_eq!(result.trades[1].quantity, 1);
    assert_eq!(book.best_bid(), Some(103));
    assert_eq!(book.best_ask(), Some(101));
}
