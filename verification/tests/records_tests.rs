use astrax::api::{ApiResponse, PlaceOrderRequest, listed_markets, market_from_name, market_label};
use astrax::balance::BalanceError;
use astrax::domain::{Asset, Market, Markets, Order, OrderId, OrderStatus, OrderType, Side, TimeInForce, str_eq};
use astrax::funds::{cancellation, funds_to_release, funds_to_reserve};
use astrax::records::{
    RowError, balance_from_row, order_from_row, order_to_row, parse_asset, parse_order_status,
    parse_order_type, parse_side,
};

fn sol_usdc() -> Market {
    Market { base: Asset::SOL, quote: Asset::USDC }
}

fn sample_order() -> Order {
    Order {
        id: OrderId(10001),
        user_id: 1,
        side: Side::Buy,
        market: sol_usdc(),
        order_type: OrderType::Limit,
        time_in_force: TimeInForce::Gtc,
        limit_price: Some(100),
        original_qty: 10,
        remaining_qty: 10,
        status: OrderStatus::Open,
        sequence: 1,
    }
}

#[test]
fn stored_order_columns() {
    let row = order_to_row(&sample_order());
    assert_eq!(row.id, 10001);
    assert_eq!(row.remaining_qty, 10);
    assert_eq!(row.original_qty, 10);
    assert_eq!(row.status, "OPEN");
    assert_eq!(row.base_asset, "SOL");
    assert_eq!(row.quote_asset, "USDC");
    assert_eq!(row.side, "BUY");
    assert_eq!(row.order_type, "LIMIT");
    assert_eq!(row.limit_price, Some(100));
}

#[test]
fn updated_order_status_label() {
    let mut order = sample_order();
    order.remaining_qty = 4;
    order.status = OrderStatus::PartiallyFilled;
    let row = order_to_row(&order);
    assert_eq!(row.remaining_qty, 4);
    assert_eq!(row.status, "PARTIALLY_FILLED");
}

#[test]
fn stored_order_reads_back() {
    let o = sample_order();
    let back = order_from_row(&order_to_row(&o)).unwrap();
    assert_eq!(back.id, o.id);
    assert_eq!(back.limit_price, o.limit_price);
    assert_eq!(back.status, o.status);
    assert_eq!(back.time_in_force, TimeInForce::Gtc);
    let mut m = Order::new_market(5, 6, Side::Sell, sol_usdc(), 3, 7);
    m.status = OrderStatus::Cancelled;
    let back = order_from_row(&order_to_row(&m)).unwrap();
    assert_eq!(back.limit_price, None);
    assert_eq!(back.time_in_force, TimeInForce::Ioc);
    assert_eq!(back.side, Side::Sell);
    assert_eq!(back.status, OrderStatus::Cancelled);
}

#[test]
fn invalid_rows_are_rejected() {
    let mut row = order_to_row(&sample_order());
    row.status = "DONE".to_string();
    assert_eq!(order_from_row(&row).err(), Some(RowError::InvalidOrderStatus));
    row.order_type = "STOP".to_string();
    assert_eq!(order_from_row(&row).err(), Some(RowError::InvalidOrderType));
    row.side = "HOLD".to_string();
    assert_eq!(order_from_row(&row).err(), Some(RowError::InvalidSide));
    row.quote_asset = "EUR".to_string();
    assert_eq!(order_from_row(&row).err(), Some(RowError::InvalidQuoteAsset));
    row.base_asset = "ETH".to_string();
    assert_eq!(order_from_row(&row).err(), Some(RowError::InvalidBaseAsset));
}

#[test]
fn negative_columns_are_reinterpreted() {
    let b = balance_from_row(-1, 5);
    assert_eq!(b.available, u64::MAX);
    assert_eq!(b.locked, 5);
}

#[test]
fn labels_and_parsing() {
    assert_eq!(Asset::BTC.to_string(), "BTC");
    assert_eq!(Asset::USDC.to_string(), "USDC");
    assert_eq!(Side::Sell.to_string(), "SELL");
    assert_eq!(OrderType::Market.to_string(), "MARKET");
    assert_eq!(TimeInForce::Ioc.to_string(), "IOC");
    assert_eq!(OrderStatus::Cancelled.to_string(), "CANCELLED");
    assert_eq!(OrderStatus::Filled.to_string(), "FILLED");
    assert_eq!(parse_asset("SOL"), Some(Asset::SOL));
    assert_eq!(parse_asset("sol"), None);
    assert_eq!(parse_side("BUY"), Some(Side::Buy));
    assert_eq!(parse_order_type("LIMIT"), Some(OrderType::Limit));
    assert_eq!(parse_order_status("FILLED"), Some(OrderStatus::Filled));
    assert_eq!(parse_order_status(""), None);
    assert!(str_eq("abc", "abc"));
    assert!(!str_eq("abc", "abd"));
    assert!(!str_eq("abc", "ab"));
}

#[test]
fn listed_market_names() {
    assert_eq!(Markets::SOLUSDC.base_asset(), Asset::SOL);
    assert_eq!(Markets::BTCUSDC.base_asset(), Asset::BTC);
    assert_eq!(Markets::BTCUSDC.quote_asset(), Asset::USDC);
    assert_eq!(market_from_name("SOL-USDC"), Some(sol_usdc()));
    assert_eq!(market_from_name("BTC-USDC"), Some(Market { base: Asset::BTC, quote: Asset::USDC }));
    assert_eq!(market_from_name("ETH-USDC"), None);
    assert_eq!(market_label(&sol_usdc()), "SOL/USDC");
    assert_eq!(listed_markets(), vec![sol_usdc(), Market { base: Asset::BTC, quote: Asset::USDC }]);
    assert_eq!(ApiResponse::success().status, "success");
    assert_eq!(ApiResponse::failed().status, "failed");
}

#[test]
fn placement_request_becomes_limit_order() {
    let req = PlaceOrderRequest { order_id: 3, user_id: 2, market: sol_usdc(), side: Side::Buy, price: 105, quantity: 6, sequence: 3 };
    let o = req.to_order();
    assert_eq!(o.id, OrderId(3));
    assert_eq!(o.limit_price, Some(105));
    assert_eq!(o.remaining_qty, 6);
    assert_eq!(o.order_type, OrderType::Limit);
}

#[test]
fn reservations() {
    let buy = Order::new_limit(1, 1, Side::Buy, sol_usdc(), 105, 6, 1);
    assert_eq!(funds_to_reserve(&buy), Ok((Asset::USDC, 630)));
    assert_eq!(funds_to_release(&buy), (Asset::USDC, 630));
    let sell = Order::new_limit(2, 1, Side::Sell, sol_usdc(), 105, 6, 2);
    assert_eq!(funds_to_reserve(&sell), Ok((Asset::SOL, 6)));
    assert_eq!(funds_to_release(&sell), (Asset::SOL, 6));
    let market_buy = Order::new_market(3, 1, Side::Buy, sol_usdc(), 6, 3);
    assert_eq!(funds_to_reserve(&market_buy), Err(BalanceError::MarketBuyNotSupported));
    let market_sell = Order::new_market(4, 1, Side::Sell, sol_usdc(), 6, 4);
    assert_eq!(funds_to_reserve(&market_sell), Ok((Asset::SOL, 6)));
}

#[test]
fn cancelling_marks_the_order() {
    let (o, u) = cancellation(sample_order());
    assert_eq!(o.status, OrderStatus::Cancelled);
    assert_eq!(u.order_id, OrderId(10001));
    assert_eq!(u.remaining_qty, 10);
    assert_eq!(u.status, OrderStatus::Cancelled);
}
