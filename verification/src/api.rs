//! The requests and responses of the HTTP interface, and the small
//! decisions its handlers make.
use vstd::prelude::*;
use vstd::string::*;
use crate::balance::Balance;
use crate::domain::{Asset, Market, Order, OrderBookLevel, OrderId, OrderStatus, OrderType, Side, TimeInForce, asset_label, str_eq};

verus! {

pub struct DepositRequest {
    pub user_id: u64,
    pub asset: Asset,
    pub amount: u64,
}

pub struct ApiResponse {
    pub status: String,
}

pub struct PlaceOrderRequest {
    pub order_id: u64,
    pub user_id: u64,
    pub market: Market,
    pub side: Side,
    pub price: u64,
    pub quantity: u64,
    pub sequence: u64,
}

pub struct BalanceResponse {
    pub btc: Option<Balance>,
    pub sol: Option<Balance>,
    pub usdc: Option<Balance>,
}

pub struct OrderBookResponse {
    pub market: String,
    pub bids: Vec<OrderBookLevel>,
    pub asks: Vec<OrderBookLevel>,
}

pub struct MarketResponse {
    pub market: String,
    pub best_bid: Option<u64>,
    pub best_ask: Option<u64>,
}

pub struct CancelOrderRequest {
    pub market: Market,
}

impl ApiResponse {
    pub fn success() -> (r: Self)
        ensures
            r.status@ == "success"@,
    {
        ApiResponse { status: String::from_str("success") }
    }

    pub fn failed() -> (r: Self)
        ensures
            r.status@ == "failed"@,
    {
        ApiResponse { status: String::from_str("failed") }
    }
}

impl PlaceOrderRequest {
    /// The limit order that a placement request asks for.
    pub fn to_order(&self) -> (o: Order)
        ensures
            o == (Order {
                id: OrderId(self.order_id),
                user_id: self.user_id,
                side: self.side,
                market: self.market,
                order_type: OrderType::Limit,
                time_in_force: TimeInForce::Gtc,
                limit_price: Some(self.price),
                original_qty: self.quantity,
                remaining_qty: self.quantity,
                status: OrderStatus::Open,
                sequence: self.sequence,
            }),
    {
        Order::new_limit(
            self.order_id,
            self.user_id,
            self.side,
            self.market,
            self.price,
            self.quantity,
            self.sequence,
        )
    }
}

/// The markets named in paths: `SOL-USDC` and `BTC-USDC`.
pub open spec fn market_named(t: Seq<char>) -> Option<Market> {
    if t == "SOL-USDC"@ {
        Some(Market { base: Asset::SOL, quote: Asset::USDC })
    } else if t == "BTC-USDC"@ {
        Some(Market { base: Asset::BTC, quote: Asset::USDC })
    } else {
        None
    }
}

pub fn market_from_name(name: &str) -> (r: Option<Market>)
    ensures
        r == market_named(name@),
{
    if str_eq(name, "SOL-USDC") {
        Some(Market { base: Asset::SOL, quote: Asset::USDC })
    } else if str_eq(name, "BTC-USDC") {
        Some(Market { base: Asset::BTC, quote: Asset::USDC })
    } else {
        None
    }
}

/// The markets that the interface lists, in order.
pub fn listed_markets() -> (r: Vec<Market>)
    ensures
        r@ == seq![
            Market { base: Asset::SOL, quote: Asset::USDC },
            Market { base: Asset::BTC, quote: Asset::USDC },
        ],
{
    let mut r: Vec<Market> = Vec::new();
    r.push(Market { base: Asset::SOL, quote: Asset::USDC });
    r.push(Market { base: Asset::BTC, quote: Asset::USDC });
    r
}

/// A market written as `BASE/QUOTE`.
pub fn market_label(market: &Market) -> (s: String)
    ensures
        s@ == asset_label(market.base) + "/"@ + asset_label(market.quote),
{
    let mut s = market.base.to_string();
    s.append("/");
    let q = market.quote.to_string();
    s.append(q.as_str());
    s
}

} // verus!
