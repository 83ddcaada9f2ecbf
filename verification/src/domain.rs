//! Core exchange vocabulary: assets, markets, orders, trades and the
//! textual labels under which they are stored.
use vstd::prelude::*;
use vstd::string::*;

verus! {

/// A tradable asset.
#[derive(Debug, Clone, Copy, PartialEq, Eq, Hash, Structural)]
pub enum Asset {
    BTC,
    USDC,
    SOL,
}

/// Which side of the book an order sits on.
#[derive(Debug, Clone, Copy, PartialEq, Eq, Structural)]
pub enum Side {
    Buy,
    Sell,
}

#[derive(Debug, Clone, Copy, PartialEq, Eq, Structural)]
pub enum OrderType {
    Limit,
    Market,
}

#[derive(Debug, Clone, Copy, PartialEq, Eq, Structural)]
pub enum TimeInForce {
    Gtc,
    Ioc,
}

#[derive(Debug, Clone, Copy, PartialEq, Eq, Structural)]
pub enum OrderStatus {
    Open,
    PartiallyFilled,
    Filled,
    Cancelled,
}

/// A market trades `base` against `quote`.
#[derive(Debug, Clone, Copy, PartialEq, Eq, Hash, Structural)]
pub struct Market {
    pub base: Asset,
    pub quote: Asset,
}

#[derive(Debug, Clone, Copy, PartialEq, Eq, Hash, Structural)]
pub struct OrderId(pub u64);

#[derive(Debug, Clone, Copy)]
pub struct Order {
    pub id: OrderId,
    pub user_id: u64,
    pub side: Side,
    pub market: Market,
    pub order_type: OrderType,
    pub time_in_force: TimeInForce,
    /// `Some(price)` for limit orders, `None` for market orders.
    pub limit_price: Option<u64>,
    pub original_qty: u64,
    pub remaining_qty: u64,
    pub status: OrderStatus,
    pub sequence: u64,
}

#[derive(Debug, Clone, Copy)]
pub struct Trade {
    pub trade_id: u64,
    pub maker_order_id: OrderId,
    pub taker_order_id: OrderId,
    pub maker_user_id: u64,
    pub taker_user_id: u64,
    pub price: u64,
    pub quantity: u64,
    pub market: Market,
    pub buyer_user_id: u64,
    pub seller_user_id: u64,
}

/// What one submission did to a book: the trades it produced, the orders
/// it left resting as new entries, and every maker after its fill.
#[derive(Debug)]
pub struct MatchResult {
    pub trades: Vec<Trade>,
    pub new_orders: Vec<Order>,
    pub updated_orders: Vec<Order>,
}

#[derive(Debug, Clone, Copy)]
pub struct OrderBookLevel {
    pub price: u64,
    pub quantity: u64,
}

#[derive(Debug)]
pub struct OrderBookSnapshot {
    pub bids: Vec<OrderBookLevel>,
    pub asks: Vec<OrderBookLevel>,
}

/// The markets that are listed.
#[derive(Debug, Clone, Copy, PartialEq, Eq, Hash, Structural)]
pub enum Markets {
    SOLUSDC,
    BTCUSDC,
}

impl Markets {
    pub fn base_asset(self) -> (a: Asset)
        ensures
            a == (match self {
                Markets::SOLUSDC => Asset::SOL,
                Markets::BTCUSDC => Asset::BTC,
            }),
    {
        match self {
            Markets::SOLUSDC => Asset::SOL,
            Markets::BTCUSDC => Asset::BTC,
        }
    }

    pub fn quote_asset(self) -> (a: Asset)
        ensures
            a == Asset::USDC,
    {
        Asset::USDC
    }
}

impl Order {
    /// A good-till-cancelled limit order with its full quantity open.
    pub fn new_limit(
        id: u64,
        user_id: u64,
        side: Side,
        market: Market,
        price: u64,
        quantity: u64,
        sequence: u64,
    ) -> (o: Self)
        ensures
            o == (Order {
                id: OrderId(id),
                user_id,
                side,
                market,
                order_type: OrderType::Limit,
                time_in_force: TimeInForce::Gtc,
                limit_price: Some(price),
                original_qty: quantity,
                remaining_qty: quantity,
                status: OrderStatus::Open,
                sequence,
            }),
    {
        Order {
            id: OrderId(id),
            user_id,
            side,
            market,
            order_type: OrderType::Limit,
            time_in_force: TimeInForce::Gtc,
            limit_price: Some(price),
            original_qty: quantity,
            remaining_qty: quantity,
            status: OrderStatus::Open,
            sequence,
        }
    }

    /// An immediate-or-cancel market order with no price limit.
    pub fn new_market(
        id: u64,
        user_id: u64,
        side: Side,
        market: Market,
        quantity: u64,
        sequence: u64,
    ) -> (o: Self)
        ensures
            o == (Order {
                id: OrderId(id),
                user_id,
                side,
                market,
                order_type: OrderType::Market,
                time_in_force: TimeInForce::Ioc,
                limit_price: None,
                original_qty: quantity,
                remaining_qty: quantity,
                status: OrderStatus::Open,
                sequence,
            }),
    {
        Order {
            id: OrderId(id),
            user_id,
            side,
            market,
            order_type: OrderType::Market,
            time_in_force: TimeInForce::Ioc,
            limit_price: None,
            original_qty: quantity,
            remaining_qty: quantity,
            status: OrderStatus::Open,
            sequence,
        }
    }
}

// ---------------------------------------------------------------------
// Labels
// ---------------------------------------------------------------------

pub open spec fn asset_label(a: Asset) -> Seq<char> {
    match a {
        Asset::BTC => "BTC"@,
        Asset::SOL => "SOL"@,
        Asset::USDC => "USDC"@,
    }
}

pub open spec fn side_label(s: Side) -> Seq<char> {
    match s {
        Side::Buy => "BUY"@,
        Side::Sell => "SELL"@,
    }
}

pub open spec fn order_type_label(t: OrderType) -> Seq<char> {
    match t {
        OrderType::Limit => "LIMIT"@,
        OrderType::Market => "MARKET"@,
    }
}

pub open spec fn time_in_force_label(t: TimeInForce) -> Seq<char> {
    match t {
        TimeInForce::Gtc => "GTC"@,
        TimeInForce::Ioc => "IOC"@,
    }
}

pub open spec fn status_label(s: OrderStatus) -> Seq<char> {
    match s {
        OrderStatus::Open => "OPEN"@,
        OrderStatus::PartiallyFilled => "PARTIALLY_FILLED"@,
        OrderStatus::Filled => "FILLED"@,
        OrderStatus::Cancelled => "CANCELLED"@,
    }
}

impl Asset {
    pub fn to_string(&self) -> (s: String)
        ensures
            s@ == asset_label(*self),
    {
        match self {
            Asset::BTC => String::from_str("BTC"),
            Asset::SOL => String::from_str("SOL"),
            Asset::USDC => String::from_str("USDC"),
        }
    }
}

impl Side {
    pub fn to_string(&self) -> (s: String)
        ensures
            s@ == side_label(*self),
    {
        match self {
            Side::Buy => String::from_str("BUY"),
            Side::Sell => String::from_str("SELL"),
        }
    }
}

impl OrderType {
    pub fn to_string(&self) -> (s: String)
        ensures
            s@ == order_type_label(*self),
    {
        match self {
            OrderType::Limit => String::from_str("LIMIT"),
            OrderType::Market => String::from_str("MARKET"),
        }
    }
}

impl TimeInForce {
    pub fn to_string(&self) -> (s: String)
        ensures
            s@ == time_in_force_label(*self),
    {
        match self {
            TimeInForce::Gtc => String::from_str("GTC"),
            TimeInForce::Ioc => String::from_str("IOC"),
        }
    }
}

impl OrderStatus {
    pub fn to_string(&self) -> (s: String)
        ensures
            s@ == status_label(*self),
    {
        match self {
            OrderStatus::Open => String::from_str("OPEN"),
            OrderStatus::PartiallyFilled => String::from_str("PARTIALLY_FILLED"),
            OrderStatus::Filled => String::from_str("FILLED"),
            OrderStatus::Cancelled => String::from_str("CANCELLED"),
        }
    }
}

/// Character-wise equality of two string slices.
pub fn str_eq(a: &str, b: &str) -> (r: bool)
    ensures
        r == (a@ == b@),
{
    let n = a.unicode_len();
    let m = b.unicode_len();
    if n != m {
        return false;
    }
    let mut i: usize = 0;
    while i < n
        invariant
            n == a@.len(),
            m == b@.len(),
            n == m,
            i <= n,
            forall|j: int| 0 <= j < i ==> a@[j] == b@[j],
        decreases n - i,
    {
        if a.get_char(i) != b.get_char(i) {
            assert(a@[i as int] != b@[i as int]);
            return false;
        }
        i = i + 1;
    }
    assert(a@ =~= b@);
    true
}

} // verus!
