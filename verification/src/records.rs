//! The stored form of orders and balances: signed 64-bit columns and
//! textual labels, and the conversions to and from it.
use vstd::prelude::*;
use crate::balance::Balance;
use crate::domain::{
    Asset, Market, Order, OrderId, OrderStatus, OrderType, Side, TimeInForce, asset_label,
    order_type_label, side_label, status_label, str_eq,
};

verus! {

/// An order as it is stored.
#[derive(Debug, Clone)]
pub struct OrderRow {
    pub id: i64,
    pub user_id: i64,
    pub base_asset: String,
    pub quote_asset: String,
    pub side: String,
    pub order_type: String,
    pub limit_price: Option<i64>,
    pub original_qty: i64,
    pub remaining_qty: i64,
    pub status: String,
    pub sequence: i64,
}

/// Why a stored order could not be read back.
#[derive(Debug, Clone, Copy, PartialEq, Eq, Structural)]
pub enum RowError {
    InvalidBaseAsset,
    InvalidQuoteAsset,
    InvalidSide,
    InvalidOrderType,
    InvalidOrderStatus,
}

pub open spec fn asset_from_label(t: Seq<char>) -> Option<Asset> {
    if t == "BTC"@ {
        Some(Asset::BTC)
    } else if t == "SOL"@ {
        Some(Asset::SOL)
    } else if t == "USDC"@ {
        Some(Asset::USDC)
    } else {
        None
    }
}

pub open spec fn side_from_label(t: Seq<char>) -> Option<Side> {
    if t == "BUY"@ {
        Some(Side::Buy)
    } else if t == "SELL"@ {
        Some(Side::Sell)
    } else {
        None
    }
}

pub open spec fn order_type_from_label(t: Seq<char>) -> Option<OrderType> {
    if t == "LIMIT"@ {
        Some(OrderType::Limit)
    } else if t == "MARKET"@ {
        Some(OrderType::Market)
    } else {
        None
    }
}

pub open spec fn status_from_label(t: Seq<char>) -> Option<OrderStatus> {
    if t == "OPEN"@ {
        Some(OrderStatus::Open)
    } else if t == "PARTIALLY_FILLED"@ {
        Some(OrderStatus::PartiallyFilled)
    } else if t == "FILLED"@ {
        Some(OrderStatus::Filled)
    } else if t == "CANCELLED"@ {
        Some(OrderStatus::Cancelled)
    } else {
        None
    }
}

/// Limit orders are good till cancelled, market orders immediate or cancel.
pub open spec fn time_in_force_for(t: OrderType) -> TimeInForce {
    match t {
        OrderType::Limit => TimeInForce::Gtc,
        OrderType::Market => TimeInForce::Ioc,
    }
}

pub open spec fn price_from_column(p: Option<i64>) -> Option<u64> {
    match p {
        Some(v) => Some(v as u64),
        None => None,
    }
}

pub open spec fn price_to_column(p: Option<u64>) -> Option<i64> {
    match p {
        Some(v) => Some(v as i64),
        None => None,
    }
}

/// Reading a stored order: the labels are checked in the order of the
/// columns, and the integer columns are reinterpreted as unsigned.
pub open spec fn order_from_row_spec(r: OrderRow) -> Result<Order, RowError> {
    match asset_from_label(r.base_asset@) {
        None => Err(RowError::InvalidBaseAsset),
        Some(base) => match asset_from_label(r.quote_asset@) {
            None => Err(RowError::InvalidQuoteAsset),
            Some(quote) => match side_from_label(r.side@) {
                None => Err(RowError::InvalidSide),
                Some(side) => match order_type_from_label(r.order_type@) {
                    None => Err(RowError::InvalidOrderType),
                    Some(order_type) => match status_from_label(r.status@) {
                        None => Err(RowError::InvalidOrderStatus),
                        Some(status) => Ok(
                            Order {
                                id: OrderId(r.id as u64),
                                user_id: r.user_id as u64,
                                side,
                                market: Market { base, quote },
                                order_type,
                                time_in_force: time_in_force_for(order_type),
                                limit_price: price_from_column(r.limit_price),
                                original_qty: r.original_qty as u64,
                                remaining_qty: r.remaining_qty as u64,
                                status,
                                sequence: r.sequence as u64,
                            },
                        ),
                    },
                },
            },
        },
    }
}

pub fn parse_asset(s: &str) -> (r: Option<Asset>)
    ensures
        r == asset_from_label(s@),
{
    if str_eq(s, "BTC") {
        Some(Asset::BTC)
    } else if str_eq(s, "SOL") {
        Some(Asset::SOL)
    } else if str_eq(s, "USDC") {
        Some(Asset::USDC)
    } else {
        None
    }
}

pub fn parse_side(s: &str) -> (r: Option<Side>)
    ensures
        r == side_from_label(s@),
{
    if str_eq(s, "BUY") {
        Some(Side::Buy)
    } else if str_eq(s, "SELL") {
        Some(Side::Sell)
    } else {
        None
    }
}

pub fn parse_order_type(s: &str) -> (r: Option<OrderType>)
    ensures
        r == order_type_from_label(s@),
{
    if str_eq(s, "LIMIT") {
        Some(OrderType::Limit)
    } else if str_eq(s, "MARKET") {
        Some(OrderType::Market)
    } else {
        None
    }
}

pub fn parse_order_status(s: &str) -> (r: Option<OrderStatus>)
    ensures
        r == status_from_label(s@),
{
    if str_eq(s, "OPEN") {
        Some(OrderStatus::Open)
    } else if str_eq(s, "PARTIALLY_FILLED") {
        Some(OrderStatus::PartiallyFilled)
    } else if str_eq(s, "FILLED") {
        Some(OrderStatus::Filled)
    } else if str_eq(s, "CANCELLED") {
        Some(OrderStatus::Cancelled)
    } else {
        None
    }
}

fn to_unsigned(v: i64) -> (r: u64)
    ensures
        r == v as u64,
{
    #[verifier::truncate]
    (v as u64)
}

fn to_signed(v: u64) -> (r: i64)
    ensures
        r == v as i64,
{
    #[verifier::truncate]
    (v as i64)
}

/// Reads an order back from its stored form.
pub fn order_from_row(row: &OrderRow) -> (r: Result<Order, RowError>)
    ensures
        r == order_from_row_spec(*row),
{
    let base = match parse_asset(row.base_asset.as_str()) {
        Some(a) => a,
        None => return Err(RowError::InvalidBaseAsset),
    };
    let quote = match parse_asset(row.quote_asset.as_str()) {
        Some(a) => a,
        None => return Err(RowError::InvalidQuoteAsset),
    };
    let side = match parse_side(row.side.as_str()) {
        Some(s) => s,
        None => return Err(RowError::InvalidSide),
    };
    let order_type = match parse_order_type(row.order_type.as_str()) {
        Some(t) => t,
        None => return Err(RowError::InvalidOrderType),
    };
    let status = match parse_order_status(row.status.as_str()) {
        Some(s) => s,
        None => return Err(RowError::InvalidOrderStatus),
    };
    let time_in_force = match order_type {
        OrderType::Limit => TimeInForce::Gtc,
        OrderType::Market => TimeInForce::Ioc,
    };
    let limit_price = match row.limit_price {
        Some(p) => Some(to_unsigned(p)),
        None => None,
    };
    Ok(
        Order {
            id: OrderId(to_unsigned(row.id)),
            user_id: to_unsigned(row.user_id),
            side,
            market: Market { base, quote },
            order_type,
            time_in_force,
            limit_price,
            original_qty: to_unsigned(row.original_qty),
            remaining_qty: to_unsigned(row.remaining_qty),
            status,
            sequence: to_unsigned(row.sequence),
        },
    )
}

/// `r` is the stored form of `o`: labels for the enumerations, the
/// integers reinterpreted as signed.
pub open spec fn is_row_of(r: OrderRow, o: Order) -> bool {
    &&& r.id == o.id.0 as i64
    &&& r.user_id == o.user_id as i64
    &&& r.base_asset@ == asset_label(o.market.base)
    &&& r.quote_asset@ == asset_label(o.market.quote)
    &&& r.side@ == side_label(o.side)
    &&& r.order_type@ == order_type_label(o.order_type)
    &&& r.limit_price == price_to_column(o.limit_price)
    &&& r.original_qty == o.original_qty as i64
    &&& r.remaining_qty == o.remaining_qty as i64
    &&& r.status@ == status_label(o.status)
    &&& r.sequence == o.sequence as i64
}

/// The stored form of an order.
pub fn order_to_row(order: &Order) -> (r: OrderRow)
    ensures
        is_row_of(r, *order),
{
    let limit_price = match order.limit_price {
        Some(p) => Some(to_signed(p)),
        None => None,
    };
    OrderRow {
        id: to_signed(order.id.0),
        user_id: to_signed(order.user_id),
        base_asset: order.market.base.to_string(),
        quote_asset: order.market.quote.to_string(),
        side: order.side.to_string(),
        order_type: order.order_type.to_string(),
        limit_price,
        original_qty: to_signed(order.original_qty),
        remaining_qty: to_signed(order.remaining_qty),
        status: order.status.to_string(),
        sequence: to_signed(order.sequence),
    }
}

/// A stored balance, its columns reinterpreted as unsigned.
pub fn balance_from_row(available: i64, locked: i64) -> (b: Balance)
    ensures
        b == (Balance { available: available as u64, locked: locked as u64 }),
{
    Balance { available: to_unsigned(available), locked: to_unsigned(locked) }
}

// ---------------------------------------------------------------------
// Laws
// ---------------------------------------------------------------------

/// Law: every label reads back as what it labels.
pub proof fn law_labels_read_back(a: Asset, sd: Side, t: OrderType, st: OrderStatus)
    ensures
        asset_from_label(asset_label(a)) == Some(a),
        side_from_label(side_label(sd)) == Some(sd),
        order_type_from_label(order_type_label(t)) == Some(t),
        status_from_label(status_label(st)) == Some(st),
{
    reveal_strlit("BTC");
    reveal_strlit("SOL");
    reveal_strlit("USDC");
    reveal_strlit("BUY");
    reveal_strlit("SELL");
    reveal_strlit("LIMIT");
    reveal_strlit("MARKET");
    reveal_strlit("OPEN");
    reveal_strlit("PARTIALLY_FILLED");
    reveal_strlit("FILLED");
    reveal_strlit("CANCELLED");
    assert("SOL"@[0] != "BTC"@[0]);
    assert("USDC"@[0] != "BTC"@[0] && "USDC"@[0] != "SOL"@[0]);
    assert("SELL"@[0] != "BUY"@[0]);
    assert("MARKET"@[0] != "LIMIT"@[0]);
    assert("PARTIALLY_FILLED"@[0] != "OPEN"@[0]);
    assert("FILLED"@[0] != "OPEN"@[0] && "FILLED"@[0] != "PARTIALLY_FILLED"@[0]);
    assert("CANCELLED"@[0] != "OPEN"@[0] && "CANCELLED"@[0] != "PARTIALLY_FILLED"@[0]
        && "CANCELLED"@[0] != "FILLED"@[0]);
}

proof fn lemma_signed_round_trip(x: u64)
    ensures
        (x as i64) as u64 == x,
{
    assert((x as i64) as u64 == x) by (bit_vector);
}

/// Law: an order stored and read back is the same order, as long as its
/// time in force is the one its type implies.
pub proof fn law_stored_order_reads_back(r: OrderRow, o: Order)
    requires
        is_row_of(r, o),
        o.time_in_force == time_in_force_for(o.order_type),
    ensures
        order_from_row_spec(r) == Ok::<Order, RowError>(o),
{
    law_labels_read_back(o.market.base, o.side, o.order_type, o.status);
    law_labels_read_back(o.market.quote, o.side, o.order_type, o.status);
    lemma_signed_round_trip(o.id.0);
    lemma_signed_round_trip(o.user_id);
    lemma_signed_round_trip(o.original_qty);
    lemma_signed_round_trip(o.remaining_qty);
    lemma_signed_round_trip(o.sequence);
    if let Some(p) = o.limit_price {
        lemma_signed_round_trip(p);
    }
}

} // verus!
