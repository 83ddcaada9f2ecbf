//! The records that a settled match leaves behind for persistence.
use vstd::prelude::*;
use crate::domain::{Asset, OrderId, OrderStatus, Trade};

verus! {

/// A change to one balance: deltas to add to `available` and `locked`.
#[derive(Debug, Clone, Copy, PartialEq, Eq, Structural)]
pub struct BalanceUpdate {
    pub user_id: u64,
    pub asset: Asset,
    pub available_delta: i64,
    pub locked_delta: i64,
}

/// The new open quantity and status of an order.
#[derive(Debug, Clone, Copy, PartialEq, Eq, Structural)]
pub struct OrderUpdate {
    pub order_id: OrderId,
    pub remaining_qty: u64,
    pub status: OrderStatus,
}

#[derive(Debug)]
pub struct SettlementBatch {
    pub balance_updates: Vec<BalanceUpdate>,
    pub order_updates: Vec<OrderUpdate>,
    pub trades: Vec<Trade>,
}

} // verus!
