//! The protocols of the two actors that own the exchange's state: the
//! ledger and each market's book. A command changes the state, is answered
//! with a reply, and asks for what has to be written to storage.
use vstd::prelude::*;
use crate::balance::{
    Balance, BalanceError, BalanceManager, Ledger, LedgerOp, deposit_fits, deposit_spec,
    get_balance_spec, lock_fits, lock_spec, ops_of, order_update_of, run_ops, set_balance,
    settle_fits, unlock_fits, unlock_spec, update_of,
};
use crate::domain::{MatchResult, Order, OrderBookSnapshot, OrderId, OrderStatus, OrderType};
use crate::domain::Asset;
use crate::book_laws::orderly;
use crate::engine::{OrderBook, best_of, cancel_spec, levels, rest, submit_spec};
use crate::funds::cancellation;
use crate::settlement::{OrderUpdate, SettlementBatch};

verus! {

// ---------------------------------------------------------------------
// The ledger
// ---------------------------------------------------------------------

pub enum LedgerCommand {
    Deposit { user_id: u64, asset: Asset, amount: u64 },
    GetBalance { user_id: u64, asset: Asset },
    Lock { user_id: u64, asset: Asset, amount: u64 },
    Unlock { user_id: u64, asset: Asset, amount: u64 },
    ApplyMatch { result: MatchResult },
    LoadBalance { user_id: u64, asset: Asset, available: u64, locked: u64 },
}

pub enum LedgerReply {
    Deposited,
    Balance(Option<Balance>),
    Locked(Result<(), BalanceError>),
    Unlocked(Result<(), BalanceError>),
    Settled(Result<SettlementBatch, BalanceError>),
    Loaded,
}

/// A change to the stored balances.
#[derive(Debug, Clone, Copy, PartialEq, Eq, Structural)]
pub enum LedgerWrite {
    Deposit { user_id: u64, asset: Asset, amount: u64 },
    Lock { user_id: u64, asset: Asset, amount: u64 },
    Unlock { user_id: u64, asset: Asset, amount: u64 },
}

/// The command overflows nothing on the ledger `m`.
pub open spec fn ledger_command_fits(m: Ledger, cmd: LedgerCommand) -> bool {
    match cmd {
        LedgerCommand::Deposit { user_id, asset, amount } => deposit_fits(m, user_id, asset, amount),
        LedgerCommand::Lock { user_id, asset, amount } => lock_fits(m, user_id, asset, amount),
        LedgerCommand::Unlock { user_id, asset, amount } => unlock_fits(m, user_id, asset, amount),
        LedgerCommand::ApplyMatch { result } => settle_fits(m, result.trades@),
        _ => true,
    }
}

/// What settling a match does: `m1` and `res` are the ledger and the
/// outcome that settling `trades` from `m0` gives.
pub open spec fn settled(
    m0: Ledger,
    trades: Seq<crate::domain::Trade>,
    orders: Seq<Order>,
    m1: Ledger,
    res: Result<SettlementBatch, BalanceError>,
) -> bool {
    &&& m1 == run_ops(m0, ops_of(trades)).0
    &&& res is Ok <==> run_ops(m0, ops_of(trades)).1 is None
    &&& res matches Err(e) ==> run_ops(m0, ops_of(trades)).1 == Some(e)
    &&& res matches Ok(batch) ==> {
        &&& batch.balance_updates@ == ops_of(trades).map_values(|op: LedgerOp| update_of(op))
        &&& batch.trades@ == trades
        &&& batch.order_updates@ == orders.map_values(|o: Order| order_update_of(o))
    }
}

impl BalanceManager {
    /// Handles one command: deposits are always stored, locks and unlocks
    /// only when they succeed, and nothing else is stored by this actor.
    pub fn handle(&mut self, cmd: LedgerCommand) -> (r: (LedgerReply, Option<LedgerWrite>))
        requires
            ledger_command_fits(old(self)@, cmd),
        ensures
            match cmd {
                LedgerCommand::Deposit { user_id, asset, amount } => {
                    &&& final(self)@ == deposit_spec(old(self)@, user_id, asset, amount)
                    &&& r.0 is Deposited
                    &&& r.1 == Some(LedgerWrite::Deposit { user_id, asset, amount })
                },
                LedgerCommand::GetBalance { user_id, asset } => {
                    &&& final(self)@ == old(self)@
                    &&& r.0 == LedgerReply::Balance(get_balance_spec(old(self)@, user_id, asset))
                    &&& r.1 is None
                },
                LedgerCommand::Lock { user_id, asset, amount } => match lock_spec(
                    old(self)@,
                    user_id,
                    asset,
                    amount,
                ) {
                    Ok(m) => {
                        &&& final(self)@ == m
                        &&& r.0 matches LedgerReply::Locked(res) && res is Ok
                        &&& r.1 == Some(LedgerWrite::Lock { user_id, asset, amount })
                    },
                    Err(e) => {
                        &&& final(self)@ == old(self)@
                        &&& r.0 == LedgerReply::Locked(Err(e))
                        &&& r.1 is None
                    },
                },
                LedgerCommand::Unlock { user_id, asset, amount } => match unlock_spec(
                    old(self)@,
                    user_id,
                    asset,
                    amount,
                ) {
                    Ok(m) => {
                        &&& final(self)@ == m
                        &&& r.0 matches LedgerReply::Unlocked(res) && res is Ok
                        &&& r.1 == Some(LedgerWrite::Unlock { user_id, asset, amount })
                    },
                    Err(e) => {
                        &&& final(self)@ == old(self)@
                        &&& r.0 == LedgerReply::Unlocked(Err(e))
                        &&& r.1 is None
                    },
                },
                LedgerCommand::ApplyMatch { result } => {
                    &&& r.0 matches LedgerReply::Settled(res) && settled(
                        old(self)@,
                        result.trades@,
                        result.updated_orders@,
                        final(self)@,
                        res,
                    )
                    &&& r.1 is None
                },
                LedgerCommand::LoadBalance { user_id, asset, available, locked } => {
                    &&& final(self)@ == set_balance(
                        old(self)@,
                        user_id,
                        asset,
                        Balance { available, locked },
                    )
                    &&& r.0 is Loaded
                    &&& r.1 is None
                },
            },
    {
        match cmd {
            LedgerCommand::Deposit { user_id, asset, amount } => {
                self.deposit(user_id, asset, amount);
                (LedgerReply::Deposited, Some(LedgerWrite::Deposit { user_id, asset, amount }))
            },
            LedgerCommand::GetBalance { user_id, asset } => {
                (LedgerReply::Balance(self.get_balance(user_id, asset)), None)
            },
            LedgerCommand::Lock { user_id, asset, amount } => {
                let outcome = self.lock(user_id, asset, amount);
                let write = match outcome {
                    Ok(_) => Some(LedgerWrite::Lock { user_id, asset, amount }),
                    Err(_) => None,
                };
                (LedgerReply::Locked(outcome), write)
            },
            LedgerCommand::Unlock { user_id, asset, amount } => {
                let outcome = self.unlock(user_id, asset, amount);
                let write = match outcome {
                    Ok(_) => Some(LedgerWrite::Unlock { user_id, asset, amount }),
                    Err(_) => None,
                };
                (LedgerReply::Unlocked(outcome), write)
            },
            LedgerCommand::ApplyMatch { result } => {
                (LedgerReply::Settled(self.settle_match(result)), None)
            },
            LedgerCommand::LoadBalance { user_id, asset, available, locked } => {
                self.load_balance(user_id, asset, available, locked);
                (LedgerReply::Loaded, None)
            },
        }
    }
}

// ---------------------------------------------------------------------
// A market's book
// ---------------------------------------------------------------------

pub enum BookCommand {
    PlaceOrder { order: Order },
    GetBestBid,
    GetBestAsk,
    GetOrderBook,
    CancelOrder { order_id: OrderId },
    LoadOrder { order: Order },
}

pub enum BookReply {
    Placed(MatchResult),
    BestBid(Option<u64>),
    BestAsk(Option<u64>),
    Depth(OrderBookSnapshot),
    Cancelled(Option<Order>),
    Loaded,
}

/// A change to the stored orders.
#[derive(Debug, Clone, Copy)]
pub enum BookWrite {
    SaveOrder(Order),
    UpdateOrder(OrderUpdate),
}

/// The command is one the book accepts.
pub open spec fn book_command_ok(b: crate::engine::BookState, cmd: BookCommand) -> bool {
    match cmd {
        BookCommand::PlaceOrder { order } => {
            &&& order.order_type == OrderType::Limit && order.remaining_qty > 0
                ==> order.limit_price is Some
            &&& submit_spec(b, order).book.next_trade_id <= u64::MAX
        },
        BookCommand::LoadOrder { order } => order.order_type == OrderType::Limit
            && order.limit_price is Some,
        _ => true,
    }
}

impl OrderBook {
    /// Handles one command: every order that a placement leaves resting is
    /// saved, and a cancelled order is answered and stored as cancelled.
    pub fn handle(&mut self, cmd: BookCommand) -> (r: (BookReply, Vec<BookWrite>))
        requires
            book_command_ok(old(self)@, cmd),
        ensures
            orderly(final(self)@),
            match cmd {
                BookCommand::PlaceOrder { order } => {
                    let out = submit_spec(old(self)@, order);
                    &&& final(self)@ == out.book
                    &&& r.0 matches BookReply::Placed(result) && {
                        &&& result.trades@ == out.trades
                        &&& result.new_orders@ == out.new_orders
                        &&& result.updated_orders@ == out.updated_orders
                    }
                    &&& r.1@ == out.new_orders.map_values(|o: Order| BookWrite::SaveOrder(o))
                },
                BookCommand::GetBestBid => {
                    &&& final(self)@ == old(self)@
                    &&& r.0 == BookReply::BestBid(best_of(old(self)@.bids))
                    &&& r.1@.len() == 0
                },
                BookCommand::GetBestAsk => {
                    &&& final(self)@ == old(self)@
                    &&& r.0 == BookReply::BestAsk(best_of(old(self)@.asks))
                    &&& r.1@.len() == 0
                },
                BookCommand::GetOrderBook => {
                    &&& final(self)@ == old(self)@
                    &&& r.0 matches BookReply::Depth(snap) && snap.bids@ == levels(old(self)@.bids)
                        && snap.asks@ == levels(old(self)@.asks)
                    &&& r.1@.len() == 0
                },
                BookCommand::CancelOrder { order_id } => {
                    let (b1, found) = cancel_spec(old(self)@, order_id);
                    &&& final(self)@ == b1
                    &&& match found {
                        Some(o) => {
                            &&& r.0 == BookReply::Cancelled(
                                Some(Order { status: OrderStatus::Cancelled, ..o }),
                            )
                            &&& r.1@ == seq![
                                BookWrite::UpdateOrder(
                                    OrderUpdate {
                                        order_id: o.id,
                                        remaining_qty: o.remaining_qty,
                                        status: OrderStatus::Cancelled,
                                    },
                                ),
                            ]
                        },
                        None => r.0 == BookReply::Cancelled(None) && r.1@.len() == 0,
                    }
                },
                BookCommand::LoadOrder { order } => {
                    &&& final(self)@ == rest(old(self)@, order, false)
                    &&& r.0 is Loaded
                    &&& r.1@.len() == 0
                },
            },
    {
        match cmd {
            BookCommand::PlaceOrder { order } => {
                let result = self.submit_order(order);
                let mut writes: Vec<BookWrite> = Vec::new();
                let mut i: usize = 0;
                while i < result.new_orders.len()
                    invariant
                        i <= result.new_orders@.len(),
                        writes@ == result.new_orders@.subrange(0, i as int).map_values(
                            |o: Order| BookWrite::SaveOrder(o),
                        ),
                    decreases result.new_orders@.len() - i,
                {
                    let o = result.new_orders[i];
                    writes.push(BookWrite::SaveOrder(o));
                    proof {
                        assert(result.new_orders@.subrange(0, i + 1) =~= result.new_orders@.subrange(
                            0,
                            i as int,
                        ).push(o));
                        assert(writes@ =~= result.new_orders@.subrange(0, i + 1).map_values(
                            |o: Order| BookWrite::SaveOrder(o),
                        ));
                    }
                    i = i + 1;
                }
                proof {
                    assert(result.new_orders@.subrange(0, result.new_orders@.len() as int)
                        =~= result.new_orders@);
                }
                (BookReply::Placed(result), writes)
            },
            BookCommand::GetBestBid => (BookReply::BestBid(self.best_bid()), Vec::new()),
            BookCommand::GetBestAsk => (BookReply::BestAsk(self.best_ask()), Vec::new()),
            BookCommand::GetOrderBook => (BookReply::Depth(self.snapshot()), Vec::new()),
            BookCommand::CancelOrder { order_id } => {
                match self.cancel_order(order_id) {
                    Some(order) => {
                        let (order, update) = cancellation(order);
                        let mut writes: Vec<BookWrite> = Vec::new();
                        writes.push(BookWrite::UpdateOrder(update));
                        (BookReply::Cancelled(Some(order)), writes)
                    },
                    None => (BookReply::Cancelled(None), Vec::new()),
                }
            },
            BookCommand::LoadOrder { order } => {
                self.add_resting_order(order);
                (BookReply::Loaded, Vec::new())
            },
        }
    }
}

} // verus!
