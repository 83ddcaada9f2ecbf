use astrax::actors::{BookCommand, BookReply, BookWrite, LedgerCommand, LedgerReply, LedgerWrite};
use astrax::balance::{Balance, BalanceError, BalanceManager};
use astrax::domain::{Asset, Market, MatchResult, Order, OrderId, OrderStatus, Side, Trade};
use astrax::engine::OrderBook;

fn sol_usdc() -> Market {
    Market { base: Asset::SOL, quote: Asset::USDC }
}

#[test]
fn ledger_stores_only_what_succeeded() {
    let mut m = BalanceManager::new();
    let (reply, write) = m.handle(LedgerCommand::Deposit { user_id: 1, asset: Asset::SOL, amount: 10 });
    assert!(matches!(reply, LedgerReply::Deposited));
    assert_eq!(write, Some(LedgerWrite::Deposit { user_id: 1, asset: Asset::SOL, amount: 10 }));

    let (reply, write) = m.handle(LedgerCommand::Lock { user_id: 1, asset: Asset::SOL, amount: 4 });
    assert!(matches!(reply, LedgerReply::Locked(Ok(()))));
    assert_eq!(write, Some(LedgerWrite::Lock { user_id: 1, asset: Asset::SOL, amount: 4 }));

    let (reply, write) = m.handle(LedgerCommand::Lock { user_id: 1, asset: Asset::SOL, amount: 40 });
    assert!(matches!(reply, LedgerReply::Locked(Err(BalanceError::InsufficientBalance))));
    assert_eq!(write, None);

    let (reply, write) = m.handle(LedgerCommand::Unlock { user_id: 2, asset: Asset::SOL, amount: 1 });
    assert!(matches!(reply, LedgerReply::Unlocked(Err(BalanceError::AccountNotFound))));
    assert_eq!(write, None);

    let (reply, write) = m.handle(LedgerCommand::GetBalance { user_id: 1, asset: Asset::SOL });
    match reply {
        LedgerReply::Balance(b) => assert_eq!(b, Some(Balance { available: 6, locked: 4 })),
        _ => panic!("wrong reply"),
    }
    assert_eq!(write, None);

    let (reply, write) =
        m.handle(LedgerCommand::LoadBalance { user_id: 3, asset: Asset::BTC, available: 5, locked: 1 });
    assert!(matches!(reply, LedgerReply::Loaded));
    assert_eq!(write, None);

    let empty = MatchResult { trades: Vec::new(), new_orders: Vec::new(), updated_orders: Vec::new() };
    let (reply, write) = m.handle(LedgerCommand::ApplyMatch { result: empty });
    assert!(matches!(reply, LedgerReply::Settled(Ok(_))));
    assert_eq!(write, None);
}

#[test]
fn book_saves_resting_orders_and_records_cancellations() {
    let mut book = OrderBook::new();
    let (reply, writes) = book.handle(BookCommand::PlaceOrder {
        order: Order::new_limit(1, 1, Side::Sell, sol_usdc(), 100, 5, 1),
    });
    assert!(matches!(reply, BookReply::Placed(_)));
    assert_eq!(writes.len(), 1);
    assert!(matches!(writes[0], BookWrite::SaveOrder(o) if o.id == OrderId(1)));

    let (reply, writes) = book.handle(BookCommand::PlaceOrder {
        order: Order::new_limit(2, 2, Side::Buy, sol_usdc(), 100, 2, 2),
    });
    match reply {
        BookReply::Placed(r) => assert_eq!(r.trades.len(), 1),
        _ => panic!("wrong reply"),
    }
    assert!(writes.is_empty());

    let (reply, _) = book.handle(BookCommand::GetBestAsk);
    assert!(matches!(reply, BookReply::BestAsk(Some(100))));
    let (reply, _) = book.handle(BookCommand::GetBestBid);
    assert!(matches!(reply, BookReply::BestBid(None)));

    let (reply, writes) = book.handle(BookCommand::CancelOrder { order_id: OrderId(1) });
    match reply {
        BookReply::Cancelled(Some(o)) => {
            assert_eq!(o.status, OrderStatus::Cancelled);
            assert_eq!(o.remaining_qty, 3);
        }
        _ => panic!("wrong reply"),
    }
    assert_eq!(writes.len(), 1);
    match writes[0] {
        BookWrite::UpdateOrder(u) => {
            assert_eq!(u.order_id, OrderId(1));
            assert_eq!(u.remaining_qty, 3);
            assert_eq!(u.status, OrderStatus::Cancelled);
        }
        _ => panic!("wrong write"),
    }
    let (reply, writes) = book.handle(BookCommand::CancelOrder { order_id: OrderId(1) });
    assert!(matches!(reply, BookReply::Cancelled(None)));
    assert!(writes.is_empty());

    let (reply, writes) = book.handle(BookCommand::LoadOrder {
        order: Order::new_limit(9, 1, Side::Buy, sol_usdc(), 90, 1, 9),
    });
    assert!(matches!(reply, BookReply::Loaded));
    assert!(writes.is_empty());
    let (reply, _) = book.handle(BookCommand::GetOrderBook);
    match reply {
        BookReply::Depth(d) => {
            assert_eq!(d.bids.len(), 1);
            assert!(d.asks.is_empty());
        }
        _ => panic!("wrong reply"),
    }
}

#[test]
fn trade_ids_count_up_over_a_book_history() {
    let mut book = OrderBook::new();
    let mut ids = Vec::new();
    for k in 0..5u64 {
        book.submit_order(Order::new_limit(10 + k, 1, Side::Sell, sol_usdc(), 100 + k, 2, k));
    }
    book.cancel_order(OrderId(12));
    for k in 0..3u64 {
        let r = book.submit_order(Order::new_limit(20 + k, 2, Side::Buy, sol_usdc(), 110, 3, 20 + k));
        ids.extend(r.trades.iter().map(|t| t.trade_id));
    }
    assert_eq!(ids, (1..=ids.len() as u64).collect::<Vec<u64>>());
    assert_eq!(book.next_trade_id(), ids.len() as u64 + 1);
}

#[test]
fn settlement_error_comes_before_a_later_overflow() {
    let mut m = BalanceManager::new();
    m.deposit(1, Asset::SOL, 10);
    m.deposit(2, Asset::USDC, 10);
    let trade = |id: u64, price: u64, quantity: u64| Trade {
        trade_id: id,
        maker_order_id: OrderId(id),
        taker_order_id: OrderId(100 + id),
        maker_user_id: 1,
        taker_user_id: 2,
        price,
        quantity,
        market: sol_usdc(),
        buyer_user_id: 2,
        seller_user_id: 1,
    };
    // the buyer locked nothing, so the first trade fails; the second is never reached
    let result = MatchResult {
        trades: vec![trade(1, 1, 1), trade(2, u64::MAX, 2)],
        new_orders: Vec::new(),
        updated_orders: Vec::new(),
    };
    assert!(m.settlement_fits(&result.trades));
    assert_eq!(m.settle_match(result).err(), Some(BalanceError::InsufficientLockedBalance));
}
