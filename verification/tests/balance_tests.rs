use astrax::balance::{Balance, BalanceError, BalanceManager};
use astrax::domain::{Asset, Market, MatchResult, Order, OrderStatus, Side};
use astrax::engine::OrderBook;

fn bal(available: u64, locked: u64) -> Option<Balance> {
    Some(Balance { available, locked })
}

#[test]
fn ledger_can_store_and_get_balance() {
    let mut m = BalanceManager::new();
    m.deposit(10001, Asset::SOL, 100);
    let b = m.get_balance(10001, Asset::SOL).unwrap();
    assert_eq!(b.available, 100);
    assert_eq!(b.locked, 0);
}

#[test]
fn ledger_can_lock_balance() {
    let mut m = BalanceManager::new();
    m.deposit(10002, Asset::SOL, 100);
    assert!(m.lock(10002, Asset::SOL, 40).is_ok());
    assert_eq!(m.get_balance(10002, Asset::SOL), bal(60, 40));
}

#[test]
fn ledger_can_unlock_balance() {
    let mut m = BalanceManager::new();
    m.deposit(10003, Asset::SOL, 100);
    m.lock(10003, Asset::SOL, 50).unwrap();
    assert!(m.unlock(10003, Asset::SOL, 20).is_ok());
    assert_eq!(m.get_balance(10003, Asset::SOL), bal(70, 30));
}

#[test]
fn ledger_can_debit_locked_balance() {
    let mut m = BalanceManager::new();
    m.deposit(10004, Asset::SOL, 100);
    m.lock(10004, Asset::SOL, 80).unwrap();
    assert!(m.debit_locked(10004, Asset::SOL, 30).is_ok());
    assert_eq!(m.get_balance(10004, Asset::SOL), bal(20, 50));
}

#[test]
fn ledger_can_credit_available_balance() {
    let mut m = BalanceManager::new();
    m.deposit(10005, Asset::USDC, 1);
    assert!(m.credit_available(10005, Asset::SOL, 250).is_ok());
    assert_eq!(m.get_balance(10005, Asset::SOL), bal(250, 0));
}

#[test]
fn ledger_lock_fails_when_insufficient_balance() {
    let mut m = BalanceManager::new();
    m.deposit(10006, Asset::SOL, 50);
    assert_eq!(m.lock(10006, Asset::SOL, 100), Err(BalanceError::InsufficientBalance));
    assert_eq!(m.get_balance(10006, Asset::SOL), bal(50, 0));
}

#[test]
fn ledger_unlock_fails_when_insufficient_locked_balance() {
    let mut m = BalanceManager::new();
    m.deposit(10007, Asset::SOL, 100);
    m.lock(10007, Asset::SOL, 20).unwrap();
    assert_eq!(m.unlock(10007, Asset::SOL, 50), Err(BalanceError::InsufficientLockedBalance));
    assert_eq!(m.get_balance(10007, Asset::SOL), bal(80, 20));
}

#[test]
fn errors_for_unknown_account_and_asset() {
    let mut m = BalanceManager::new();
    assert_eq!(m.lock(1, Asset::SOL, 1), Err(BalanceError::AccountNotFound));
    assert_eq!(m.unlock(1, Asset::SOL, 1), Err(BalanceError::AccountNotFound));
    assert_eq!(m.debit_locked(1, Asset::SOL, 1), Err(BalanceError::AccountNotFound));
    assert_eq!(m.credit_available(1, Asset::SOL, 1), Err(BalanceError::AccountNotFound));
    m.deposit(1, Asset::USDC, 5);
    assert_eq!(m.lock(1, Asset::SOL, 1), Err(BalanceError::AssetNotFound));
    assert_eq!(m.unlock(1, Asset::SOL, 1), Err(BalanceError::AssetNotFound));
    assert_eq!(m.debit_locked(1, Asset::SOL, 1), Err(BalanceError::AssetNotFound));
    assert_eq!(m.debit_locked(1, Asset::USDC, 1), Err(BalanceError::InsufficientLockedBalance));
    assert_eq!(m.get_balance(1, Asset::SOL), None);
    assert_eq!(m.get_balance(2, Asset::USDC), None);
    assert_eq!(m.get_balance(1, Asset::USDC), bal(5, 0));
}

#[test]
fn deposits_accumulate_and_load_overwrites() {
    let mut m = BalanceManager::new();
    m.deposit(3, Asset::BTC, 5);
    m.deposit(3, Asset::BTC, 7);
    assert_eq!(m.get_balance(3, Asset::BTC), bal(12, 0));
    m.load_balance(3, Asset::BTC, 1, 2);
    assert_eq!(m.get_balance(3, Asset::BTC), bal(1, 2));
    m.load_balance(4, Asset::SOL, 9, 9);
    assert_eq!(m.get_balance(4, Asset::SOL), bal(9, 9));
}

#[test]
fn lock_then_unlock_restores_balance() {
    let mut m = BalanceManager::new();
    m.deposit(5, Asset::USDC, 300);
    m.lock(5, Asset::USDC, 120).unwrap();
    m.unlock(5, Asset::USDC, 120).unwrap();
    assert_eq!(m.get_balance(5, Asset::USDC), bal(300, 0));
}

fn sol_usdc() -> Market {
    Market { base: Asset::SOL, quote: Asset::USDC }
}

#[test]
fn settling_a_match_moves_funds() {
    let mut m = BalanceManager::new();
    m.deposit(1, Asset::SOL, 10);
    m.deposit(2, Asset::USDC, 1000);
    m.lock(1, Asset::SOL, 3).unwrap();
    m.lock(2, Asset::USDC, 315).unwrap();

    let mut book = OrderBook::new();
    book.submit_order(Order::new_limit(1, 1, Side::Sell, sol_usdc(), 100, 3, 1));
    let result = book.submit_order(Order::new_limit(2, 2, Side::Buy, sol_usdc(), 105, 3, 2));
    let batch = m.settle_match(result).unwrap();

    assert_eq!(m.get_balance(1, Asset::SOL), bal(7, 0));
    assert_eq!(m.get_balance(1, Asset::USDC), bal(300, 0));
    assert_eq!(m.get_balance(2, Asset::SOL), bal(3, 0));
    // paid at the maker's price; the price improvement stays locked
    assert_eq!(m.get_balance(2, Asset::USDC), bal(685, 15));

    assert_eq!(batch.trades.len(), 1);
    assert_eq!(batch.balance_updates.len(), 4);
    let u = &batch.balance_updates;
    assert_eq!((u[0].user_id, u[0].asset, u[0].available_delta, u[0].locked_delta), (2, Asset::USDC, 0, -300));
    assert_eq!((u[1].user_id, u[1].asset, u[1].available_delta, u[1].locked_delta), (2, Asset::SOL, 3, 0));
    assert_eq!((u[2].user_id, u[2].asset, u[2].available_delta, u[2].locked_delta), (1, Asset::SOL, 0, -3));
    assert_eq!((u[3].user_id, u[3].asset, u[3].available_delta, u[3].locked_delta), (1, Asset::USDC, 300, 0));
    assert_eq!(batch.order_updates.len(), 1);
    assert_eq!(batch.order_updates[0].status, OrderStatus::Filled);
    assert_eq!(batch.order_updates[0].remaining_qty, 0);
}

#[test]
fn settlement_stops_at_first_failure() {
    let mut m = BalanceManager::new();
    m.deposit(1, Asset::SOL, 10);
    m.deposit(2, Asset::USDC, 1000);
    m.lock(1, Asset::SOL, 3).unwrap();
    // the buyer locked nothing
    let mut book = OrderBook::new();
    book.submit_order(Order::new_limit(1, 1, Side::Sell, sol_usdc(), 100, 3, 1));
    let result = book.submit_order(Order::new_limit(2, 2, Side::Buy, sol_usdc(), 100, 3, 2));
    assert_eq!(m.settle_match(result).err(), Some(BalanceError::InsufficientLockedBalance));
    assert_eq!(m.get_balance(1, Asset::SOL), bal(7, 3));
    assert_eq!(m.get_balance(2, Asset::USDC), bal(1000, 0));
}

#[test]
fn settling_nothing_changes_nothing() {
    let mut m = BalanceManager::new();
    m.deposit(1, Asset::SOL, 10);
    let empty = MatchResult { trades: Vec::new(), new_orders: Vec::new(), updated_orders: Vec::new() };
    let batch = m.settle_match(empty).unwrap();
    assert!(batch.balance_updates.is_empty());
    assert_eq!(m.get_balance(1, Asset::SOL), bal(10, 0));
}

#[test]
fn trade_updates_net_to_zero_per_asset() {
    let mut m = BalanceManager::new();
    m.deposit(1, Asset::SOL, 50);
    m.deposit(2, Asset::USDC, 5000);
    m.lock(1, Asset::SOL, 10).unwrap();
    m.lock(2, Asset::USDC, 1000).unwrap();
    let mut book = OrderBook::new();
    book.submit_order(Order::new_limit(1, 1, Side::Sell, sol_usdc(), 90, 4, 1));
    book.submit_order(Order::new_limit(2, 1, Side::Sell, sol_usdc(), 95, 6, 2));
    let result = book.submit_order(Order::new_limit(3, 2, Side::Buy, sol_usdc(), 100, 10, 3));
    assert!(m.settlement_fits(&result.trades));
    let batch = m.settle_match(result).unwrap();
    for asset in [Asset::SOL, Asset::USDC, Asset::BTC] {
        let net: i64 = batch
            .balance_updates
            .iter()
            .filter(|u| u.asset == asset)
            .map(|u| u.available_delta + u.locked_delta)
            .sum();
        assert_eq!(net, 0);
    }
    // the buyer reserved 1000 at its limit and paid 4*90 + 6*95 = 930
    assert_eq!(m.get_balance(2, Asset::USDC), bal(4000, 70));
    assert_eq!(m.get_balance(1, Asset::USDC), bal(930, 0));
}

#[test]
fn settlement_overflow_is_detected() {
    let mut m = BalanceManager::new();
    m.deposit(1, Asset::SOL, 10);
    m.deposit(2, Asset::USDC, 10);
    let mut book = OrderBook::new();
    book.submit_order(Order::new_limit(1, 1, Side::Sell, sol_usdc(), u64::MAX, 2, 1));
    let result = book.submit_order(Order::new_limit(2, 2, Side::Buy, sol_usdc(), u64::MAX, 2, 2));
    assert_eq!(result.trades.len(), 1);
    assert!(!m.settlement_fits(&result.trades));
    m.load_balance(2, Asset::SOL, u64::MAX, 0);
    let ok_trade = MatchResult { trades: Vec::new(), new_orders: Vec::new(), updated_orders: Vec::new() };
    assert!(m.settlement_fits(&ok_trade.trades));
}
