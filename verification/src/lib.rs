//! A spot exchange core: balances, an order book with price-time priority,
//! and the settlement of matched trades.
pub mod domain;
pub mod engine;
pub mod settlement;
pub mod balance;
pub mod funds;
pub mod records;
pub mod api;
pub mod book_laws;
pub mod ledger_laws;
pub mod actors;
