//! Per-user balances of each asset, split into an available part and a
//! part locked behind open orders, and the settlement of trades.
use vstd::prelude::*;
use std::collections::HashMap;
use crate::domain::{Asset, MatchResult, Order, Trade};
use crate::ledger_laws::{asset_total, law_settlement_keeps_asset_totals};
use crate::settlement::{BalanceUpdate, OrderUpdate, SettlementBatch};

verus! {

broadcast use vstd::std_specs::hash::group_hash_axioms;

#[derive(Debug, Clone, Copy, PartialEq, Eq, Hash, Structural)]
pub struct Balance {
    pub available: u64,
    pub locked: u64,
}

/// The balances one user holds, at most one per asset.
#[derive(Debug, Clone, Copy)]
pub struct BalanceAccount {
    btc: Option<Balance>,
    usdc: Option<Balance>,
    sol: Option<Balance>,
}

#[derive(Debug)]
pub struct BalanceManager {
    accounts: HashMap<u64, BalanceAccount>,
}

#[derive(Debug, Clone, Copy, PartialEq, Eq, Structural)]
pub enum BalanceError {
    InsufficientBalance,
    InsufficientLockedBalance,
    AccountNotFound,
    AssetNotFound,
    MarketBuyNotSupported,
}

/// The balances of all users: user id to asset to balance.
pub type Ledger = Map<u64, Map<Asset, Balance>>;

impl BalanceAccount {
    pub closed spec fn slot(self, asset: Asset) -> Option<Balance> {
        match asset {
            Asset::BTC => self.btc,
            Asset::USDC => self.usdc,
            Asset::SOL => self.sol,
        }
    }
}

impl View for BalanceAccount {
    type V = Map<Asset, Balance>;

    closed spec fn view(&self) -> Map<Asset, Balance> {
        Map::new(
            |a: Asset| self.slot(a) is Some,
            |a: Asset|
                match self.slot(a) {
                    Some(b) => b,
                    None => Balance { available: 0, locked: 0 },
                },
        )
    }
}

impl View for BalanceManager {
    type V = Ledger;

    closed spec fn view(&self) -> Ledger {
        self.accounts@.map_values(|a: BalanceAccount| a@)
    }
}

// ---------------------------------------------------------------------
// Specification of the ledger operations
// ---------------------------------------------------------------------

pub open spec fn zero_balance() -> Balance {
    Balance { available: 0, locked: 0 }
}

/// The assets of a user; none for an unknown user.
pub open spec fn account_of(m: Ledger, user_id: u64) -> Map<Asset, Balance> {
    if m.contains_key(user_id) {
        m[user_id]
    } else {
        Map::empty()
    }
}

pub open spec fn balance_or_zero(acct: Map<Asset, Balance>, asset: Asset) -> Balance {
    if acct.contains_key(asset) {
        acct[asset]
    } else {
        zero_balance()
    }
}

pub open spec fn get_balance_spec(m: Ledger, user_id: u64, asset: Asset) -> Option<Balance> {
    if m.contains_key(user_id) && m[user_id].contains_key(asset) {
        Some(m[user_id][asset])
    } else {
        None
    }
}

/// The ledger with one balance set, creating the account if needed.
pub open spec fn set_balance(m: Ledger, user_id: u64, asset: Asset, b: Balance) -> Ledger {
    m.insert(user_id, account_of(m, user_id).insert(asset, b))
}

pub open spec fn deposit_spec(m: Ledger, user_id: u64, asset: Asset, amount: u64) -> Ledger {
    let b = balance_or_zero(account_of(m, user_id), asset);
    set_balance(
        m,
        user_id,
        asset,
        Balance { available: (b.available + amount) as u64, locked: b.locked },
    )
}

pub open spec fn deposit_fits(m: Ledger, user_id: u64, asset: Asset, amount: u64) -> bool {
    balance_or_zero(account_of(m, user_id), asset).available + amount <= u64::MAX
}

pub open spec fn lock_spec(m: Ledger, user_id: u64, asset: Asset, amount: u64) -> Result<
    Ledger,
    BalanceError,
> {
    if !m.contains_key(user_id) {
        Err(BalanceError::AccountNotFound)
    } else if !m[user_id].contains_key(asset) {
        Err(BalanceError::AssetNotFound)
    } else {
        let b = m[user_id][asset];
        if b.available >= amount {
            Ok(
                set_balance(
                    m,
                    user_id,
                    asset,
                    Balance {
                        available: (b.available - amount) as u64,
                        locked: (b.locked + amount) as u64,
                    },
                ),
            )
        } else {
            Err(BalanceError::InsufficientBalance)
        }
    }
}

pub open spec fn lock_fits(m: Ledger, user_id: u64, asset: Asset, amount: u64) -> bool {
    match get_balance_spec(m, user_id, asset) {
        Some(b) => b.available >= amount ==> b.locked + amount <= u64::MAX,
        None => true,
    }
}

pub open spec fn unlock_spec(m: Ledger, user_id: u64, asset: Asset, amount: u64) -> Result<
    Ledger,
    BalanceError,
> {
    if !m.contains_key(user_id) {
        Err(BalanceError::AccountNotFound)
    } else if !m[user_id].contains_key(asset) {
        Err(BalanceError::AssetNotFound)
    } else {
        let b = m[user_id][asset];
        if b.locked >= amount {
            Ok(
                set_balance(
                    m,
                    user_id,
                    asset,
                    Balance {
                        available: (b.available + amount) as u64,
                        locked: (b.locked - amount) as u64,
                    },
                ),
            )
        } else {
            Err(BalanceError::InsufficientLockedBalance)
        }
    }
}

pub open spec fn unlock_fits(m: Ledger, user_id: u64, asset: Asset, amount: u64) -> bool {
    match get_balance_spec(m, user_id, asset) {
        Some(b) => b.locked >= amount ==> b.available + amount <= u64::MAX,
        None => true,
    }
}

pub open spec fn debit_locked_spec(m: Ledger, user_id: u64, asset: Asset, amount: u64) -> Result<
    Ledger,
    BalanceError,
> {
    if !m.contains_key(user_id) {
        Err(BalanceError::AccountNotFound)
    } else if !m[user_id].contains_key(asset) {
        Err(BalanceError::AssetNotFound)
    } else {
        let b = m[user_id][asset];
        if b.locked >= amount {
            Ok(
                set_balance(
                    m,
                    user_id,
                    asset,
                    Balance { available: b.available, locked: (b.locked - amount) as u64 },
                ),
            )
        } else {
            Err(BalanceError::InsufficientLockedBalance)
        }
    }
}

pub open spec fn credit_available_spec(
    m: Ledger,
    user_id: u64,
    asset: Asset,
    amount: u64,
) -> Result<Ledger, BalanceError> {
    if !m.contains_key(user_id) {
        Err(BalanceError::AccountNotFound)
    } else {
        Ok(deposit_spec(m, user_id, asset, amount))
    }
}

pub open spec fn credit_fits(m: Ledger, user_id: u64, asset: Asset, amount: u64) -> bool {
    m.contains_key(user_id) ==> deposit_fits(m, user_id, asset, amount)
}

// ---------------------------------------------------------------------
// Specification of settlement
// ---------------------------------------------------------------------

/// One ledger step of settling a trade.
pub enum LedgerOp {
    DebitLocked { user_id: u64, asset: Asset, amount: u64 },
    CreditAvailable { user_id: u64, asset: Asset, amount: u64 },
}

pub open spec fn apply_op(m: Ledger, op: LedgerOp) -> Result<Ledger, BalanceError> {
    match op {
        LedgerOp::DebitLocked { user_id, asset, amount } => debit_locked_spec(
            m,
            user_id,
            asset,
            amount,
        ),
        LedgerOp::CreditAvailable { user_id, asset, amount } => credit_available_spec(
            m,
            user_id,
            asset,
            amount,
        ),
    }
}

/// A step overflows nothing: a credit keeps the balance within `u64`, and
/// a debit that succeeds has an amount whose negation is an `i64`.
pub open spec fn op_fits(m: Ledger, op: LedgerOp) -> bool {
    match op {
        LedgerOp::DebitLocked { amount, .. } => apply_op(m, op) is Ok ==> amount as i64
            != i64::MIN,
        LedgerOp::CreditAvailable { user_id, asset, amount } => credit_fits(
            m,
            user_id,
            asset,
            amount,
        ),
    }
}

/// The balance change that a ledger step records.
pub open spec fn update_of(op: LedgerOp) -> BalanceUpdate {
    match op {
        LedgerOp::DebitLocked { user_id, asset, amount } => BalanceUpdate {
            user_id,
            asset,
            available_delta: 0,
            locked_delta: (-(amount as i64)) as i64,
        },
        LedgerOp::CreditAvailable { user_id, asset, amount } => BalanceUpdate {
            user_id,
            asset,
            available_delta: amount as i64,
            locked_delta: 0,
        },
    }
}

/// The value of a trade in the quote asset.
pub open spec fn quote_amount(t: Trade) -> u64 {
    (t.quantity * t.price) as u64
}

/// Settling a trade: the buyer pays the quote amount out of locked funds
/// and receives the base quantity; the seller delivers the base quantity
/// out of locked funds and receives the quote amount.
pub open spec fn trade_ops(t: Trade) -> Seq<LedgerOp> {
    seq![
        LedgerOp::DebitLocked {
            user_id: t.buyer_user_id,
            asset: t.market.quote,
            amount: quote_amount(t),
        },
        LedgerOp::CreditAvailable {
            user_id: t.buyer_user_id,
            asset: t.market.base,
            amount: t.quantity,
        },
        LedgerOp::DebitLocked {
            user_id: t.seller_user_id,
            asset: t.market.base,
            amount: t.quantity,
        },
        LedgerOp::CreditAvailable {
            user_id: t.seller_user_id,
            asset: t.market.quote,
            amount: quote_amount(t),
        },
    ]
}

pub open spec fn ops_of(ts: Seq<Trade>) -> Seq<LedgerOp>
    decreases ts.len(),
{
    if ts.len() == 0 {
        seq![]
    } else {
        ops_of(ts.drop_last()) + trade_ops(ts.last())
    }
}

/// Applying ledger steps in order until one fails: the ledger reached and
/// the error of the failing step, if any.
pub open spec fn run_ops(m: Ledger, ops: Seq<LedgerOp>) -> (Ledger, Option<BalanceError>)
    decreases ops.len(),
{
    if ops.len() == 0 {
        (m, None)
    } else {
        let (m1, e) = run_ops(m, ops.drop_last());
        if e is Some {
            (m1, e)
        } else {
            match apply_op(m1, ops.last()) {
                Ok(m2) => (m2, None),
                Err(err) => (m1, Some(err)),
            }
        }
    }
}

/// No step that is reached overflows a balance.
pub open spec fn ops_fit(m: Ledger, ops: Seq<LedgerOp>) -> bool
    decreases ops.len(),
{
    if ops.len() == 0 {
        true
    } else {
        &&& ops_fit(m, ops.drop_last())
        &&& run_ops(m, ops.drop_last()).1 is None ==> op_fits(
            run_ops(m, ops.drop_last()).0,
            ops.last(),
        )
    }
}

/// The amounts of a trade fit the integer types they are recorded in.
pub open spec fn trade_amounts_fit(t: Trade) -> bool {
    &&& t.quantity * t.price <= u64::MAX
    &&& quote_amount(t) as i64 != i64::MIN
    &&& t.quantity as i64 != i64::MIN
}

/// Every trade that settlement reaches (all steps before it succeeded) has
/// a quote amount that fits in `u64`.
pub open spec fn products_fit(m: Ledger, ts: Seq<Trade>) -> bool
    decreases ts.len(),
{
    if ts.len() == 0 {
        true
    } else {
        &&& products_fit(m, ts.drop_last())
        &&& run_ops(m, ops_of(ts.drop_last())).1 is None ==> ts.last().quantity * ts.last().price
            <= u64::MAX
    }
}

/// Settling `ts` from `m` overflows nothing on the way to where it stops.
pub open spec fn settle_fits(m: Ledger, ts: Seq<Trade>) -> bool {
    products_fit(m, ts) && ops_fit(m, ops_of(ts))
}

pub open spec fn order_update_of(o: Order) -> OrderUpdate {
    OrderUpdate { order_id: o.id, remaining_qty: o.remaining_qty, status: o.status }
}

// ---------------------------------------------------------------------
// Lemmas on settlement
// ---------------------------------------------------------------------

pub proof fn lemma_ops_of_append(a: Seq<Trade>, b: Seq<Trade>)
    ensures
        ops_of(a + b) == ops_of(a) + ops_of(b),
    decreases b.len(),
{
    if b.len() == 0 {
        assert(a + b =~= a);
        assert(ops_of(b) =~= Seq::<LedgerOp>::empty());
        assert(ops_of(a) + ops_of(b) =~= ops_of(a));
    } else {
        lemma_ops_of_append(a, b.drop_last());
        assert((a + b).drop_last() =~= a + b.drop_last());
        assert((a + b).last() == b.last());
        assert(ops_of(a) + ops_of(b) =~= ops_of(a) + ops_of(b.drop_last()) + trade_ops(b.last()));
    }
}

/// Once a step has failed, later steps change nothing.
pub proof fn lemma_run_ops_stops(m: Ledger, a: Seq<LedgerOp>, b: Seq<LedgerOp>)
    requires
        run_ops(m, a).1 is Some,
    ensures
        run_ops(m, a + b) == run_ops(m, a),
    decreases b.len(),
{
    if b.len() == 0 {
        assert(a + b =~= a);
    } else {
        lemma_run_ops_stops(m, a, b.drop_last());
        assert((a + b).drop_last() =~= a + b.drop_last());
    }
}

pub proof fn lemma_ops_fit_prefix(m: Ledger, a: Seq<LedgerOp>, b: Seq<LedgerOp>)
    requires
        ops_fit(m, a + b),
    ensures
        ops_fit(m, a),
    decreases b.len(),
{
    if b.len() == 0 {
        assert(a + b =~= a);
    } else {
        assert((a + b).drop_last() =~= a + b.drop_last());
        lemma_ops_fit_prefix(m, a, b.drop_last());
    }
}

/// Running one more step after a run that has not failed.
pub proof fn lemma_run_ops_push(m: Ledger, a: Seq<LedgerOp>, op: LedgerOp)
    requires
        run_ops(m, a).1 is None,
    ensures
        run_ops(m, a.push(op)) == (match apply_op(run_ops(m, a).0, op) {
            Ok(m2) => (m2, None),
            Err(err) => (run_ops(m, a).0, Some(err)),
        }),
        ops_fit(m, a.push(op)) ==> op_fits(run_ops(m, a).0, op),
{
    assert(a.push(op).drop_last() =~= a);
}

pub proof fn lemma_ops_fit_push(m: Ledger, a: Seq<LedgerOp>, op: LedgerOp)
    ensures
        ops_fit(m, a.push(op)) == (ops_fit(m, a) && (run_ops(m, a).1 is None ==> op_fits(
            run_ops(m, a).0,
            op,
        ))),
{
    assert(a.push(op).drop_last() =~= a);
}

/// Once a step has failed, no later step is reached, so none overflows.
pub proof fn lemma_ops_fit_after_stop(m: Ledger, a: Seq<LedgerOp>, b: Seq<LedgerOp>)
    requires
        run_ops(m, a).1 is Some,
        ops_fit(m, a),
    ensures
        ops_fit(m, a + b),
    decreases b.len(),
{
    if b.len() == 0 {
        assert(a + b =~= a);
    } else {
        lemma_ops_fit_after_stop(m, a, b.drop_last());
        lemma_run_ops_stops(m, a, b.drop_last());
        assert((a + b).drop_last() =~= a + b.drop_last());
    }
}

/// How the steps of the trade at `i` sit in the steps of all trades.
pub proof fn lemma_settle_prefix(ts: Seq<Trade>, i: int)
    requires
        0 <= i < ts.len(),
    ensures
        ({
            let done = ops_of(ts.subrange(0, i));
            let tops = trade_ops(ts[i]);
            let all = ops_of(ts);
            &&& ops_of(ts.subrange(0, i + 1)) == done + tops
            &&& all.len() >= done.len() + 4
            &&& all.subrange(0, done.len() as int) == done
            &&& all.subrange(0, done.len() + 1int) == done.push(tops[0])
            &&& all.subrange(0, done.len() + 2int) == done.push(tops[0]).push(tops[1])
            &&& all.subrange(0, done.len() + 3int) == done.push(tops[0]).push(tops[1]).push(tops[2])
            &&& done.push(tops[0]).push(tops[1]).push(tops[2]).push(tops[3]) == done + tops
            &&& all[done.len() as int] == tops[0]
            &&& all[done.len() + 1int] == tops[1]
            &&& all[done.len() + 2int] == tops[2]
            &&& all[done.len() + 3int] == tops[3]
        }),
{
    let done = ops_of(ts.subrange(0, i));
    let tops = trade_ops(ts[i]);
    let all = ops_of(ts);
    let post = ts.subrange(i + 1, ts.len() as int);
    assert(ts.subrange(0, i + 1).drop_last() =~= ts.subrange(0, i));
    assert(ts.subrange(0, i + 1).last() == ts[i]);
    assert(ts =~= ts.subrange(0, i + 1) + post);
    lemma_ops_of_append(ts.subrange(0, i + 1), post);
    assert(all == done + tops + ops_of(post));
    assert(all.subrange(0, done.len() as int) =~= done);
    assert(all.subrange(0, done.len() + 1int) =~= done.push(tops[0]));
    assert(all.subrange(0, done.len() + 2int) =~= done.push(tops[0]).push(tops[1]));
    assert(all.subrange(0, done.len() + 3int) =~= done.push(tops[0]).push(tops[1]).push(tops[2]));
    assert(done.push(tops[0]).push(tops[1]).push(tops[2]).push(tops[3]) =~= done + tops);
}

pub proof fn lemma_products_fit_step(m: Ledger, ts: Seq<Trade>, i: int)
    requires
        0 <= i < ts.len(),
    ensures
        products_fit(m, ts.subrange(0, i + 1)) == (products_fit(m, ts.subrange(0, i)) && (run_ops(
            m,
            ops_of(ts.subrange(0, i)),
        ).1 is None ==> ts[i].quantity * ts[i].price <= u64::MAX)),
{
    assert(ts.subrange(0, i + 1).drop_last() =~= ts.subrange(0, i));
}

/// The quote amounts that fit in the whole also fit in a prefix.
pub proof fn lemma_products_fit_prefix(m: Ledger, ts: Seq<Trade>, k: int)
    requires
        0 <= k <= ts.len(),
        products_fit(m, ts),
    ensures
        products_fit(m, ts.subrange(0, k)),
    decreases ts.len() - k,
{
    if k < ts.len() {
        lemma_products_fit_step(m, ts, k);
        if k + 1 == ts.len() {
            assert(ts.subrange(0, k + 1) =~= ts);
        } else {
            lemma_products_fit_prefix(m, ts, k + 1);
        }
    } else {
        assert(ts.subrange(0, k) =~= ts);
    }
}

/// Once a trade's settlement has failed, no later trade is reached.
pub proof fn lemma_products_fit_after_stop(m: Ledger, ts: Seq<Trade>, k: int)
    requires
        0 <= k <= ts.len(),
        products_fit(m, ts.subrange(0, k)),
        run_ops(m, ops_of(ts.subrange(0, k))).1 is Some,
    ensures
        products_fit(m, ts),
    decreases ts.len() - k,
{
    if k < ts.len() {
        lemma_products_fit_step(m, ts, k);
        assert(ts.subrange(0, k + 1) =~= ts.subrange(0, k) + ts.subrange(k, k + 1));
        lemma_ops_of_append(ts.subrange(0, k), ts.subrange(k, k + 1));
        lemma_run_ops_stops(m, ops_of(ts.subrange(0, k)), ops_of(ts.subrange(k, k + 1)));
        lemma_products_fit_after_stop(m, ts, k + 1);
    } else {
        assert(ts.subrange(0, k) =~= ts);
    }
}

// ---------------------------------------------------------------------
// Implementation
// ---------------------------------------------------------------------

impl BalanceAccount {
    fn empty() -> (a: Self)
        ensures
            a@ == Map::<Asset, Balance>::empty(),
    {
        let a = BalanceAccount { btc: None, usdc: None, sol: None };
        assert(a@ =~= Map::<Asset, Balance>::empty());
        a
    }

    fn get(&self, asset: Asset) -> (r: Option<Balance>)
        ensures
            r == (if self@.contains_key(asset) {
                Some(self@[asset])
            } else {
                None
            }),
    {
        match asset {
            Asset::BTC => self.btc,
            Asset::USDC => self.usdc,
            Asset::SOL => self.sol,
        }
    }

    fn with(self, asset: Asset, b: Balance) -> (r: Self)
        ensures
            r@ == self@.insert(asset, b),
    {
        let r = match asset {
            Asset::BTC => BalanceAccount { btc: Some(b), ..self },
            Asset::USDC => BalanceAccount { usdc: Some(b), ..self },
            Asset::SOL => BalanceAccount { sol: Some(b), ..self },
        };
        assert(r@ =~= self@.insert(asset, b));
        r
    }
}

impl BalanceManager {
    pub fn new() -> (m: Self)
        ensures
            m@ == Ledger::empty(),
    {
        let m = BalanceManager { accounts: HashMap::new() };
        assert(m@ =~= Ledger::empty());
        m
    }

    /// The account of a user, or an empty one.
    fn account(&self, user_id: u64) -> (a: BalanceAccount)
        ensures
            a@ == account_of(self@, user_id),
    {
        match self.accounts.get(&user_id) {
            Some(a) => *a,
            None => BalanceAccount::empty(),
        }
    }

    /// Stores the account of a user.
    fn store(&mut self, user_id: u64, acct: BalanceAccount)
        ensures
            final(self)@ == old(self)@.insert(user_id, acct@),
    {
        self.accounts.insert(user_id, acct);
        assert(self@ =~= old(self)@.insert(user_id, acct@));
    }

    /// Adds `amount` to the available balance, opening the account and the
    /// asset at zero if needed.
    pub fn deposit(&mut self, user_id: u64, asset: Asset, amount: u64)
        requires
            deposit_fits(old(self)@, user_id, asset, amount),
        ensures
            final(self)@ == deposit_spec(old(self)@, user_id, asset, amount),
    {
        let acct = self.account(user_id);
        let b = match acct.get(asset) {
            Some(b) => b,
            None => Balance { available: 0, locked: 0 },
        };
        let nb = Balance { available: b.available + amount, locked: b.locked };
        self.store(user_id, acct.with(asset, nb));
    }

    /// Moves `amount` from available to locked.
    pub fn lock(&mut self, user_id: u64, asset: Asset, amount: u64) -> (r: Result<(), BalanceError>)
        requires
            lock_fits(old(self)@, user_id, asset, amount),
        ensures
            match lock_spec(old(self)@, user_id, asset, amount) {
                Ok(m) => r is Ok && final(self)@ == m,
                Err(e) => r == Err::<(), BalanceError>(e) && final(self)@ == old(self)@,
            },
    {
        let acct = match self.accounts.get(&user_id) {
            Some(a) => *a,
            None => return Err(BalanceError::AccountNotFound),
        };
        let b = match acct.get(asset) {
            Some(b) => b,
            None => return Err(BalanceError::AssetNotFound),
        };
        if b.available >= amount {
            let nb = Balance { available: b.available - amount, locked: b.locked + amount };
            self.store(user_id, acct.with(asset, nb));
            Ok(())
        } else {
            Err(BalanceError::InsufficientBalance)
        }
    }

    /// Moves `amount` from locked back to available.
    pub fn unlock(&mut self, user_id: u64, asset: Asset, amount: u64) -> (r: Result<(), BalanceError>)
        requires
            unlock_fits(old(self)@, user_id, asset, amount),
        ensures
            match unlock_spec(old(self)@, user_id, asset, amount) {
                Ok(m) => r is Ok && final(self)@ == m,
                Err(e) => r == Err::<(), BalanceError>(e) && final(self)@ == old(self)@,
            },
    {
        let acct = match self.accounts.get(&user_id) {
            Some(a) => *a,
            None => return Err(BalanceError::AccountNotFound),
        };
        let b = match acct.get(asset) {
            Some(b) => b,
            None => return Err(BalanceError::AssetNotFound),
        };
        if b.locked >= amount {
            let nb = Balance { available: b.available + amount, locked: b.locked - amount };
            self.store(user_id, acct.with(asset, nb));
            Ok(())
        } else {
            Err(BalanceError::InsufficientLockedBalance)
        }
    }

    /// Removes `amount` from the locked balance.
    pub fn debit_locked(&mut self, user_id: u64, asset: Asset, amount: u64) -> (r: Result<
        (),
        BalanceError,
    >)
        ensures
            match debit_locked_spec(old(self)@, user_id, asset, amount) {
                Ok(m) => r is Ok && final(self)@ == m,
                Err(e) => r == Err::<(), BalanceError>(e) && final(self)@ == old(self)@,
            },
    {
        let acct = match self.accounts.get(&user_id) {
            Some(a) => *a,
            None => return Err(BalanceError::AccountNotFound),
        };
        let b = match acct.get(asset) {
            Some(b) => b,
            None => return Err(BalanceError::AssetNotFound),
        };
        if b.locked >= amount {
            let nb = Balance { available: b.available, locked: b.locked - amount };
            self.store(user_id, acct.with(asset, nb));
            Ok(())
        } else {
            Err(BalanceError::InsufficientLockedBalance)
        }
    }

    /// Adds `amount` to the available balance of an existing account,
    /// opening the asset at zero if needed.
    pub fn credit_available(&mut self, user_id: u64, asset: Asset, amount: u64) -> (r: Result<
        (),
        BalanceError,
    >)
        requires
            credit_fits(old(self)@, user_id, asset, amount),
        ensures
            match credit_available_spec(old(self)@, user_id, asset, amount) {
                Ok(m) => r is Ok && final(self)@ == m,
                Err(e) => r == Err::<(), BalanceError>(e) && final(self)@ == old(self)@,
            },
    {
        let acct = match self.accounts.get(&user_id) {
            Some(a) => *a,
            None => return Err(BalanceError::AccountNotFound),
        };
        let b = match acct.get(asset) {
            Some(b) => b,
            None => Balance { available: 0, locked: 0 },
        };
        let nb = Balance { available: b.available + amount, locked: b.locked };
        self.store(user_id, acct.with(asset, nb));
        Ok(())
    }

    pub fn get_balance(&self, user_id: u64, asset: Asset) -> (r: Option<Balance>)
        ensures
            r == get_balance_spec(self@, user_id, asset),
    {
        let acct = match self.accounts.get(&user_id) {
            Some(a) => *a,
            None => return None,
        };
        acct.get(asset)
    }

    fn credit_fits_exec(&self, user_id: u64, asset: Asset, amount: u64) -> (r: bool)
        ensures
            r == credit_fits(self@, user_id, asset, amount),
    {
        match self.accounts.get(&user_id) {
            None => true,
            Some(a) => {
                let b = match a.get(asset) {
                    Some(b) => b,
                    None => Balance { available: 0, locked: 0 },
                };
                b.available <= u64::MAX - amount
            },
        }
    }

    /// Tries one ledger step of a settlement on a scratch ledger: whether
    /// the whole settlement fits is decided when the step overflows or
    /// stops the settlement, and left open otherwise.
    fn probe_step(
        &mut self,
        op_user: u64,
        op_asset: Asset,
        amount: u64,
        credit: bool,
        Ghost(m0): Ghost<Ledger>,
        Ghost(done): Ghost<Seq<LedgerOp>>,
        Ghost(all): Ghost<Seq<LedgerOp>>,
    ) -> (r: Option<bool>)
        requires
            run_ops(m0, done) == (old(self)@, None::<BalanceError>),
            ops_fit(m0, done),
            all.len() > done.len(),
            all.subrange(0, done.len() as int) == done,
            all[done.len() as int] == (if credit {
                LedgerOp::CreditAvailable { user_id: op_user, asset: op_asset, amount }
            } else {
                LedgerOp::DebitLocked { user_id: op_user, asset: op_asset, amount }
            }),
        ensures
            r is None ==> {
                &&& run_ops(m0, done.push(all[done.len() as int])) == (
                    final(self)@,
                    None::<BalanceError>,
                )
                &&& ops_fit(m0, done.push(all[done.len() as int]))
            },
            r == Some(true) ==> {
                &&& ops_fit(m0, all)
                &&& run_ops(m0, done.push(all[done.len() as int])).1 is Some
            },
            r == Some(false) ==> !ops_fit(m0, all),
    {
        let ghost op = all[done.len() as int];
        let ghost d1 = done.push(op);
        let ghost rest = all.subrange(done.len() + 1int, all.len() as int);
        proof {
            assert(all =~= d1 + rest);
            lemma_run_ops_push(m0, done, op);
            lemma_ops_fit_push(m0, done, op);
        }
        if credit {
            if !self.credit_fits_exec(op_user, op_asset, amount) {
                proof {
                    if ops_fit(m0, all) {
                        lemma_ops_fit_prefix(m0, d1, rest);
                    }
                }
                return Some(false);
            }
        }
        let r = if credit {
            self.credit_available(op_user, op_asset, amount)
        } else {
            self.debit_locked(op_user, op_asset, amount)
        };
        match r {
            Ok(_) => {
                if !credit && #[verifier::truncate] (amount as i64) == i64::MIN {
                    proof {
                        if ops_fit(m0, all) {
                            lemma_ops_fit_prefix(m0, d1, rest);
                        }
                    }
                    return Some(false);
                }
                None
            },
            Err(_) => {
                proof {
                    lemma_ops_fit_after_stop(m0, d1, rest);
                }
                Some(true)
            },
        }
    }

    /// Whether settling `trades` overflows nothing: every trade it reaches
    /// has a quote amount that fits, and no step it reaches overflows.
    pub fn settlement_fits(&self, trades: &Vec<Trade>) -> (r: bool)
        ensures
            r == settle_fits(self@, trades@),
    {
        let n = trades.len();
        let ghost m0 = self@;
        let ghost all = ops_of(trades@);
        let mut sim = BalanceManager { accounts: self.accounts.clone() };
        proof {
            assert(sim@ =~= m0);
            assert(trades@.subrange(0, 0) =~= Seq::<Trade>::empty());
            assert(ops_of(trades@.subrange(0, 0)) =~= Seq::<LedgerOp>::empty());
        }
        let mut i: usize = 0;
        while i < n
            invariant
                n == trades@.len(),
                i <= n,
                all == ops_of(trades@),
                m0 == self@,
                run_ops(m0, ops_of(trades@.subrange(0, i as int))) == (sim@, None::<BalanceError>),
                ops_fit(m0, ops_of(trades@.subrange(0, i as int))),
                products_fit(m0, trades@.subrange(0, i as int)),
            decreases n - i,
        {
            let t = trades[i];
            let ghost done = ops_of(trades@.subrange(0, i as int));
            let ghost tops = trade_ops(t);
            proof {
                lemma_settle_prefix(trades@, i as int);
                lemma_products_fit_step(m0, trades@, i as int);
            }
            let quote_amount = match t.quantity.checked_mul(t.price) {
                Some(v) => v,
                None => {
                    proof {
                        if products_fit(m0, trades@) {
                            lemma_products_fit_prefix(m0, trades@, i + 1);
                        }
                    }
                    return false;
                },
            };
            let ghost d1 = done.push(tops[0]);
            let ghost d2 = d1.push(tops[1]);
            let ghost d3 = d2.push(tops[2]);
            let ghost d4 = d3.push(tops[3]);
            let mut outcome = sim.probe_step(
                t.buyer_user_id,
                t.market.quote,
                quote_amount,
                false,
                Ghost(m0),
                Ghost(done),
                Ghost(all),
            );
            if outcome.is_none() {
                outcome =
                sim.probe_step(
                    t.buyer_user_id,
                    t.market.base,
                    t.quantity,
                    true,
                    Ghost(m0),
                    Ghost(d1),
                    Ghost(all),
                );
                if outcome.is_none() {
                    outcome =
                    sim.probe_step(
                        t.seller_user_id,
                        t.market.base,
                        t.quantity,
                        false,
                        Ghost(m0),
                        Ghost(d2),
                        Ghost(all),
                    );
                    if outcome.is_none() {
                        outcome =
                        sim.probe_step(
                            t.seller_user_id,
                            t.market.quote,
                            quote_amount,
                            true,
                            Ghost(m0),
                            Ghost(d3),
                            Ghost(all),
                        );
                    }
                }
            }
            match outcome {
                Some(v) => {
                    proof {
                        if v {
                            let k: int = if run_ops(m0, d1).1 is Some {
                                1
                            } else if run_ops(m0, d2).1 is Some {
                                2
                            } else if run_ops(m0, d3).1 is Some {
                                3
                            } else {
                                4
                            };
                            assert(done + tops.subrange(0, k) == (if k == 1 {
                                d1
                            } else if k == 2 {
                                d2
                            } else if k == 3 {
                                d3
                            } else {
                                d4
                            })) by {
                                assert(d4 =~= done + tops);
                                assert(done + tops.subrange(0, 1) =~= d1);
                                assert(done + tops.subrange(0, 2) =~= d2);
                                assert(done + tops.subrange(0, 3) =~= d3);
                                assert(tops.subrange(0, 4) =~= tops);
                            }
                            lemma_run_ops_stops(m0, done + tops.subrange(0, k), tops.subrange(k, 4));
                            assert(done + tops.subrange(0, k) + tops.subrange(k, 4) =~= done + tops);
                            assert(ops_of(trades@.subrange(0, i + 1)) == done + tops);
                            lemma_products_fit_after_stop(m0, trades@, i + 1);
                        }
                    }
                    return v;
                },
                None => {},
            }
            proof {
                assert(d4 == done + tops);
            }
            i = i + 1;
        }
        proof {
            assert(trades@.subrange(0, n as int) =~= trades@);
        }
        true
    }

    /// Applies one ledger step, as the prefix `done` of `all` has been.
    fn apply_step(
        &mut self,
        op_user: u64,
        op_asset: Asset,
        amount: u64,
        credit: bool,
        Ghost(m0): Ghost<Ledger>,
        Ghost(done): Ghost<Seq<LedgerOp>>,
        Ghost(all): Ghost<Seq<LedgerOp>>,
    ) -> (r: Result<(), BalanceError>)
        requires
            run_ops(m0, done) == (old(self)@, None::<BalanceError>),
            ops_fit(m0, all),
            all.len() > done.len(),
            all.subrange(0, done.len() as int) == done,
            all[done.len() as int] == (if credit {
                LedgerOp::CreditAvailable { user_id: op_user, asset: op_asset, amount }
            } else {
                LedgerOp::DebitLocked { user_id: op_user, asset: op_asset, amount }
            }),
        ensures
            run_ops(m0, done.push(all[done.len() as int])) == (
                final(self)@,
                match r {
                    Ok(_) => None,
                    Err(e) => Some(e),
                },
            ),
            r is Ok && !credit ==> amount as i64 != i64::MIN,
    {
        let ghost op = all[done.len() as int];
        proof {
            lemma_run_ops_push(m0, done, op);
            let rest = all.subrange(done.len() + 1int, all.len() as int);
            assert(all =~= done.push(op) + rest);
            lemma_ops_fit_prefix(m0, done.push(op), rest);
        }
        if credit {
            self.credit_available(op_user, op_asset, amount)
        } else {
            self.debit_locked(op_user, op_asset, amount)
        }
    }

    /// Settles the trades of a match in order. A failing step stops the
    /// settlement; the steps before it stay applied.
    #[verifier::rlimit(40)]
    pub fn settle_match(&mut self, result: MatchResult) -> (r: Result<SettlementBatch, BalanceError>)
        requires
            settle_fits(old(self)@, result.trades@),
        ensures
            final(self)@ == run_ops(old(self)@, ops_of(result.trades@)).0,
            r is Ok <==> run_ops(old(self)@, ops_of(result.trades@)).1 is None,
            r matches Err(e) ==> run_ops(old(self)@, ops_of(result.trades@)).1 == Some(e),
            r is Ok ==> forall|asset: Asset|
                #[trigger] asset_total(final(self)@, asset) == asset_total(old(self)@, asset),
            r matches Ok(batch) ==> {
                &&& batch.balance_updates@ == ops_of(result.trades@).map_values(
                    |op: LedgerOp| update_of(op),
                )
                &&& batch.trades@ == result.trades@
                &&& batch.order_updates@ == result.updated_orders@.map_values(
                    |o: Order| order_update_of(o),
                )
            },
    {
        let ghost m0 = self@;
        let ghost all = ops_of(result.trades@);
        proof {
            assert(m0.dom() =~= self.accounts@.dom());
            assert forall|asset: Asset|
                run_ops(m0, all).1 is None implies #[trigger] asset_total(run_ops(m0, all).0, asset)
                == asset_total(m0, asset) by {
                law_settlement_keeps_asset_totals(m0, result.trades@, asset);
            }
        }
        let trades = result.trades;
        let n = trades.len();
        let mut balance_updates: Vec<BalanceUpdate> = Vec::new();
        let mut i: usize = 0;
        proof {
            assert(trades@.subrange(0, 0) =~= Seq::<Trade>::empty());
            assert(ops_of(trades@.subrange(0, 0)) =~= Seq::<LedgerOp>::empty());
        }
        while i < n
            invariant
                n == trades@.len(),
                i <= n,
                all == ops_of(trades@),
                m0 == old(self)@,
                all == ops_of(result.trades@),
                products_fit(m0, trades@),
                ops_fit(m0, all),
                run_ops(m0, ops_of(trades@.subrange(0, i as int))) == (self@, None::<BalanceError>),
                balance_updates@ == ops_of(trades@.subrange(0, i as int)).map_values(
                    |op: LedgerOp| update_of(op),
                ),
            decreases n - i,
        {
            let t = trades[i];
            let ghost done = ops_of(trades@.subrange(0, i as int));
            let ghost tops = trade_ops(t);
            proof {
                lemma_settle_prefix(trades@, i as int);
                lemma_products_fit_prefix(m0, trades@, i + 1);
                lemma_products_fit_step(m0, trades@, i as int);
            }
            let quote_asset = t.market.quote;
            let base_asset = t.market.base;
            let quote_amount = t.quantity * t.price;
            let base_amount = t.quantity;

            let ghost d1 = done.push(tops[0]);
            let ghost d2 = d1.push(tops[1]);
            let ghost d3 = d2.push(tops[2]);
            let ghost d4 = d3.push(tops[3]);

            let r1 = self.apply_step(
                t.buyer_user_id,
                quote_asset,
                quote_amount,
                false,
                Ghost(m0),
                Ghost(done),
                Ghost(all),
            );
            if let Err(e) = r1 {
                proof {
                    lemma_run_ops_stops(m0, d1, all.subrange(d1.len() as int, all.len() as int));
                    assert(all =~= d1 + all.subrange(d1.len() as int, all.len() as int));
                }
                return Err(e);
            }
            balance_updates.push(
                BalanceUpdate {
                    user_id: t.buyer_user_id,
                    asset: quote_asset,
                    available_delta: 0,
                    locked_delta: -(#[verifier::truncate] (quote_amount as i64)),
                },
            );

            let r2 = self.apply_step(
                t.buyer_user_id,
                base_asset,
                base_amount,
                true,
                Ghost(m0),
                Ghost(d1),
                Ghost(all),
            );
            if let Err(e) = r2 {
                proof {
                    lemma_run_ops_stops(m0, d2, all.subrange(d2.len() as int, all.len() as int));
                    assert(all =~= d2 + all.subrange(d2.len() as int, all.len() as int));
                }
                return Err(e);
            }
            balance_updates.push(
                BalanceUpdate {
                    user_id: t.buyer_user_id,
                    asset: base_asset,
                    available_delta: #[verifier::truncate] (base_amount as i64),
                    locked_delta: 0,
                },
            );

            let r3 = self.apply_step(
                t.seller_user_id,
                base_asset,
                base_amount,
                false,
                Ghost(m0),
                Ghost(d2),
                Ghost(all),
            );
            if let Err(e) = r3 {
                proof {
                    lemma_run_ops_stops(m0, d3, all.subrange(d3.len() as int, all.len() as int));
                    assert(all =~= d3 + all.subrange(d3.len() as int, all.len() as int));
                }
                return Err(e);
            }
            balance_updates.push(
                BalanceUpdate {
                    user_id: t.seller_user_id,
                    asset: base_asset,
                    available_delta: 0,
                    locked_delta: -(#[verifier::truncate] (base_amount as i64)),
                },
            );

            let r4 = self.apply_step(
                t.seller_user_id,
                quote_asset,
                quote_amount,
                true,
                Ghost(m0),
                Ghost(d3),
                Ghost(all),
            );
            if let Err(e) = r4 {
                proof {
                    lemma_run_ops_stops(m0, d4, all.subrange(d4.len() as int, all.len() as int));
                    assert(all =~= d4 + all.subrange(d4.len() as int, all.len() as int));
                }
                return Err(e);
            }
            balance_updates.push(
                BalanceUpdate {
                    user_id: t.seller_user_id,
                    asset: quote_asset,
                    available_delta: #[verifier::truncate] (quote_amount as i64),
                    locked_delta: 0,
                },
            );
            proof {
                assert(d4 == done + tops);
                assert(balance_updates@ =~= d4.map_values(|op: LedgerOp| update_of(op)));
            }
            i = i + 1;
        }
        proof {
            assert(trades@.subrange(0, n as int) =~= trades@);
        }

        let orders = result.updated_orders;
        let mut order_updates: Vec<OrderUpdate> = Vec::new();
        let mut j: usize = 0;
        while j < orders.len()
            invariant
                j <= orders@.len(),
                order_updates@ == orders@.subrange(0, j as int).map_values(
                    |o: Order| order_update_of(o),
                ),
            decreases orders@.len() - j,
        {
            let o = orders[j];
            order_updates.push(
                OrderUpdate { order_id: o.id, remaining_qty: o.remaining_qty, status: o.status },
            );
            proof {
                assert(orders@.subrange(0, j + 1) =~= orders@.subrange(0, j as int).push(o));
                assert(order_updates@ =~= orders@.subrange(0, j + 1).map_values(
                    |o: Order| order_update_of(o),
                ));
            }
            j = j + 1;
        }
        proof {
            assert(orders@.subrange(0, orders@.len() as int) =~= orders@);
        }
        Ok(SettlementBatch { balance_updates, order_updates, trades })
    }

    /// Sets a balance outright, as it was stored.
    pub fn load_balance(&mut self, user_id: u64, asset: Asset, available: u64, locked: u64)
        ensures
            final(self)@ == set_balance(
                old(self)@,
                user_id,
                asset,
                Balance { available, locked },
            ),
    {
        let acct = self.account(user_id);
        self.store(user_id, acct.with(asset, Balance { available, locked }));
    }
}

} // verus!
