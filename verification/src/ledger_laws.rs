//! What the balance operations keep and what they promise, proved over
//! the specification of the ledger.
use vstd::prelude::*;
use crate::balance::{
    Balance, Ledger, LedgerOp, balance_or_zero, account_of, deposit_fits, deposit_spec,
    get_balance_spec, lock_spec, set_balance, trade_amounts_fit, trade_ops, unlock_spec,
    update_of, debit_locked_spec, quote_amount, lock_fits, unlock_fits, BalanceError, apply_op,
    op_fits, ops_fit, ops_of, run_ops, lemma_run_ops_push, lemma_run_ops_stops,
    lemma_ops_fit_prefix, lemma_ops_of_append,
};
use crate::domain::{Asset, Trade};
use crate::settlement::BalanceUpdate;

verus! {

/// Available plus locked.
pub open spec fn total(b: Balance) -> int {
    b.available + b.locked
}

/// Two ledgers agree on every balance but the one of `user_id` in `asset`.
pub open spec fn same_elsewhere(m1: Ledger, m2: Ledger, user_id: u64, asset: Asset) -> bool {
    forall|u: u64, a: Asset|
        !(u == user_id && a == asset) ==> #[trigger] get_balance_spec(m1, u, a)
            == get_balance_spec(m2, u, a)
}

proof fn lemma_set_balance_reads(m: Ledger, user_id: u64, asset: Asset, b: Balance)
    ensures
        get_balance_spec(set_balance(m, user_id, asset, b), user_id, asset) == Some(b),
        same_elsewhere(m, set_balance(m, user_id, asset, b), user_id, asset),
{
}

/// Law: a balance that was set reads back as set, and no other balance
/// changes.
pub proof fn law_read_after_load(m: Ledger, user_id: u64, asset: Asset, available: u64, locked: u64)
    ensures
        get_balance_spec(
            set_balance(m, user_id, asset, Balance { available, locked }),
            user_id,
            asset,
        ) == Some(Balance { available, locked }),
        same_elsewhere(m, set_balance(m, user_id, asset, Balance { available, locked }), user_id, asset),
{
    lemma_set_balance_reads(m, user_id, asset, Balance { available, locked });
}

/// Law: after a deposit the balance reads back with the amount added to
/// what was available (from zero for a new account or asset), the locked
/// part unchanged, and no other balance changed.
pub proof fn law_read_after_deposit(m: Ledger, user_id: u64, asset: Asset, amount: u64)
    requires
        deposit_fits(m, user_id, asset, amount),
    ensures
        ({
            let before = balance_or_zero(account_of(m, user_id), asset);
            get_balance_spec(deposit_spec(m, user_id, asset, amount), user_id, asset) == Some(
                Balance { available: (before.available + amount) as u64, locked: before.locked },
            )
        }),
        same_elsewhere(m, deposit_spec(m, user_id, asset, amount), user_id, asset),
{
    let before = balance_or_zero(account_of(m, user_id), asset);
    lemma_set_balance_reads(
        m,
        user_id,
        asset,
        Balance { available: (before.available + amount) as u64, locked: before.locked },
    );
}

/// Law: locking only moves funds from the available to the locked part
/// of one balance; its total and every other balance stay.
pub proof fn law_lock_keeps_totals(m: Ledger, user_id: u64, asset: Asset, amount: u64)
    requires
        lock_fits(m, user_id, asset, amount),
    ensures
        lock_spec(m, user_id, asset, amount) matches Ok(m2) ==> {
            &&& get_balance_spec(m2, user_id, asset) matches Some(b2)
            &&& total(b2) == total(m[user_id][asset])
            &&& b2.locked == m[user_id][asset].locked + amount
            &&& same_elsewhere(m, m2, user_id, asset)
        },
{
    if m.contains_key(user_id) && m[user_id].contains_key(asset) {
        let b = m[user_id][asset];
        lemma_set_balance_reads(
            m,
            user_id,
            asset,
            Balance { available: (b.available - amount) as u64, locked: (b.locked + amount) as u64 },
        );
    }
}

/// Law: unlocking only moves funds from the locked to the available part
/// of one balance; its total and every other balance stay.
pub proof fn law_unlock_keeps_totals(m: Ledger, user_id: u64, asset: Asset, amount: u64)
    requires
        unlock_fits(m, user_id, asset, amount),
    ensures
        unlock_spec(m, user_id, asset, amount) matches Ok(m2) ==> {
            &&& get_balance_spec(m2, user_id, asset) matches Some(b2)
            &&& total(b2) == total(m[user_id][asset])
            &&& b2.available == m[user_id][asset].available + amount
            &&& same_elsewhere(m, m2, user_id, asset)
        },
{
    if m.contains_key(user_id) && m[user_id].contains_key(asset) {
        let b = m[user_id][asset];
        lemma_set_balance_reads(
            m,
            user_id,
            asset,
            Balance { available: (b.available + amount) as u64, locked: (b.locked - amount) as u64 },
        );
    }
}

/// Setting a balance to the value it has changes nothing.
proof fn lemma_set_same(m: Ledger, user_id: u64, asset: Asset)
    requires
        m.contains_key(user_id),
        m[user_id].contains_key(asset),
    ensures
        set_balance(m, user_id, asset, m[user_id][asset]) == m,
{
    assert(m[user_id].insert(asset, m[user_id][asset]) =~= m[user_id]);
    assert(m.insert(user_id, m[user_id]) =~= m);
}

/// Law: unlocking what was just locked restores the ledger.
pub proof fn law_unlock_undoes_lock(m: Ledger, user_id: u64, asset: Asset, amount: u64)
    requires
        lock_fits(m, user_id, asset, amount),
    ensures
        lock_spec(m, user_id, asset, amount) matches Ok(m2) ==> unlock_spec(
            m2,
            user_id,
            asset,
            amount,
        ) == Ok::<Ledger, BalanceError>(m),
{
    if m.contains_key(user_id) && m[user_id].contains_key(asset) && m[user_id][asset].available
        >= amount {
        let b = m[user_id][asset];
        lemma_set_same(m, user_id, asset);
        let b1 = Balance {
            available: (b.available - amount) as u64,
            locked: (b.locked + amount) as u64,
        };
        let m1 = set_balance(m, user_id, asset, b1);
        assert(m1[user_id].insert(asset, b) =~= m[user_id].insert(asset, b));
        assert(m1.insert(user_id, m1[user_id].insert(asset, b)) =~= m.insert(
            user_id,
            m[user_id].insert(asset, b),
        ));
    }
}

/// Law: locking what was just unlocked restores the ledger.
pub proof fn law_lock_undoes_unlock(m: Ledger, user_id: u64, asset: Asset, amount: u64)
    requires
        unlock_fits(m, user_id, asset, amount),
    ensures
        unlock_spec(m, user_id, asset, amount) matches Ok(m2) ==> lock_spec(
            m2,
            user_id,
            asset,
            amount,
        ) == Ok::<Ledger, BalanceError>(m),
{
    if m.contains_key(user_id) && m[user_id].contains_key(asset) && m[user_id][asset].locked
        >= amount {
        let b = m[user_id][asset];
        lemma_set_same(m, user_id, asset);
        let b2 = Balance {
            available: (b.available + amount) as u64,
            locked: (b.locked - amount) as u64,
        };
        let m2 = set_balance(m, user_id, asset, b2);
        assert(m2[user_id].insert(asset, b) =~= m[user_id].insert(asset, b));
        assert(m2.insert(user_id, m2[user_id].insert(asset, b)) =~= m.insert(
            user_id,
            m[user_id].insert(asset, b),
        ));
    }
}

/// Law: debiting locked funds removes exactly that amount from the locked
/// part of one balance and touches nothing else.
pub proof fn law_debit_locked_takes_amount(m: Ledger, user_id: u64, asset: Asset, amount: u64)
    ensures
        debit_locked_spec(m, user_id, asset, amount) matches Ok(m2) ==> {
            &&& get_balance_spec(m2, user_id, asset) matches Some(b2)
            &&& b2.available == m[user_id][asset].available
            &&& b2.locked + amount == m[user_id][asset].locked
            &&& same_elsewhere(m, m2, user_id, asset)
        },
{
    if m.contains_key(user_id) && m[user_id].contains_key(asset) {
        let b = m[user_id][asset];
        lemma_set_balance_reads(
            m,
            user_id,
            asset,
            Balance { available: b.available, locked: (b.locked - amount) as u64 },
        );
    }
}

/// The sum of the recorded changes to `asset`.
pub open spec fn net_delta(us: Seq<BalanceUpdate>, asset: Asset) -> int
    decreases us.len(),
{
    if us.len() == 0 {
        0
    } else {
        net_delta(us.drop_last(), asset) + (if us.last().asset == asset {
            us.last().available_delta + us.last().locked_delta
        } else {
            0
        })
    }
}

/// Law: the balance changes recorded for a settled trade add up to zero
/// in every asset: what the buyer pays the seller receives, and the other
/// way round.
pub proof fn law_trade_updates_net_to_zero(t: Trade, asset: Asset)
    requires
        trade_amounts_fit(t),
    ensures
        net_delta(trade_ops(t).map_values(|op: LedgerOp| update_of(op)), asset) == 0,
{
    let us = trade_ops(t).map_values(|op: LedgerOp| update_of(op));
    assert(us.len() == 4);
    assert(us.drop_last().drop_last().drop_last().drop_last() =~= Seq::<BalanceUpdate>::empty());
    reveal_with_fuel(net_delta, 5);
    let q = quote_amount(t) as i64;
    let n = t.quantity as i64;
    assert(us[0].locked_delta == -q && us[0].available_delta == 0);
    assert(us[1].available_delta == n && us[1].locked_delta == 0);
    assert(us[2].locked_delta == -n && us[2].available_delta == 0);
    assert(us[3].available_delta == q && us[3].locked_delta == 0);
}

// ---------------------------------------------------------------------
// Totals over the ledger
// ---------------------------------------------------------------------

/// What a user holds of an asset, available and locked together.
pub open spec fn holding(m: Ledger, user_id: u64, asset: Asset) -> int {
    match get_balance_spec(m, user_id, asset) {
        Some(b) => total(b),
        None => 0,
    }
}

/// What the given users hold of an asset together.
pub open spec fn sum_holdings(users: Set<u64>, m: Ledger, asset: Asset) -> int
    decreases users.len(),
    when users.finite()
{
    if users.len() == 0 {
        0
    } else {
        let u = users.choose();
        holding(m, u, asset) + sum_holdings(users.remove(u), m, asset)
    }
}

/// What all users hold of an asset together.
pub open spec fn asset_total(m: Ledger, asset: Asset) -> int {
    sum_holdings(m.dom(), m, asset)
}

proof fn lemma_sum_remove(users: Set<u64>, m: Ledger, asset: Asset, u: u64)
    requires
        users.finite(),
        users.contains(u),
    ensures
        sum_holdings(users, m, asset) == holding(m, u, asset) + sum_holdings(
            users.remove(u),
            m,
            asset,
        ),
    decreases users.len(),
{
    let c = users.choose();
    if c != u {
        lemma_sum_remove(users.remove(c), m, asset, u);
        lemma_sum_remove(users.remove(u), m, asset, c);
        assert(users.remove(c).remove(u) =~= users.remove(u).remove(c));
    }
}

proof fn lemma_sum_agree(users: Set<u64>, m1: Ledger, m2: Ledger, asset: Asset)
    requires
        users.finite(),
        forall|u: u64| users.contains(u) ==> #[trigger] holding(m1, u, asset) == holding(m2, u, asset),
    ensures
        sum_holdings(users, m1, asset) == sum_holdings(users, m2, asset),
    decreases users.len(),
{
    if users.len() > 0 {
        let u = users.choose();
        lemma_sum_agree(users.remove(u), m1, m2, asset);
    }
}

/// Setting one balance changes an asset's total by the change of that
/// user's holding.
proof fn lemma_total_after_set(m: Ledger, user_id: u64, a: Asset, b: Balance, x: Asset)
    requires
        m.dom().finite(),
    ensures
        set_balance(m, user_id, a, b).dom().finite(),
        asset_total(set_balance(m, user_id, a, b), x) == asset_total(m, x) - holding(m, user_id, x)
            + holding(set_balance(m, user_id, a, b), user_id, x),
        holding(set_balance(m, user_id, a, b), user_id, x) == (if x == a {
            total(b)
        } else {
            holding(m, user_id, x)
        }),
{
    let m2 = set_balance(m, user_id, a, b);
    let d = m.dom();
    assert(m2.dom() =~= d.insert(user_id));
    let rest = d.remove(user_id);
    assert forall|u: u64| rest.contains(u) implies #[trigger] holding(m, u, x) == holding(
        m2,
        u,
        x,
    ) by {}
    lemma_sum_agree(rest, m, m2, x);
    lemma_sum_remove(m2.dom(), m2, x, user_id);
    assert(m2.dom().remove(user_id) =~= rest);
    if d.contains(user_id) {
        lemma_sum_remove(d, m, x, user_id);
    } else {
        assert(rest =~= d);
    }
}

/// How a ledger step moves an asset's total.
pub open spec fn op_delta(op: LedgerOp, x: Asset) -> int {
    match op {
        LedgerOp::DebitLocked { asset, amount, .. } => if asset == x {
            -amount
        } else {
            0
        },
        LedgerOp::CreditAvailable { asset, amount, .. } => if asset == x {
            amount as int
        } else {
            0
        },
    }
}

pub open spec fn ops_delta(ops: Seq<LedgerOp>, x: Asset) -> int
    decreases ops.len(),
{
    if ops.len() == 0 {
        0
    } else {
        ops_delta(ops.drop_last(), x) + op_delta(ops.last(), x)
    }
}

proof fn lemma_op_total(m: Ledger, op: LedgerOp, x: Asset)
    requires
        m.dom().finite(),
        op_fits(m, op),
        apply_op(m, op) is Ok,
    ensures
        ({
            let m2 = apply_op(m, op)->Ok_0;
            &&& m2.dom().finite()
            &&& asset_total(m2, x) == asset_total(m, x) + op_delta(op, x)
        }),
{
    match op {
        LedgerOp::DebitLocked { user_id, asset, amount } => {
            let b = m[user_id][asset];
            lemma_total_after_set(
                m,
                user_id,
                asset,
                Balance { available: b.available, locked: (b.locked - amount) as u64 },
                x,
            );
        },
        LedgerOp::CreditAvailable { user_id, asset, amount } => {
            let b = balance_or_zero(account_of(m, user_id), asset);
            lemma_total_after_set(
                m,
                user_id,
                asset,
                Balance { available: (b.available + amount) as u64, locked: b.locked },
                x,
            );
        },
    }
}

/// Steps that all succeed move each asset's total by their summed deltas.
proof fn lemma_run_total(m: Ledger, ops: Seq<LedgerOp>, x: Asset)
    requires
        m.dom().finite(),
        ops_fit(m, ops),
        run_ops(m, ops).1 is None,
    ensures
        run_ops(m, ops).0.dom().finite(),
        asset_total(run_ops(m, ops).0, x) == asset_total(m, x) + ops_delta(ops, x),
    decreases ops.len(),
{
    if ops.len() > 0 {
        let prev = ops.drop_last();
        assert(run_ops(m, prev).1 is None);
        lemma_run_total(m, prev, x);
        lemma_op_total(run_ops(m, prev).0, ops.last(), x);
    }
}

proof fn lemma_ops_delta_append(a: Seq<LedgerOp>, b: Seq<LedgerOp>, x: Asset)
    ensures
        ops_delta(a + b, x) == ops_delta(a, x) + ops_delta(b, x),
    decreases b.len(),
{
    if b.len() == 0 {
        assert(a + b =~= a);
    } else {
        lemma_ops_delta_append(a, b.drop_last(), x);
        assert((a + b).drop_last() =~= a + b.drop_last());
    }
}

/// The steps of settling trades move no asset's total.
proof fn lemma_trades_delta_zero(ts: Seq<Trade>, x: Asset)
    ensures
        ops_delta(ops_of(ts), x) == 0,
    decreases ts.len(),
{
    if ts.len() > 0 {
        lemma_trades_delta_zero(ts.drop_last(), x);
        let tops = trade_ops(ts.last());
        lemma_ops_delta_append(ops_of(ts.drop_last()), tops, x);
        assert(tops.drop_last().drop_last().drop_last().drop_last() =~= Seq::<LedgerOp>::empty());
        reveal_with_fuel(ops_delta, 5);
    }
}

/// Law: a settlement that succeeds keeps, for every asset, the total that
/// all users hold of it, available and locked together: value only moves
/// between buyers and sellers.
pub proof fn law_settlement_keeps_asset_totals(m: Ledger, trades: Seq<Trade>, asset: Asset)
    requires
        m.dom().finite(),
        ops_fit(m, ops_of(trades)),
        run_ops(m, ops_of(trades)).1 is None,
    ensures
        asset_total(run_ops(m, ops_of(trades)).0, asset) == asset_total(m, asset),
{
    lemma_run_total(m, ops_of(trades), asset);
    lemma_trades_delta_zero(trades, asset);
}

// ---------------------------------------------------------------------
// Who pays whom
// ---------------------------------------------------------------------

/// Law: settling one trade between two different users, in a market of
/// two different assets, succeeds exactly when the buyer holds the quote
/// asset with at least the trade's value locked and the seller holds the
/// base asset with at least its quantity locked, whichever of them was
/// the taker. It then takes the value out of the buyer's locked quote and
/// adds it to the seller's available quote, takes the quantity out of the
/// seller's locked base and adds it to the buyer's available base, and
/// changes no other balance.
pub proof fn law_settle_trade_moves_funds(m: Ledger, t: Trade)
    requires
        t.buyer_user_id != t.seller_user_id,
        t.market.base != t.market.quote,
        t.quantity * t.price <= u64::MAX,
        ops_fit(m, ops_of(seq![t])),
    ensures
        ({
            let buyer = t.buyer_user_id;
            let seller = t.seller_user_id;
            let base = t.market.base;
            let quote = t.market.quote;
            let value = t.quantity * t.price;
            let r = run_ops(m, ops_of(seq![t]));
            let bq = get_balance_spec(m, buyer, quote);
            let sb = get_balance_spec(m, seller, base);
            let bb = balance_or_zero(account_of(m, buyer), base);
            let sq = balance_or_zero(account_of(m, seller), quote);
            &&& r.1 is None <==> (bq is Some && bq.unwrap().locked >= value && sb is Some
                && sb.unwrap().locked >= t.quantity)
            &&& r.1 is None ==> {
                &&& get_balance_spec(r.0, buyer, quote) == Some(
                    Balance {
                        available: bq.unwrap().available,
                        locked: (bq.unwrap().locked - value) as u64,
                    },
                )
                &&& get_balance_spec(r.0, buyer, base) == Some(
                    Balance { available: (bb.available + t.quantity) as u64, locked: bb.locked },
                )
                &&& bb.available + t.quantity <= u64::MAX
                &&& get_balance_spec(r.0, seller, base) == Some(
                    Balance {
                        available: sb.unwrap().available,
                        locked: (sb.unwrap().locked - t.quantity) as u64,
                    },
                )
                &&& get_balance_spec(r.0, seller, quote) == Some(
                    Balance { available: (sq.available + value) as u64, locked: sq.locked },
                )
                &&& sq.available + value <= u64::MAX
                &&& forall|u: u64, a: Asset|
                    !((u == buyer || u == seller) && (a == base || a == quote))
                        ==> #[trigger] get_balance_spec(r.0, u, a) == get_balance_spec(m, u, a)
            }
        }),
{
    let ops = trade_ops(t);
    assert(seq![t].drop_last() =~= Seq::<Trade>::empty());
    assert(ops_of(Seq::<Trade>::empty()) =~= Seq::<LedgerOp>::empty());
    assert(ops_of(seq![t]) =~= ops);
    let a0 = Seq::<LedgerOp>::empty();
    let a1 = a0.push(ops[0]);
    let a2 = a1.push(ops[1]);
    let a3 = a2.push(ops[2]);
    let a4 = a3.push(ops[3]);
    assert(a4 =~= ops);
    assert(run_ops(m, a0) == (m, Option::<BalanceError>::None));
    lemma_run_ops_push(m, a0, ops[0]);
    let m1 = run_ops(m, a1).0;
    if run_ops(m, a1).1 is None {
        lemma_set_balance_reads(
            m,
            t.buyer_user_id,
            t.market.quote,
            m1[t.buyer_user_id][t.market.quote],
        );
        lemma_run_ops_push(m, a1, ops[1]);
        assert(a2 + seq![ops[2], ops[3]] =~= a4);
        lemma_ops_fit_prefix(m, a2, seq![ops[2], ops[3]]);
        let m2 = run_ops(m, a2).0;
        lemma_set_balance_reads(m1, t.buyer_user_id, t.market.base, m2[t.buyer_user_id][t.market.base]);
        lemma_run_ops_push(m, a2, ops[2]);
        let m3 = run_ops(m, a3).0;
        if run_ops(m, a3).1 is None {
            lemma_set_balance_reads(
                m2,
                t.seller_user_id,
                t.market.base,
                m3[t.seller_user_id][t.market.base],
            );
            lemma_run_ops_push(m, a3, ops[3]);
            let m4 = run_ops(m, a4).0;
            lemma_set_balance_reads(
                m3,
                t.seller_user_id,
                t.market.quote,
                m4[t.seller_user_id][t.market.quote],
            );
        } else {
            lemma_run_ops_stops(m, a3, seq![ops[3]]);
            assert(a3 + seq![ops[3]] =~= a4);
        }
    } else {
        lemma_run_ops_stops(m, a1, seq![ops[1], ops[2], ops[3]]);
        assert(a1 + seq![ops[1], ops[2], ops[3]] =~= a4);
    }
}

proof fn lemma_run_ops_append(m: Ledger, a: Seq<LedgerOp>, b: Seq<LedgerOp>)
    requires
        run_ops(m, a).1 is None,
    ensures
        run_ops(m, a + b) == run_ops(run_ops(m, a).0, b),
    decreases b.len(),
{
    if b.len() == 0 {
        assert(a + b =~= a);
    } else {
        lemma_run_ops_append(m, a, b.drop_last());
        assert((a + b).drop_last() =~= a + b.drop_last());
        assert((a + b).last() == b.last());
    }
}

/// Law: settling a match is settling its trades one after the other:
/// settling `ts` and then `t` settles `t` on the ledger that settling
/// `ts` left, and does not settle `t` at all if settling `ts` failed.
pub proof fn law_settle_trade_by_trade(m: Ledger, ts: Seq<Trade>, t: Trade)
    ensures
        run_ops(m, ops_of(ts.push(t))) == (if run_ops(m, ops_of(ts)).1 is None {
            run_ops(run_ops(m, ops_of(ts)).0, ops_of(seq![t]))
        } else {
            run_ops(m, ops_of(ts))
        }),
{
    assert(ts.push(t) =~= ts + seq![t]);
    lemma_ops_of_append(ts, seq![t]);
    if run_ops(m, ops_of(ts)).1 is None {
        lemma_run_ops_append(m, ops_of(ts), ops_of(seq![t]));
    } else {
        lemma_run_ops_stops(m, ops_of(ts), ops_of(seq![t]));
    }
}

} // verus!
