//! What the matching engine keeps and what it promises, proved over the
//! specification of the book.
use vstd::prelude::*;
use crate::domain::{Order, OrderBookLevel, OrderType, Side, Trade};
use crate::engine::{
    BookState, book_side, can_match_spec, fill, goes_before, insert_pos, insert_pos_from,
    lemma_insert_pos_bounds, lemma_match_step_decreases, match_loop, match_step, min_u64,
    opposite, pop_best, price_of, priced, is_priced, all_priced, rest, submit_spec, book_size, best_of,
    cancel_spec, find_from, levels, sat_add,
};

verus! {

/// `p` is at least as good a price as `q` for an order of `side`.
pub open spec fn at_least_as_good(side: Side, p: u64, q: u64) -> bool {
    match side {
        Side::Buy => p >= q,
        Side::Sell => p <= q,
    }
}

/// Best price first, along a queue of `side`.
pub open spec fn sorted_side(s: Seq<Order>, side: Side) -> bool {
    forall|i: int, j: int|
        0 <= i < j < s.len() ==> at_least_as_good(side, price_of(#[trigger] s[i]), price_of(
            #[trigger] s[j],
        ))
}

pub open spec fn all_on_side(s: Seq<Order>, side: Side) -> bool {
    forall|i: int| 0 <= i < s.len() ==> (#[trigger] s[i]).side == side
}

/// A book in good order: priced limit orders only, buys among the bids and
/// sells among the asks, each side best price first.
pub open spec fn orderly(b: BookState) -> bool {
    &&& priced(b)
    &&& all_on_side(b.bids, Side::Buy)
    &&& all_on_side(b.asks, Side::Sell)
    &&& sorted_side(b.bids, Side::Buy)
    &&& sorted_side(b.asks, Side::Sell)
}

/// The best bid is below the best ask.
pub open spec fn uncrossed(b: BookState) -> bool {
    b.bids.len() == 0 || b.asks.len() == 0 || price_of(b.bids[0]) < price_of(b.asks[0])
}

/// The trade price respects the taker's limit, if it has one.
pub open spec fn within_limit(taker: Order, price: u64) -> bool {
    taker.order_type == OrderType::Limit ==> match taker.side {
        Side::Buy => price <= price_of(taker),
        Side::Sell => price >= price_of(taker),
    }
}

pub open spec fn sum_qty(ts: Seq<Trade>) -> nat
    decreases ts.len(),
{
    if ts.len() == 0 {
        0
    } else {
        sum_qty(ts.drop_last()) + ts.last().quantity as nat
    }
}

/// The taker as matching leaves it.
pub open spec fn taker_after(b: BookState, taker: Order) -> Order {
    match_loop(b, taker, seq![], seq![]).1
}

// ---------------------------------------------------------------------
// Insertion
// ---------------------------------------------------------------------

proof fn lemma_insert_pos_scan(s: Seq<Order>, side: Side, front: bool, p: u64, i: int)
    requires
        0 <= i <= s.len(),
    ensures
        forall|j: int|
            i <= j < insert_pos_from(s, side, front, p, i) ==> !goes_before(
                side,
                front,
                price_of(#[trigger] s[j]),
                p,
            ),
        insert_pos_from(s, side, front, p, i) < s.len() ==> goes_before(
            side,
            front,
            price_of(s[insert_pos_from(s, side, front, p, i)]),
            p,
        ),
    decreases s.len() - i,
{
    if i < s.len() && !goes_before(side, front, price_of(s[i]), p) {
        lemma_insert_pos_scan(s, side, front, p, i + 1);
    }
}

/// In a sorted queue, the insertion point splits it into the orders the
/// new one goes behind and the orders it goes before.
pub proof fn lemma_insert_pos_splits(s: Seq<Order>, side: Side, front: bool, p: u64)
    requires
        sorted_side(s, side),
    ensures
        0 <= insert_pos(s, side, front, p) <= s.len(),
        forall|j: int|
            0 <= j < insert_pos(s, side, front, p) ==> !goes_before(
                side,
                front,
                price_of(#[trigger] s[j]),
                p,
            ),
        forall|j: int|
            insert_pos(s, side, front, p) <= j < s.len() ==> goes_before(
                side,
                front,
                price_of(#[trigger] s[j]),
                p,
            ),
{
    lemma_insert_pos_bounds(s, side, front, p, 0);
    lemma_insert_pos_scan(s, side, front, p, 0);
    let k = insert_pos(s, side, front, p);
    assert forall|j: int| k <= j < s.len() implies goes_before(
        side,
        front,
        price_of(#[trigger] s[j]),
        p,
    ) by {
        if j > k {
            assert(at_least_as_good(side, price_of(s[k]), price_of(s[j])));
        }
    }
}

/// Placing an order on its own sorted side keeps that side sorted.
pub proof fn lemma_insert_sorted(s: Seq<Order>, o: Order, front: bool)
    requires
        sorted_side(s, o.side),
    ensures
        sorted_side(s.insert(insert_pos(s, o.side, front, price_of(o)), o), o.side),
{
    let side = o.side;
    let p = price_of(o);
    let k = insert_pos(s, side, front, p);
    lemma_insert_pos_splits(s, side, front, p);
    let t = s.insert(k, o);
    assert forall|i: int, j: int| 0 <= i < j < t.len() implies at_least_as_good(
        side,
        price_of(#[trigger] t[i]),
        price_of(#[trigger] t[j]),
    ) by {
        let si = if i < k {
            i
        } else {
            i - 1
        };
        let sj = if j < k {
            j
        } else {
            j - 1
        };
        if i < k && j < k {
            assert(t[i] == s[i] && t[j] == s[j]);
        } else if i < k && j == k {
            assert(t[i] == s[i] && t[j] == o);
            assert(!goes_before(side, front, price_of(s[i]), p));
        } else if i < k {
            assert(t[i] == s[i] && t[j] == s[j - 1]);
        } else if i == k {
            assert(t[i] == o && t[j] == s[j - 1]);
            assert(goes_before(side, front, price_of(s[j - 1]), p));
        } else {
            assert(t[i] == s[i - 1] && t[j] == s[j - 1]);
        }
    }
}

/// Resting an order of the right kind keeps a book in good order.
pub proof fn lemma_rest_orderly(b: BookState, o: Order, front: bool)
    requires
        orderly(b),
        is_priced(o),
    ensures
        orderly(rest(b, o, front)),
        book_side(rest(b, o, front), opposite(o.side)) == book_side(b, opposite(o.side)),
{
    let s = book_side(b, o.side);
    let k = insert_pos(s, o.side, front, price_of(o));
    lemma_insert_pos_bounds(s, o.side, front, price_of(o), 0);
    lemma_insert_sorted(s, o, front);
    crate::engine::lemma_rest_priced(b, o, front);
    let t = s.insert(k, o);
    assert forall|i: int| 0 <= i < t.len() implies (#[trigger] t[i]).side == o.side by {
        if i < k {
            assert(t[i] == s[i]);
        } else if i > k {
            assert(t[i] == s[i - 1]);
        }
    }
}

/// The head of a sorted side after placing an order on it: the order
/// itself, or the previous head, whichever is better.
proof fn lemma_rest_head(s: Seq<Order>, o: Order, front: bool)
    requires
        sorted_side(s, o.side),
    ensures
        ({
            let t = s.insert(insert_pos(s, o.side, front, price_of(o)), o);
            &&& t.len() == s.len() + 1
            &&& t[0] == o || (s.len() > 0 && t[0] == s[0])
        }),
{
    lemma_insert_pos_bounds(s, o.side, front, price_of(o), 0);
}

// ---------------------------------------------------------------------
// Matching
// ---------------------------------------------------------------------

proof fn lemma_subrange_sorted(s: Seq<Order>, side: Side)
    requires
        sorted_side(s, side),
        all_on_side(s, side),
        all_priced(s),
        s.len() > 0,
    ensures
        sorted_side(s.subrange(1, s.len() as int), side),
        all_on_side(s.subrange(1, s.len() as int), side),
        all_priced(s.subrange(1, s.len() as int)),
        forall|j: int|
            0 <= j < s.len() - 1 ==> at_least_as_good(
                side,
                price_of(s[0]),
                price_of(#[trigger] s.subrange(1, s.len() as int)[j]),
            ),
{
    let t = s.subrange(1, s.len() as int);
    assert forall|i: int, j: int| 0 <= i < j < t.len() implies at_least_as_good(
        side,
        price_of(#[trigger] t[i]),
        price_of(#[trigger] t[j]),
    ) by {
        assert(t[i] == s[i + 1] && t[j] == s[j + 1]);
    }
    assert forall|j: int| 0 <= j < t.len() implies at_least_as_good(
        side,
        price_of(s[0]),
        price_of(#[trigger] t[j]),
    ) by {
        assert(t[j] == s[j + 1]);
    }
    assert forall|j: int| 0 <= j < t.len() implies (#[trigger] t[j]).side == side && is_priced(
        t[j],
    ) by {
        assert(t[j] == s[j + 1]);
    }
}


/// Taking the best order off the side opposite to `side` keeps a book in
/// good order.
pub proof fn lemma_pop_best_orderly(b: BookState, side: Side)
    requires
        orderly(b),
    ensures
        book_side(b, opposite(side)).len() > 0 ==> orderly(pop_best(b, side)),
{
    let s = book_side(b, opposite(side));
    if s.len() > 0 {
        lemma_subrange_sorted(s, opposite(side));
    }
}

/// One matching step keeps a book in good order and uncrossed, and leaves
/// the taker's own side alone.
proof fn lemma_step_orderly(b: BookState, taker: Order)
    requires
        orderly(b),
        taker.remaining_qty > 0,
        can_match_spec(b, taker),
    ensures
        orderly(match_step(b, taker).0),
        uncrossed(b) ==> uncrossed(match_step(b, taker).0),
        match_step(b, taker).1.remaining_qty <= taker.remaining_qty,
        book_side(match_step(b, taker).0, taker.side) == book_side(b, taker.side),
        match_step(b, taker).1.side == taker.side,
        match_step(b, taker).1.order_type == taker.order_type,
        match_step(b, taker).1.limit_price == taker.limit_price,
{
    lemma_match_step_decreases(b, taker);
    let opp = opposite(taker.side);
    let s = book_side(b, opp);
    let maker = s[0];
    let q = min_u64(maker.remaining_qty, taker.remaining_qty);
    let maker1 = fill(maker, q);
    let b1 = pop_best(b, taker.side);
    let b2 = BookState { next_trade_id: b1.next_trade_id + 1, ..b1 };
    let s1 = s.subrange(1, s.len() as int);
    lemma_subrange_sorted(s, opp);
    assert(orderly(b2));
    assert(maker.side == opp);
    assert(is_priced(maker1));
    if maker1.remaining_qty > 0 {
        lemma_rest_orderly(b2, maker1, true);
        lemma_insert_pos_splits(s1, opp, true, price_of(maker1));
        let k = insert_pos(s1, opp, true, price_of(maker1));
        if k > 0 {
            assert(!goes_before(opp, true, price_of(s1[0]), price_of(maker1)));
            assert(at_least_as_good(opp, price_of(s[0]), price_of(s1[0])));
        }
        assert(k == 0);
        let t = s1.insert(k, maker1);
        assert(t[0] == maker1);
    } else {
        if s1.len() > 0 {
            assert(at_least_as_good(opp, price_of(s[0]), price_of(s1[0])));
        }
    }
}

/// Matching keeps a book in good order, and uncrossed if it was.
proof fn lemma_loop_orderly(b: BookState, taker: Order, trades: Seq<Trade>, makers: Seq<Order>)
    requires
        orderly(b),
    ensures
        orderly(match_loop(b, taker, trades, makers).0),
        uncrossed(b) ==> uncrossed(match_loop(b, taker, trades, makers).0),
        match_loop(b, taker, trades, makers).1.side == taker.side,
        match_loop(b, taker, trades, makers).1.order_type == taker.order_type,
        match_loop(b, taker, trades, makers).1.limit_price == taker.limit_price,
        match_loop(b, taker, trades, makers).1.remaining_qty <= taker.remaining_qty,
    decreases book_size(b) + taker.remaining_qty,
{
    if taker.remaining_qty > 0 && can_match_spec(b, taker) {
        let (b1, taker1, t, maker1) = match_step(b, taker);
        lemma_match_step_decreases(b, taker);
        lemma_step_orderly(b, taker);
        lemma_loop_orderly(b1, taker1, trades.push(t), makers.push(maker1));
    }
}

/// Law: a submission keeps a book in good order: priced limit orders
/// only, each on its own side, each side best price first.
pub proof fn law_submit_keeps_book_orderly(b: BookState, taker: Order)
    requires
        orderly(b),
        taker.order_type == OrderType::Limit && taker.remaining_qty > 0
            ==> taker.limit_price is Some,
    ensures
        orderly(submit_spec(b, taker).book),
{
    lemma_loop_orderly(b, taker, seq![], seq![]);
    let (b1, t1, trades, makers) = match_loop(b, taker, seq![], seq![]);
    if t1.remaining_qty > 0 && t1.order_type == OrderType::Limit {
        assert(is_priced(t1));
        lemma_rest_orderly(b1, t1, false);
    }
}

/// Law: a submission never leaves a book in good order crossed; in
/// particular what rests of a limit order does not cross.
pub proof fn law_submit_keeps_book_uncrossed(b: BookState, taker: Order)
    requires
        orderly(b),
        uncrossed(b),
        taker.order_type == OrderType::Limit && taker.remaining_qty > 0
            ==> taker.limit_price is Some,
    ensures
        orderly(submit_spec(b, taker).book),
        uncrossed(submit_spec(b, taker).book),
{
    law_submit_keeps_book_orderly(b, taker);
    lemma_loop_orderly(b, taker, seq![], seq![]);
    let (b1, t1, trades, makers) = match_loop(b, taker, seq![], seq![]);
    if t1.remaining_qty > 0 && t1.order_type == OrderType::Limit {
        assert(!can_match_spec(b1, t1)) by {
            lemma_loop_stops(b, taker, seq![], seq![]);
        }
        assert(is_priced(t1));
        lemma_rest_orderly(b1, t1, false);
        let own = book_side(b1, t1.side);
        lemma_rest_head(own, t1, false);
        let opp = book_side(b1, opposite(t1.side));
        if opp.len() > 0 {
            assert(is_priced(opp[0]));
            assert(best_of(opp) == Some(price_of(opp[0])));
        }
    }
}

/// Matching stops only when the taker is done or no longer crosses.
proof fn lemma_loop_stops(b: BookState, taker: Order, trades: Seq<Trade>, makers: Seq<Order>)
    ensures
        ({
            let r = match_loop(b, taker, trades, makers);
            r.1.remaining_qty == 0 || !can_match_spec(r.0, r.1)
        }),
    decreases book_size(b) + taker.remaining_qty,
{
    if taker.remaining_qty > 0 && can_match_spec(b, taker) {
        let (b1, taker1, t, maker1) = match_step(b, taker);
        lemma_match_step_decreases(b, taker);
        lemma_loop_stops(b1, taker1, trades.push(t), makers.push(maker1));
    }
}

/// Law: matching stops only when the taker is filled or no longer crosses
/// the book that matching leaves.
pub proof fn law_matching_stops_only_when_done(b: BookState, taker: Order)
    ensures
        taker_after(b, taker).remaining_qty == 0 || !can_match_spec(
            match_loop(b, taker, seq![], seq![]).0,
            taker_after(b, taker),
        ),
{
    lemma_loop_stops(b, taker, seq![], seq![]);
}

/// One matching step keeps every resting order priced.
proof fn lemma_step_priced(b: BookState, taker: Order)
    requires
        priced(b),
        taker.remaining_qty > 0,
        can_match_spec(b, taker),
    ensures
        priced(match_step(b, taker).0),
{
    lemma_match_step_decreases(b, taker);
    let opp = opposite(taker.side);
    let s = book_side(b, opp);
    let maker = s[0];
    let q = min_u64(maker.remaining_qty, taker.remaining_qty);
    let maker1 = fill(maker, q);
    let b1 = pop_best(b, taker.side);
    let s1 = s.subrange(1, s.len() as int);
    assert forall|j: int| 0 <= j < s1.len() implies is_priced(#[trigger] s1[j]) by {
        assert(s1[j] == s[j + 1]);
    }
    assert(priced(b1));
    let b2 = BookState { next_trade_id: b1.next_trade_id + 1, ..b1 };
    if maker1.remaining_qty > 0 {
        crate::engine::lemma_rest_priced(b2, maker1, true);
    }
}

/// What matching accounts for: the quantity the taker loses is the
/// quantity traded, trades are numbered on from the counter, every trade
/// respects the taker's limit, and only the taker's open quantity and
/// status change.
proof fn lemma_loop_accounting(b: BookState, taker: Order, trades: Seq<Trade>, makers: Seq<Order>)
    requires
        priced(b),
    ensures
        ({
            let r = match_loop(b, taker, trades, makers);
            &&& r.1 == Order { remaining_qty: r.1.remaining_qty, status: r.1.status, ..taker }
            &&& r.1.remaining_qty <= taker.remaining_qty
            &&& sum_qty(r.2) + r.1.remaining_qty == sum_qty(trades) + taker.remaining_qty
            &&& r.2.len() >= trades.len()
            &&& r.2.subrange(0, trades.len() as int) == trades
            &&& r.0.next_trade_id == b.next_trade_id + (r.2.len() - trades.len())
            &&& r.3.len() + trades.len() == makers.len() + r.2.len()
            &&& forall|i: int|
                trades.len() <= i < r.2.len() ==> {
                    &&& (#[trigger] r.2[i]).trade_id == (b.next_trade_id + (i - trades.len())) as u64
                    &&& within_limit(taker, r.2[i].price)
                    &&& r.2[i].taker_order_id == taker.id
                }
        }),
    decreases book_size(b) + taker.remaining_qty,
{
    if taker.remaining_qty > 0 && can_match_spec(b, taker) {
        let (b1, taker1, t, maker1) = match_step(b, taker);
        lemma_match_step_decreases(b, taker);
        lemma_step_priced(b, taker);
        lemma_loop_accounting(b1, taker1, trades.push(t), makers.push(maker1));
        let r = match_loop(b1, taker1, trades.push(t), makers.push(maker1));
        assert(trades.push(t).drop_last() =~= trades);
        assert(r.2.subrange(0, trades.len() as int) =~= r.2.subrange(
            0,
            trades.push(t).len() as int,
        ).subrange(0, trades.len() as int));
        let s = book_side(b, opposite(taker.side));
        assert(is_priced(s[0]));
        assert(within_limit(taker, t.price));
        assert(r.2[trades.len() as int] == trades.push(t)[trades.len() as int]);
    } else {
        assert(trades.subrange(0, trades.len() as int) =~= trades);
    }
}

/// Law: the trades of a submission add up to exactly the quantity that
/// the taker lost in matching; what is left of it rests only if it is a
/// limit order.
pub proof fn law_submit_conserves_quantity(b: BookState, taker: Order)
    requires
        priced(b),
    ensures
        sum_qty(submit_spec(b, taker).trades) + taker_after(b, taker).remaining_qty
            == taker.remaining_qty,
        submit_spec(b, taker).new_orders == (if taker_after(b, taker).remaining_qty > 0
            && taker.order_type == OrderType::Limit {
            seq![taker_after(b, taker)]
        } else {
            seq![]
        }),
{
    lemma_loop_accounting(b, taker, seq![], seq![]);
    reveal_with_fuel(sum_qty, 1);
}

/// Law: the trades of a submission carry consecutive ids from the book's
/// counter, which moves on by their number.
pub proof fn law_submit_numbers_trades_consecutively(b: BookState, taker: Order)
    requires
        priced(b),
    ensures
        submit_spec(b, taker).book.next_trade_id == b.next_trade_id + submit_spec(
            b,
            taker,
        ).trades.len(),
        forall|i: int|
            0 <= i < submit_spec(b, taker).trades.len() ==> (#[trigger] submit_spec(
                b,
                taker,
            ).trades[i]).trade_id == (b.next_trade_id + i) as u64,
{
    lemma_loop_accounting(b, taker, seq![], seq![]);
}

/// Law: every trade of a submission is the taker's, at a price within its
/// limit (any price for a market order).
pub proof fn law_submit_respects_limit(b: BookState, taker: Order)
    requires
        priced(b),
    ensures
        forall|i: int|
            0 <= i < submit_spec(b, taker).trades.len() ==> {
                &&& within_limit(taker, (#[trigger] submit_spec(b, taker).trades[i]).price)
                &&& submit_spec(b, taker).trades[i].taker_order_id == taker.id
            },
{
    lemma_loop_accounting(b, taker, seq![], seq![]);
}

// ---------------------------------------------------------------------
// Cancellation
// ---------------------------------------------------------------------

proof fn lemma_find_absent(s: Seq<Order>, id: crate::domain::OrderId, i: int)
    requires
        0 <= i <= s.len(),
        forall|j: int| 0 <= j < s.len() ==> (#[trigger] s[j]).id != id,
    ensures
        find_from(s, id, i) == s.len(),
    decreases s.len() - i,
{
    if i < s.len() {
        lemma_find_absent(s, id, i + 1);
    }
}

proof fn lemma_find_first(s: Seq<Order>, id: crate::domain::OrderId, i: int, k: int)
    requires
        0 <= i <= k < s.len(),
        s[k].id == id,
        forall|j: int| i <= j < k ==> (#[trigger] s[j]).id != id,
    ensures
        find_from(s, id, i) == k,
    decreases k - i,
{
    if i < k {
        lemma_find_first(s, id, i + 1, k);
    }
}

/// Law: cancelling an order that was just rested, and whose id no other
/// resting order carries, gives it back and restores the book.
pub proof fn law_cancel_undoes_rest(b: BookState, o: Order)
    requires
        forall|j: int| 0 <= j < b.bids.len() ==> (#[trigger] b.bids[j]).id != o.id,
        forall|j: int| 0 <= j < b.asks.len() ==> (#[trigger] b.asks[j]).id != o.id,
    ensures
        cancel_spec(rest(b, o, false), o.id) == (b, Some(o)),
{
    let s = book_side(b, o.side);
    let k = insert_pos(s, o.side, false, price_of(o));
    lemma_insert_pos_bounds(s, o.side, false, price_of(o), 0);
    let t = s.insert(k, o);
    assert forall|j: int| 0 <= j < k implies (#[trigger] t[j]).id != o.id by {
        assert(t[j] == s[j]);
    }
    lemma_find_first(t, o.id, 0, k);
    assert(t.remove(k) =~= s);
    match o.side {
        Side::Buy => {},
        Side::Sell => {
            lemma_find_absent(b.bids, o.id, 0);
        },
    }
}

/// Every trade takes a resting order off the book, except the last one,
/// which may leave its maker in place but then fills the taker.
proof fn lemma_loop_trade_count(b: BookState, taker: Order, trades: Seq<Trade>, makers: Seq<Order>)
    ensures
        match_loop(b, taker, trades, makers).2.len() <= trades.len() + book_size(b),
    decreases book_size(b) + taker.remaining_qty,
{
    if taker.remaining_qty > 0 && can_match_spec(b, taker) {
        let (b1, taker1, t, maker1) = match_step(b, taker);
        lemma_match_step_decreases(b, taker);
        lemma_loop_trade_count(b1, taker1, trades.push(t), makers.push(maker1));
        if maker1.remaining_qty > 0 {
            let s = book_side(b, opposite(taker.side));
            let q = min_u64(s[0].remaining_qty, taker.remaining_qty);
            assert(taker1.remaining_qty == 0);
            assert(match_loop(b1, taker1, trades.push(t), makers.push(maker1)).2 == trades.push(t));
            let bb = pop_best(b, taker.side);
            assert(book_size(bb) + 1 == book_size(b));
        } else {
            let bb = pop_best(b, taker.side);
            assert(book_size(bb) + 1 == book_size(b));
        }
    }
}

/// Law: a submission makes at most as many trades as there are resting
/// orders, so the trade counter moves on by at most that many.
pub proof fn law_submit_trades_bounded_by_book(b: BookState, taker: Order)
    requires
        priced(b),
    ensures
        submit_spec(b, taker).trades.len() <= book_size(b),
        submit_spec(b, taker).book.next_trade_id <= b.next_trade_id + book_size(b),
{
    lemma_loop_trade_count(b, taker, seq![], seq![]);
    law_submit_numbers_trades_consecutively(b, taker);
}

/// Law: a resting order goes behind every order of its side at its price
/// or better, and ahead of every order at a worse price.
pub proof fn law_rest_keeps_price_time_priority(s: Seq<Order>, o: Order)
    requires
        sorted_side(s, o.side),
    ensures
        ({
            let k = insert_pos(s, o.side, false, price_of(o));
            &&& 0 <= k <= s.len()
            &&& s.insert(k, o)[k] == o
            &&& forall|j: int|
                0 <= j < k ==> at_least_as_good(o.side, price_of(#[trigger] s[j]), price_of(o))
            &&& forall|j: int|
                k <= j < s.len() ==> !at_least_as_good(
                    o.side,
                    price_of(#[trigger] s[j]),
                    price_of(o),
                )
        }),
{
    lemma_insert_pos_splits(s, o.side, false, price_of(o));
}

/// Matching takes makers best price first: no trade is at a better price
/// than the head of the opposite side, and later trades are at prices no
/// better than earlier ones.
proof fn lemma_loop_price_priority(b: BookState, taker: Order, trades: Seq<Trade>, makers: Seq<Order>)
    requires
        orderly(b),
    ensures
        ({
            let r = match_loop(b, taker, trades, makers);
            let opp = opposite(taker.side);
            let s = book_side(b, opp);
            &&& r.2.len() >= trades.len()
            &&& r.2.subrange(0, trades.len() as int) == trades
            &&& r.2.len() > trades.len() ==> s.len() > 0
            &&& forall|i: int|
                trades.len() <= i < r.2.len() ==> at_least_as_good(
                    opp,
                    price_of(s[0]),
                    (#[trigger] r.2[i]).price,
                )
            &&& forall|i: int, j: int|
                trades.len() <= i < j < r.2.len() ==> at_least_as_good(
                    opp,
                    (#[trigger] r.2[i]).price,
                    (#[trigger] r.2[j]).price,
                )
        }),
    decreases book_size(b) + taker.remaining_qty,
{
    if taker.remaining_qty > 0 && can_match_spec(b, taker) {
        let (b1, taker1, t, maker1) = match_step(b, taker);
        lemma_match_step_decreases(b, taker);
        lemma_step_orderly(b, taker);
        lemma_loop_price_priority(b1, taker1, trades.push(t), makers.push(maker1));
        let opp = opposite(taker.side);
        let s = book_side(b, opp);
        let s1 = book_side(b1, opp);
        let r = match_loop(b1, taker1, trades.push(t), makers.push(maker1));
        assert(r.2.subrange(0, trades.len() as int) =~= r.2.subrange(
            0,
            trades.push(t).len() as int,
        ).subrange(0, trades.len() as int));
        assert(trades.push(t)[trades.len() as int] == t);
        assert(r.2.subrange(0, trades.len() + 1int)[trades.len() as int] == r.2[trades.len() as int]);
        assert(r.2[trades.len() as int] == t);
        assert(t.price == price_of(s[0]));
        if r.2.len() > trades.len() + 1 {
            assert(s1.len() > 0);
            // the head of the opposite side never gets better
            let q = min_u64(s[0].remaining_qty, taker.remaining_qty);
            let bp = pop_best(b, taker.side);
            let sp = book_side(bp, opp);
            lemma_subrange_sorted(s, opp);
            if fill(s[0], q).remaining_qty > 0 {
                let b2 = BookState { next_trade_id: bp.next_trade_id + 1, ..bp };
                lemma_insert_pos_splits(sp, opp, true, price_of(fill(s[0], q)));
                let k = insert_pos(sp, opp, true, price_of(fill(s[0], q)));
                if k > 0 {
                    assert(!goes_before(opp, true, price_of(sp[0]), price_of(s[0])));
                    assert(at_least_as_good(opp, price_of(s[0]), price_of(sp[0])));
                }
                assert(s1 == sp.insert(k, fill(s[0], q)));
                assert(s1[0] == fill(s[0], q));
            } else {
                assert(s1 == sp);
                assert(at_least_as_good(opp, price_of(s[0]), price_of(sp[0])));
            }
            assert(at_least_as_good(opp, price_of(s[0]), price_of(s1[0])));
        }
    } else {
        assert(trades.subrange(0, trades.len() as int) =~= trades);
    }
}

/// Law: in a book in good order, a submission trades best price first:
/// each trade is at a price no better for the taker's counterparties than
/// the one before it.
pub proof fn law_submit_trades_best_price_first(b: BookState, taker: Order)
    requires
        orderly(b),
    ensures
        forall|i: int, j: int|
            0 <= i < j < submit_spec(b, taker).trades.len() ==> at_least_as_good(
                opposite(taker.side),
                (#[trigger] submit_spec(b, taker).trades[i]).price,
                (#[trigger] submit_spec(b, taker).trades[j]).price,
            ),
{
    lemma_loop_price_priority(b, taker, seq![], seq![]);
}

proof fn lemma_find_from_bounds(s: Seq<Order>, id: crate::domain::OrderId, i: int)
    requires
        0 <= i <= s.len(),
    ensures
        i <= find_from(s, id, i) <= s.len(),
    decreases s.len() - i,
{
    if i < s.len() && s[i].id != id {
        lemma_find_from_bounds(s, id, i + 1);
    }
}

/// Taking one order out of a side keeps it sorted, on its side and priced,
/// and its head no better than before.
proof fn lemma_remove_keeps_side(s: Seq<Order>, side: Side, i: int)
    requires
        0 <= i < s.len(),
        sorted_side(s, side),
        all_on_side(s, side),
        all_priced(s),
    ensures
        sorted_side(s.remove(i), side),
        all_on_side(s.remove(i), side),
        all_priced(s.remove(i)),
        s.remove(i).len() > 0 ==> at_least_as_good(side, price_of(s[0]), price_of(s.remove(i)[0])),
{
    let t = s.remove(i);
    assert forall|a: int, c: int| 0 <= a < c < t.len() implies at_least_as_good(
        side,
        price_of(#[trigger] t[a]),
        price_of(#[trigger] t[c]),
    ) by {
        let sa = if a < i {
            a
        } else {
            a + 1
        };
        let sc = if c < i {
            c
        } else {
            c + 1
        };
        assert(t[a] == s[sa] && t[c] == s[sc]);
    }
    assert forall|a: int| 0 <= a < t.len() implies (#[trigger] t[a]).side == side && is_priced(
        t[a],
    ) by {
        if a < i {
            assert(t[a] == s[a]);
        } else {
            assert(t[a] == s[a + 1]);
        }
    }
    if t.len() > 0 {
        if i == 0 {
            assert(t[0] == s[1]);
        } else {
            assert(t[0] == s[0]);
        }
    }
}

/// Law: cancelling an order keeps a book in good order, and uncrossed if
/// it was.
pub proof fn law_cancel_keeps_book_orderly(b: BookState, id: crate::domain::OrderId)
    requires
        orderly(b),
    ensures
        orderly(cancel_spec(b, id).0),
        uncrossed(b) ==> uncrossed(cancel_spec(b, id).0),
{
    lemma_find_from_bounds(b.bids, id, 0);
    lemma_find_from_bounds(b.asks, id, 0);
    let i = crate::engine::find(b.bids, id);
    let j = crate::engine::find(b.asks, id);
    if i < b.bids.len() {
        lemma_remove_keeps_side(b.bids, Side::Buy, i);
    } else if j < b.asks.len() {
        lemma_remove_keeps_side(b.asks, Side::Sell, j);
    }
}

// ---------------------------------------------------------------------
// Who trades with whom
// ---------------------------------------------------------------------

/// `o` carries the id, the user and the price of some order of `s0`.
pub open spec fn drawn_from(o: Order, s0: Seq<Order>) -> bool {
    exists|j: int|
        0 <= j < s0.len() && (#[trigger] s0[j]).id == o.id && s0[j].user_id == o.user_id
            && price_of(s0[j]) == price_of(o)
}

/// The parties of a trade that `taker` made against resting orders taken
/// from `s0`: the taker's order and user on the taker's side of it, a
/// resting order of `s0`, its user and its price on the maker's side, and
/// buyer and seller as the taker's side dictates.
pub open spec fn parties_ok(t: Trade, taker: Order, s0: Seq<Order>) -> bool {
    &&& t.taker_order_id == taker.id
    &&& t.taker_user_id == taker.user_id
    &&& t.market == taker.market
    &&& exists|j: int|
        0 <= j < s0.len() && (#[trigger] s0[j]).id == t.maker_order_id && s0[j].user_id
            == t.maker_user_id && price_of(s0[j]) == t.price
    &&& taker.side == Side::Buy ==> t.buyer_user_id == taker.user_id && t.seller_user_id
        == t.maker_user_id
    &&& taker.side == Side::Sell ==> t.seller_user_id == taker.user_id && t.buyer_user_id
        == t.maker_user_id
}

proof fn lemma_loop_parties(
    b: BookState,
    taker: Order,
    trades: Seq<Trade>,
    makers: Seq<Order>,
    t0: Order,
    s0: Seq<Order>,
)
    requires
        taker.id == t0.id,
        taker.user_id == t0.user_id,
        taker.side == t0.side,
        taker.market == t0.market,
        trades.len() == makers.len(),
        forall|j: int|
            0 <= j < book_side(b, opposite(t0.side)).len() ==> drawn_from(
                #[trigger] book_side(b, opposite(t0.side))[j],
                s0,
            ),
        forall|i: int| 0 <= i < trades.len() ==> parties_ok(#[trigger] trades[i], t0, s0),
        forall|i: int|
            0 <= i < makers.len() ==> (#[trigger] makers[i]).id == trades[i].maker_order_id
                && makers[i].user_id == trades[i].maker_user_id,
    ensures
        ({
            let r = match_loop(b, taker, trades, makers);
            &&& r.2.len() == r.3.len()
            &&& forall|i: int| 0 <= i < r.2.len() ==> parties_ok(#[trigger] r.2[i], t0, s0)
            &&& forall|i: int|
                0 <= i < r.3.len() ==> (#[trigger] r.3[i]).id == r.2[i].maker_order_id
                    && r.3[i].user_id == r.2[i].maker_user_id
        }),
    decreases book_size(b) + taker.remaining_qty,
{
    if taker.remaining_qty > 0 && can_match_spec(b, taker) {
        lemma_match_step_decreases(b, taker);
        let opp = opposite(t0.side);
        let s = book_side(b, opp);
        let maker = s[0];
        let (b3, taker1, t, maker1) = match_step(b, taker);
        assert(drawn_from(maker, s0));
        let j0 = choose|j: int|
            0 <= j < s0.len() && (#[trigger] s0[j]).id == maker.id && s0[j].user_id
                == maker.user_id && price_of(s0[j]) == price_of(maker);
        assert(s0[j0].id == t.maker_order_id && s0[j0].user_id == t.maker_user_id
            && price_of(s0[j0]) == t.price);
        assert(parties_ok(t, t0, s0));
        let trades1 = trades.push(t);
        let makers1 = makers.push(maker1);
        assert forall|i: int| 0 <= i < trades1.len() implies parties_ok(
            #[trigger] trades1[i],
            t0,
            s0,
        ) by {
            if i < trades.len() {
                assert(trades1[i] == trades[i]);
            }
        }
        assert forall|i: int| 0 <= i < makers1.len() implies (#[trigger] makers1[i]).id
            == trades1[i].maker_order_id && makers1[i].user_id == trades1[i].maker_user_id by {
            if i < makers.len() {
                assert(makers1[i] == makers[i] && trades1[i] == trades[i]);
            }
        }
        let s1 = s.subrange(1, s.len() as int);
        assert forall|j: int| 0 <= j < s1.len() implies drawn_from(#[trigger] s1[j], s0) by {
            assert(s1[j] == s[j + 1]);
        }
        let b2 = BookState { next_trade_id: pop_best(b, taker.side).next_trade_id + 1, ..pop_best(b, taker.side) };
        assert(book_side(b2, opp) == s1);
        let s3 = book_side(b3, opp);
        if maker1.remaining_qty > 0 && maker1.side == opp {
            let k = insert_pos(s1, opp, true, price_of(maker1));
            lemma_insert_pos_bounds(s1, opp, true, price_of(maker1), 0);
            assert(s3 == s1.insert(k, maker1));
            assert forall|j: int| 0 <= j < s3.len() implies drawn_from(#[trigger] s3[j], s0) by {
                if j < k {
                    assert(s3[j] == s1[j]);
                } else if j == k {
                    assert(s3[j] == maker1);
                    assert(s0[j0].id == maker1.id && s0[j0].user_id == maker1.user_id
                        && price_of(s0[j0]) == price_of(maker1));
                } else {
                    assert(s3[j] == s1[j - 1]);
                }
            }
        } else {
            assert(s3 == s1);
        }
        lemma_loop_parties(b3, taker1, trades1, makers1, t0, s0);
    }
}

/// Law: every trade of a submission is between the submitted order, as
/// taker, and an order that rested on the opposite side, as maker. The
/// trade carries the taker's order and user ids and market, the order id,
/// user id and price of one resting opposite order, and the buyer and
/// seller that the taker's side makes them; the updated maker reported
/// with it is that same order of that same user.
pub proof fn law_submit_trade_parties(b: BookState, taker: Order)
    ensures
        ({
            let out = submit_spec(b, taker);
            let s0 = book_side(b, opposite(taker.side));
            &&& out.trades.len() == out.updated_orders.len()
            &&& forall|i: int|
                0 <= i < out.trades.len() ==> parties_ok(#[trigger] out.trades[i], taker, s0)
            &&& forall|i: int|
                0 <= i < out.updated_orders.len() ==> (#[trigger] out.updated_orders[i]).id
                    == out.trades[i].maker_order_id && out.updated_orders[i].user_id
                    == out.trades[i].maker_user_id
        }),
{
    let s0 = book_side(b, opposite(taker.side));
    assert forall|j: int| 0 <= j < s0.len() implies drawn_from(#[trigger] s0[j], s0) by {
        assert(s0[j].id == s0[j].id);
    }
    lemma_loop_parties(b, taker, seq![], seq![], taker, s0);
}

// ---------------------------------------------------------------------
// Depth
// ---------------------------------------------------------------------

/// The open quantity of a queue.
pub open spec fn open_qty(s: Seq<Order>) -> int
    decreases s.len(),
{
    if s.len() == 0 {
        0
    } else {
        open_qty(s.drop_last()) + s.last().remaining_qty
    }
}

/// The open quantity of the orders of a queue at price `p`.
pub open spec fn open_qty_at(s: Seq<Order>, p: u64) -> int
    decreases s.len(),
{
    if s.len() == 0 {
        0
    } else {
        open_qty_at(s.drop_last(), p) + if price_of(s.last()) == p {
            s.last().remaining_qty as int
        } else {
            0
        }
    }
}

/// What the levels of a depth add up to.
pub open spec fn level_qty(l: Seq<OrderBookLevel>) -> int
    decreases l.len(),
{
    if l.len() == 0 {
        0
    } else {
        level_qty(l.drop_last()) + l.last().quantity
    }
}

/// Some order of `s` is at price `p`.
pub open spec fn price_in(s: Seq<Order>, p: u64) -> bool {
    exists|k: int| 0 <= k < s.len() && price_of(#[trigger] s[k]) == p
}

/// Some level of `l` is at price `p`.
pub open spec fn has_level(l: Seq<OrderBookLevel>, p: u64) -> bool {
    exists|i: int| 0 <= i < l.len() && (#[trigger] l[i]).price == p
}

/// Levels best price first, no price twice.
pub open spec fn levels_strictly_sorted(l: Seq<OrderBookLevel>, side: Side) -> bool {
    forall|i: int, j: int|
        0 <= i < j < l.len() ==> at_least_as_good(side, (#[trigger] l[i]).price, (
        #[trigger] l[j]).price) && l[i].price != l[j].price
}

proof fn lemma_open_qty_at_bounds(s: Seq<Order>, p: u64)
    ensures
        0 <= open_qty_at(s, p) <= open_qty(s),
    decreases s.len(),
{
    if s.len() > 0 {
        lemma_open_qty_at_bounds(s.drop_last(), p);
    }
}

proof fn lemma_open_qty_at_absent(s: Seq<Order>, p: u64)
    requires
        forall|k: int| 0 <= k < s.len() ==> price_of(#[trigger] s[k]) != p,
    ensures
        open_qty_at(s, p) == 0,
    decreases s.len(),
{
    if s.len() > 0 {
        let s1 = s.drop_last();
        assert forall|k: int| 0 <= k < s1.len() implies price_of(#[trigger] s1[k]) != p by {
            assert(s1[k] == s[k]);
        }
        assert(price_of(s[s.len() - 1]) != p);
        lemma_open_qty_at_absent(s1, p);
    }
}

proof fn lemma_levels(s: Seq<Order>, side: Side)
    requires
        sorted_side(s, side),
        open_qty(s) <= u64::MAX,
    ensures
        s.len() > 0 ==> levels(s).len() > 0 && levels(s).last().price == price_of(s.last()),
        levels_strictly_sorted(levels(s), side),
        forall|i: int| 0 <= i < levels(s).len() ==> price_in(s, (#[trigger] levels(s)[i]).price),
        forall|k: int| 0 <= k < s.len() ==> has_level(levels(s), price_of(#[trigger] s[k])),
        forall|i: int|
            0 <= i < levels(s).len() ==> (#[trigger] levels(s)[i]).quantity == open_qty_at(
                s,
                levels(s)[i].price,
            ),
    decreases s.len(),
{
    if s.len() > 0 {
        let s1 = s.drop_last();
        let o = s.last();
        let p = price_of(o);
        assert(sorted_side(s1, side)) by {
            assert forall|i: int, j: int| 0 <= i < j < s1.len() implies at_least_as_good(
                side,
                price_of(#[trigger] s1[i]),
                price_of(#[trigger] s1[j]),
            ) by {
                assert(s1[i] == s[i] && s1[j] == s[j]);
            }
        }
        lemma_open_qty_at_bounds(s1, p);
        lemma_levels(s1, side);
        let init = levels(s1);
        let l = levels(s);
        let n = init.len();
        assert forall|k: int| 0 <= k < s1.len() implies at_least_as_good(
            side,
            price_of(#[trigger] s1[k]),
            p,
        ) by {
            assert(s1[k] == s[k]);
            assert(s[s.len() - 1] == o);
        }
        if n > 0 && init.last().price == p {
            assert(init[n - 1].quantity == open_qty_at(s1, p));
            assert(init[n - 1].quantity + o.remaining_qty <= u64::MAX);
            assert(l == init.update(
                n - 1,
                OrderBookLevel { price: p, quantity: sat_add(init.last().quantity, o.remaining_qty) },
            ));
            assert forall|i: int| 0 <= i < l.len() implies (#[trigger] l[i]).price == init[i].price by {
            }
            assert forall|i: int| 0 <= i < l.len() implies (#[trigger] l[i]).quantity == open_qty_at(
                s,
                l[i].price,
            ) by {
                if i < n - 1 {
                    assert(l[i] == init[i]);
                    assert(init[i].price != init[n - 1].price);
                }
            }
            assert forall|i: int, j: int| 0 <= i < j < l.len() implies at_least_as_good(
                side,
                (#[trigger] l[i]).price,
                (#[trigger] l[j]).price,
            ) && l[i].price != l[j].price by {
                assert(l[i].price == init[i].price && l[j].price == init[j].price);
            }
            assert forall|i: int| 0 <= i < l.len() implies price_in(s, (#[trigger] l[i]).price) by {
                assert(l[i].price == init[i].price);
                assert(price_in(s1, init[i].price));
                let k = choose|k: int| 0 <= k < s1.len() && price_of(#[trigger] s1[k]) == init[i].price;
                assert(s[k] == s1[k]);
            }
            assert forall|k: int| 0 <= k < s.len() implies has_level(l, price_of(#[trigger] s[k])) by {
                if k < s1.len() {
                    assert(s[k] == s1[k]);
                    assert(has_level(init, price_of(s1[k])));
                    let i = choose|i: int| 0 <= i < init.len() && (#[trigger] init[i]).price == price_of(s1[k]);
                    assert(l[i].price == init[i].price);
                } else {
                    assert(l[n - 1].price == p);
                }
            }
        } else {
            assert forall|k: int| 0 <= k < s1.len() implies price_of(#[trigger] s1[k]) != p by {
                if price_of(s1[k]) == p {
                    let last = s1.len() - 1;
                    if k < last {
                        assert(at_least_as_good(side, price_of(s1[k]), price_of(s1[last])));
                    }
                    assert(at_least_as_good(side, price_of(s1[last]), p));
                    assert(price_of(s1[last]) == p);
                }
            }
            lemma_open_qty_at_absent(s1, p);
            assert(l == init.push(OrderBookLevel { price: p, quantity: o.remaining_qty }));
            assert forall|i: int| 0 <= i < n implies (#[trigger] init[i]).price != p by {
                assert(price_in(s1, init[i].price));
                let k = choose|k: int| 0 <= k < s1.len() && price_of(#[trigger] s1[k]) == init[i].price;
            }
            assert forall|i: int| 0 <= i < l.len() implies (#[trigger] l[i]).quantity == open_qty_at(
                s,
                l[i].price,
            ) by {
                if i < n {
                    assert(l[i] == init[i]);
                }
            }
            assert forall|i: int, j: int| 0 <= i < j < l.len() implies at_least_as_good(
                side,
                (#[trigger] l[i]).price,
                (#[trigger] l[j]).price,
            ) && l[i].price != l[j].price by {
                assert(l[i] == init[i]);
                if j < n {
                    assert(l[j] == init[j]);
                } else {
                    assert(price_in(s1, init[i].price));
                    let k = choose|k: int| 0 <= k < s1.len() && price_of(#[trigger] s1[k]) == init[i].price;
                    assert(at_least_as_good(side, price_of(s1[k]), p));
                }
            }
            assert forall|i: int| 0 <= i < l.len() implies price_in(s, (#[trigger] l[i]).price) by {
                if i < n {
                    assert(l[i] == init[i]);
                    assert(price_in(s1, init[i].price));
                    let k = choose|k: int| 0 <= k < s1.len() && price_of(#[trigger] s1[k]) == init[i].price;
                    assert(s[k] == s1[k]);
                } else {
                    assert(price_of(s[s.len() - 1]) == p);
                }
            }
            assert forall|k: int| 0 <= k < s.len() implies has_level(l, price_of(#[trigger] s[k])) by {
                if k < s1.len() {
                    assert(s[k] == s1[k]);
                    assert(has_level(init, price_of(s1[k])));
                    let i = choose|i: int| 0 <= i < init.len() && (#[trigger] init[i]).price == price_of(s1[k]);
                    assert(l[i] == init[i]);
                } else {
                    assert(l[n as int].price == p);
                }
            }
        }
    }
}

/// Law: the depth of a side in good order has one level per price at
/// which orders rest, best price first and no price twice, and each level
/// carries the open quantity of the orders resting at its price; so the
/// levels add up to the side's open quantity. (Quantities are summed in
/// `u64`; the law speaks of sides whose open quantity fits.)
pub proof fn law_depth_shows_open_quantity(s: Seq<Order>, side: Side)
    requires
        sorted_side(s, side),
        open_qty(s) <= u64::MAX,
    ensures
        levels_strictly_sorted(levels(s), side),
        forall|i: int| 0 <= i < levels(s).len() ==> price_in(s, (#[trigger] levels(s)[i]).price),
        forall|k: int| 0 <= k < s.len() ==> has_level(levels(s), price_of(#[trigger] s[k])),
        forall|i: int|
            0 <= i < levels(s).len() ==> (#[trigger] levels(s)[i]).quantity == open_qty_at(
                s,
                levels(s)[i].price,
            ),
        level_qty(levels(s)) == open_qty(s),
{
    lemma_levels(s, side);
    lemma_level_qty(s);
}

/// The levels of any queue add up to its open quantity, when that fits.
proof fn lemma_level_qty(s: Seq<Order>)
    requires
        open_qty(s) <= u64::MAX,
    ensures
        level_qty(levels(s)) == open_qty(s),
        forall|i: int| 0 <= i < levels(s).len() ==> 0 <= #[trigger] levels(s)[i].quantity <= level_qty(levels(s)),
    decreases s.len(),
{
    if s.len() > 0 {
        let s1 = s.drop_last();
        let o = s.last();
        lemma_open_qty_nonneg(s1);
        lemma_level_qty(s1);
        let init = levels(s1);
        let l = levels(s);
        let n = init.len();
        if n > 0 && init.last().price == price_of(o) {
            assert(init[n - 1].quantity <= level_qty(init));
            let v = OrderBookLevel { price: price_of(o), quantity: sat_add(init.last().quantity, o.remaining_qty) };
            assert(l == init.update(n - 1, v));
            assert(l.drop_last() =~= init.drop_last());
            assert(level_qty(init) == level_qty(init.drop_last()) + init[n - 1].quantity);
            lemma_level_qty_nonneg(init.drop_last());
            assert forall|i: int| 0 <= i < l.len() implies 0 <= #[trigger] l[i].quantity <= level_qty(l) by {
                if i < n - 1 {
                    assert(l[i] == init[i]);
                }
            }
        } else {
            assert(l == init.push(OrderBookLevel { price: price_of(o), quantity: o.remaining_qty }));
            assert(l.drop_last() =~= init);
            assert forall|i: int| 0 <= i < l.len() implies 0 <= #[trigger] l[i].quantity <= level_qty(l) by {
                if i < n {
                    assert(l[i] == init[i]);
                }
            }
        }
    }
}

proof fn lemma_open_qty_nonneg(s: Seq<Order>)
    ensures
        open_qty(s) >= 0,
    decreases s.len(),
{
    if s.len() > 0 {
        lemma_open_qty_nonneg(s.drop_last());
    }
}

proof fn lemma_level_qty_nonneg(l: Seq<OrderBookLevel>)
    ensures
        level_qty(l) >= 0,
    decreases l.len(),
{
    if l.len() > 0 {
        lemma_level_qty_nonneg(l.drop_last());
    }
}

// ---------------------------------------------------------------------
// Histories
// ---------------------------------------------------------------------

/// One call on a book.
pub enum BookEvent {
    Rest(Order),
    Submit(Order),
    Cancel(crate::domain::OrderId),
}

/// The calls that the book's operations accept.
pub open spec fn event_ok(e: BookEvent) -> bool {
    match e {
        BookEvent::Rest(o) => is_priced(o),
        BookEvent::Submit(o) => o.order_type == OrderType::Limit && o.remaining_qty > 0
            ==> o.limit_price is Some,
        BookEvent::Cancel(_) => true,
    }
}

pub open spec fn empty_book() -> BookState {
    BookState { bids: seq![], asks: seq![], next_trade_id: 1 }
}

/// A new book after the given calls, and all the trades they made.
pub open spec fn replay(events: Seq<BookEvent>) -> (BookState, Seq<Trade>)
    decreases events.len(),
{
    if events.len() == 0 {
        (empty_book(), seq![])
    } else {
        let (b, ts) = replay(events.drop_last());
        match events.last() {
            BookEvent::Rest(o) => (rest(b, o, false), ts),
            BookEvent::Submit(o) => (submit_spec(b, o).book, ts + submit_spec(b, o).trades),
            BookEvent::Cancel(id) => (cancel_spec(b, id).0, ts),
        }
    }
}

/// Law: over the whole life of a book, its trades carry the ids 1, 2,
/// 3, ... in order, with no gap and no repeat, and the counter stands one
/// past the last of them.
pub proof fn law_trade_ids_count_up(events: Seq<BookEvent>)
    requires
        forall|i: int| 0 <= i < events.len() ==> event_ok(#[trigger] events[i]),
    ensures
        orderly(replay(events).0),
        replay(events).0.next_trade_id == replay(events).1.len() + 1,
        forall|i: int|
            0 <= i < replay(events).1.len() ==> (#[trigger] replay(events).1[i]).trade_id == (i
                + 1) as u64,
    decreases events.len(),
{
    if events.len() > 0 {
        let prev = events.drop_last();
        assert forall|i: int| 0 <= i < prev.len() implies event_ok(#[trigger] prev[i]) by {
            assert(prev[i] == events[i]);
        }
        law_trade_ids_count_up(prev);
        let (b, ts) = replay(prev);
        assert(event_ok(events[events.len() - 1]));
        match events.last() {
            BookEvent::Rest(o) => {
                lemma_rest_orderly(b, o, false);
            },
            BookEvent::Submit(o) => {
                law_submit_keeps_book_orderly(b, o);
                law_submit_numbers_trades_consecutively(b, o);
                let out = submit_spec(b, o).trades;
                let all = ts + out;
                assert forall|i: int| 0 <= i < all.len() implies (#[trigger] all[i]).trade_id == (i
                    + 1) as u64 by {
                    if i >= ts.len() {
                        assert(all[i] == out[i - ts.len()]);
                    }
                }
            },
            BookEvent::Cancel(id) => {
                law_cancel_keeps_book_orderly(b, id);
            },
        }
    } else {
        assert(orderly(empty_book()));
    }
}

} // verus!
