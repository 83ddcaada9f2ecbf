//! The order book of one market and its matching engine.
//!
//! Each side of the book is one queue of resting limit orders, kept in
//! price-time priority: bids from the highest price down, asks from the
//! lowest price up, and within one price in order of arrival. The queue is
//! the concatenation, best price first, of the per-price FIFO queues.
use vstd::prelude::*;
use std::collections::VecDeque;
use crate::book_laws::{
    law_cancel_keeps_book_orderly, law_submit_keeps_book_orderly, law_submit_keeps_book_uncrossed,
    lemma_pop_best_orderly, lemma_rest_orderly, orderly, uncrossed,
};
use crate::domain::{
    MatchResult, Order, OrderBookLevel, OrderBookSnapshot, OrderId, OrderStatus, OrderType, Side,
    Trade,
};

verus! {

/// The abstract state of a book.
pub struct BookState {
    pub bids: Seq<Order>,
    pub asks: Seq<Order>,
    pub next_trade_id: nat,
}

/// What a submission produces, in the abstract.
pub struct MatchOutcome {
    pub book: BookState,
    pub trades: Seq<Trade>,
    pub new_orders: Seq<Order>,
    pub updated_orders: Seq<Order>,
}

/// The book of one market. Its type invariant keeps it in good order at
/// all times: priced limit orders only, each on its own side, each side
/// best price first.
pub struct OrderBook {
    bids: VecDeque<Order>,
    asks: VecDeque<Order>,
    next_trade_id: u64,
}

impl View for OrderBook {
    type V = BookState;

    closed spec fn view(&self) -> BookState {
        BookState { bids: self.bids@, asks: self.asks@, next_trade_id: self.next_trade_id as nat }
    }
}

impl OrderBook {
    #[verifier::type_invariant]
    closed spec fn well_ordered(self) -> bool {
        orderly(self@)
    }
}

// ---------------------------------------------------------------------
// Specification of the book
// ---------------------------------------------------------------------

/// The limit price of a resting order (0 stands for a missing one).
pub open spec fn price_of(o: Order) -> u64 {
    match o.limit_price {
        Some(p) => p,
        None => 0,
    }
}

/// An order that may rest on the book: a limit order with its price.
pub open spec fn is_priced(o: Order) -> bool {
    o.order_type == OrderType::Limit && o.limit_price is Some
}

pub open spec fn all_priced(s: Seq<Order>) -> bool {
    forall|i: int| 0 <= i < s.len() ==> is_priced(#[trigger] s[i])
}

/// Every resting order is a priced limit order.
pub open spec fn priced(b: BookState) -> bool {
    all_priced(b.bids) && all_priced(b.asks)
}

pub open spec fn opposite(side: Side) -> Side {
    match side {
        Side::Buy => Side::Sell,
        Side::Sell => Side::Buy,
    }
}

/// The queue on which orders of `side` rest.
pub open spec fn book_side(b: BookState, side: Side) -> Seq<Order> {
    match side {
        Side::Buy => b.bids,
        Side::Sell => b.asks,
    }
}

pub open spec fn with_side(b: BookState, side: Side, s: Seq<Order>) -> BookState {
    match side {
        Side::Buy => BookState { bids: s, ..b },
        Side::Sell => BookState { asks: s, ..b },
    }
}

/// Whether an order of `side` at price `p` goes before a resting order at
/// price `q`: strictly better prices always do; at the same price only an
/// order that goes to the front of its level does.
pub open spec fn goes_before(side: Side, front: bool, q: u64, p: u64) -> bool {
    match side {
        Side::Buy => if front { q <= p } else { q < p },
        Side::Sell => if front { q >= p } else { q > p },
    }
}

/// The first index at or after `i` before which the order goes.
pub open spec fn insert_pos_from(s: Seq<Order>, side: Side, front: bool, p: u64, i: int) -> int
    decreases s.len() - i,
{
    if i >= s.len() {
        s.len() as int
    } else if goes_before(side, front, price_of(s[i]), p) {
        i
    } else {
        insert_pos_from(s, side, front, p, i + 1)
    }
}

pub open spec fn insert_pos(s: Seq<Order>, side: Side, front: bool, p: u64) -> int {
    insert_pos_from(s, side, front, p, 0)
}

/// The book with `o` placed on its own side: at the back of its price
/// level, or at the front of it when `front` holds.
pub open spec fn rest(b: BookState, o: Order, front: bool) -> BookState {
    let s = book_side(b, o.side);
    with_side(b, o.side, s.insert(insert_pos(s, o.side, front, price_of(o)), o))
}

pub open spec fn best_of(s: Seq<Order>) -> Option<u64> {
    if s.len() > 0 {
        s[0].limit_price
    } else {
        None
    }
}

pub open spec fn opposite_best(b: BookState, side: Side) -> Option<u64> {
    best_of(book_side(b, opposite(side)))
}

/// Whether an incoming order crosses the best opposite price.
pub open spec fn can_match_spec(b: BookState, o: Order) -> bool {
    match o.order_type {
        OrderType::Market => opposite_best(b, o.side) is Some,
        OrderType::Limit => match (o.limit_price, opposite_best(b, o.side)) {
            (Some(ip), Some(bp)) => match o.side {
                Side::Buy => ip >= bp,
                Side::Sell => ip <= bp,
            },
            _ => false,
        },
    }
}

/// The book without the best order opposite to `side`.
pub open spec fn pop_best(b: BookState, side: Side) -> BookState {
    let s = book_side(b, opposite(side));
    with_side(b, opposite(side), s.subrange(1, s.len() as int))
}

pub open spec fn status_for(original: u64, remaining: u64) -> OrderStatus {
    if remaining == 0 {
        OrderStatus::Filled
    } else if original == remaining {
        OrderStatus::Open
    } else {
        OrderStatus::PartiallyFilled
    }
}

/// The order after `q` of it has traded.
pub open spec fn fill(o: Order, q: u64) -> Order {
    Order {
        remaining_qty: (o.remaining_qty - q) as u64,
        status: status_for(o.original_qty, (o.remaining_qty - q) as u64),
        ..o
    }
}

pub open spec fn min_u64(a: u64, b: u64) -> u64 {
    if a <= b {
        a
    } else {
        b
    }
}

/// The trade of `q` between a taker and a maker, at the maker's price.
pub open spec fn trade_for(taker: Order, maker: Order, id: nat, q: u64) -> Trade {
    Trade {
        trade_id: id as u64,
        maker_order_id: maker.id,
        taker_order_id: taker.id,
        maker_user_id: maker.user_id,
        taker_user_id: taker.user_id,
        price: price_of(maker),
        quantity: q,
        market: taker.market,
        buyer_user_id: if taker.side == Side::Buy { taker.user_id } else { maker.user_id },
        seller_user_id: if taker.side == Side::Buy { maker.user_id } else { taker.user_id },
    }
}

/// One matching step of `taker` against the best opposite order: the book
/// after it, the taker after it, the trade and the maker after it.
pub open spec fn match_step(b: BookState, taker: Order) -> (BookState, Order, Trade, Order) {
    let maker = book_side(b, opposite(taker.side))[0];
    let q = min_u64(maker.remaining_qty, taker.remaining_qty);
    let taker1 = fill(taker, q);
    let maker1 = fill(maker, q);
    let b1 = pop_best(b, taker.side);
    let b2 = BookState { next_trade_id: b1.next_trade_id + 1, ..b1 };
    let b3 = if maker1.remaining_qty > 0 {
        rest(b2, maker1, true)
    } else {
        b2
    };
    (b3, taker1, trade_for(taker1, maker1, b.next_trade_id, q), maker1)
}

pub open spec fn book_size(b: BookState) -> nat {
    b.bids.len() + b.asks.len()
}

/// Matching `taker` for as long as it has quantity left and crosses the
/// book; the trades and the filled makers are appended to the given ones.
pub open spec fn match_loop(b: BookState, taker: Order, trades: Seq<Trade>, makers: Seq<Order>) -> (
    BookState,
    Order,
    Seq<Trade>,
    Seq<Order>,
)
    decreases book_size(b) + taker.remaining_qty,
{
    if taker.remaining_qty > 0 && can_match_spec(b, taker) {
        let (b1, taker1, t, maker1) = match_step(b, taker);
        proof {
            lemma_match_step_decreases(b, taker);
        }
        match_loop(b1, taker1, trades.push(t), makers.push(maker1))
    } else {
        (b, taker, trades, makers)
    }
}

/// A submission: match, then rest what is left of a limit order; what is
/// left of a market order is dropped.
pub open spec fn submit_spec(b: BookState, taker: Order) -> MatchOutcome {
    let (b1, t1, trades, makers) = match_loop(b, taker, seq![], seq![]);
    if t1.remaining_qty > 0 && t1.order_type == OrderType::Limit {
        MatchOutcome {
            book: rest(b1, t1, false),
            trades,
            new_orders: seq![t1],
            updated_orders: makers,
        }
    } else {
        MatchOutcome { book: b1, trades, new_orders: seq![], updated_orders: makers }
    }
}

/// The first index at or after `i` of an order with the given id, or the
/// length of `s` when there is none.
pub open spec fn find_from(s: Seq<Order>, id: OrderId, i: int) -> int
    decreases s.len() - i,
{
    if i >= s.len() {
        s.len() as int
    } else if s[i].id == id {
        i
    } else {
        find_from(s, id, i + 1)
    }
}

pub open spec fn find(s: Seq<Order>, id: OrderId) -> int {
    find_from(s, id, 0)
}

/// Cancelling takes the first resting order with the id off the book,
/// looking among the bids first.
pub open spec fn cancel_spec(b: BookState, id: OrderId) -> (BookState, Option<Order>) {
    let i = find(b.bids, id);
    let j = find(b.asks, id);
    if i < b.bids.len() {
        (BookState { bids: b.bids.remove(i), ..b }, Some(b.bids[i]))
    } else if j < b.asks.len() {
        (BookState { asks: b.asks.remove(j), ..b }, Some(b.asks[j]))
    } else {
        (b, None)
    }
}

pub open spec fn sat_add(a: u64, b: u64) -> u64 {
    if a + b > u64::MAX {
        u64::MAX
    } else {
        (a + b) as u64
    }
}

/// The depth of one side: one level per run of equal prices, carrying the
/// summed open quantity (capped at `u64::MAX`).
pub open spec fn levels(s: Seq<Order>) -> Seq<OrderBookLevel>
    decreases s.len(),
{
    if s.len() == 0 {
        seq![]
    } else {
        let init = levels(s.drop_last());
        let o = s.last();
        if init.len() > 0 && init.last().price == price_of(o) {
            init.update(
                init.len() - 1,
                OrderBookLevel {
                    price: price_of(o),
                    quantity: sat_add(init.last().quantity, o.remaining_qty),
                },
            )
        } else {
            init.push(OrderBookLevel { price: price_of(o), quantity: o.remaining_qty })
        }
    }
}

pub proof fn lemma_match_step_decreases(b: BookState, taker: Order)
    requires
        taker.remaining_qty > 0,
        can_match_spec(b, taker),
    ensures
        book_size(match_step(b, taker).0) + match_step(b, taker).1.remaining_qty < book_size(b)
            + taker.remaining_qty,
        book_side(b, opposite(taker.side)).len() > 0,
{
    let s = book_side(b, opposite(taker.side));
    assert(s.len() > 0);
    let maker = s[0];
    let q = min_u64(maker.remaining_qty, taker.remaining_qty);
    let b1 = pop_best(b, taker.side);
    assert(book_size(b1) + 1 == book_size(b));
    let b2 = BookState { next_trade_id: b1.next_trade_id + 1, ..b1 };
    if fill(maker, q).remaining_qty > 0 {
        let m1 = fill(maker, q);
        let s2 = book_side(b2, m1.side);
        lemma_insert_pos_bounds(s2, m1.side, true, price_of(m1), 0);
        let r = rest(b2, m1, true);
        assert(book_size(r) == book_size(b2) + 1);
    }
}

pub proof fn lemma_insert_pos_bounds(s: Seq<Order>, side: Side, front: bool, p: u64, i: int)
    requires
        0 <= i <= s.len(),
    ensures
        i <= insert_pos_from(s, side, front, p, i) <= s.len(),
    decreases s.len() - i,
{
    if i < s.len() && !goes_before(side, front, price_of(s[i]), p) {
        lemma_insert_pos_bounds(s, side, front, p, i + 1);
    }
}

/// Resting a priced order keeps every resting order priced; so does
/// taking the best order off a side.
pub proof fn lemma_rest_priced(b: BookState, o: Order, front: bool)
    requires
        priced(b),
        is_priced(o),
    ensures
        priced(rest(b, o, front)),
        book_size(rest(b, o, front)) == book_size(b) + 1,
{
    let s = book_side(b, o.side);
    let k = insert_pos(s, o.side, front, price_of(o));
    lemma_insert_pos_bounds(s, o.side, front, price_of(o), 0);
    let t = s.insert(k, o);
    assert forall|i: int| 0 <= i < t.len() implies is_priced(#[trigger] t[i]) by {
        if i < k {
            assert(t[i] == s[i]);
        } else if i > k {
            assert(t[i] == s[i - 1]);
        }
    }
}

/// Matching never moves the trade counter backwards, and a step that
/// trades moves it forward.
pub proof fn lemma_loop_next_id(b: BookState, taker: Order, trades: Seq<Trade>, makers: Seq<Order>)
    ensures
        match_loop(b, taker, trades, makers).0.next_trade_id >= b.next_trade_id,
        taker.remaining_qty > 0 && can_match_spec(b, taker) ==> match_loop(
            b,
            taker,
            trades,
            makers,
        ).0.next_trade_id >= b.next_trade_id + 1,
    decreases book_size(b) + taker.remaining_qty,
{
    if taker.remaining_qty > 0 && can_match_spec(b, taker) {
        let (b1, taker1, t, maker1) = match_step(b, taker);
        lemma_match_step_decreases(b, taker);
        lemma_loop_next_id(b1, taker1, trades.push(t), makers.push(maker1));
        if maker1.remaining_qty > 0 {
            assert(b1.next_trade_id == b.next_trade_id + 1);
        }
    }
}

// ---------------------------------------------------------------------
// Implementation
// ---------------------------------------------------------------------

fn goes_before_exec(side: Side, front: bool, q: u64, p: u64) -> (r: bool)
    ensures
        r == goes_before(side, front, q, p),
{
    match side {
        Side::Buy => if front { q <= p } else { q < p },
        Side::Sell => if front { q >= p } else { q > p },
    }
}

fn price_exec(o: &Order) -> (p: u64)
    ensures
        p == price_of(*o),
{
    match o.limit_price {
        Some(p) => p,
        None => 0,
    }
}

/// Where in `queue` an order of `side` at `price` is placed.
fn insertion_point(queue: &VecDeque<Order>, side: Side, front: bool, price: u64) -> (k: usize)
    ensures
        k == insert_pos(queue@, side, front, price),
        k <= queue@.len(),
{
    proof {
        lemma_insert_pos_bounds(queue@, side, front, price, 0);
    }
    let n = queue.len();
    let mut i: usize = 0;
    while i < n
        invariant
            n == queue@.len(),
            i <= n,
            insert_pos_from(queue@, side, front, price, i as int) == insert_pos(
                queue@,
                side,
                front,
                price,
            ),
        decreases n - i,
    {
        let q = price_exec(&queue[i]);
        if goes_before_exec(side, front, q, price) {
            return i;
        }
        i = i + 1;
    }
    n
}

/// Where the first order with the given id stands in `queue`.
fn position_of(queue: &VecDeque<Order>, id: OrderId) -> (k: usize)
    ensures
        k == find(queue@, id),
        k <= queue@.len(),
{
    let n = queue.len();
    let mut i: usize = 0;
    while i < n
        invariant
            n == queue@.len(),
            i <= n,
            find_from(queue@, id, i as int) == find(queue@, id),
        decreases n - i,
    {
        if queue[i].id.0 == id.0 {
            return i;
        }
        i = i + 1;
    }
    n
}

/// The aggregated depth of one side.
fn depth(queue: &VecDeque<Order>) -> (r: Vec<OrderBookLevel>)
    ensures
        r@ == levels(queue@),
{
    let n = queue.len();
    let mut out: Vec<OrderBookLevel> = Vec::new();
    let mut i: usize = 0;
    while i < n
        invariant
            n == queue@.len(),
            i <= n,
            out@ == levels(queue@.subrange(0, i as int)),
        decreases n - i,
    {
        let o = queue[i];
        let p = price_exec(&o);
        proof {
            let t = queue@.subrange(0, i + 1);
            assert(t.drop_last() =~= queue@.subrange(0, i as int));
            assert(t.last() == o);
        }
        let m = out.len();
        if m > 0 && out[m - 1].price == p {
            let q = out[m - 1].quantity.saturating_add(o.remaining_qty);
            out.set(m - 1, OrderBookLevel { price: p, quantity: q });
        } else {
            out.push(OrderBookLevel { price: p, quantity: o.remaining_qty });
        }
        i = i + 1;
    }
    assert(queue@.subrange(0, n as int) =~= queue@);
    out
}

impl OrderBook {
    pub fn new() -> (book: Self)
        ensures
            book@ == (BookState { bids: seq![], asks: seq![], next_trade_id: 1 }),
            orderly(book@),
            uncrossed(book@),
    {
        OrderBook { bids: VecDeque::new(), asks: VecDeque::new(), next_trade_id: 1 }
    }

    fn take_next_trade_id(&mut self) -> (id: u64)
        requires
            old(self)@.next_trade_id < u64::MAX,
        ensures
            id == old(self)@.next_trade_id,
            final(self)@ == (BookState { next_trade_id: old(self)@.next_trade_id + 1, ..old(self)@ }),
    {
        proof {
            use_type_invariant(&*self);
        }
        let trade_id = self.next_trade_id;
        self.next_trade_id = self.next_trade_id + 1;
        trade_id
    }

    /// Puts `order` on its own side, at the back or the front of its level.
    fn place(&mut self, order: Order, front: bool)
        requires
            is_priced(order),
        ensures
            final(self)@ == rest(old(self)@, order, front),
    {
        proof {
            use_type_invariant(&*self);
            lemma_rest_orderly(self@, order, front);
        }
        let price = price_exec(&order);
        match order.side {
            Side::Buy => {
                let mut queue = VecDeque::new();
                std::mem::swap(&mut queue, &mut self.bids);
                let k = insertion_point(&queue, Side::Buy, front, price);
                queue.insert(k, order);
                self.bids = queue;
            },
            Side::Sell => {
                let mut queue = VecDeque::new();
                std::mem::swap(&mut queue, &mut self.asks);
                let k = insertion_point(&queue, Side::Sell, front, price);
                queue.insert(k, order);
                self.asks = queue;
            },
        }
    }

    /// Rests a limit order behind the orders already waiting at its price.
    pub fn add_resting_order(&mut self, order: Order)
        requires
            order.order_type == OrderType::Limit,
            order.limit_price is Some,
        ensures
            final(self)@ == rest(old(self)@, order, false),
            orderly(final(self)@),
    {
        proof {
            use_type_invariant(&*self);
            lemma_rest_orderly(self@, order, false);
        }
        self.place(order, false);
    }

    /// The id the next trade will carry.
    pub fn next_trade_id(&self) -> (id: u64)
        ensures
            id == self@.next_trade_id,
    {
        self.next_trade_id
    }

    /// How many bids rest on the book.
    pub fn bid_count(&self) -> (n: usize)
        ensures
            n == self@.bids.len(),
    {
        self.bids.len()
    }

    /// How many asks rest on the book.
    pub fn ask_count(&self) -> (n: usize)
        ensures
            n == self@.asks.len(),
    {
        self.asks.len()
    }

    /// Puts a partly filled maker back at the head of its price level.
    fn reinsert_front(&mut self, order: Order)
        requires
            order.order_type == OrderType::Limit,
            order.limit_price is Some,
        ensures
            final(self)@ == rest(old(self)@, order, true),
    {
        self.place(order, true);
    }

    pub fn best_bid(&self) -> (r: Option<u64>)
        ensures
            r == best_of(self@.bids),
            orderly(self@),
    {
        proof {
            use_type_invariant(self);
        }
        if self.bids.len() > 0 {
            self.bids[0].limit_price
        } else {
            None
        }
    }

    pub fn best_ask(&self) -> (r: Option<u64>)
        ensures
            r == best_of(self@.asks),
            orderly(self@),
    {
        proof {
            use_type_invariant(self);
        }
        if self.asks.len() > 0 {
            self.asks[0].limit_price
        } else {
            None
        }
    }

    /// The best price on the side opposite to `side`.
    pub fn opposite_best_price(&self, side: Side) -> (r: Option<u64>)
        ensures
            r == opposite_best(self@, side),
    {
        match side {
            Side::Buy => self.best_ask(),
            Side::Sell => self.best_bid(),
        }
    }

    pub fn can_match(&self, incoming_order: &Order) -> (r: bool)
        ensures
            r == can_match_spec(self@, *incoming_order),
    {
        match incoming_order.order_type {
            OrderType::Market => {
                return self.opposite_best_price(incoming_order.side).is_some();
            },
            OrderType::Limit => match incoming_order.side {
                Side::Buy => {
                    if let Some(incoming_price) = incoming_order.limit_price {
                        if let Some(best_price) = self.opposite_best_price(Side::Buy) {
                            return incoming_price >= best_price;
                        }
                    }
                },
                Side::Sell => {
                    if let Some(incoming_price) = incoming_order.limit_price {
                        if let Some(best_price) = self.opposite_best_price(Side::Sell) {
                            return incoming_price <= best_price;
                        }
                    }
                },
            },
        }
        false
    }

    fn pop_best_opposite_order(&mut self, incoming_side: Side) -> (r: Option<Order>)
        ensures
            book_side(old(self)@, opposite(incoming_side)).len() > 0 ==> {
                &&& r == Some(book_side(old(self)@, opposite(incoming_side))[0])
                &&& final(self)@ == pop_best(old(self)@, incoming_side)
            },
            book_side(old(self)@, opposite(incoming_side)).len() == 0 ==> {
                &&& r is None
                &&& final(self)@ == old(self)@
            },
    {
        proof {
            use_type_invariant(&*self);
            lemma_pop_best_orderly(self@, incoming_side);
        }
        match incoming_side {
            Side::Buy => {
                let mut queue = VecDeque::new();
                std::mem::swap(&mut queue, &mut self.asks);
                let r = queue.pop_front();
                self.asks = queue;
                r
            },
            Side::Sell => {
                let mut queue = VecDeque::new();
                std::mem::swap(&mut queue, &mut self.bids);
                let r = queue.pop_front();
                self.bids = queue;
                r
            },
        }
    }

    fn execute_one_match(&mut self, taker: &mut Order, maker: &mut Order, next_trade_id: u64) -> (t:
        Trade)
        requires
            old(maker).limit_price is Some,
        ensures
            final(self)@ == old(self)@,
            *final(taker) == fill(
                *old(taker),
                min_u64(old(maker).remaining_qty, old(taker).remaining_qty),
            ),
            *final(maker) == fill(
                *old(maker),
                min_u64(old(maker).remaining_qty, old(taker).remaining_qty),
            ),
            t == trade_for(
                *final(taker),
                *final(maker),
                next_trade_id as nat,
                min_u64(old(maker).remaining_qty, old(taker).remaining_qty),
            ),
    {
        let trade_qty = if maker.remaining_qty <= taker.remaining_qty {
            maker.remaining_qty
        } else {
            taker.remaining_qty
        };
        taker.remaining_qty = taker.remaining_qty - trade_qty;
        maker.remaining_qty = maker.remaining_qty - trade_qty;

        if taker.remaining_qty == 0 {
            taker.status = OrderStatus::Filled;
        } else if taker.original_qty == taker.remaining_qty {
            taker.status = OrderStatus::Open;
        } else {
            taker.status = OrderStatus::PartiallyFilled;
        }

        if maker.remaining_qty == 0 {
            maker.status = OrderStatus::Filled;
        } else if maker.original_qty == maker.remaining_qty {
            maker.status = OrderStatus::Open;
        } else {
            maker.status = OrderStatus::PartiallyFilled;
        }

        let trade_price = match maker.limit_price {
            Some(p) => p,
            None => 0,
        };
        let (buyer, seller) = match taker.side {
            Side::Buy => (taker.user_id, maker.user_id),
            Side::Sell => (maker.user_id, taker.user_id),
        };

        Trade {
            trade_id: next_trade_id,
            maker_order_id: maker.id,
            taker_order_id: taker.id,
            maker_user_id: maker.user_id,
            taker_user_id: taker.user_id,
            price: trade_price,
            quantity: trade_qty,
            market: taker.market,
            buyer_user_id: buyer,
            seller_user_id: seller,
        }
    }

    /// Takes the order with the given id off the book and returns it.
    pub fn cancel_order(&mut self, order_id: OrderId) -> (r: Option<Order>)
        ensures
            (final(self)@, r) == cancel_spec(old(self)@, order_id),
            orderly(final(self)@),
            uncrossed(old(self)@) ==> uncrossed(final(self)@),
    {
        proof {
            use_type_invariant(&*self);
            law_cancel_keeps_book_orderly(self@, order_id);
        }
        let i = position_of(&self.bids, order_id);
        if i < self.bids.len() {
            let mut queue = VecDeque::new();
            std::mem::swap(&mut queue, &mut self.bids);
            let r = queue.remove(i);
            self.bids = queue;
            return r;
        }
        let j = position_of(&self.asks, order_id);
        if j < self.asks.len() {
            let mut queue = VecDeque::new();
            std::mem::swap(&mut queue, &mut self.asks);
            let r = queue.remove(j);
            self.asks = queue;
            return r;
        }
        None
    }

    /// The depth of both sides, best prices first.
    pub fn snapshot(&self) -> (r: OrderBookSnapshot)
        ensures
            r.bids@ == levels(self@.bids),
            r.asks@ == levels(self@.asks),
            orderly(self@),
    {
        proof {
            use_type_invariant(self);
        }
        OrderBookSnapshot { bids: depth(&self.bids), asks: depth(&self.asks) }
    }

    /// Matches `taker` against the book in price-time priority, each trade
    /// at the resting order's price; what is left of a limit order then
    /// rests on the book, what is left of a market order is cancelled.
    pub fn submit_order(&mut self, taker: Order) -> (result: MatchResult)
        requires
            taker.order_type == OrderType::Limit && taker.remaining_qty > 0
                ==> taker.limit_price is Some,
            submit_spec(old(self)@, taker).book.next_trade_id <= u64::MAX,
        ensures
            final(self)@ == submit_spec(old(self)@, taker).book,
            result.trades@ == submit_spec(old(self)@, taker).trades,
            result.new_orders@ == submit_spec(old(self)@, taker).new_orders,
            result.updated_orders@ == submit_spec(old(self)@, taker).updated_orders,
            orderly(final(self)@),
            uncrossed(old(self)@) ==> uncrossed(final(self)@),
    {
        proof {
            use_type_invariant(&*self);
            law_submit_keeps_book_orderly(self@, taker);
            if uncrossed(self@) {
                law_submit_keeps_book_uncrossed(self@, taker);
            }
        }
        let ghost b0 = self@;
        let ghost out = match_loop(b0, taker, seq![], seq![]);
        let mut taker = taker;
        let mut trades: Vec<Trade> = Vec::new();
        let mut makers: Vec<Order> = Vec::new();
        proof {
            lemma_loop_next_id(b0, taker, seq![], seq![]);
            if out.1.remaining_qty > 0 && out.1.order_type == OrderType::Limit {
                assert(out.0.next_trade_id == submit_spec(b0, taker).book.next_trade_id);
            }
        }

        while taker.remaining_qty > 0 && self.can_match(&taker)
            invariant
                taker.order_type == OrderType::Limit && taker.remaining_qty > 0
                    ==> taker.limit_price is Some,
                match_loop(self@, taker, trades@, makers@) == out,
                out.0.next_trade_id <= u64::MAX,
            decreases book_size(self@) + taker.remaining_qty,
        {
            proof {
                use_type_invariant(&*self);
                lemma_match_step_decreases(self@, taker);
                lemma_loop_next_id(self@, taker, trades@, makers@);
            }
            let ghost before = self@;
            let ghost step = match_step(before, taker);
            let popped = self.pop_best_opposite_order(taker.side);
            let mut maker = match popped {
                Some(m) => m,
                None => {
                    assert(false);
                    taker
                },
            };
            proof {
                assert(is_priced(book_side(before, opposite(taker.side))[0]));
            }
            let next_trade_id = self.take_next_trade_id();
            let trade = self.execute_one_match(&mut taker, &mut maker, next_trade_id);
            trades.push(trade);
            makers.push(maker);
            if maker.remaining_qty > 0 {
                self.reinsert_front(maker);
            }
            assert(self@ == step.0);
            assert(taker == step.1);
            assert(trade == step.2);
            assert(maker == step.3);
        }

        let mut new_orders: Vec<Order> = Vec::new();
        if taker.remaining_qty > 0 {
            match taker.order_type {
                OrderType::Limit => {
                    new_orders.push(taker);
                    self.add_resting_order(taker);
                },
                OrderType::Market => {
                    taker.status = OrderStatus::Cancelled;
                },
            }
        }
        MatchResult { trades, new_orders, updated_orders: makers }
    }
}

} // verus!
