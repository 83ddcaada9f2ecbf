//! The funds an order ties up: what is locked when it is placed and what
//! is released when it is cancelled.
use vstd::prelude::*;
use crate::balance::BalanceError;
use crate::book_laws::{
    law_submit_conserves_quantity, law_submit_respects_limit, sum_qty, within_limit,
};
use crate::domain::{Asset, Order, OrderStatus, OrderType, Side, Trade};
use crate::engine::{BookState, fill, price_of, priced, submit_spec};
use crate::settlement::OrderUpdate;

verus! {

/// A buy order locks its remaining quantity times its limit price in the
/// quote asset; a sell order locks its remaining quantity of the base
/// asset. A buy order without a limit price cannot be funded.
pub open spec fn reserve_spec(o: Order) -> Result<(Asset, u64), BalanceError> {
    match o.side {
        Side::Buy => match o.limit_price {
            Some(p) => Ok((o.market.quote, (o.remaining_qty * p) as u64)),
            None => Err(BalanceError::MarketBuyNotSupported),
        },
        Side::Sell => Ok((o.market.base, o.remaining_qty)),
    }
}

/// The reservation of a buy order does not overflow.
pub open spec fn reserve_fits(o: Order) -> bool {
    o.side == Side::Buy ==> match o.limit_price {
        Some(p) => o.remaining_qty * p <= u64::MAX,
        None => true,
    }
}

/// What has to be locked before `order` may be placed.
pub fn funds_to_reserve(order: &Order) -> (r: Result<(Asset, u64), BalanceError>)
    requires
        reserve_fits(*order),
    ensures
        r == reserve_spec(*order),
{
    match order.side {
        Side::Buy => {
            let price = match order.limit_price {
                Some(p) => p,
                None => return Err(BalanceError::MarketBuyNotSupported),
            };
            Ok((order.market.quote, order.remaining_qty * price))
        },
        Side::Sell => Ok((order.market.base, order.remaining_qty)),
    }
}

/// What a cancelled resting order gives back: the reservation of what is
/// left of it.
pub fn funds_to_release(order: &Order) -> (r: (Asset, u64))
    requires
        order.side == Side::Buy ==> order.limit_price is Some,
        reserve_fits(*order),
    ensures
        Ok::<(Asset, u64), BalanceError>(r) == reserve_spec(*order),
{
    match order.side {
        Side::Buy => {
            let price = match order.limit_price {
                Some(p) => p,
                None => 0,
            };
            (order.market.quote, order.remaining_qty * price)
        },
        Side::Sell => (order.market.base, order.remaining_qty),
    }
}

/// A cancelled order, and the update that records its cancellation.
pub fn cancellation(order: Order) -> (r: (Order, OrderUpdate))
    ensures
        r.0 == (Order { status: OrderStatus::Cancelled, ..order }),
        r.1 == (OrderUpdate {
            order_id: order.id,
            remaining_qty: order.remaining_qty,
            status: OrderStatus::Cancelled,
        }),
{
    let mut order = order;
    order.status = OrderStatus::Cancelled;
    let update = OrderUpdate {
        order_id: order.id,
        remaining_qty: order.remaining_qty,
        status: order.status,
    };
    (order, update)
}

/// What a sequence of trades is worth in the quote asset.
pub open spec fn quote_total(ts: Seq<Trade>) -> int
    decreases ts.len(),
{
    if ts.len() == 0 {
        0
    } else {
        quote_total(ts.drop_last()) + ts.last().quantity * ts.last().price
    }
}

proof fn lemma_quote_total_bound(ts: Seq<Trade>, limit: u64)
    requires
        forall|i: int| 0 <= i < ts.len() ==> (#[trigger] ts[i]).price <= limit,
    ensures
        quote_total(ts) <= limit * sum_qty(ts),
    decreases ts.len(),
{
    if ts.len() > 0 {
        let t = ts.last();
        assert forall|i: int| 0 <= i < ts.drop_last().len() implies (
        #[trigger] ts.drop_last()[i]).price <= limit by {
            assert(ts.drop_last()[i] == ts[i]);
        }
        lemma_quote_total_bound(ts.drop_last(), limit);
        assert(t.price <= limit);
        assert(t.quantity * t.price <= t.quantity * limit) by (nonlinear_arith)
            requires
                t.price <= limit,
        ;
        assert(limit * sum_qty(ts) == limit * sum_qty(ts.drop_last()) + limit * t.quantity)
            by (nonlinear_arith)
            requires
                sum_qty(ts) == sum_qty(ts.drop_last()) + t.quantity,
        ;
        assert(t.quantity * limit == limit * t.quantity) by (nonlinear_arith);
    } else {
        assert(limit * sum_qty(ts) == 0) by (nonlinear_arith)
            requires
                sum_qty(ts) == 0,
        ;
    }
}

/// Law: what placing an order reserves covers what settling its trades
/// takes from the reservation: a limit buy pays at most its limit price
/// per unit, and a sell delivers at most its open quantity.
pub proof fn law_reservation_covers_settlement(b: BookState, taker: Order)
    requires
        priced(b),
        reserve_fits(taker),
        taker.side == Side::Buy ==> taker.order_type == OrderType::Limit
            && taker.limit_price is Some,
    ensures
        reserve_spec(taker) matches Ok((asset, amount)) && {
            let trades = submit_spec(b, taker).trades;
            &&& taker.side == Side::Buy ==> asset == taker.market.quote && quote_total(trades)
                <= amount
            &&& taker.side == Side::Sell ==> asset == taker.market.base && sum_qty(trades)
                <= amount
        },
{
    let trades = submit_spec(b, taker).trades;
    law_submit_conserves_quantity(b, taker);
    law_submit_respects_limit(b, taker);
    if taker.side == Side::Buy {
        let limit = price_of(taker);
        assert forall|i: int| 0 <= i < trades.len() implies (#[trigger] trades[i]).price
            <= limit by {
            assert(within_limit(taker, trades[i].price));
        }
        lemma_quote_total_bound(trades, limit);
        let rem = taker.remaining_qty;
        assert(limit * sum_qty(trades) <= limit * rem) by (nonlinear_arith)
            requires
                sum_qty(trades) <= rem,
        ;
        assert(rem * limit == limit * rem) by (nonlinear_arith);
    }
}

/// Law: an order's reservation shrinks exactly by what trades of it. Once
/// `q` of an order has traded, what releasing it gives back, in the same
/// asset, is what it reserved less `q` of the base asset for a sell, or
/// less `q` times its limit price of the quote asset for a buy; so a
/// cancelled order releases only the reservation of its open quantity,
/// and a filled one releases nothing.
pub proof fn law_release_after_fill(o: Order, q: u64)
    requires
        q <= o.remaining_qty,
        o.side == Side::Buy ==> o.limit_price is Some,
        reserve_fits(o),
    ensures
        reserve_spec(o) matches Ok((a0, r0)) && reserve_spec(fill(o, q)) matches Ok((a1, r1))
            && {
            &&& a1 == a0
            &&& o.side == Side::Sell ==> a0 == o.market.base && r0 == o.remaining_qty && r1 == r0
                - q
            &&& o.side == Side::Buy ==> a0 == o.market.quote && r0 == o.remaining_qty * price_of(
                o,
            ) && r1 == r0 - q * price_of(o)
        },
        q == o.remaining_qty ==> (reserve_spec(fill(o, q)) matches Ok((_, r)) && r == 0),
{
    if o.side == Side::Buy {
        let p = price_of(o);
        let rem = o.remaining_qty;
        assert((rem - q) * p == rem * p - q * p) by (nonlinear_arith);
        assert(0 <= (rem - q) * p <= rem * p) by (nonlinear_arith)
            requires
                q <= rem,
        ;
        assert(0 * p == 0) by (nonlinear_arith);
    }
}

} // verus!
