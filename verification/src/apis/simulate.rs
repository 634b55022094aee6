use vstd::prelude::*;
use crate::decimal::{pow10, Dec, Decimal, Rounding, MAX_SCALE};
use crate::exchange::execution::{orders_of, valued_view, ExecutionError};
use crate::exchange::valued_bundle::{fills_view, orders_view, Valued};
use crate::exchange::{Exchange, ExchangeView};
use crate::market::Markets;
use crate::order::{Fill, Order, OrderInfo, OrderView, Side};
use crate::wallet::{Balances, Wallet};

verus! {

/// A layer that simulates never trades for real.
pub const LIVE_TRADING_ENABLED: bool = false;

/// The number of fractional digits that a simulated price is rounded to.
pub const PRICE_DIGITS: u32 = 8;

/// The price at which a simulated order is filled: the current price
/// raised by the fee for a buy, lowered by it for a sell, rounded to eight
/// fractional digits. `None` where the fee or the product overflows.
pub open spec fn fill_price(price: Dec, side: Side, fee: Dec) -> Option<Dec> {
    let factor = if side == Side::Buy {
        Dec::one().add(fee)
    } else {
        Dec::one().sub(fee)
    };
    match factor {
        Some(f) => match price.mul(f) {
            Some(p) => Some(p.round(PRICE_DIGITS as nat, Rounding::HalfEven)),
            None => None,
        },
        None => None,
    }
}

/// A buy and a sale at the same current price differ by twice the fee on
/// that price: who buys and sells again at an unchanged price loses the
/// fee both ways and nothing else. In units of `10^-56`, and wherever the
/// fee factor, the product and the rounding to eight digits changed no number.
pub proof fn lemma_fee_round_trip(price: Dec, fee: Dec)
    requires
        Dec::one().add(fee).is_some(),
        Dec::one().sub(fee).is_some(),
        Dec::one().sums_to(fee, Dec::one().add(fee).unwrap()),
        Dec::one().sub(fee).unwrap().sums_to(fee, Dec::one()),
        price.mul(Dec::one().add(fee).unwrap()).is_some(),
        price.mul(Dec::one().sub(fee).unwrap()).is_some(),
        price.multiplies_to(
            Dec::one().add(fee).unwrap(),
            price.mul(Dec::one().add(fee).unwrap()).unwrap(),
        ),
        price.multiplies_to(
            Dec::one().sub(fee).unwrap(),
            price.mul(Dec::one().sub(fee).unwrap()).unwrap(),
        ),
        fill_price(price, Side::Buy, fee).unwrap().same(
            price.mul(Dec::one().add(fee).unwrap()).unwrap(),
        ),
        fill_price(price, Side::Sell, fee).unwrap().same(
            price.mul(Dec::one().sub(fee).unwrap()).unwrap(),
        ),
    ensures
        fill_price(price, Side::Buy, fee).is_some(),
        fill_price(price, Side::Sell, fee).is_some(),
        (fill_price(price, Side::Buy, fee).unwrap().units() - fill_price(
            price,
            Side::Sell,
            fee,
        ).unwrap().units()) * pow10(MAX_SCALE as nat) == 2 * (price.units() * fee.units()),
{
    let up = Dec::one().add(fee).unwrap();
    let down = Dec::one().sub(fee).unwrap();
    let buy = fill_price(price, Side::Buy, fee).unwrap();
    let sell = fill_price(price, Side::Sell, fee).unwrap();
    let t = pow10(MAX_SCALE as nat);
    let p = price.units();
    let f = fee.units();
    assert(buy.units() * t == p * up.units());
    assert(sell.units() * t == p * down.units());
    assert((buy.units() - sell.units()) * t == 2 * (p * f)) by (nonlinear_arith)
        requires
            buy.units() * t == p * up.units(),
            sell.units() * t == p * down.units(),
            up.units() - down.units() == 2 * f,
    ;
}

/// The fill of a simulated order: all of its size, at its fill price.
pub open spec fn simulated_fill(order: OrderView, fee: Dec) -> Option<Fill> {
    match fill_price(order.current_price, order.side, fee) {
        Some(price) => Some(
            Fill {
                order_id: order.order_id,
                market: order.market,
                size: order.size,
                price,
                time: order.time,
                side: order.side,
            },
        ),
        None => None,
    }
}

/// The state after a round of orders was issued and filled by simulation.
pub open spec fn simulated_round(state: ExchangeView, orders: Seq<Valued>, actual: Seq<OrderView>, fee: Dec) -> Result<
    ExchangeView,
    ExecutionError,
> {
    if exists|i: int| 0 <= i < actual.len() && simulated_fill(#[trigger] actual[i], fee).is_none() {
        Err(ExecutionError::Overflow)
    } else {
        state.settle(
            orders,
            actual,
            Seq::new(actual.len(), |i: int| simulated_fill(actual[i], fee).unwrap()),
        )
    }
}

/// A layer that does not send orders to a venue but fills them itself, at
/// the current price and for a fee. It holds the wallet to start from.
pub struct Simulate {
    wallet: Wallet,
}

impl Simulate {
    /// A simulation that starts from `wallet`.
    pub fn new(wallet: Wallet) -> (r: Simulate)
        ensures
            r.start_wallet() == wallet@,
    {
        Simulate { wallet }
    }

    /// The content of the wallet that the simulation starts from.
    pub closed spec fn start_wallet(&self) -> Balances {
        self.wallet@
    }

    /// Fills `order` completely at its current price, worsened by `fee`. `None` where the price overflows.
    pub fn place_order(order: &Order, fee: Decimal) -> (r: Option<OrderInfo>)
        ensures
            r.is_some() == simulated_fill(order@, fee@).is_some(),
            r matches Some(info) ==> Some(info@) == simulated_fill(order@, fee@),
    {
        let factor = if order.side == Side::Buy {
            Decimal::one().checked_add(fee)
        } else {
            Decimal::one().checked_sub(fee)
        };
        let price = match factor {
            Some(f) => match order.current_price.checked_mul(f) {
                Some(p) => Some(p.round_dp(PRICE_DIGITS)),
                None => None,
            },
            None => None,
        };
        match price {
            Some(price) => Some(
                OrderInfo {
                    order_id: order.order_id,
                    size: order.size,
                    price,
                    time: order.time,
                    side: order.side,
                    market: order.market.clone(),
                },
            ),
            None => None,
        }
    }

    /// Hands the simulated wallet to a wallet that was never filled; a wallet that holds entries stays as it is.
    pub fn update_wallet(&self, wallet: &mut Wallet)
        ensures
            final(wallet)@ == if old(wallet)@.total.len() == 0 {
                self.start_wallet()
            } else {
                old(wallet)@
            },
    {
        if wallet.is_fresh() {
            *wallet = self.wallet.duplicate();
        }
    }

    /// Whether the markets are to be fetched from the layer below: only where none are known yet.
    pub fn delegates_markets(markets: &Markets) -> (r: bool)
        ensures
            r == (markets@.len() == 0),
    {
        markets.is_fresh()
    }

    /// Runs one round of orders on the exchange: the orders of the
    /// positions are made, filled by simulation and settled. On an error nothing changes.
    pub fn execute(exchange: &mut Exchange, fee: Decimal) -> (r: Result<(), ExecutionError>)
        ensures
            match old(exchange)@.net_order() {
                Err(e) => r == Err::<(), ExecutionError>(e) && final(exchange)@ == old(exchange)@,
                Ok(net) => exists|actual: Seq<OrderView>|
                    net.ordered_as(actual) && #[trigger] simulated_round(
                        old(exchange)@,
                        orders_of(old(exchange)@.positions).unwrap(),
                        actual,
                        fee@,
                    ) == (match r {
                        Ok(_) => Ok::<ExchangeView, ExecutionError>(final(exchange)@),
                        Err(e) => Err::<ExchangeView, ExecutionError>(e),
                    }) && (r.is_err() ==> final(exchange)@ == old(exchange)@),
            },
    {
        let (orders, actual) = match exchange.pending_orders() {
            Ok(pending) => pending,
            Err(e) => {
                return Err(e);
            },
        };
        let ghost net = exchange@.net_order().unwrap();
        let ghost acts = orders_view(actual@);
        let mut fills: Vec<OrderInfo> = Vec::new();
        let mut i: usize = 0;
        while i < actual.len()
            invariant
                i <= actual@.len(),
                fills@.len() == i,
                exchange@ == old(exchange)@,
                old(exchange)@.net_order() == Ok::<Valued, ExecutionError>(net),
                Ok::<Seq<Valued>, ExecutionError>(valued_view(orders@)) == orders_of(
                    old(exchange)@.positions,
                ),
                acts == orders_view(actual@),
                net.ordered_as(acts),
                forall|j: int|
                    0 <= j < i ==> Some((#[trigger] fills@[j])@) == simulated_fill(acts[j], fee@),
            decreases actual@.len() - i,
        {
            assert(acts[i as int] == actual@[i as int]@);
            match Simulate::place_order(&actual[i], fee) {
                Some(fill) => {
                    fills.push(fill);
                },
                None => {
                    assert(simulated_fill(acts[i as int], fee@).is_none());
                    assert(simulated_round(
                        old(exchange)@,
                        orders_of(old(exchange)@.positions).unwrap(),
                        acts,
                        fee@,
                    ) == Err::<ExchangeView, ExecutionError>(ExecutionError::Overflow));
                    return Err(ExecutionError::Overflow);
                },
            }
            i = i + 1;
        }
        proof {
            assert forall|j: int| 0 <= j < acts.len() implies simulated_fill(
                #[trigger] acts[j],
                fee@,
            ).is_some() by {
                assert(Some(fills@[j]@) == simulated_fill(acts[j], fee@));
            }
            assert(fills_view(fills@) =~= Seq::new(
                acts.len(),
                |i: int| simulated_fill(acts[i], fee@).unwrap(),
            ));
        }
        let r = exchange.settle(&orders, &actual, &fills);
        proof {
            assert(simulated_round(
                old(exchange)@,
                orders_of(old(exchange)@.positions).unwrap(),
                acts,
                fee@,
            ) == old(exchange)@.settle(valued_view(orders@), acts, fills_view(fills@)));
        }
        r
    }
}

} // verus!
