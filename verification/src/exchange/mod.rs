pub mod bundle;
pub mod candles;
pub mod execution;
pub mod position;
pub mod valuation;
pub mod valued_bundle;

use vstd::prelude::*;
use crate::asset::Asset;
use crate::candle::{entries_view, Bar, Candle, CandleEntry, CandleKey, Slot};
use crate::decimal::{Dec, Decimal};
use crate::exchange::bundle::{zeroed, Entries};
use crate::exchange::candles::{all_popped, appended, empty_queues, front_closes, CandleQueues, Queue, Queues};
use crate::exchange::execution::{adjust, adjust_orders, apply, apply_is_exact, apply_results, booking_is_exact, coalesce, coalesce_orders, kept, lemma_gain_is_change_of_worth, lemma_kept_keeps_worth, lemma_wallet_pays_gain, orders_of, position_orders, retain_valued, settle_wallet, settled, shorter, valued_view, views, worth_units, ExecutionError};
use crate::exchange::position::{Position, PositionError, PositionView};
use crate::exchange::valued_bundle::{fills_view, orders_view, BundleError, Valued, ValuedBundle};
use crate::order::{Fill, Order, OrderInfo, OrderView};
use crate::ledger::{distinct_keys, has_key, lookup, upsert, without};
use crate::market::{has_market, market_of, round_to_increment, MarketInfo, MarketRules, Markets, Symbol, SymbolId};
use crate::time::{Duration, Time};
use crate::wallet::{Balances, Wallet};

verus! {

/// Why the exchange could not get ready to trade.
#[derive(Debug, Clone, Copy, PartialEq, Eq, Structural)]
pub enum PrepareError {
    /// The wallet did not free what an order needs.
    InsufficientAssets,
    /// There is no candle or no price for the symbol.
    MarketClosed,
}

impl PrepareError {
    /// The message of the error.
    pub fn to_string(&self) -> (r: String)
        ensures
            r@ == match self {
                PrepareError::InsufficientAssets => "Inufficient free assets available."@,
                PrepareError::MarketClosed => "Market closed."@,
            },
    {
        match self {
            PrepareError::InsufficientAssets => "Inufficient free assets available.".to_owned(),
            PrepareError::MarketClosed => "Market closed.".to_owned(),
        }
    }
}

/// What the loop does next.
#[derive(Debug, Clone, Copy, PartialEq, Eq, Structural)]
pub enum Step {
    /// The candle of the current step is due: update, evaluate, execute, advance.
    Trade,
    /// The candle of the current step lies ahead: sleep that long, then ask again.
    Wait(Duration),
}

/// What the fetching of candles does after a round of requests.
#[derive(Debug, Clone, Copy, PartialEq, Eq, Structural)]
pub enum Fetch {
    /// Every watched symbol has its candle.
    Done,
    /// The time for this step is used up: go on with what is there.
    GiveUp,
    /// Sleep three seconds, then ask again for what is missing.
    Retry,
}

/// How long the fetching of candles sleeps before it asks again, in milliseconds.
pub const RETRY_MILLIS: i64 = 3000;

/// The content of a list of symbols.
pub open spec fn symbols_view(s: Seq<Symbol>) -> Seq<SymbolId> {
    Seq::new(s.len(), |i: int| s[i]@)
}

/// The candle requests for `symbols` at one instant and interval.
pub open spec fn requests_for(symbols: Seq<SymbolId>, time: Time, interval: Duration) -> Seq<Slot> {
    Seq::new(symbols.len(), |i: int| Slot { market: symbols[i], time, interval })
}

/// Every position revalued at new prices.
pub open spec fn all_valued(p: Seq<PositionView>, valuation: Entries, time: Time) -> Seq<PositionView> {
    Seq::new(
        p.len(),
        |i: int|
            PositionView {
                current: Valued { bundle: p[i].current.bundle, valuation, time: Some(time) },
                ..p[i]
            },
    )
}

/// Every position asked to go back to zero.
pub open spec fn all_closing(p: Seq<PositionView>) -> Seq<PositionView> {
    Seq::new(p.len(), |i: int| PositionView { next_size: zeroed(p[i].next_size), ..p[i] })
}

/// The sum of what the positions are worth, added up from zero in their order.
pub open spec fn positions_worth(p: Seq<PositionView>) -> Option<Dec>
    decreases p.len(),
{
    if p.len() == 0 {
        Some(Dec::zero())
    } else {
        match (positions_worth(p.drop_last()), p.last().value()) {
            (Some(acc), Some(v)) => acc.add(v),
            _ => None,
        }
    }
}

/// The state of the exchange as the strategy sees it: the clock, the
/// wallet, the markets, the watched candles and the positions.
pub struct Exchange {
    quote_asset: Asset,
    wallet: Wallet,
    candles: CandleQueues,
    markets: Markets,
    current_time: Time,
    real_time: bool,
    open_positions: Vec<Position>,
    debug_msg: Option<String>,
    quit: bool,
}

/// The mathematical content of the exchange's state.
pub struct ExchangeView {
    pub quote_asset: Seq<char>,
    pub wallet: Balances,
    pub candles: Queues,
    pub markets: Seq<MarketRules>,
    pub current_time: Time,
    pub real_time: bool,
    pub positions: Seq<PositionView>,
    pub debug: Option<Seq<char>>,
    pub quit: bool,
}

impl ExchangeView {
    /// The candle of the current step for `market`: the first of its queue,
    /// if that is the candle of the current instant and the venue had one.
    pub open spec fn candle(self, market: SymbolId) -> Option<Bar> {
        match lookup(self.candles, market) {
            Some(q) => if q.len() > 0 && q[0].0.time == self.current_time {
                q[0].1
            } else {
                None
            },
            None => None,
        }
    }

    /// What wallet and positions are worth together in the quote asset.
    pub open spec fn total(self) -> Option<Dec> {
        match positions_worth(self.positions) {
            Some(worth) => self.wallet.total_of(self.quote_asset).add(worth),
            None => None,
        }
    }

    /// How long it is until the candle of the current step is complete.
    pub open spec fn wait(self, interval: Duration, now: Time) -> int {
        self.current_time.millis + interval.millis - now.millis
    }

    /// The orders of the positions added up into one, from which the orders to issue are made.
    pub open spec fn net_order(self) -> Result<Valued, ExecutionError> {
        match orders_of(self.positions) {
            Err(e) => Err(e),
            Ok(orders) => match coalesce(orders) {
                Err(e) => Err(ExecutionError::Bundle(e)),
                Ok(net) => if net.time.is_none() && Valued::nonzero(net.bundle).len() > 0 {
                    Err(ExecutionError::Bundle(BundleError::MissingTime))
                } else {
                    Ok(net)
                },
            },
        }
    }

    /// The state after a round of orders was settled: the orders of the
    /// positions are adapted to the fills, each position takes the result
    /// of its order, the wallet pays for what the positions gained in
    /// worth, and the positions that are worth nothing are removed.
    pub open spec fn settle(self, orders: Seq<Valued>, actual: Seq<OrderView>, fills: Seq<Fill>) -> Result<
        ExchangeView,
        ExecutionError,
    > {
        match adjust(orders, actual, fills, shorter(actual.len(), fills.len())) {
            Err(e) => Err(e),
            Ok(adjusted) => match apply(
                self.positions,
                adjusted,
                shorter(self.positions.len(), adjusted.len()),
            ) {
                Err(e) => Err(e),
                Ok((resized, gain)) => match settled(self.wallet, gain, self.quote_asset) {
                    Err(e) => Err(ExecutionError::Wallet(e)),
                    Ok(wallet) => match kept(resized) {
                        None => Err(ExecutionError::Overflow),
                        Some(positions) => Ok(ExchangeView { wallet, positions, ..self }),
                    },
                },
            },
        }
    }
}

impl View for Exchange {
    type V = ExchangeView;

    closed spec fn view(&self) -> ExchangeView {
        ExchangeView {
            quote_asset: self.quote_asset@,
            wallet: self.wallet@,
            candles: self.candles@,
            markets: self.markets@,
            current_time: self.current_time,
            real_time: self.real_time,
            positions: views(self.open_positions@),
            debug: match self.debug_msg {
                Some(msg) => Some(msg@),
                None => None,
            },
            quit: self.quit,
        }
    }
}

impl Exchange {
    /// An exchange at `start_time` that accounts in `quote_asset`, with an
    /// empty wallet, no markets, nothing watched and no positions.
    pub fn new(quote_asset: Asset, start_time: Time) -> (r: Exchange)
        ensures
            r@.quote_asset == quote_asset@,
            r@.wallet.total.len() == 0,
            r@.wallet.free.len() == 0,
            r@.candles.len() == 0,
            r@.markets.len() == 0,
            r@.current_time == start_time,
            !r@.real_time,
            r@.positions.len() == 0,
            r@.debug.is_none(),
            !r@.quit,
    {
        Exchange {
            quote_asset,
            current_time: start_time,
            wallet: Wallet::new(),
            candles: CandleQueues::new(),
            markets: Markets::new(),
            real_time: false,
            open_positions: Vec::new(),
            debug_msg: None,
            quit: false,
        }
    }

    pub fn current_time(&self) -> (r: Time)
        ensures
            r == self@.current_time,
    {
        self.current_time
    }

    /// Whether the loop has caught up with the clock.
    pub fn is_real_time(&self) -> (r: bool)
        ensures
            r == self@.real_time,
    {
        self.real_time
    }

    /// Whether the strategy asked to stop trading.
    pub fn has_quit(&self) -> (r: bool)
        ensures
            r == self@.quit,
    {
        self.quit
    }

    /// The asset in which everything is accounted.
    pub fn quote_asset(&self) -> (r: &Asset)
        ensures
            r@ == self@.quote_asset,
    {
        &self.quote_asset
    }

    /// All available markets.
    pub fn markets(&self) -> (r: &Markets)
        ensures
            r@ == self@.markets,
    {
        &self.markets
    }

    /// The markets, to be refreshed in place.
    pub fn markets_mut(&mut self) -> (r: &mut Markets)
        ensures
            r@ == old(self)@.markets,
            final(self)@ == (ExchangeView { markets: final(r)@, ..old(self)@ }),
    {
        &mut self.markets
    }

    /// The rules of one market, if the venue lists it.
    pub fn market(&self, symbol: &Symbol) -> (r: Option<&MarketInfo>)
        ensures
            r.is_some() == has_market(self@.markets, symbol@),
            r matches Some(info) ==> market_of(self@.markets, symbol@) == Some(info@),
    {
        self.markets.market(symbol)
    }

    /// An order size raised to the size step of its market; `None`
    /// where the venue does not list the market or the rounding overflows.
    pub fn round_size(&self, symbol: &Symbol, size: Decimal) -> (r: Option<Decimal>)
        ensures
            Decimal::model(r) == match market_of(self@.markets, symbol@) {
                Some(rules) => round_to_increment(size@, rules.size_increment),
                None => None,
            },
    {
        match self.markets.market(symbol) {
            Some(info) => info.round_size(size),
            None => None,
        }
    }

    /// A price raised to the price step of its market; `None` where the
    /// venue does not list the market or the rounding overflows.
    pub fn round_price(&self, symbol: &Symbol, price: Decimal) -> (r: Option<Decimal>)
        ensures
            Decimal::model(r) == match market_of(self@.markets, symbol@) {
                Some(rules) => round_to_increment(price@, rules.price_increment),
                None => None,
            },
    {
        match self.markets.market(symbol) {
            Some(info) => info.round_price(price),
            None => None,
        }
    }

    /// The current candle of a market.
    pub fn candle(&self, market: &Symbol) -> (r: Option<Candle>)
        ensures
            Candle::model(r) == self@.candle(market@),
    {
        match self.candles.front(market) {
            Some(front) => {
                if front.0.time.millis == self.current_time.millis {
                    front.1
                } else {
                    None
                }
            },
            None => None,
        }
    }

    /// The current price of a market: the close of its current candle.
    pub fn price(&self, market: &Symbol) -> (r: Option<Decimal>)
        ensures
            Decimal::model(r) == match self@.candle(market@) {
                Some(bar) => Some(bar.close),
                None => None,
            },
    {
        match self.candle(market) {
            Some(candle) => Some(candle.close),
            None => None,
        }
    }

    /// Begin watching a market.
    pub fn watch(&mut self, market: Symbol)
        ensures
            final(self)@ == (ExchangeView {
                candles: upsert(old(self)@.candles, market@, Queue::empty()),
                ..old(self)@
            }),
    {
        self.candles.watch(market);
    }

    /// Stop watching a market.
    pub fn unwatch(&mut self, market: &Symbol)
        ensures
            final(self)@ == (ExchangeView {
                candles: without(old(self)@.candles, market@),
                ..old(self)@
            }),
            !has_key(final(self)@.candles, market@),
    {
        self.candles.unwatch(market);
    }

    /// Quit trading.
    pub fn quit(&mut self)
        ensures
            final(self)@ == (ExchangeView { quit: true, ..old(self)@ }),
    {
        self.quit = true;
    }

    /// Leaves a message for whoever inspects the exchange.
    pub fn debug(&mut self, msg: String)
        ensures
            final(self)@ == (ExchangeView { debug: Some(msg@), ..old(self)@ }),
    {
        self.debug_msg = Some(msg);
    }

    /// The message left last, if any.
    pub fn debug_message(&self) -> (r: Option<&String>)
        ensures
            match r {
                Some(msg) => self@.debug == Some(msg@),
                None => self@.debug.is_none(),
            },
    {
        match &self.debug_msg {
            Some(msg) => Some(msg),
            None => None,
        }
    }

    /// Enter a new position: its wanted sizes are fitted to the rules of
    /// the markets, and it joins the open positions. On an error nothing changes.
    pub fn open(&mut self, position: Position) -> (r: Result<(), PositionError>)
        ensures
            match position@.fit(old(self)@.markets) {
                Ok((fitted, worth)) => r.is_ok() && final(self)@ == (ExchangeView {
                    positions: old(self)@.positions.push(fitted),
                    ..old(self)@
                }),
                Err(e) => r == Err::<(), PositionError>(e) && final(self)@ == old(self)@,
            },
    {
        let mut position = position;
        match position.fit(&self.markets) {
            Ok(_) => {
                let ghost before = views(self.open_positions@);
                self.open_positions.push(position);
                assert(views(self.open_positions@) =~= before.push(position@));
                Ok(())
            },
            Err(e) => Err(e),
        }
    }

    /// Your already open positions.
    pub fn positions(&self) -> (r: &Vec<Position>)
        ensures
            views(r@) == self@.positions,
    {
        &self.open_positions
    }

    /// One of your open positions, to be changed in place.
    pub fn position_mut(&mut self, i: usize) -> (r: &mut Position)
        requires
            i < old(self)@.positions.len(),
        ensures
            r@ == old(self)@.positions[i as int],
            final(self)@ == (ExchangeView {
                positions: old(self)@.positions.update(i as int, final(r)@),
                ..old(self)@
            }),
    {
        let ghost before = self.open_positions@;
        let r = &mut self.open_positions[i];
        proof {
            assert(views(before.update(i as int, *final(r))) =~= views(
                before,
            ).update(i as int, final(r)@));
        }
        r
    }

    /// Asks every open position to go back to zero.
    pub fn close_all(&mut self)
        ensures
            final(self)@ == (ExchangeView {
                positions: all_closing(old(self)@.positions),
                ..old(self)@
            }),
    {
        let ghost before = views(self.open_positions@);
        let mut i: usize = 0;
        while i < self.open_positions.len()
            invariant
                i <= self.open_positions@.len(),
                self.open_positions@.len() == before.len(),
                self@ == (ExchangeView {
                    positions: views(self.open_positions@),
                    ..old(self)@
                }),
                forall|j: int|
                    0 <= j < i ==> (#[trigger] self.open_positions@[j])@ == all_closing(
                        before,
                    )[j],
                forall|j: int|
                    i <= j < before.len() ==> (#[trigger] self.open_positions@[j])@ == before[j],
            decreases self.open_positions@.len() - i,
        {
            let mut p = self.open_positions[i].clone();
            p.close();
            self.open_positions.set(i, p);
            i = i + 1;
        }
        assert(views(self.open_positions@) =~= all_closing(before));
    }

    /// Get wallet.
    pub fn wallet(&self) -> (r: &Wallet)
        ensures
            r@ == self@.wallet,
    {
        &self.wallet
    }

    /// The wallet, to be refreshed in place.
    pub fn wallet_mut(&mut self) -> (r: &mut Wallet)
        ensures
            r@ == old(self)@.wallet,
            final(self)@ == (ExchangeView { wallet: final(r)@, ..old(self)@ }),
    {
        &mut self.wallet
    }

    /// What wallet and positions are worth together in the quote asset,
    /// `None` where a worth or the sum overflows.
    pub fn total(&self) -> (r: Option<Decimal>)
        ensures
            Decimal::model(r) == self@.total(),
    {
        let wallet_total = self.wallet.total(&self.quote_asset);
        let mut worth = Decimal::zero();
        let mut i: usize = 0;
        let ghost all = views(self.open_positions@);
        assert(all.take(0) =~= Seq::<PositionView>::empty());
        while i < self.open_positions.len()
            invariant
                i <= self.open_positions@.len(),
                all == views(self.open_positions@),
                all == self@.positions,
                Some(worth@) == positions_worth(all.take(i as int)),
            decreases self.open_positions@.len() - i,
        {
            proof {
                assert(all.take(i + 1).drop_last() =~= all.take(i as int));
                assert(all.take(i + 1).last() == self.open_positions@[i as int]@);
            }
            let next = match self.open_positions[i].value() {
                Some(v) => worth.checked_add(v),
                None => None,
            };
            match next {
                Some(w) => {
                    worth = w;
                },
                None => {
                    proof {
                        lemma_worth_stays_none(all, i + 1);
                    }
                    return None;
                },
            }
            i = i + 1;
        }
        assert(all.take(i as int) =~= all);
        wallet_total.checked_add(worth)
    }

    /// How long it is at the instant `now` until the candle of the current
    /// step is complete; not positive once it is. `None` where that length cannot be written.
    pub fn wait(&self, interval: Duration, now: Time) -> (r: Option<Duration>)
        ensures
            r == Duration::of(self@.wait(interval, now)),
    {
        let wait: i128 = self.current_time.millis as i128 + interval.millis as i128
            - now.millis as i128;
        if i64::MIN as i128 <= wait && wait <= i64::MAX as i128 {
            Some(Duration { millis: wait as i64 })
        } else {
            None
        }
    }

    /// What the loop does at the instant `now`: trade where the candle of
    /// the current step is complete, wait otherwise. Having to wait means
    /// that the loop has caught up with the clock.
    pub fn next_step(&mut self, interval: Duration, now: Time) -> (r: Step)
        ensures
            old(self)@.wait(interval, now) <= 0 ==> r == Step::Trade && final(self)@ == old(self)@,
            old(self)@.wait(interval, now) > 0 ==> final(self)@ == (ExchangeView {
                real_time: true,
                ..old(self)@
            }),
            old(self)@.wait(interval, now) > 0 ==> r == Step::Wait(
                Duration {
                    millis: if old(self)@.wait(interval, now) <= i64::MAX {
                        old(self)@.wait(interval, now) as i64
                    } else {
                        i64::MAX
                    },
                },
            ),
    {
        let wait: i128 = self.current_time.millis as i128 + interval.millis as i128
            - now.millis as i128;
        if wait <= 0 {
            Step::Trade
        } else {
            self.real_time = true;
            if wait <= i64::MAX as i128 {
                Step::Wait(Duration { millis: wait as i64 })
            } else {
                Step::Wait(Duration { millis: i64::MAX })
            }
        }
    }

    /// Advances the clock by one interval and drops the candle of the
    /// step that ends. `false`, and no change, where the clock would overflow.
    pub fn step(&mut self, interval: Duration) -> (r: bool)
        ensures
            match Time::of(old(self)@.current_time.millis + interval.millis) {
                Some(time) => r && final(self)@ == (ExchangeView {
                    current_time: time,
                    candles: all_popped(old(self)@.candles),
                    ..old(self)@
                }),
                None => !r && final(self)@ == old(self)@,
            },
    {
        match self.current_time.checked_add(interval) {
            Some(time) => {
                self.current_time = time;
                self.candles.advance();
                true
            },
            None => false,
        }
    }

    /// The watched symbols whose queue is empty.
    pub fn missing_candles(&self) -> (r: Vec<Symbol>)
        ensures
            symbols_view(r@) == empty_queues(self@.candles),
    {
        self.candles.missing()
    }

    /// The requests that fetch the candles that are missing, from the current instant on.
    pub fn candle_requests(&self, interval: Duration) -> (r: Vec<CandleKey>)
        ensures
            Seq::new(r@.len(), |i: int| r@[i]@) == requests_for(
                empty_queues(self@.candles),
                self@.current_time,
                interval,
            ),
    {
        let missing = self.candles.missing();
        let mut out: Vec<CandleKey> = Vec::new();
        let mut i: usize = 0;
        while i < missing.len()
            invariant
                i <= missing@.len(),
                out@.len() == i,
                forall|j: int|
                    0 <= j < i ==> (#[trigger] out@[j])@ == (Slot {
                        market: missing@[j]@,
                        time: self.current_time,
                        interval,
                    }),
            decreases missing@.len() - i,
        {
            out.push(
                CandleKey { market: missing[i].clone(), time: self.current_time, interval },
            );
            i = i + 1;
        }
        assert(Seq::new(out@.len(), |i: int| out@[i]@) =~= requests_for(
            symbols_view(missing@),
            self.current_time,
            interval,
        ));
        out
    }

    /// Appends what a request returned to the queue of `market`, if it is still watched.
    pub fn append_candles(&mut self, market: &Symbol, candles: &Vec<CandleEntry>)
        ensures
            final(self)@ == (ExchangeView {
                candles: appended(old(self)@.candles, market@, entries_view(candles@)),
                ..old(self)@
            }),
    {
        self.candles.append(market, candles);
    }

    /// What the fetching does after a round of requests, `wait` being how
    /// long it was until the candle of the step is complete when the round began.
    pub fn fetch_decision(&self, wait: Duration, interval: Duration) -> (r: Fetch)
        ensures
            r == if empty_queues(self@.candles).len() == 0 {
                Fetch::Done
            } else if wait.millis <= -interval.millis {
                Fetch::GiveUp
            } else {
                Fetch::Retry
            },
    {
        if self.candles.missing().len() == 0 {
            Fetch::Done
        } else if wait.millis as i128 <= -(interval.millis as i128) {
            Fetch::GiveUp
        } else {
            Fetch::Retry
        }
    }

    /// The order of each position, and the orders to issue for them: one
    /// market order for each symbol that the positions move on balance.
    pub fn pending_orders(&self) -> (r: Result<(Vec<ValuedBundle>, Vec<Order>), ExecutionError>)
        ensures
            match self@.net_order() {
                Err(e) => r == Err::<(Vec<ValuedBundle>, Vec<Order>), ExecutionError>(e),
                Ok(net) => r.is_ok() && Ok::<Seq<Valued>, ExecutionError>(
                    valued_view(r.unwrap().0@),
                ) == orders_of(self@.positions) && net.ordered_as(orders_view(r.unwrap().1@)),
            },
    {
        let orders = match position_orders(&self.open_positions) {
            Ok(orders) => orders,
            Err(e) => {
                return Err(e);
            },
        };
        let net = match coalesce_orders(&orders) {
            Ok(net) => net,
            Err(e) => {
                return Err(ExecutionError::Bundle(e));
            },
        };
        match net.to_orders() {
            Ok(actual) => Ok((orders, actual)),
            Err(e) => Err(ExecutionError::Bundle(e)),
        }
    }

    /// Settles a round of orders: `orders` are the orders of the
    /// positions, `actual` the orders that were issued and `fills` what
    /// the venue made of each of them. On an error nothing changes.
    pub fn settle(&mut self, orders: &Vec<ValuedBundle>, actual: &Vec<Order>, fills: &Vec<OrderInfo>) -> (r:
        Result<(), ExecutionError>)
        ensures
            match old(self)@.settle(
                valued_view(orders@),
                orders_view(actual@),
                fills_view(fills@),
            ) {
                Ok(after) => r.is_ok() && final(self)@ == after,
                Err(e) => r == Err::<(), ExecutionError>(e) && final(self)@ == old(self)@,
            },
    {
        let adjusted = match adjust_orders(orders, actual, fills) {
            Ok(adjusted) => adjusted,
            Err(e) => {
                return Err(e);
            },
        };
        let (resized, gain) = match apply_results(&self.open_positions, &adjusted) {
            Ok(done) => done,
            Err(e) => {
                return Err(e);
            },
        };
        let mut wallet = self.wallet.duplicate();
        match settle_wallet(&mut wallet, gain, &self.quote_asset) {
            Ok(()) => {},
            Err(e) => {
                return Err(ExecutionError::Wallet(e));
            },
        }
        match retain_valued(resized) {
            Some(positions) => {
                self.wallet = wallet;
                self.open_positions = positions;
                Ok(())
            },
            None => Err(ExecutionError::Overflow),
        }
    }

    /// Values every open position at the close of the first candle of each watched symbol.
    pub fn valuate(&mut self)
        ensures
            final(self)@ == (ExchangeView {
                positions: all_valued(
                    old(self)@.positions,
                    front_closes(old(self)@.candles),
                    old(self)@.current_time,
                ),
                ..old(self)@
            }),
    {
        let valuation = self.candles.valuation();
        let time = self.current_time;
        let ghost before = views(self.open_positions@);
        let mut i: usize = 0;
        while i < self.open_positions.len()
            invariant
                i <= self.open_positions@.len(),
                self.open_positions@.len() == before.len(),
                valuation@ == front_closes(old(self)@.candles),
                time == old(self)@.current_time,
                self@ == (ExchangeView {
                    positions: views(self.open_positions@),
                    ..old(self)@
                }),
                forall|j: int|
                    0 <= j < i ==> (#[trigger] self.open_positions@[j])@ == all_valued(
                        before,
                        valuation@,
                        time,
                    )[j],
                forall|j: int|
                    i <= j < before.len() ==> (#[trigger] self.open_positions@[j])@ == before[j],
            decreases self.open_positions@.len() - i,
        {
            let mut p = self.open_positions[i].clone();
            p.valuate(valuation.clone(), time);
            self.open_positions.set(i, p);
            i = i + 1;
        }
        assert(views(self.open_positions@) =~= all_valued(before, valuation@, time));
    }
}

/// Settling a round of orders does not change what wallet and positions
/// are worth together in the quote asset: what the positions gain in
/// worth, the wallet pays, and the positions that are removed are worth
/// nothing. Fees show as the loss of the positions that paid them. This
/// holds wherever the gains and the booking did not have to be rounded.
pub proof fn lemma_settle_conserves_worth(
    state: ExchangeView,
    orders: Seq<Valued>,
    actual: Seq<OrderView>,
    fills: Seq<Fill>,
)
    requires
        distinct_keys(state.wallet.total),
        state.settle(orders, actual, fills).is_ok(),
        ({
            let adjusted = adjust(orders, actual, fills, shorter(actual.len(), fills.len())).unwrap();
            let n = shorter(state.positions.len(), adjusted.len());
            apply_is_exact(state.positions, adjusted, n) && booking_is_exact(
                state.wallet,
                apply(state.positions, adjusted, n).unwrap().1,
                state.quote_asset,
            )
        }),
    ensures
        state.settle(orders, actual, fills).unwrap().wallet.total_of(state.quote_asset).units()
            + worth_units(state.settle(orders, actual, fills).unwrap().positions)
            == state.wallet.total_of(state.quote_asset).units() + worth_units(state.positions),
{
    let adjusted = adjust(orders, actual, fills, shorter(actual.len(), fills.len())).unwrap();
    let n = shorter(state.positions.len(), adjusted.len());
    let (resized, gain) = apply(state.positions, adjusted, n).unwrap();
    lemma_gain_is_change_of_worth(state.positions, adjusted, n);
    lemma_wallet_pays_gain(state.wallet, gain, state.quote_asset);
    lemma_kept_keeps_worth(resized);
}

/// The candle that the exchange hands out for a market is the candle of the current instant.
pub proof fn lemma_candle_is_current(state: ExchangeView, market: SymbolId)
    requires
        state.candle(market).is_some(),
    ensures
        lookup(state.candles, market).is_some(),
        lookup(state.candles, market).unwrap().len() > 0,
        lookup(state.candles, market).unwrap()[0].0.time == state.current_time,
        lookup(state.candles, market).unwrap()[0].1 == state.candle(market),
{
}

/// Once the worth of a prefix has overflowed, that of all positions has.
pub proof fn lemma_worth_stays_none(p: Seq<PositionView>, n: int)
    requires
        0 <= n <= p.len(),
        positions_worth(p.take(n)).is_none(),
    ensures
        positions_worth(p).is_none(),
    decreases p.len() - n,
{
    if n < p.len() {
        assert(p.take(n + 1).drop_last() =~= p.take(n));
        lemma_worth_stays_none(p, n + 1);
    } else {
        assert(p.take(n) =~= p);
    }
}

} // verus!
