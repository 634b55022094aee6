use bazaar::apis::simulate::Simulate;
use bazaar::asset::Asset;
use bazaar::candle::{Candle, CandleKey};
use bazaar::decimal::Decimal;
use bazaar::exchange::execution::{adjust_orders, coalesce_orders, ExecutionError};
use bazaar::exchange::position::Position;
use bazaar::exchange::valued_bundle::ValuedBundle;
use bazaar::exchange::{Exchange, Fetch, Step};
use bazaar::market::{MarketInfo, Symbol};
use bazaar::order::{Order, OrderInfo, Side};
use bazaar::time::{Duration, Time};

fn dec(num: i64, scale: u32) -> Decimal {
    Decimal::new(num, scale)
}

fn fee() -> Decimal {
    Decimal::new(7, 4)
}

fn simulate_all(orders: &Vec<Order>) -> Vec<OrderInfo> {
    orders.iter().map(|o| Simulate::place_order(o, fee()).unwrap()).collect()
}

fn order(bundles: Vec<ValuedBundle>) -> Vec<ValuedBundle> {
    let net = coalesce_orders(&bundles).unwrap();
    let actual = net.to_orders().unwrap();
    let fills = simulate_all(&actual);
    adjust_orders(&bundles, &actual, &fills).unwrap()
}

#[test]
fn coalesce_orders_none() {
    let result = coalesce_orders(&Vec::new()).unwrap();
    assert_eq!(result.value(), Some(dec(0, 0)));
}

#[test]
fn coalesce_orders_single_buy() {
    let symbol = Symbol::perp("BTC");

    let mut vb1 = ValuedBundle::default();
    vb1.bundle.insert(symbol.clone(), dec(10, 0));

    let result = coalesce_orders(&vec![vb1]).unwrap();

    assert_eq!(result.bundle.get(&symbol), Some(dec(10, 0)));
}

#[test]
fn coalesce_orders_single_sell() {
    let symbol = Symbol::perp("BTC");

    let mut vb1 = ValuedBundle::default();
    vb1.bundle.insert(symbol.clone(), dec(-10, 0));

    let result = coalesce_orders(&vec![vb1]).unwrap();

    assert_eq!(result.bundle.get(&symbol), Some(dec(-10, 0)));
}

#[test]
fn coalesce_orders_cancel_out() {
    let symbol = Symbol::perp("BTC");

    let mut vb1 = ValuedBundle::default();
    vb1.bundle.insert(symbol.clone(), dec(-10, 0));
    let mut vb2 = ValuedBundle::default();
    vb2.bundle.insert(symbol.clone(), dec(5, 0));
    let mut vb3 = ValuedBundle::default();
    vb3.bundle.insert(symbol.clone(), dec(5, 0));

    let result = coalesce_orders(&vec![vb1, vb2, vb3]).unwrap();

    assert_eq!(result.bundle.get(&symbol), Some(dec(0, 0)));
}

#[test]
fn order_bundles_single_unvalued() {
    let symbol = Symbol::perp("BTC");
    let time = Time::from_millis(1_650_000_000_000);

    let mut vb1 = ValuedBundle::default();
    vb1.bundle.insert(symbol.clone(), dec(10, 0));
    vb1.time = Some(time);

    let result = order(vec![vb1]);

    assert_eq!(result[0].bundle.get(&symbol), Some(dec(10, 0)));
}

#[test]
fn order_bundles_multiple_unvalued() {
    let symbol = Symbol::perp("BTC");
    let time = Time::from_millis(1_650_000_000_000);

    let mut vb1 = ValuedBundle::default();
    vb1.bundle.insert(symbol.clone(), dec(10, 0));
    vb1.time = Some(time);

    let mut vb2 = ValuedBundle::default();
    vb2.bundle.insert(symbol.clone(), dec(5, 0));
    vb2.time = Some(time);

    let mut vb3 = ValuedBundle::default();
    vb3.bundle.insert(symbol.clone(), dec(-15, 0));
    vb3.time = Some(time);

    let result = order(vec![vb1, vb2, vb3]);

    assert_eq!(result[0].bundle.get(&symbol), Some(dec(10, 0)));
    assert_eq!(result[1].bundle.get(&symbol), Some(dec(5, 0)));
    assert_eq!(result[2].bundle.get(&symbol), Some(dec(-15, 0)));
}

#[test]
fn order_bundles_single_valued() {
    let symbol = Symbol::perp("BTC");
    let time = Time::from_millis(1_650_000_000_000);

    let mut vb1 = ValuedBundle::default();
    vb1.bundle.insert(symbol.clone(), dec(10, 0));
    vb1.valuation.insert(symbol.clone(), dec(10000, 0));
    vb1.time = Some(time);

    let result = order(vec![vb1]);

    assert_eq!(result[0].bundle.get(&symbol), Some(dec(10, 0)));
    assert_eq!(
        result[0].valuation.get(&symbol),
        Some(dec(10000, 0).checked_mul(dec(1, 0).checked_add(fee()).unwrap()).unwrap())
    );
    assert_eq!(result[0].valuation.get(&symbol), Some(dec(10007, 0)));
}

#[test]
fn coalescing_cancellation_issues_no_order() {
    let symbol = Symbol::perp("BTC");
    let time = Time::from_millis(1_650_000_000_000);
    let mut bundles = Vec::new();
    for qty in [10, 5, -15] {
        let mut vb = ValuedBundle::default();
        vb.bundle.insert(symbol.clone(), dec(qty, 0));
        vb.time = Some(time);
        bundles.push(vb);
    }
    let net = coalesce_orders(&bundles).unwrap();
    assert_eq!(net.bundle.get(&symbol), Some(dec(0, 0)));
    assert!(net.to_orders().unwrap().is_empty());
}

#[test]
fn underfilled_order_is_shared_in_proportion() {
    let symbol = Symbol::perp("BTC");
    let time = Time::from_millis(1_650_000_000_000);
    let mut a = ValuedBundle::default();
    a.bundle.insert(symbol.clone(), dec(6, 0));
    a.time = Some(time);
    let mut b = ValuedBundle::default();
    b.bundle.insert(symbol.clone(), dec(4, 0));
    b.time = Some(time);
    let mut c = ValuedBundle::default();
    c.bundle.insert(symbol.clone(), dec(-2, 0));
    c.time = Some(time);
    let bundles = vec![a, b, c];
    let net = coalesce_orders(&bundles).unwrap();
    let actual = net.to_orders().unwrap();
    assert_eq!(actual.len(), 1);
    assert_eq!(actual[0].side, Side::Buy);
    assert_eq!(actual[0].size, dec(8, 0));
    // The venue fills 3 of the 8: 5 are missing, shared 6 : 4 between the buyers.
    let fills = vec![OrderInfo {
        order_id: actual[0].order_id,
        market: symbol.clone(),
        size: dec(3, 0),
        price: dec(100, 0),
        time,
        side: Side::Buy,
    }];
    let adjusted = adjust_orders(&bundles, &actual, &fills).unwrap();
    assert_eq!(adjusted[0].bundle.get(&symbol), Some(dec(3, 0)));
    assert_eq!(adjusted[1].bundle.get(&symbol), Some(dec(2, 0)));
    assert_eq!(adjusted[2].bundle.get(&symbol), Some(dec(-2, 0)));
    for v in &adjusted {
        assert_eq!(v.valuation.get(&symbol), Some(dec(100, 0)));
    }
}

#[test]
fn fill_for_another_market_is_refused() {
    let btc = Symbol::perp("BTC");
    let time = Time::from_millis(1_650_000_000_000);
    let mut a = ValuedBundle::default();
    a.bundle.insert(btc.clone(), dec(1, 0));
    a.time = Some(time);
    let bundles = vec![a];
    let actual = coalesce_orders(&bundles).unwrap().to_orders().unwrap();
    let fills = vec![OrderInfo {
        order_id: actual[0].order_id,
        market: Symbol::perp("ETH"),
        size: dec(1, 0),
        price: dec(100, 0),
        time,
        side: Side::Buy,
    }];
    assert_eq!(adjust_orders(&bundles, &actual, &fills).unwrap_err(), ExecutionError::FillMismatch);
}

fn btc_market() -> MarketInfo {
    MarketInfo {
        symbol: Symbol::perp("BTC"),
        min_size: dec(0, 0),
        size_increment: dec(0, 0),
        price_increment: dec(0, 0),
        daily_quote_volume: dec(0, 0),
    }
}

fn exchange_with_candle(close: Decimal) -> Exchange {
    let start = Time::from_millis(1_650_000_000_000);
    let minute = Duration::minutes(1).unwrap();
    let mut exchange = Exchange::new(Asset::new("USD"), start);
    exchange.wallet_mut().deposit(dec(1000, 0), &Asset::new("USD")).unwrap();
    exchange.markets_mut().insert(btc_market());
    exchange.watch(Symbol::perp("BTC"));
    let key = CandleKey { market: Symbol::perp("BTC"), time: start, interval: minute };
    let next = key.next().unwrap();
    let candle = Candle { close, volume: dec(0, 0) };
    exchange.append_candles(&Symbol::perp("BTC"), &vec![(key, Some(candle)), (next, Some(candle))]);
    exchange
}

#[test]
fn candle_is_that_of_the_current_time() {
    let mut exchange = exchange_with_candle(dec(10000, 0));
    let btc = Symbol::perp("BTC");
    assert_eq!(exchange.candle(&btc).map(|c| c.close), Some(dec(10000, 0)));
    assert_eq!(exchange.price(&btc), Some(dec(10000, 0)));
    assert_eq!(exchange.candle(&Symbol::perp("ETH")), None);
    assert!(exchange.step(Duration::minutes(1).unwrap()));
    assert_eq!(exchange.price(&btc), Some(dec(10000, 0)));
    // A step of another length leaves the clock between two candles.
    assert!(exchange.step(Duration::seconds(30).unwrap()));
    assert_eq!(exchange.candle(&btc), None);
}

#[test]
fn watch_unwatch_and_missing_candles() {
    let start = Time::from_millis(0);
    let minute = Duration::minutes(1).unwrap();
    let mut exchange = Exchange::new(Asset::new("USD"), start);
    exchange.watch(Symbol::perp("BTC"));
    exchange.watch(Symbol::perp("ETH"));
    assert_eq!(exchange.missing_candles(), vec![Symbol::perp("BTC"), Symbol::perp("ETH")]);
    let requests = exchange.candle_requests(minute);
    assert_eq!(requests.len(), 2);
    assert_eq!(requests[1], CandleKey { market: Symbol::perp("ETH"), time: start, interval: minute });
    assert_eq!(exchange.fetch_decision(Duration::milliseconds(-1), minute), Fetch::Retry);
    assert_eq!(exchange.fetch_decision(Duration::milliseconds(-60000), minute), Fetch::GiveUp);
    let key = CandleKey { market: Symbol::perp("BTC"), time: start, interval: minute };
    exchange.append_candles(&Symbol::perp("BTC"), &vec![(key, None)]);
    assert_eq!(exchange.missing_candles(), vec![Symbol::perp("ETH")]);
    exchange.unwatch(&Symbol::perp("ETH"));
    assert!(exchange.missing_candles().is_empty());
    assert_eq!(exchange.fetch_decision(Duration::milliseconds(-60000), minute), Fetch::Done);
    // Appending for a symbol that is not watched changes nothing.
    let eth = CandleKey { market: Symbol::perp("ETH"), time: start, interval: minute };
    exchange.append_candles(&Symbol::perp("ETH"), &vec![(eth, None)]);
    assert_eq!(exchange.candle(&Symbol::perp("ETH")), None);
}

#[test]
fn next_step_waits_for_the_candle() {
    let start = Time::from_millis(1_000_000);
    let minute = Duration::minutes(1).unwrap();
    let mut exchange = Exchange::new(Asset::new("USD"), start);
    assert!(!exchange.is_real_time());
    assert_eq!(exchange.next_step(minute, Time::from_millis(1_060_000)), Step::Trade);
    assert!(!exchange.is_real_time());
    assert_eq!(
        exchange.next_step(minute, Time::from_millis(1_059_000)),
        Step::Wait(Duration::milliseconds(1000))
    );
    assert!(exchange.is_real_time());
}

#[test]
fn close_to_zero_conservation() {
    let usd = Asset::new("USD");
    let btc = Symbol::perp("BTC");
    let minute = Duration::minutes(1).unwrap();
    let mut exchange = exchange_with_candle(dec(10000, 0));
    assert_eq!(exchange.total(), Some(dec(1000, 0)));

    exchange.open(Position::new().long(btc.clone(), dec(1, 2))).unwrap();
    exchange.valuate();
    Simulate::execute(&mut exchange, fee()).unwrap();
    assert_eq!(exchange.positions().len(), 1);
    // The buy is filled at 10007; the position is carried at the close of 10000.
    assert_eq!(exchange.positions()[0].value(), Some(dec(100, 0)));
    assert_eq!(exchange.positions()[0].pnl(), Some(dec(-7, 2)));
    assert_eq!(exchange.wallet().total(&usd), dec(900, 0));
    assert_eq!(exchange.total(), Some(dec(1000, 0)));

    assert!(exchange.step(minute));
    exchange.close_all();
    exchange.valuate();
    Simulate::execute(&mut exchange, fee()).unwrap();
    // The sale is filled at 9993: both fees, 0.14 in all, are the loss of the position.
    assert_eq!(exchange.positions().len(), 1);
    assert!(exchange.positions()[0].closed());
    assert_eq!(exchange.positions()[0].pnl(), Some(dec(-14, 2)));
    assert_eq!(exchange.positions()[0].value(), Some(dec(9993, 2)));
    assert_eq!(exchange.wallet().total(&usd), dec(90007, 2));
    assert_eq!(exchange.total(), Some(dec(1000, 0)));

    // Another step with nothing to do leaves everything as it is.
    exchange.valuate();
    Simulate::execute(&mut exchange, fee()).unwrap();
    assert_eq!(exchange.positions().len(), 1);
    assert_eq!(exchange.wallet().total(&usd), dec(90007, 2));
    assert_eq!(exchange.total(), Some(dec(1000, 0)));
}

#[test]
fn execute_without_valuation_is_refused() {
    let mut exchange = exchange_with_candle(dec(10000, 0));
    exchange.open(Position::new().long(Symbol::perp("BTC"), dec(1, 2))).unwrap();
    assert_eq!(Simulate::execute(&mut exchange, fee()), Err(ExecutionError::NotValued));
    assert_eq!(exchange.positions().len(), 1);
}

#[test]
fn long_position() {
    let symbol = Symbol::perp("BTC");
    let mut position = Position::new();
    position.set_price(symbol.clone(), dec(10000, 0));
    position.set_size(symbol.clone(), dec(1, 0));
    let order = position.order().unwrap();
    position.resize(order).unwrap();
    position.set_price(symbol.clone(), dec(20000, 0));
    assert_eq!(position.value(), Some(dec(20000, 0)));
}

#[test]
fn short_position() {
    let symbol = Symbol::perp("BTC");
    let mut position = Position::new();
    position.set_price(symbol.clone(), dec(10000, 0));
    position.set_size(symbol.clone(), dec(-1, 0));
    let order = position.order().unwrap();
    position.resize(order).unwrap();
    position.set_price(symbol.clone(), dec(20000, 0));
    assert_eq!(position.value(), Some(dec(0, 0)));
}

#[test]
fn deduct_fee_long() {
    let time = Time::from_millis(1_650_000_000_000);
    let order = Order {
        order_id: 1,
        market: Symbol::perp("BTC"),
        side: Side::Buy,
        size: dec(1, 2),
        order_type: bazaar::order::OrderType::Market,
        reduce_only: false,
        time,
        current_price: dec(10000, 0),
    };
    let OrderInfo { price, .. } = Simulate::place_order(&order, fee()).unwrap();
    assert!(price.gt(&dec(10000, 0)));

    let order = Order { order_id: 2, side: Side::Sell, ..order };
    let OrderInfo { price, .. } = Simulate::place_order(&order, fee()).unwrap();
    assert!(price.lt(&dec(10000, 0)));
}

#[test]
fn deduct_fee_short() {
    let time = Time::from_millis(1_650_000_000_000);
    let order = Order {
        order_id: 1,
        market: Symbol::perp("BTC"),
        side: Side::Sell,
        size: dec(1, 2),
        order_type: bazaar::order::OrderType::Market,
        reduce_only: false,
        time,
        current_price: dec(10000, 0),
    };
    let OrderInfo { price, size, .. } = Simulate::place_order(&order, fee()).unwrap();
    assert!(price.lt(&dec(10000, 0)));
    assert_eq!(price, dec(9993, 0));
    assert_eq!(size, dec(1, 2));

    let order = Order { order_id: 2, side: Side::Buy, ..order };
    let OrderInfo { price, .. } = Simulate::place_order(&order, fee()).unwrap();
    assert!(price.gt(&dec(10000, 0)));
    assert_eq!(price, dec(10007, 0));
}

#[test]
fn valued_bundle_in_words() {
    let btc = Symbol::perp("BTC");
    let eth = Symbol::perp("ETH");
    let mut vb = ValuedBundle::default();
    vb.bundle.insert(btc.clone(), dec(15, 1));
    vb.bundle.insert(eth.clone(), dec(0, 0));
    vb.bundle.insert(Symbol::perp("SOL"), dec(-2, 0));
    vb.valuation.insert(btc, dec(10000, 0));
    assert_eq!(
        vb.to_string(),
        Some("1.5 BTC-PERP (15000.0 USD), -2 SOL-PERP (0 USD), \n".to_string())
    );
    assert_eq!(ValuedBundle::default().to_string(), Some("\n".to_string()));
    assert_eq!(vb.neg().value(), Some(dec(-15000, 0)));
    assert_eq!(vb.neg().abs_value(), Some(dec(15000, 0)));
}

#[test]
fn exchange_rounds_by_the_rules_of_the_market() {
    let mut exchange = Exchange::new(Asset::new("USD"), Time::from_millis(0));
    exchange.markets_mut().insert(MarketInfo {
        symbol: Symbol::perp("BTC"),
        min_size: dec(0, 0),
        size_increment: dec(1, 1),
        price_increment: dec(5, 0),
        daily_quote_volume: dec(0, 0),
    });
    let btc = Symbol::perp("BTC");
    assert_eq!(exchange.round_size(&btc, dec(123, 2)), Some(dec(13, 1)));
    assert_eq!(exchange.round_price(&btc, dec(10001, 0)), Some(dec(10005, 0)));
    assert_eq!(exchange.round_size(&Symbol::perp("ETH"), dec(1, 0)), None);
    assert_eq!(exchange.markets().markets().len(), 1);
    assert!(exchange.market(&btc).is_some());
    let copy = exchange.wallet().clone();
    assert!(copy.assets().is_empty());
    exchange.debug("look here".to_string());
    assert_eq!(exchange.debug_message(), Some(&"look here".to_string()));
    assert!(!exchange.has_quit());
    exchange.quit();
    assert!(exchange.has_quit());
}

#[test]
fn valued_bundles_of_orders_and_fills() {
    let time = Time::from_millis(1_650_000_000_000);
    let btc = Symbol::perp("BTC");
    let buy = Order {
        order_id: 1,
        market: btc.clone(),
        side: Side::Buy,
        size: dec(2, 0),
        order_type: bazaar::order::OrderType::Market,
        reduce_only: false,
        time,
        current_price: dec(100, 0),
    };
    let sell = Order {
        order_id: 2,
        market: Symbol::perp("ETH"),
        side: Side::Sell,
        size: dec(3, 0),
        current_price: dec(10, 0),
        ..buy.clone()
    };
    let vb = ValuedBundle::from_orders(&vec![buy.clone(), sell.clone()]).unwrap();
    assert_eq!(vb.bundle.get(&btc), Some(dec(2, 0)));
    assert_eq!(vb.bundle.get(&Symbol::perp("ETH")), Some(dec(-3, 0)));
    assert_eq!(vb.value(), Some(dec(170, 0)));
    assert_eq!(vb.time, Some(time));
    let late = Order { time: Time::from_millis(1), ..sell };
    assert_eq!(
        ValuedBundle::from_orders(&vec![buy.clone(), late]).unwrap_err(),
        bazaar::exchange::valued_bundle::BundleError::TimeMismatch
    );
    let fills = vec![
        OrderInfo { order_id: 1, market: btc.clone(), size: dec(1, 0), price: dec(101, 0), time, side: Side::Buy },
        OrderInfo { order_id: 2, market: btc.clone(), size: dec(4, 0), price: dec(99, 0), time: Time::from_millis(5), side: Side::Sell },
    ];
    let vb = ValuedBundle::from_order_infos(&fills);
    assert_eq!(vb.bundle.get(&btc), Some(dec(-4, 0)));
    assert_eq!(vb.valuation.get(&btc), Some(dec(99, 0)));
    assert_eq!(vb.time, Some(time));
    let orders = vb.to_orders().unwrap();
    assert_eq!(orders.len(), 1);
    assert_eq!(orders[0].side, Side::Sell);
    assert_eq!(orders[0].size, dec(4, 0));
    assert_eq!(orders[0].current_price, dec(99, 0));
    assert_eq!(orders[0].time, time);
    let mut timeless = ValuedBundle::default();
    timeless.bundle.insert(btc, dec(1, 0));
    assert_eq!(
        timeless.to_orders().unwrap_err(),
        bazaar::exchange::valued_bundle::BundleError::MissingTime
    );
    let other = ValuedBundle::from_order_infos(&fills);
    let mut priced = ValuedBundle::default();
    priced.time = Some(time);
    assert_eq!(
        other.add(&priced).unwrap_err(),
        bazaar::exchange::valued_bundle::BundleError::ValuationMismatch
    );
}

#[test]
fn wait_until_the_candle_is_complete() {
    let exchange = Exchange::new(Asset::new("USD"), Time::from_millis(1_000_000));
    let minute = Duration::minutes(1).unwrap();
    assert_eq!(exchange.wait(minute, Time::from_millis(1_059_000)), Some(Duration::milliseconds(1000)));
    assert_eq!(exchange.wait(minute, Time::from_millis(1_200_000)), Some(Duration::milliseconds(-140_000)));
    assert_eq!(exchange.wait(Duration::milliseconds(i64::MAX), Time::from_millis(0)), None);
}

#[test]
fn fee_round_trip_at_an_unchanged_price() {
    let time = Time::from_millis(1_650_000_000_000);
    let price = dec(1234567, 2);
    let buy = Order {
        order_id: 1,
        market: Symbol::perp("BTC"),
        side: Side::Buy,
        size: dec(1, 0),
        order_type: bazaar::order::OrderType::Market,
        reduce_only: false,
        time,
        current_price: price,
    };
    let sell = Order { order_id: 2, side: Side::Sell, ..buy.clone() };
    let bought = Simulate::place_order(&buy, fee()).unwrap().price;
    let sold = Simulate::place_order(&sell, fee()).unwrap().price;
    let twice_the_fee = dec(2, 0).checked_mul(price.checked_mul(fee()).unwrap()).unwrap();
    assert_eq!(bought.checked_sub(sold), Some(twice_the_fee));
    assert_eq!(bought.checked_sub(sold), Some(dec(172839380, 7)));
}

#[test]
fn positions_valued_at_different_prices_cannot_be_added_up() {
    let mut exchange = exchange_with_candle(dec(10000, 0));
    let btc = Symbol::perp("BTC");
    exchange.open(Position::new().long(btc.clone(), dec(1, 2))).unwrap();
    exchange.open(Position::new().long(btc.clone(), dec(2, 2))).unwrap();
    exchange.valuate();
    exchange.position_mut(1).set_price(btc.clone(), dec(9999, 0));
    assert_eq!(
        exchange.pending_orders().unwrap_err(),
        ExecutionError::Bundle(bazaar::exchange::valued_bundle::BundleError::ValuationMismatch)
    );
}

#[test]
fn closed_position_cannot_be_moved_again() {
    let mut exchange = exchange_with_candle(dec(10000, 0));
    let btc = Symbol::perp("BTC");
    exchange.open(Position::new().long(btc.clone(), dec(1, 2))).unwrap();
    exchange.valuate();
    Simulate::execute(&mut exchange, fee()).unwrap();
    exchange.close_all();
    Simulate::execute(&mut exchange, fee()).unwrap();
    assert!(exchange.positions()[0].closed());
    exchange.position_mut(0).set_size(btc, dec(1, 2));
    assert_eq!(
        Simulate::execute(&mut exchange, fee()),
        Err(ExecutionError::Position(bazaar::exchange::position::PositionError::AlreadyClosed))
    );
}

#[test]
fn wallet_that_cannot_pay_stops_the_settlement() {
    let start = Time::from_millis(1_650_000_000_000);
    let mut exchange = Exchange::new(Asset::new("USD"), start);
    exchange.markets_mut().insert(btc_market());
    exchange.watch(Symbol::perp("BTC"));
    let key = CandleKey { market: Symbol::perp("BTC"), time: start, interval: Duration::minutes(1).unwrap() };
    exchange.append_candles(&Symbol::perp("BTC"), &vec![(key, Some(Candle { close: dec(10000, 0), volume: dec(0, 0) }))]);
    exchange.open(Position::new().long(Symbol::perp("BTC"), dec(1, 2))).unwrap();
    exchange.valuate();
    assert_eq!(
        Simulate::execute(&mut exchange, fee()),
        Err(ExecutionError::Wallet(bazaar::wallet::WalletError::NotEnoughTotal))
    );
    // Nothing has changed: the position was not resized.
    assert!(exchange.positions()[0].open_order().is_none());
}

#[test]
fn overflow_is_reported() {
    let btc = Symbol::perp("BTC");
    let max = Decimal::try_new(79228162514264337593543950335, 0).unwrap();
    let mut a = ValuedBundle::default();
    a.bundle.insert(btc.clone(), max);
    assert_eq!(a.add(&a).unwrap_err(), bazaar::exchange::valued_bundle::BundleError::Overflow);
    let mut position = Position::new();
    position.set_size(btc.clone(), max);
    position.set_price(btc.clone(), dec(2, 0));
    let order = position.order().unwrap();
    position.resize(order.clone()).unwrap();
    assert_eq!(position.value(), None);
    assert_eq!(position.resize(order), Err(bazaar::exchange::position::PositionError::Overflow));
    let mut exchange = Exchange::new(Asset::new("USD"), Time::from_millis(0));
    exchange.markets_mut().insert(btc_market());
    let mut big = Position::new();
    big.set_size(btc.clone(), max);
    big.set_price(btc, dec(2, 0));
    exchange.open(big).unwrap();
    // The order of a position that was priced but never clocked has no instant.
    assert_eq!(exchange.pending_orders().unwrap_err(), ExecutionError::NotValued);
    exchange.valuate();
    assert_eq!(exchange.total(), Some(dec(0, 0)));
}
