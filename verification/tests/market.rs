use bazaar::decimal::Decimal;
use bazaar::exchange::bundle::Bundle;
use bazaar::exchange::position::{Position, PositionError};
use bazaar::exchange::valuation::Valuation;
use bazaar::market::{MarketInfo, Markets, Symbol};

fn dec(num: i64, scale: u32) -> Decimal {
    Decimal::new(num, scale)
}

fn info(name: &str, min_size: Decimal, size_increment: Decimal) -> MarketInfo {
    MarketInfo {
        symbol: Symbol::perp(name),
        min_size,
        size_increment,
        price_increment: dec(5, 1),
        daily_quote_volume: dec(0, 0),
    }
}

#[test]
fn symbol_text_round_trip() {
    let symbol = Symbol::perp("BTC");
    assert_eq!(symbol.to_string(), "BTC-PERP");
    assert_eq!(Symbol::new("BTC-PERP"), Some(symbol));
    assert_eq!(Symbol::new("-PERP"), Some(Symbol::perp("")));
    assert_eq!(Symbol::new("BTC"), None);
    assert_eq!(Symbol::new("BTC/USD"), None);
    assert_eq!(Symbol::new("BTC-PERPS"), None);
    assert_eq!(Symbol::new("BTC-USD-PERP"), None);
    assert_eq!(Symbol::new("BTC_PERP"), None);
    assert_eq!(Symbol::new(""), None);
    assert_eq!(Symbol::new("ÄÖ-PERP").map(|s| s.to_string()), Some("ÄÖ-PERP".to_string()));
}

#[test]
fn markets_hold_one_entry_for_each_symbol() {
    let mut markets = Markets::new();
    assert!(markets.is_fresh());
    markets.insert(info("BTC", dec(1, 3), dec(1, 4)));
    markets.insert(info("ETH", dec(1, 2), dec(1, 3)));
    markets.insert(info("BTC", dec(2, 3), dec(0, 0)));
    assert!(!markets.is_fresh());
    assert_eq!(markets.len(), 2);
    assert_eq!(markets.market(&Symbol::perp("BTC")).unwrap().min_size, dec(2, 3));
    assert_eq!(markets.get(1).symbol, Symbol::perp("ETH"));
    assert!(markets.market(&Symbol::perp("SOL")).is_none());
    let again = Markets::from_infos(vec![
        info("BTC", dec(1, 3), dec(1, 4)),
        info("BTC", dec(2, 3), dec(0, 0)),
    ]);
    assert_eq!(again.len(), 1);
    assert_eq!(again.get(0).min_size, dec(2, 3));
}

#[test]
fn sizes_are_raised_to_the_increment() {
    let market = info("BTC", dec(0, 0), dec(25, 2));
    assert_eq!(market.round_size(dec(1, 0)), Some(dec(1, 0)));
    assert_eq!(market.round_size(dec(101, 2)), Some(dec(125, 2)));
    assert_eq!(market.round_size(dec(-101, 2)), Some(dec(-1, 0)));
    assert_eq!(market.round_size(dec(-26, 2)), Some(dec(-25, 2)));
    assert_eq!(market.round_price(dec(101, 2)), Some(dec(15, 1)));
    let free = info("BTC", dec(0, 0), dec(0, 0));
    assert_eq!(free.round_size(dec(1234567, 6)), Some(dec(1234567, 6)));
}

#[test]
fn fit_without_increment_leaves_next_size_unchanged() {
    let mut markets = Markets::new();
    markets.insert(info("BTC", dec(1, 3), dec(0, 0)));
    let btc = Symbol::perp("BTC");
    let mut position = Position::new().long(btc.clone(), dec(123456, 5));
    position.set_price(btc.clone(), dec(10000, 0));
    assert_eq!(position.fit(&markets), Ok(dec(0, 0)));
    assert_eq!(position.size(&btc), dec(123456, 5));
    assert_eq!(position.next_size().quantity(&btc).mantissa(), 123456);
}

#[test]
fn fit_rounds_the_order_up_and_values_the_change() {
    let mut markets = Markets::new();
    markets.insert(info("BTC", dec(1, 3), dec(1, 2)));
    let btc = Symbol::perp("BTC");
    let mut position = Position::new().long(btc.clone(), dec(1234, 3));
    position.set_price(btc.clone(), dec(10000, 0));
    // 1.234 is raised to 1.24; the 0.006 more are worth 60.
    assert_eq!(position.fit(&markets), Ok(dec(60, 0)));
    assert_eq!(position.size(&btc), dec(124, 2));
    let mut short = Position::new().short(btc.clone(), dec(1234, 3));
    short.set_price(btc.clone(), dec(10000, 0));
    // -1.234 is raised towards positive infinity, to -1.23.
    assert_eq!(short.fit(&markets), Ok(dec(40, 0)));
    assert_eq!(short.size(&btc), dec(-123, 2));
}

#[test]
fn order_below_min_size_is_snapped_back() {
    let mut markets = Markets::new();
    markets.insert(info("BTC", dec(1, 1), dec(1, 2)));
    let btc = Symbol::perp("BTC");
    let mut position = Position::new().long(btc.clone(), dec(5, 0));
    position.set_price(btc.clone(), dec(100, 0));
    let order = position.order().unwrap();
    position.resize(order).unwrap();
    // Wanting 5.05 when 5 are held is an order of 0.05, below the smallest order of 0.1.
    position.set_size(btc.clone(), dec(505, 2));
    assert_eq!(position.fit(&markets), Ok(dec(5, 0)));
    assert_eq!(position.size(&btc), dec(5, 0));
    // Wanting 5.1 is an order of exactly the smallest size.
    position.set_size(btc.clone(), dec(51, 1));
    assert_eq!(position.fit(&markets), Ok(dec(0, 0)));
    assert_eq!(position.size(&btc), dec(51, 1));
}

#[test]
fn fit_needs_the_market() {
    let markets = Markets::new();
    let btc = Symbol::perp("BTC");
    let mut position = Position::new().long(btc.clone(), dec(5, 0));
    assert_eq!(position.fit(&markets), Err(PositionError::UnknownMarket));
    assert_eq!(position.size(&btc), dec(5, 0));
}

#[test]
fn bundle_algebra_on_numbers() {
    let btc = Symbol::perp("BTC");
    let eth = Symbol::perp("ETH");
    let sol = Symbol::perp("SOL");
    let mut a = Bundle::default();
    a.insert(btc.clone(), dec(15, 1));
    a.insert(eth.clone(), dec(-2, 0));
    let mut b = Bundle::default();
    b.insert(eth.clone(), dec(5, 1));
    b.insert(sol.clone(), dec(3, 0));

    let sum = a.add(&b).unwrap();
    assert_eq!(sum.quantity(&btc), dec(15, 1));
    assert_eq!(sum.quantity(&eth), dec(-15, 1));
    assert_eq!(sum.quantity(&sol), dec(3, 0));
    let back = sum.sub(&b).unwrap();
    for s in [&btc, &eth, &sol] {
        assert_eq!(back.quantity(s), a.quantity(s));
    }
    assert!(!back.same(&a));
    assert!(a.neg().abs().same(&a.abs()));
    assert_eq!(a.neg().quantity(&eth), dec(2, 0));
    assert_eq!(a.signum().quantity(&eth), dec(-1, 0));
    assert_eq!(a.signum().quantity(&btc), dec(1, 0));
    let product = a.mul(&b).unwrap();
    assert_eq!(product.quantity(&btc), dec(15, 1));
    assert_eq!(product.quantity(&eth), dec(-1, 0));
    assert_eq!(product.quantity(&sol), dec(0, 0));

    let mut v = Valuation::default();
    v.insert(btc.clone(), dec(10000, 0));
    v.insert(eth.clone(), dec(1000, 0));
    v.insert(sol.clone(), dec(50, 0));
    // 1.5 * 10000 - 2 * 1000 + 0 * 50
    assert_eq!(a.value_at(&v), Some(dec(13000, 0)));
    assert_eq!(a.abs().value_at(&v), Some(dec(17000, 0)));
    assert_eq!(a.value_at(&Valuation::default()), Some(dec(0, 0)));
    assert_eq!(a.get(&sol), None);
    assert_eq!(a.len(), 2);
    a.clear();
    assert!(a.is_all_zero());
    assert_eq!(a.len(), 2);
}

#[test]
fn position_symbols_and_lifecycle() {
    let btc = Symbol::perp("BTC");
    let eth = Symbol::perp("ETH");
    let mut position = Position::new();
    assert!(position.symbols().is_empty());
    // A result that moves nothing does not open the position.
    let nothing = position.order().unwrap();
    position.resize(nothing).unwrap();
    assert!(position.open_order().is_none());
    position.set_size(btc.clone(), dec(1, 0));
    position.set_size(eth.clone(), dec(0, 0));
    let order = position.order().unwrap();
    position.resize(order).unwrap();
    assert!(position.open_order().is_some());
    assert!(!position.closed());
    assert_eq!(position.symbols(), vec![btc.clone()]);
    // Holding on: a result that moves nothing neither closes nor reopens.
    let hold = position.order().unwrap();
    position.resize(hold).unwrap();
    assert!(!position.closed());
    assert!(!position.removable());
    position.close();
    assert!(position.removable());
    let order = position.order().unwrap();
    position.resize(order).unwrap();
    assert!(position.closed());
    // A closed position goes on taking results that move nothing, and nothing else.
    let nothing = position.order().unwrap();
    assert_eq!(position.resize(nothing), Ok(()));
    assert!(position.closed());
    position.set_size(btc.clone(), dec(1, 0));
    let again = position.order().unwrap();
    assert_eq!(position.resize(again), Err(PositionError::AlreadyClosed));
    assert!(position.closed());
    let other = Position::new();
    assert_ne!(position.id(), other.id());
}

#[test]
fn identifiers_are_random_uuids() {
    let id = Position::new().id();
    assert_eq!((id >> 76) & 0xf, 4);
    assert_eq!((id >> 62) & 0x3, 2);
    assert_eq!(uuid::Uuid::from_u128(id).get_version_num(), 4);
}
