use bazaar::decimal::Decimal;
use bazaar::exchange::position::Position;
use bazaar::market::Symbol;

fn dec(num: i64, scale: u32) -> Decimal {
    Decimal::new(num, scale)
}

#[test]
fn position_simple_neutral() {
    let mut position = Position::default();

    position.set_price(Symbol::perp("BTC"), dec(10000, 0));
    position.set_price(Symbol::perp("ETH"), dec(1000, 0));

    assert_eq!(position.pnl(), Some(dec(0, 0)));
    assert_eq!(position.relative_pnl(), Some(dec(0, 0)));
    assert_eq!(position.value(), Some(dec(0, 0)));

    position.set_size(Symbol::perp("BTC"), dec(1, 0));
    position.set_size(Symbol::perp("ETH"), dec(-10, 0));

    let order = position.order().unwrap();
    position.resize(order).unwrap();

    assert_eq!(position.pnl(), Some(dec(0, 0)));
    assert_eq!(position.relative_pnl(), Some(dec(0, 0)));
    assert_eq!(position.value(), Some(dec(20000, 0)));

    position.set_price(Symbol::perp("BTC"), dec(20000, 0));
    position.set_price(Symbol::perp("ETH"), dec(2000, 0));

    assert_eq!(position.pnl(), Some(dec(0, 0)));
    assert_eq!(position.relative_pnl(), Some(dec(0, 0)));
    assert_eq!(position.value(), Some(dec(20000, 0)));

    position.set_price(Symbol::perp("BTC"), dec(20000, 0));
    position.set_price(Symbol::perp("ETH"), dec(1000, 0));

    assert_eq!(position.pnl(), Some(dec(10000, 0)));
    assert_eq!(position.relative_pnl(), Some(dec(5, 1)));
    assert_eq!(position.value(), Some(dec(30000, 0)));
}

#[test]
fn position_simple_long_pnl() {
    let mut position = Position::default();

    position.set_price(Symbol::perp("BTC"), dec(10000, 0));
    assert_eq!(position.pnl(), Some(dec(0, 0)));

    position.set_size(Symbol::perp("BTC"), dec(1, 0));
    let order = position.order().unwrap();
    position.resize(order).unwrap();
    assert_eq!(position.pnl(), Some(dec(0, 0)));

    position.set_price(Symbol::perp("BTC"), dec(20000, 0));
    assert_eq!(position.pnl(), Some(dec(10000, 0)));
}

#[test]
fn position_simple_short_pnl() {
    let mut position = Position::default();

    position.set_price(Symbol::perp("BTC"), dec(10000, 0));
    assert_eq!(position.pnl(), Some(dec(0, 0)));

    position.set_size(Symbol::perp("BTC"), dec(-1, 0));
    let order = position.order().unwrap();
    position.resize(order).unwrap();
    assert_eq!(position.pnl(), Some(dec(0, 0)));

    position.set_price(Symbol::perp("BTC"), dec(5000, 0));
    assert_eq!(position.pnl(), Some(dec(5000, 0)));
}

#[test]
fn position_simple_long_relative_pnl() {
    let mut position = Position::default();

    position.set_price(Symbol::perp("BTC"), dec(10000, 0));
    assert_eq!(position.relative_pnl(), Some(dec(0, 0)));

    position.set_size(Symbol::perp("BTC"), dec(1, 0));
    let order = position.order().unwrap();
    position.resize(order).unwrap();
    assert_eq!(position.relative_pnl(), Some(dec(0, 0)));

    position.set_price(Symbol::perp("BTC"), dec(5000, 0));
    assert_eq!(position.relative_pnl(), Some(dec(-5, 1)));

    position.set_price(Symbol::perp("BTC"), dec(20000, 0));
    assert_eq!(position.relative_pnl(), Some(dec(10, 1)));
}

#[test]
fn position_simple_short_relative_pnl() {
    let mut position = Position::default();

    position.set_price(Symbol::perp("BTC"), dec(10000, 0));
    assert_eq!(position.relative_pnl(), Some(dec(0, 0)));

    position.set_size(Symbol::perp("BTC"), dec(-1, 0));
    let order = position.order().unwrap();
    position.resize(order).unwrap();
    assert_eq!(position.relative_pnl(), Some(dec(0, 0)));

    position.set_price(Symbol::perp("BTC"), dec(5000, 0));
    assert_eq!(position.relative_pnl(), Some(dec(5, 1)));

    position.set_price(Symbol::perp("BTC"), dec(20000, 0));
    assert_eq!(position.relative_pnl(), Some(dec(-10, 1)));
}

#[test]
fn position_simple_long_value() {
    let mut position = Position::default();

    position.set_price(Symbol::perp("BTC"), dec(10000, 0));
    assert_eq!(position.value(), Some(dec(0, 0)));

    position.set_size(Symbol::perp("BTC"), dec(1, 0));
    let order = position.order().unwrap();
    position.resize(order).unwrap();
    assert_eq!(position.value(), Some(dec(10000, 0)));

    position.set_price(Symbol::perp("BTC"), dec(5000, 0));
    assert_eq!(position.value(), Some(dec(5000, 0)));

    position.set_price(Symbol::perp("BTC"), dec(20000, 0));
    assert_eq!(position.value(), Some(dec(20000, 0)));
}

#[test]
fn position_simple_short_value() {
    let mut position = Position::default();

    position.set_price(Symbol::perp("BTC"), dec(10000, 0));
    assert_eq!(position.value(), Some(dec(0, 0)));

    position.set_size(Symbol::perp("BTC"), dec(-1, 0));
    let order = position.order().unwrap();
    position.resize(order).unwrap();
    assert_eq!(position.value(), Some(dec(10000, 0)));

    position.set_price(Symbol::perp("BTC"), dec(5000, 0));
    assert_eq!(position.value(), Some(dec(15000, 0)));

    position.set_price(Symbol::perp("BTC"), dec(20000, 0));
    assert_eq!(position.value(), Some(dec(0, 0)));
}

#[test]
fn long_close() {
    let mut position = Position::default();

    position.set_price(Symbol::perp("BTC"), dec(10000, 0));
    assert_eq!(position.value(), Some(dec(0, 0)));

    position.set_size(Symbol::perp("BTC"), dec(1, 0));
    let order = position.order().unwrap();
    position.resize(order).unwrap();
    assert_eq!(position.value(), Some(dec(10000, 0)));

    position.set_price(Symbol::perp("BTC"), dec(5000, 0));
    assert_eq!(position.value(), Some(dec(5000, 0)));

    position.close();
    let order = position.order().unwrap();
    position.resize(order).unwrap();

    assert_eq!(position.value(), Some(dec(5000, 0)));
}

#[test]
fn short_close() {
    let mut position = Position::default();

    position.set_price(Symbol::perp("BTC"), dec(10000, 0));
    assert_eq!(position.value(), Some(dec(0, 0)));

    position.set_size(Symbol::perp("BTC"), dec(-1, 0));
    let order = position.order().unwrap();
    position.resize(order).unwrap();
    assert_eq!(position.value(), Some(dec(10000, 0)));

    position.set_price(Symbol::perp("BTC"), dec(5000, 0));
    assert_eq!(position.value(), Some(dec(15000, 0)));

    position.close();
    let order = position.order().unwrap();
    position.resize(order).unwrap();

    assert_eq!(position.value(), Some(dec(15000, 0)));
}
