use bazaar::asset::Asset;
use bazaar::decimal::Decimal;
use bazaar::exchange::position::Position;
use bazaar::exchange::Exchange;
use bazaar::market::Symbol;
use bazaar::strategies::levels::{Action, Levels, Trigger};
use bazaar::strategies::strategy::{OnError, Settings, Strategy, StrategyError};
use bazaar::time::{Duration, Time};

fn dec(num: i64, scale: u32) -> Decimal {
    Decimal::new(num, scale)
}

struct Idle;

impl Strategy for Idle {
    fn name(&self) -> String {
        "Idle".to_string()
    }

    fn init(&mut self, _exchange: &mut Exchange) -> Result<Settings, StrategyError> {
        Ok(Settings::default())
    }

    fn eval(&mut self, _exchange: &mut Exchange) -> Result<(), StrategyError> {
        Ok(())
    }
}

fn long_at(price: i64) -> Position {
    let btc = Symbol::perp("BTC");
    let mut position = Position::new();
    position.set_price(btc.clone(), dec(price, 0));
    position.set_size(btc, dec(1, 0));
    let order = position.order().unwrap();
    position.resize(order).unwrap();
    position
}

fn exchange_with(position: Position) -> Exchange {
    let mut exchange = Exchange::new(Asset::new("USD"), Time::from_millis(1_650_000_000_000));
    exchange.open(position).unwrap_err();
    exchange
}

fn exchange_holding(price: i64) -> Exchange {
    let mut exchange = Exchange::new(Asset::new("USD"), Time::from_millis(1_650_000_000_000));
    exchange.markets_mut().insert(bazaar::market::MarketInfo {
        symbol: Symbol::perp("BTC"),
        min_size: dec(0, 0),
        size_increment: dec(0, 0),
        price_increment: dec(0, 0),
        daily_quote_volume: dec(0, 0),
    });
    exchange.open(long_at(price)).unwrap();
    exchange
}

fn set_price(exchange: &mut Exchange, price: i64) {
    exchange.position_mut(0).set_price(Symbol::perp("BTC"), dec(price, 0));
}

#[test]
fn trailing_stop() {
    let mut levels = Levels::new(Idle).add(Trigger::TrailingStopLoss(dec(1, 1)), Action::Close);
    let mut exchange = exchange_holding(100);
    let id = exchange.positions()[0].id();

    set_price(&mut exchange, 150);
    levels.eval(&mut exchange).unwrap();
    assert_eq!(levels.max_relative_pnl(id), Some(dec(5, 1)));
    assert!(!exchange.positions()[0].removable());

    // 0.3 is not above 0.5 - 0.1: the trigger fires and the position is asked to close.
    set_price(&mut exchange, 130);
    levels.eval(&mut exchange).unwrap();
    assert_eq!(levels.max_relative_pnl(id), Some(dec(5, 1)));
    assert!(exchange.positions()[0].removable());
    assert!(!exchange.has_quit());
}

#[test]
fn trailing_stop_holds_above_the_bound() {
    let mut levels = Levels::new(Idle).add(Trigger::TrailingStopLoss(dec(1, 1)), Action::Close);
    let mut exchange = exchange_holding(100);
    set_price(&mut exchange, 150);
    levels.eval(&mut exchange).unwrap();
    set_price(&mut exchange, 141);
    levels.eval(&mut exchange).unwrap();
    assert!(!exchange.positions()[0].removable());
    // At the bound itself the trigger fires.
    set_price(&mut exchange, 140);
    levels.eval(&mut exchange).unwrap();
    assert!(exchange.positions()[0].removable());
}

#[test]
fn stop_loss_and_take_profit() {
    let mut levels = Levels::new(Idle)
        .add(Trigger::StopLoss(dec(2, 1)), Action::CloseAllAndQuit)
        .add(Trigger::TakeProfit(dec(5, 1)), Action::Close);
    let mut exchange = exchange_holding(100);
    set_price(&mut exchange, 81);
    levels.eval(&mut exchange).unwrap();
    assert!(!exchange.positions()[0].removable());
    assert!(!exchange.has_quit());
    set_price(&mut exchange, 80);
    levels.eval(&mut exchange).unwrap();
    assert!(exchange.positions()[0].removable());
    assert!(exchange.has_quit());

    let mut levels = Levels::new(Idle).add(Trigger::TakeProfit(dec(5, 1)), Action::Close);
    let mut exchange = exchange_holding(100);
    set_price(&mut exchange, 149);
    levels.eval(&mut exchange).unwrap();
    assert!(!exchange.positions()[0].removable());
    set_price(&mut exchange, 150);
    levels.eval(&mut exchange).unwrap();
    assert!(exchange.positions()[0].removable());
}

#[test]
fn the_last_trigger_that_fires_decides() {
    let hour = Duration::hours(1).unwrap();
    let mut levels = Levels::new(Idle)
        .add(Trigger::TakeProfit(dec(1, 1)), Action::CloseAllAndQuit)
        .add(Trigger::TakeProfit(dec(2, 1)), Action::CloseAllAndTimeout(hour));
    let mut exchange = exchange_holding(100);
    set_price(&mut exchange, 130);
    levels.eval(&mut exchange).unwrap();
    assert!(!exchange.has_quit());
    assert!(exchange.positions()[0].removable());
    assert_eq!(levels.timeout_until(), Time::from_millis(1_650_000_000_000 + 3_600_000));
}

#[test]
fn position_cannot_be_entered_without_its_market() {
    let exchange = exchange_with(long_at(100));
    assert!(exchange.positions().is_empty());
}

#[test]
fn default_settings_and_error_policies() {
    assert_eq!(Settings::default().interval, Duration::minutes(1).unwrap());
    assert_eq!(Settings::default().on_error, OnError::ExitAllPositionsAndReturn);
    assert!(OnError::ExitAllPositionsAndResume.recovery().step);
    assert!(!OnError::ExitAllPositionsAndResume.recovery().propagate);
    assert!(!OnError::Return.recovery().exit_positions);
}

#[test]
fn levels_report_what_they_cannot_measure() {
    let max = Decimal::try_new(79228162514264337593543950335, 0).unwrap();
    let mut exchange = exchange_holding(100);
    set_price(&mut exchange, 300);
    // The highest relative profit, 2, less the threshold is out of range.
    let mut levels = Levels::new(Idle).add(Trigger::TrailingStopLoss(max.neg()), Action::Close);
    assert!(levels.eval(&mut exchange).is_err());
    assert_eq!(levels.apply(&mut exchange), Err(bazaar::strategies::levels::LevelsOverflow));
    assert!(!exchange.positions()[0].removable());
}

struct Failing;

impl Strategy for Failing {
    fn name(&self) -> String {
        "Failing".to_string()
    }

    fn init(&mut self, _exchange: &mut Exchange) -> Result<Settings, StrategyError> {
        Err(StrategyError::new("no settings"))
    }

    fn eval(&mut self, exchange: &mut Exchange) -> Result<(), StrategyError> {
        exchange.quit();
        Err(StrategyError::new("no idea"))
    }
}

#[test]
fn levels_hand_on_what_the_wrapped_strategy_returns() {
    let mut levels = Levels::new(Failing).add(Trigger::TakeProfit(dec(1, 1)), Action::Close);
    assert_eq!(levels.name(), "Failing");
    let mut exchange = exchange_holding(100);
    assert_eq!(levels.init(&mut exchange).unwrap_err().to_string(), "no settings");
    set_price(&mut exchange, 150);
    // The wrapped strategy fails: its error comes back and the positions are not looked at.
    assert_eq!(levels.eval(&mut exchange).unwrap_err().to_string(), "no idea");
    assert!(exchange.has_quit());
    assert!(!exchange.positions()[0].removable());
    assert_eq!(levels.max_relative_pnl(exchange.positions()[0].id()), None);
    let failed = levels.after_eval(Err(StrategyError::new("again")), &mut exchange);
    assert_eq!(failed.unwrap_err().to_string(), "again");
    assert!(!exchange.positions()[0].removable());
    // After a success the positions are looked at.
    assert!(levels.after_eval(Ok(()), &mut exchange).is_ok());
    assert!(exchange.positions()[0].removable());

    let mut idle = Levels::new(Idle);
    assert_eq!(idle.name(), "Idle");
    assert_eq!(idle.init(&mut exchange).unwrap().interval, Duration::minutes(1).unwrap());
    let max = Decimal::try_new(79228162514264337593543950335, 0).unwrap();
    let mut strict = Levels::new(Idle).add(Trigger::TrailingStopLoss(max.neg()), Action::Close);
    let mut rich = exchange_holding(100);
    set_price(&mut rich, 300);
    assert_eq!(
        strict.eval(&mut rich).unwrap_err().to_string(),
        "A level left the range of decimals."
    );
}
