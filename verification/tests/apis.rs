use bazaar::apis::dense::dense_candles;
use bazaar::apis::forward_fill::{ForwardFill, GapTooLarge};
use bazaar::apis::monitor::{Monitor, Record};
use bazaar::apis::simulate::Simulate;
use bazaar::apis::store::{
    blob_to_dec, chunk_bounds, contiguous_prefix, dec_to_blob, from_row, insert_statement, to_row,
    CorruptRow, Row,
};
use bazaar::apis::ApiError;
use bazaar::asset::Asset;
use bazaar::candle::{Candle, CandleKey};
use bazaar::decimal::Decimal;
use bazaar::market::{MarketInfo, Markets, Symbol};
use bazaar::time::{Duration, Time};
use bazaar::wallet::Wallet;
use bazaar::Bazaar;
use chrono::{TimeZone, Utc};

fn dec(num: i64, scale: u32) -> Decimal {
    Decimal::new(num, scale)
}

fn minute() -> Duration {
    Duration::minutes(1).unwrap()
}

fn key(minutes: i64) -> CandleKey {
    CandleKey {
        market: Symbol::perp("BTC"),
        time: Time::from_millis(minutes * 60_000),
        interval: minute(),
    }
}

fn candle(close: i64) -> Candle {
    Candle { close: dec(close, 0), volume: dec(1, 0) }
}

#[test]
fn forward_fill_passes_a_dense_sequence_on() {
    let mut fill = ForwardFill::new(Duration::hours(1).unwrap());
    let now = Time::from_millis(1_000 * 60_000);
    let candles = vec![(key(0), Some(candle(100))), (key(1), Some(candle(101)))];
    let out = fill.get_candles(&key(0), candles.clone(), now).unwrap();
    assert_eq!(out, candles);
    assert_eq!(
        fill.last_seen(&Symbol::perp("BTC"), minute()),
        Some((Time::from_millis(60_000), candle(101)))
    );
}

#[test]
fn forward_fill_puts_the_last_candle_into_a_gap() {
    let mut fill = ForwardFill::new(Duration::hours(1).unwrap());
    let now = Time::from_millis(1_000 * 60_000);
    let candles = vec![
        (key(0), None),
        (key(1), Some(candle(100))),
        (key(2), None),
        (key(3), Some(candle(103))),
        (key(4), None),
    ];
    let out = fill.get_candles(&key(0), candles, now).unwrap();
    assert_eq!(
        out,
        vec![
            (key(0), None),
            (key(1), Some(candle(100))),
            (key(2), Some(candle(100))),
            (key(3), Some(candle(103))),
            (key(4), Some(candle(103))),
        ]
    );
    // Nothing came: the last candle seen stands in.
    let out = fill.get_candles(&key(5), Vec::new(), now).unwrap();
    assert_eq!(out, vec![(key(5), Some(candle(103)))]);
}

#[test]
fn forward_fill_gap() {
    let mut fill = ForwardFill::new(Duration::hours(1).unwrap());
    let now = Time::from_millis(1_000 * 60_000);
    fill.get_candles(&key(0), vec![(key(0), Some(candle(100)))], now).unwrap();
    // Sixty minutes later the candle is still good; ninety minutes later it is stale.
    assert_eq!(
        fill.get_candles(&key(60), Vec::new(), now),
        Ok(vec![(key(60), Some(candle(100)))])
    );
    let stale =
        GapTooLarge { time: Time::from_millis(90 * 60_000), last_seen: Time::from_millis(0) };
    assert_eq!(fill.get_candles(&key(90), Vec::new(), now), Err(stale));
    assert_eq!(fill.get_candles(&key(90), vec![(key(90), None)], now), Err(stale));
}

#[test]
fn forward_fill_leaves_the_future_alone() {
    let mut fill = ForwardFill::new(Duration::hours(1).unwrap());
    let now = Time::from_millis(10 * 60_000);
    // Less than two intervals before now: nothing is returned rather than a missing candle.
    assert_eq!(fill.get_candles(&key(8), Vec::new(), now), Ok(Vec::new()));
    assert_eq!(fill.get_candles(&key(9), Vec::new(), now), Ok(Vec::new()));
    // Without anything seen, an older request is answered by the mark that there is no candle.
    assert_eq!(fill.get_candles(&key(7), Vec::new(), now), Ok(vec![(key(7), None)]));
    let candles = vec![(key(6), Some(candle(100))), (key(7), None), (key(8), None), (key(9), None)];
    let out = fill.get_candles(&key(6), candles, now).unwrap();
    assert_eq!(
        out,
        vec![(key(6), Some(candle(100))), (key(7), Some(candle(100))), (key(8), None), (key(9), None)]
    );
}

#[test]
fn store_rows_round_trip() {
    let k = CandleKey {
        market: Symbol::perp("BTC"),
        time: Time::from_millis(1_627_776_000_000),
        interval: minute(),
    };
    let c = Some(Candle { close: dec(4123456, 2), volume: dec(-5, 1) });
    let row = to_row(&k, &c);
    assert_eq!(row.market, "BTC-PERP");
    assert_eq!(row.timestamp, 1_627_776_000);
    assert_eq!(row.timestamp, Utc.with_ymd_and_hms(2021, 8, 1, 0, 0, 0).unwrap().timestamp());
    assert_eq!(row.interval, 60);
    assert_eq!(row.close.as_ref().map(|b| b.len()), Some(16));
    assert_eq!(from_row(&row), Some((k.clone(), c)));
    let none = to_row(&k, &None);
    assert_eq!(none.close, None);
    assert_eq!(none.volume, None);
    assert_eq!(from_row(&none), Some((k, None)));
    let blob = dec_to_blob(dec(-15, 1));
    assert_eq!(blob_to_dec(&blob).map(|d| (d.mantissa(), d.scale())), Some((-15, 1)));
    assert_eq!(blob_to_dec(&vec![0u8; 15]), None);
}

fn row(minutes: i64, close: Option<i64>) -> Row {
    to_row(&key(minutes), &close.map(candle))
}

#[test]
fn store_returns_the_rows_up_to_the_first_gap() {
    let rows = vec![row(3, Some(100)), row(4, None), row(5, Some(102)), row(7, Some(103))];
    let out = contiguous_prefix(&key(3), &rows).unwrap();
    assert_eq!(
        out,
        vec![(key(3), Some(candle(100))), (key(4), None), (key(5), Some(candle(102)))]
    );
    // The first row is not the one asked for: nothing is in store for this key.
    assert_eq!(contiguous_prefix(&key(2), &rows), Ok(Vec::new()));
    assert_eq!(contiguous_prefix(&key(3), &Vec::new()), Ok(Vec::new()));
}

#[test]
fn store_refuses_rows_it_never_wrote() {
    let mut half = row(3, Some(100));
    half.volume = None;
    assert_eq!(contiguous_prefix(&key(3), &vec![half]), Err(CorruptRow { index: 0 }));
    let mut short = row(4, Some(100));
    short.close = Some(vec![1, 2, 3]);
    assert_eq!(
        contiguous_prefix(&key(3), &vec![row(3, None), short]),
        Err(CorruptRow { index: 1 })
    );
    let mut named = row(3, None);
    named.market = "BTC".to_string();
    assert_eq!(contiguous_prefix(&key(3), &vec![named]), Err(CorruptRow { index: 0 }));
    // A row after the first gap is not looked at.
    let mut late = row(9, None);
    late.market = "?".to_string();
    assert_eq!(contiguous_prefix(&key(3), &vec![row(3, None), row(5, None), late]).unwrap().len(), 1);
}

#[test]
fn store_inserts_in_chunks_of_a_hundred() {
    assert_eq!(chunk_bounds(0), Vec::new());
    assert_eq!(chunk_bounds(1), vec![(0, 1)]);
    assert_eq!(chunk_bounds(100), vec![(0, 100)]);
    assert_eq!(chunk_bounds(250), vec![(0, 100), (100, 200), (200, 250)]);
    assert_eq!(chunk_bounds(5000).len(), 50);
}

#[test]
fn simulate_only_fills_a_fresh_wallet() {
    let usd = Asset::new("USD");
    let mut start = Wallet::new();
    start.deposit(dec(1000, 0), &usd).unwrap();
    let simulate = Simulate::new(start);
    let mut wallet = Wallet::new();
    simulate.update_wallet(&mut wallet);
    assert_eq!(wallet.total(&usd), dec(1000, 0));
    assert_eq!(wallet.free(&usd), dec(1000, 0));
    wallet.reserve(dec(100, 0), &usd).unwrap();
    wallet.withdraw(dec(100, 0), &usd).unwrap();
    simulate.update_wallet(&mut wallet);
    assert_eq!(wallet.total(&usd), dec(900, 0));
    let mut markets = Markets::new();
    assert!(Simulate::delegates_markets(&markets));
    markets.insert(MarketInfo {
        symbol: Symbol::perp("BTC"),
        min_size: dec(0, 0),
        size_increment: dec(0, 0),
        price_increment: dec(0, 0),
        daily_quote_volume: dec(0, 0),
    });
    assert!(!Simulate::delegates_markets(&markets));
}

#[test]
fn monitor_records_equity_at_the_full_hour() {
    let monitor = Monitor::new();
    let at_hour = Time::from_millis(1_627_776_000_000);
    match monitor.status(at_hour, dec(1000, 0)) {
        Some(Record::Equity(e)) => {
            assert_eq!(e.total, dec(1000, 0));
            assert_eq!(e.time, at_hour);
        }
        other => panic!("no equity record: {:?}", other),
    }
    assert!(monitor.status(Time::from_millis(1_627_776_060_000), dec(1000, 0)).is_none());
    match monitor.hello("Crossover", "FTX", false) {
        Record::Session(s) => {
            assert_eq!(s.id, monitor.session_id());
            assert_eq!(s.name, "Crossover");
            assert_eq!(s.exchange, "FTX");
            assert!(!s.live_trading);
        }
        other => panic!("no session record: {:?}", other),
    }
}

#[test]
fn default_run_settings() {
    let settings = Bazaar::default();
    assert_eq!(settings.start_capital, dec(1000, 0));
    assert_eq!(
        settings.start_time.millis,
        Utc.with_ymd_and_hms(2021, 1, 1, 0, 0, 0).unwrap().timestamp_millis()
    );
    assert_eq!(settings.forward_fill, Duration::days(1).unwrap());
    let usd = Asset::new("USD");
    let (simulate, fill) = settings.backtest(&usd).unwrap();
    let mut wallet = Wallet::new();
    simulate.update_wallet(&mut wallet);
    assert_eq!(wallet.total(&usd), dec(1000, 0));
    assert_eq!(fill.max_duration(), Duration::days(1).unwrap());
    let broke = Bazaar { start_capital: dec(-1, 0), ..settings };
    assert!(broke.backtest(&usd).is_none());
}

#[test]
fn error_messages() {
    assert_eq!(ApiError::Network.to_string(), "Could not connect to the API.");
    assert_eq!(ApiError::Api.to_string(), "Internal API error.");
    assert_eq!(bazaar::wallet::WalletError::NotEnoughTotal.to_string(), "Not enough total available.");
    assert_eq!(bazaar::wallet::WalletError::NotEnoughReserved.to_string(), "Not enough reserved.");
    assert_eq!(bazaar::exchange::PrepareError::MarketClosed.to_string(), "Market closed.");
}

#[test]
fn dense_candles_mark_what_the_venue_lacks() {
    let now = Time::from_millis(10 * 60_000);
    let venue = vec![(key(2), candle(100)), (key(3), candle(101)), (key(6), candle(102))];
    let out = dense_candles(&key(1), &venue, now).unwrap();
    assert_eq!(
        out,
        vec![
            (key(1), None),
            (key(2), Some(candle(100))),
            (key(3), Some(candle(101))),
            (key(4), None),
            (key(5), None),
            (key(6), Some(candle(102))),
            (key(7), None),
        ]
    );
    // Instants less than two intervals before now are left out, not marked as missing.
    assert_eq!(dense_candles(&key(8), &Vec::new(), now), Some(Vec::new()));
    assert_eq!(dense_candles(&key(7), &Vec::new(), now), Some(vec![(key(7), None)]));
    // Long ago, the whole window is marked.
    let long_after = Time::from_millis(10_000 * 60_000);
    assert_eq!(dense_candles(&key(0), &Vec::new(), long_after).unwrap().len(), 5000);
    // A candle that is not on the grid of the request is never reached: the window fills up.
    let off = vec![(CandleKey { time: Time::from_millis(90_000), ..key(0) }, candle(1))];
    let out = dense_candles(&key(0), &off, long_after).unwrap();
    assert_eq!(out.len(), 5000);
    assert!(out.iter().all(|e| e.1.is_none()));
    let still = CandleKey { interval: Duration::zero(), ..key(0) };
    assert_eq!(dense_candles(&still, &Vec::new(), now), None);
}

#[test]
fn store_insert_statement_numbers_its_parameters() {
    let head = "INSERT OR IGNORE INTO data (market, timestamp, close, volume, interval) VALUES ";
    assert_eq!(insert_statement(1), format!("{}($1,$2,$3,$4,$5)", head));
    assert_eq!(insert_statement(3), format!("{}($1,$2,$3,$4,$5),($6,$7,$8,$9,$10),($11,$12,$13,$14,$15)", head));
    assert!(insert_statement(100).ends_with(",($496,$497,$498,$499,$500)"));
    assert_eq!(insert_statement(0), head);
}

fn long_run(len: i64) -> Vec<(CandleKey, Option<Candle>)> {
    (0..len).map(|i| (key(i), if i % 7 == 3 { None } else { Some(candle(100 + i)) })).collect()
}

#[test]
fn store_api() {
    let venue = long_run(150);
    let rows: Vec<Row> = venue.iter().map(|(k, c)| to_row(k, c)).collect();
    let stored = contiguous_prefix(&key(0), &rows).unwrap();
    assert!(venue.len() > 100);
    assert!(stored.len() > 100);
    assert!(venue.into_iter().zip(stored).all(|(a, b)| a == b));
}

#[test]
fn forward_fill_api() {
    let venue: Vec<(CandleKey, Option<Candle>)> =
        (0..150).map(|i| (key(i), Some(candle(100 + i)))).collect();
    let mut fill = ForwardFill::new(Duration::hours(1).unwrap());
    let filled = fill.get_candles(&key(0), venue.clone(), Time::from_millis(1_000 * 60_000)).unwrap();
    assert!(venue.len() > 100);
    assert!(filled.len() > 100);
    assert!(venue.into_iter().zip(filled).all(|(a, b)| a == b));
}
