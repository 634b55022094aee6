pub mod apis;
pub mod asset;
pub mod candle;
pub mod decimal;
pub mod exchange;
pub mod id;
pub mod ledger;
pub mod market;
pub mod order;
pub mod strategies;
pub mod time;
pub mod wallet;

pub use apis::ApiError;
pub use asset::Asset;
pub use candle::{Candle, CandleKey};
pub use decimal::Decimal;
pub use exchange::execution::ExecutionError;
pub use exchange::position::{Position, PositionError};
pub use exchange::{Exchange, PrepareError};
pub use market::{MarketInfo, Markets, Symbol};
pub use order::{Order, OrderInfo, OrderType, Side};
pub use time::{Duration, Time};
pub use wallet::{Wallet, WalletError};

use vstd::prelude::*;
use apis::forward_fill::{Cache, ForwardFill};
use apis::simulate::Simulate;
use decimal::Dec;
use time::MILLIS_PER_DAY;
use wallet::Balances;

verus! {

/// The first instant of the year 2021 in UTC, in milliseconds since the epoch.
pub const START_OF_2021: i64 = 1609459200000;

/// The settings of a run.
#[derive(Debug, Clone, Copy)]
pub struct Bazaar {
    /// The start capital for simulated backtesting in USD.
    pub start_capital: Decimal,
    /// The start time for backtesting.
    pub start_time: Time,
    /// The maximum forward fill duration for backtesting.
    pub forward_fill: Duration,
}

impl Default for Bazaar {
    /// A thousand USD, from the first instant of 2021, with gaps of up to a day filled.
    fn default() -> (r: Bazaar)
        ensures
            r.start_capital@ == (Dec { m: 1000, e: 0 }),
            r.start_time == match Time::calendar(2021, 1, 1, 0, 0, 0) {
                Some(t) => t,
                None => Time { millis: START_OF_2021 },
            },
            r.forward_fill.millis == MILLIS_PER_DAY,
    {
        Bazaar {
            start_capital: Decimal::new(1000, 0),
            start_time: match Time::from_ymd_hms(2021, 1, 1, 0, 0, 0) {
                Some(t) => t,
                None => Time::from_millis(START_OF_2021),
            },
            forward_fill: Duration::milliseconds(MILLIS_PER_DAY),
        }
    }
}

impl Bazaar {
    /// The layers of a backtest: the simulation, which starts from a
    /// wallet with the start capital in `quote`, and the forward fill with
    /// its longest gap. `None` where the start capital is negative.
    pub fn backtest(&self, quote: &Asset) -> (r: Option<(Simulate, ForwardFill)>)
        ensures
            r.is_some() == Dec::zero().le(self.start_capital@),
            r matches Some((simulate, fill)) ==> Ok::<Balances, WalletError>(
                simulate.start_wallet(),
            ) == (Balances {
                total: Seq::empty(),
                free: Seq::empty(),
            }).deposit(self.start_capital@, quote@) && fill.cache() == Cache::empty() && fill.max()
                == self.forward_fill,
    {
        if self.start_capital.lt(&Decimal::zero()) {
            return None;
        }
        let mut wallet = Wallet::new();
        match wallet.deposit(self.start_capital, quote) {
            Ok(()) => Some((Simulate::new(wallet), ForwardFill::new(self.forward_fill))),
            Err(_) => {
                proof {
                    let empty = Balances {
                        total: Seq::<(Seq<char>, Dec)>::empty(),
                        free: Seq::<(Seq<char>, Dec)>::empty(),
                    };
                    assert(empty.total_of(quote@) == Dec::zero());
                    assert(empty.free_of(quote@) == Dec::zero());
                }
                None
            },
        }
    }
}

} // verus!
