use vstd::prelude::*;
use crate::decimal::{Dec, Decimal};
use crate::ledger::Key;
use crate::market::{Symbol, SymbolId};
use crate::time::{Duration, Time};

verus! {

/// The price and the traded volume at the end of one interval.
#[derive(Clone, Copy, Debug, PartialEq, Eq)]
pub struct Candle {
    pub close: Decimal,
    pub volume: Decimal,
}

/// The mathematical content of a candle.
pub struct Bar {
    pub close: Dec,
    pub volume: Dec,
}

impl View for Candle {
    type V = Bar;

    open spec fn view(&self) -> Bar {
        Bar { close: self.close@, volume: self.volume@ }
    }
}

impl Candle {
    /// The content of an optional candle.
    pub open spec fn model(c: Option<Candle>) -> Option<Bar> {
        match c {
            Some(c) => Some(c@),
            None => None,
        }
    }
}

/// What identifies a candle: the market, the start of the interval and its length.
#[derive(Debug, PartialEq, Eq, Hash)]
pub struct CandleKey {
    pub market: Symbol,
    pub time: Time,
    pub interval: Duration,
}

/// The mathematical identity of a candle key.
pub struct Slot {
    pub market: SymbolId,
    pub time: Time,
    pub interval: Duration,
}

impl Slot {
    /// The same key at another instant.
    pub open spec fn at(self, time: Time) -> Slot {
        Slot { market: self.market, time, interval: self.interval }
    }

    /// The key `n` intervals later, where that instant can be written.
    pub open spec fn step(self, n: int) -> Option<Slot> {
        match Time::of(self.time.millis + n * self.interval.millis) {
            Some(time) => Some(self.at(time)),
            None => None,
        }
    }
}

impl View for CandleKey {
    type V = Slot;

    open spec fn view(&self) -> Slot {
        Slot { market: self.market@, time: self.time, interval: self.interval }
    }
}

impl Clone for CandleKey {
    fn clone(&self) -> (r: CandleKey)
        ensures
            r@ == self@,
    {
        CandleKey { market: self.market.clone(), time: self.time, interval: self.interval }
    }
}

impl CandleKey {
    /// Whether all three components match.
    pub fn same(&self, other: &CandleKey) -> (r: bool)
        ensures
            r == (self@ == other@),
    {
        self.market.same(&other.market) && self.time.millis == other.time.millis
            && self.interval.millis == other.interval.millis
    }

    /// The key of the following interval.
    pub fn next(&self) -> (r: Option<CandleKey>)
        ensures
            r.is_some() == self@.step(1).is_some(),
            r matches Some(k) ==> Some(k@) == self@.step(1),
    {
        match self.time.checked_add(self.interval) {
            Some(time) => Some(
                CandleKey { market: self.market.clone(), time, interval: self.interval },
            ),
            None => None,
        }
    }
}

/// A candle sequence is dense from `key` on: its entry at `i` is for the
/// market and the interval of `key`, `i` intervals after the instant of `key`.
pub open spec fn dense_from(key: Slot, s: Seq<(Slot, Option<Bar>)>) -> bool {
    forall|i: int|
        0 <= i < s.len() ==> (#[trigger] s[i]).0.market == key.market && s[i].0.interval
            == key.interval && s[i].0.time.millis == key.time.millis + i * key.interval.millis
}

/// One entry of a candle sequence: a key with its candle, or with the
/// explicit mark that the venue has none for it.
pub type CandleEntry = (CandleKey, Option<Candle>);

/// The mathematical content of a candle sequence.
pub open spec fn entries_view(s: Seq<CandleEntry>) -> Seq<(Slot, Option<Bar>)> {
    Seq::new(s.len(), |i: int| (s[i].0@, Candle::model(s[i].1)))
}

} // verus!
