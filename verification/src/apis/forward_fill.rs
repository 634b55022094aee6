use vstd::prelude::*;
use crate::candle::{dense_from, entries_view, Bar, Candle, CandleEntry, CandleKey, Slot};
use crate::ledger::{distinct_keys, has_key, index_of, lemma_index_of, lemma_upsert, lookup, upsert, Key};
use crate::market::{Symbol, SymbolId};
use crate::time::{Duration, Time};

verus! {

/// A layer that forward fills never trades for real.
pub const LIVE_TRADING_ENABLED: bool = false;

/// The gap to the last candle seen is longer than may be filled.
#[derive(Debug, Clone, Copy, PartialEq, Eq, Structural)]
pub struct GapTooLarge {
    /// The instant for which a candle is missing.
    pub time: Time,
    /// The instant of the last candle the venue had.
    pub last_seen: Time,
}

/// The last candle seen for each market and interval, with its instant.
pub type Cache = Seq<((SymbolId, Duration), (Time, Bar))>;

/// A candle sequence in mathematical form.
pub type Bars = Seq<(Slot, Option<Bar>)>;

/// Whether `time` is less than two intervals before `now`, or after it:
/// the venue may not have the candle of such an instant yet.
pub open spec fn too_recent(time: Time, interval: Duration, now: Time) -> bool {
    time.millis >= now.millis - 2 * interval.millis
}

/// How far the forward fill has come.
pub struct Progress {
    pub cache: Cache,
    pub out: Bars,
    /// A missing candle too recent to be filled was met: what follows is passed on as it is.
    pub stopped: bool,
}

/// The forward fill after one more entry.
pub open spec fn fill_entry(p: Progress, e: (Slot, Option<Bar>), now: Time, max: Duration) -> Result<
    Progress,
    GapTooLarge,
> {
    let key = (e.0.market, e.0.interval);
    if p.stopped {
        Ok(Progress { out: p.out.push(e), ..p })
    } else {
        match e.1 {
            Some(bar) => Ok(
                Progress {
                    cache: upsert(p.cache, key, (e.0.time, bar)),
                    out: p.out.push(e),
                    stopped: false,
                },
            ),
            None => if too_recent(e.0.time, e.0.interval, now) {
                Ok(Progress { out: p.out.push(e), stopped: true, ..p })
            } else {
                match lookup(p.cache, key) {
                    None => Ok(Progress { out: p.out.push(e), ..p }),
                    Some((seen, bar)) => if e.0.time.millis - seen.millis <= max.millis {
                        Ok(Progress { out: p.out.push((e.0, Some(bar))), ..p })
                    } else {
                        Err(GapTooLarge { time: e.0.time, last_seen: seen })
                    },
                }
            },
        }
    }
}

/// The forward fill of the first `n` entries of a sequence that is not empty.
pub open spec fn fill_entries(cache: Cache, candles: Bars, now: Time, max: Duration, n: nat) -> Result<
    Progress,
    GapTooLarge,
>
    decreases n,
{
    if n == 0 {
        Ok(Progress { cache, out: Bars::empty(), stopped: false })
    } else {
        match fill_entries(cache, candles, now, max, (n - 1) as nat) {
            Err(e) => Err(e),
            Ok(p) => fill_entry(p, candles[n - 1], now, max),
        }
    }
}

/// What stands for a request to which the venue returned nothing: nothing
/// for an instant that is too recent; the last candle seen where one was
/// seen no longer ago than may be filled; the mark that there is none
/// where none was ever seen.
pub open spec fn fill_empty(cache: Cache, key: Slot, now: Time, max: Duration) -> Result<
    Bars,
    GapTooLarge,
> {
    if too_recent(key.time, key.interval, now) {
        Ok(Bars::empty())
    } else {
        match lookup(cache, (key.market, key.interval)) {
            Some((seen, bar)) => if key.time.millis - seen.millis <= max.millis {
                Ok(seq![(key, Some(bar))])
            } else {
                Err(GapTooLarge { time: key.time, last_seen: seen })
            },
            None => Ok(seq![(key, None)]),
        }
    }
}

/// What the forward fill makes of the venue's answer to a request, and the cache after that.
pub open spec fn forward_fill(cache: Cache, key: Slot, candles: Bars, now: Time, max: Duration) -> Result<
    (Cache, Bars),
    GapTooLarge,
> {
    if candles.len() == 0 {
        match fill_empty(cache, key, now, max) {
            Ok(out) => Ok((cache, out)),
            Err(e) => Err(e),
        }
    } else {
        match fill_entries(cache, candles, now, max, candles.len()) {
            Ok(p) => Ok((p.cache, p.out)),
            Err(e) => Err(e),
        }
    }
}

struct Seen {
    market: Symbol,
    interval: Duration,
    time: Time,
    candle: Candle,
}

spec fn seen_view(s: Seq<Seen>) -> Cache {
    Seq::new(s.len(), |i: int| ((s[i].market@, s[i].interval), (s[i].time, s[i].candle@)))
}

/// A layer that puts the last candle seen in the place of a missing one,
/// as long as that candle is not older than `max_duration`.
pub struct ForwardFill {
    cache: Vec<Seen>,
    max_duration: Duration,
}

impl ForwardFill {
    #[verifier::type_invariant]
    spec fn inv(&self) -> bool {
        distinct_keys(self.cache())
    }

    /// The last candle seen for each market and interval.
    pub closed spec fn cache(&self) -> Cache {
        seen_view(self.cache@)
    }

    /// The longest gap that is filled.
    pub closed spec fn max(&self) -> Duration {
        self.max_duration
    }

    pub fn new(max_duration: Duration) -> (r: ForwardFill)
        ensures
            r.cache() == Cache::empty(),
            r.max() == max_duration,
    {
        let cache: Vec<Seen> = Vec::new();
        assert(seen_view(cache@) =~= Cache::empty());
        ForwardFill { cache, max_duration }
    }

    pub fn max_duration(&self) -> (r: Duration)
        ensures
            r == self.max(),
    {
        self.max_duration
    }

    fn position(&self, market: &Symbol, interval: Duration) -> (r: Option<usize>)
        ensures
            distinct_keys(self.cache()),
            r.is_some() == has_key(self.cache(), (market@, interval)),
            r matches Some(i) ==> i == index_of(self.cache(), (market@, interval)) && i
                < self.cache().len(),
    {
        proof {
            use_type_invariant(self);
        }
        let mut i: usize = 0;
        while i < self.cache.len()
            invariant
                i <= self.cache@.len(),
                self.cache().len() == self.cache@.len(),
                distinct_keys(self.cache()),
                forall|j: int| 0 <= j < i ==> self.cache()[j].0 != (market@, interval),
            decreases self.cache@.len() - i,
        {
            if self.cache[i].market.same(market) && self.cache[i].interval.millis
                == interval.millis {
                proof {
                    lemma_index_of(self.cache(), (market@, interval), i as int);
                }
                return Some(i);
            }
            i = i + 1;
        }
        None
    }

    /// The last candle seen for a market and an interval, with its instant.
    pub fn last_seen(&self, market: &Symbol, interval: Duration) -> (r: Option<(Time, Candle)>)
        ensures
            match r {
                Some((time, candle)) => lookup(self.cache(), (market@, interval)) == Some(
                    (time, candle@),
                ),
                None => lookup(self.cache(), (market@, interval)).is_none(),
            },
    {
        match self.position(market, interval) {
            Some(i) => Some((self.cache[i].time, self.cache[i].candle)),
            None => None,
        }
    }

    fn remember(&mut self, key: &CandleKey, candle: Candle)
        ensures
            final(self).cache() == upsert(
                old(self).cache(),
                (key@.market, key@.interval),
                (key@.time, candle@),
            ),
            final(self).max() == old(self).max(),
    {
        let found = self.position(&key.market, key.interval);
        let ghost before = self.cache();
        let ghost k = (key@.market, key@.interval);
        let ghost v = (key@.time, candle@);
        proof {
            lemma_upsert(before, k, v);
        }
        let mut cache: Vec<Seen> = Vec::new();
        assert(seen_view(cache@) =~= Cache::empty());
        std::mem::swap(&mut self.cache, &mut cache);
        let seen = Seen {
            market: key.market.clone(),
            interval: key.interval,
            time: key.time,
            candle,
        };
        match found {
            Some(i) => {
                cache.set(i, seen);
            },
            None => {
                cache.push(seen);
            },
        }
        assert(seen_view(cache@) =~= upsert(before, k, v));
        std::mem::swap(&mut self.cache, &mut cache);
    }

    /// Fills the gaps in what the venue returned for `key`. A missing
    /// candle takes the last candle seen for its market and interval,
    /// unless its instant is too recent, which ends the filling, or
    /// nothing was seen yet. A gap longer than may be filled is an error:
    /// the engine must not make up prices from stale ones.
    pub fn get_candles(&mut self, key: &CandleKey, candles: Vec<CandleEntry>, now: Time) -> (r: Result<
        Vec<CandleEntry>,
        GapTooLarge,
    >)
        ensures
            final(self).max() == old(self).max(),
            match forward_fill(old(self).cache(), key@, entries_view(candles@), now, old(self).max()) {
                Ok((cache, out)) => r.is_ok() && entries_view(r.unwrap()@) == out
                    && final(self).cache() == cache,
                Err(e) => r == Err::<Vec<CandleEntry>, GapTooLarge>(e),
            },
    {
        let ghost cache0 = self.cache();
        let ghost bars = entries_view(candles@);
        let max = self.max_duration;
        if candles.len() == 0 {
            if is_too_recent(key.time, key.interval, now) {
                let out: Vec<CandleEntry> = Vec::new();
                assert(entries_view(out@) =~= Bars::empty());
                return Ok(out);
            }
            match self.last_seen(&key.market, key.interval) {
                Some((seen, candle)) => {
                    if key.time.millis as i128 - seen.millis as i128 <= max.millis as i128 {
                        let mut out: Vec<CandleEntry> = Vec::new();
                        out.push((key.clone(), Some(candle)));
                        assert(entries_view(out@) =~= seq![(key@, Some(candle@))]);
                        return Ok(out);
                    } else {
                        return Err(GapTooLarge { time: key.time, last_seen: seen });
                    }
                },
                None => {
                    let mut out: Vec<CandleEntry> = Vec::new();
                    out.push((key.clone(), None));
                    assert(entries_view(out@) =~= seq![(key@, None::<Bar>)]);
                    return Ok(out);
                },
            }
        }
        let mut out: Vec<CandleEntry> = Vec::new();
        let mut stopped = false;
        let mut i: usize = 0;
        assert(entries_view(out@) =~= Bars::empty());
        while i < candles.len()
            invariant
                i <= candles@.len(),
                bars == entries_view(candles@),
                bars.len() > 0,
                cache0 == old(self).cache(),
                max == self.max(),
                self.max() == old(self).max(),
                Ok::<Progress, GapTooLarge>(
                    Progress { cache: self.cache(), out: entries_view(out@), stopped },
                ) == fill_entries(cache0, bars, now, max, i as nat),
            decreases candles@.len() - i,
        {
            let entry = &candles[i];
            let ghost before = entries_view(out@);
            assert(bars[i as int] == (entry.0@, Candle::model(entry.1)));
            if stopped {
                out.push((entry.0.clone(), entry.1));
                assert(entries_view(out@) =~= before.push(bars[i as int]));
            } else {
                match entry.1 {
                    Some(candle) => {
                        self.remember(&entry.0, candle);
                        out.push((entry.0.clone(), entry.1));
                        assert(entries_view(out@) =~= before.push(bars[i as int]));
                    },
                    None => {
                        if is_too_recent(entry.0.time, entry.0.interval, now) {
                            stopped = true;
                            out.push((entry.0.clone(), None));
                            assert(entries_view(out@) =~= before.push(bars[i as int]));
                        } else {
                            match self.last_seen(&entry.0.market, entry.0.interval) {
                                None => {
                                    out.push((entry.0.clone(), None));
                                    assert(entries_view(out@) =~= before.push(bars[i as int]));
                                },
                                Some((seen, candle)) => {
                                    if entry.0.time.millis as i128 - seen.millis as i128
                                        <= max.millis as i128 {
                                        out.push((entry.0.clone(), Some(candle)));
                                        assert(entries_view(out@) =~= before.push(
                                            (entry.0@, Some(candle@)),
                                        ));
                                    } else {
                                        proof {
                                            assert(fill_entries(
                                                cache0,
                                                bars,
                                                now,
                                                max,
                                                (i + 1) as nat,
                                            ) == fill_entry(
                                                Progress {
                                                    cache: self.cache(),
                                                    out: entries_view(out@),
                                                    stopped,
                                                },
                                                bars[i as int],
                                                now,
                                                max,
                                            ));
                                            lemma_fill_stays_err(
                                                cache0,
                                                bars,
                                                now,
                                                max,
                                                i as nat + 1,
                                                bars.len(),
                                            );
                                        }
                                        return Err(
                                            GapTooLarge { time: entry.0.time, last_seen: seen },
                                        );
                                    }
                                },
                            }
                        }
                    },
                }
            }
            i = i + 1;
        }
        Ok(out)
    }
}

/// Whether the venue may not have the candle of `time` yet.
pub fn is_too_recent(time: Time, interval: Duration, now: Time) -> (r: bool)
    ensures
        r == too_recent(time, interval, now),
{
    time.millis as i128 >= now.millis as i128 - 2 * (interval.millis as i128)
}

/// The forward fill changes no key: entry by entry, what comes out is for the instant that went in.
pub proof fn lemma_fill_keeps_keys(cache: Cache, candles: Bars, now: Time, max: Duration, n: nat)
    requires
        n <= candles.len(),
        fill_entries(cache, candles, now, max, n).is_ok(),
    ensures
        fill_entries(cache, candles, now, max, n).unwrap().out.len() == n,
        forall|i: int|
            0 <= i < n ==> (#[trigger] fill_entries(cache, candles, now, max, n).unwrap().out[i]).0
                == candles[i].0,
        forall|i: int|
            0 <= i < n && candles[i].1.is_some() ==> #[trigger] fill_entries(
                cache,
                candles,
                now,
                max,
                n,
            ).unwrap().out[i] == candles[i],
    decreases n,
{
    if n > 0 {
        lemma_fill_keeps_keys(cache, candles, now, max, (n - 1) as nat);
        let p = fill_entries(cache, candles, now, max, (n - 1) as nat).unwrap();
        let q = fill_entries(cache, candles, now, max, n).unwrap();
        assert(q.out.len() == n);
        assert(forall|i: int| 0 <= i < n - 1 ==> q.out[i] == p.out[i]);
    }
}

/// A dense sequence stays dense under the forward fill, and every candle that the venue had stays as it is.
pub proof fn lemma_forward_fill_keeps_density(
    cache: Cache,
    key: Slot,
    candles: Bars,
    now: Time,
    max: Duration,
)
    requires
        candles.len() > 0,
        dense_from(key, candles),
        forward_fill(cache, key, candles, now, max).is_ok(),
    ensures
        forward_fill(cache, key, candles, now, max).unwrap().1.len() == candles.len(),
        dense_from(key, forward_fill(cache, key, candles, now, max).unwrap().1),
{
    lemma_fill_keeps_keys(cache, candles, now, max, candles.len());
    let out = forward_fill(cache, key, candles, now, max).unwrap().1;
    assert forall|i: int| 0 <= i < out.len() implies (#[trigger] out[i]).0.market == key.market
        && out[i].0.interval == key.interval && out[i].0.time.millis == key.time.millis + i
        * key.interval.millis by {
        assert(out[i].0 == candles[i].0);
    }
}

/// A sequence without a missing candle passes the first `n` of its entries on as they are.
pub proof fn lemma_fill_of_dense(cache: Cache, candles: Bars, now: Time, max: Duration, n: nat)
    requires
        n <= candles.len(),
        forall|i: int| 0 <= i < candles.len() ==> (#[trigger] candles[i]).1.is_some(),
    ensures
        fill_entries(cache, candles, now, max, n).is_ok(),
        fill_entries(cache, candles, now, max, n).unwrap().out == candles.take(n as int),
        !fill_entries(cache, candles, now, max, n).unwrap().stopped,
    decreases n,
{
    if n == 0 {
        assert(candles.take(0) =~= Bars::empty());
    } else {
        lemma_fill_of_dense(cache, candles, now, max, (n - 1) as nat);
        assert(candles[n - 1].1.is_some());
        assert(candles.take(n as int) =~= candles.take(n - 1).push(candles[n - 1]));
    }
}

/// Where the venue returns candles and none of them is missing, the forward fill returns what the venue returned.
pub proof fn lemma_forward_fill_of_dense(cache: Cache, key: Slot, candles: Bars, now: Time, max: Duration)
    requires
        candles.len() > 0,
        forall|i: int| 0 <= i < candles.len() ==> (#[trigger] candles[i]).1.is_some(),
    ensures
        forward_fill(cache, key, candles, now, max).is_ok(),
        forward_fill(cache, key, candles, now, max).unwrap().1 == candles,
{
    lemma_fill_of_dense(cache, candles, now, max, candles.len());
    assert(candles.take(candles.len() as int) =~= candles);
}

/// A request for an instant that is too recent, to which the venue
/// returns nothing, gives nothing: no candle is made up and none is marked as missing.
pub proof fn lemma_recent_request_stays_empty(cache: Cache, key: Slot, now: Time, max: Duration)
    requires
        too_recent(key.time, key.interval, now),
    ensures
        forward_fill(cache, key, Bars::empty(), now, max) == Ok::<(Cache, Bars), GapTooLarge>(
            (cache, Bars::empty()),
        ),
{
}

/// No missing candle that is too recent is ever filled: it is passed on as missing.
pub proof fn lemma_recent_gap_is_not_filled(p: Progress, e: (Slot, Option<Bar>), now: Time, max: Duration)
    requires
        e.1.is_none(),
        too_recent(e.0.time, e.0.interval, now),
    ensures
        fill_entry(p, e, now, max).is_ok(),
        fill_entry(p, e, now, max).unwrap().out == p.out.push(e),
{
}

/// Once the first entries have met a gap too large, all of them have, with the same error.
pub proof fn lemma_fill_stays_err(cache: Cache, candles: Bars, now: Time, max: Duration, n: nat, m: nat)
    requires
        n <= m,
        fill_entries(cache, candles, now, max, n).is_err(),
    ensures
        fill_entries(cache, candles, now, max, m) == fill_entries(cache, candles, now, max, n),
    decreases m - n,
{
    if n < m {
        lemma_fill_stays_err(cache, candles, now, max, n + 1, m);
    }
}

} // verus!
