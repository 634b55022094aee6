use vstd::prelude::*;
use crate::apis::forward_fill::{is_too_recent, too_recent, Bars};
use crate::apis::store::PREFETCH;
use crate::candle::{dense_from, entries_view, Bar, Candle, CandleEntry, CandleKey, Slot};
use crate::time::{Duration, Time};

verus! {

/// How far the making of a dense sequence has come.
pub struct Filling {
    pub out: Bars,
    /// The instant of the entry that comes next.
    pub next: Time,
    /// The end of the window was reached inside a gap: no further candle is taken.
    pub full: bool,
}

/// The instant one interval after `time`, where it can be written.
pub open spec fn after(time: Time, interval: Duration) -> Option<Time> {
    Time::of(time.millis + interval.millis)
}

/// The end of the window of a request: `PREFETCH` intervals after its instant.
pub open spec fn window_end(key: Slot) -> Option<Time> {
    Time::of(key.time.millis + PREFETCH * key.interval.millis)
}

/// Marks every instant from `f.next` on as missing until the instant of
/// `target` is reached, or until the end of the window is, which ends the
/// filling. `None` where an instant cannot be written.
pub open spec fn fill_gap(key: Slot, target: Slot, end: Time, f: Filling) -> Option<Filling>
    decreases end.millis - f.next.millis,
    when key.interval.millis > 0
{
    if target == key.at(f.next) {
        Some(f)
    } else {
        match after(f.next, key.interval) {
            None => None,
            Some(next) => {
                let filled = Filling { out: f.out.push((key.at(f.next), None)), next, full: false };
                if next.millis >= end.millis {
                    Some(Filling { full: true, ..filled })
                } else {
                    fill_gap(key, target, end, filled)
                }
            },
        }
    }
}

/// The filling after the first `n` candles of the venue were taken in:
/// before each candle the gap up to its instant is marked as missing.
pub open spec fn take_candles(key: Slot, candles: Seq<(Slot, Bar)>, end: Time, n: nat) -> Option<
    Filling,
>
    decreases n,
{
    if n == 0 {
        Some(Filling { out: Bars::empty(), next: key.time, full: false })
    } else {
        match take_candles(key, candles, end, (n - 1) as nat) {
            None => None,
            Some(f) => if f.full {
                Some(f)
            } else {
                match fill_gap(key, candles[n - 1].0, end, f) {
                    None => None,
                    Some(g) => if g.full {
                        Some(g)
                    } else {
                        match after(g.next, key.interval) {
                            None => None,
                            Some(next) => Some(
                                Filling {
                                    out: g.out.push((candles[n - 1].0, Some(candles[n - 1].1))),
                                    next,
                                    full: false,
                                },
                            ),
                        }
                    },
                }
            },
        }
    }
}

/// Marks the instants after the last candle as missing, up to `PREFETCH`
/// entries in all, but none that is too recent: what the venue may not have yet is left out.
pub open spec fn fill_tail(key: Slot, now: Time, f: Filling) -> Option<Bars>
    decreases PREFETCH - f.out.len(),
{
    if f.out.len() >= PREFETCH || too_recent(f.next, key.interval, now) {
        Some(f.out)
    } else {
        match after(f.next, key.interval) {
            None => None,
            Some(next) => fill_tail(
                key,
                now,
                Filling { out: f.out.push((key.at(f.next), None)), next, full: f.full },
            ),
        }
    }
}

/// The dense sequence for a request, made of the candles that the venue
/// has: one entry for each instant from that of the request on, in steps
/// of the interval, with the mark that a candle is missing where the
/// venue has none. `None` where the interval is not positive or an instant cannot be written.
pub open spec fn dense(key: Slot, candles: Seq<(Slot, Bar)>, now: Time) -> Option<Bars> {
    if key.interval.millis <= 0 {
        None
    } else {
        match window_end(key) {
            None => None,
            Some(end) => match take_candles(key, candles, end, candles.len()) {
                None => None,
                Some(f) => fill_tail(key, now, f),
            },
        }
    }
}

/// After the last candle of the venue nothing is made up and nothing
/// too recent is marked as missing: the tail keeps what is there, and
/// each entry it adds is the mark of a missing candle at an instant at least two intervals in the past.
pub proof fn lemma_tail_leaves_the_future_out(key: Slot, now: Time, f: Filling)
    requires
        fill_tail(key, now, f).is_some(),
    ensures
        fill_tail(key, now, f).unwrap().len() >= f.out.len(),
        fill_tail(key, now, f).unwrap().len() <= PREFETCH || fill_tail(key, now, f).unwrap()
            == f.out,
        forall|i: int|
            0 <= i < f.out.len() ==> #[trigger] fill_tail(key, now, f).unwrap()[i] == f.out[i],
        forall|i: int|
            f.out.len() <= i < fill_tail(key, now, f).unwrap().len() ==> (#[trigger] fill_tail(
                key,
                now,
                f,
            ).unwrap()[i]).1.is_none() && !too_recent(
                fill_tail(key, now, f).unwrap()[i].0.time,
                key.interval,
                now,
            ),
    decreases PREFETCH - f.out.len(),
{
    if f.out.len() >= PREFETCH || too_recent(f.next, key.interval, now) {
    } else {
        let next = after(f.next, key.interval).unwrap();
        let g = Filling { out: f.out.push((key.at(f.next), None)), next, full: f.full };
        lemma_tail_leaves_the_future_out(key, now, g);
        let bars = fill_tail(key, now, f).unwrap();
        assert(bars == fill_tail(key, now, g).unwrap());
        assert forall|i: int| 0 <= i < f.out.len() implies #[trigger] bars[i] == f.out[i] by {
            assert(g.out[i] == f.out[i]);
        }
        assert forall|i: int| f.out.len() <= i < bars.len() implies (#[trigger] bars[i]).1.is_none()
            && !too_recent(bars[i].0.time, key.interval, now) by {
            if i == f.out.len() {
                assert(bars[i] == g.out[i]);
            }
        }
    }
}

/// What is there is dense from `key` on, and the next entry is due at the instant that follows.
pub open spec fn on_grid(key: Slot, f: Filling) -> bool {
    dense_from(key, f.out) && f.next.millis == key.time.millis + f.out.len() * key.interval.millis
}

/// Marking a gap keeps the sequence dense, and ends at the instant of the target unless the window is full.
pub proof fn lemma_fill_gap_on_grid(key: Slot, target: Slot, end: Time, f: Filling)
    requires
        key.interval.millis > 0,
        on_grid(key, f),
        fill_gap(key, target, end, f).is_some(),
    ensures
        on_grid(key, fill_gap(key, target, end, f).unwrap()),
        !fill_gap(key, target, end, f).unwrap().full ==> target == key.at(
            fill_gap(key, target, end, f).unwrap().next,
        ),
    decreases end.millis - f.next.millis,
{
    if target == key.at(f.next) {
    } else {
        let next = after(f.next, key.interval).unwrap();
        let filled = Filling { out: f.out.push((key.at(f.next), None)), next, full: false };
        let n = f.out.len() as int;
        let iv = key.interval.millis as int;
        assert((n + 1) * iv == n * iv + iv) by (nonlinear_arith);
        assert(dense_from(key, filled.out)) by {
            assert forall|i: int| 0 <= i < filled.out.len() implies (#[trigger] filled.out[i]).0.market
                == key.market && filled.out[i].0.interval == key.interval
                && filled.out[i].0.time.millis == key.time.millis + i * iv by {
                if i < n {
                    assert(filled.out[i] == f.out[i]);
                }
            }
        }
        if next.millis >= end.millis {
        } else {
            lemma_fill_gap_on_grid(key, target, end, filled);
        }
    }
}

/// Taking candles in keeps the sequence dense.
pub proof fn lemma_take_candles_on_grid(key: Slot, candles: Seq<(Slot, Bar)>, end: Time, n: nat)
    requires
        key.interval.millis > 0,
        take_candles(key, candles, end, n).is_some(),
    ensures
        on_grid(key, take_candles(key, candles, end, n).unwrap()),
    decreases n,
{
    if n > 0 {
        lemma_take_candles_on_grid(key, candles, end, (n - 1) as nat);
        let f = take_candles(key, candles, end, (n - 1) as nat).unwrap();
        if !f.full {
            lemma_fill_gap_on_grid(key, candles[n - 1].0, end, f);
            let g = fill_gap(key, candles[n - 1].0, end, f).unwrap();
            if !g.full {
                let next = after(g.next, key.interval).unwrap();
                let out = g.out.push((candles[n - 1].0, Some(candles[n - 1].1)));
                let len = g.out.len() as int;
                let iv = key.interval.millis as int;
                assert((len + 1) * iv == len * iv + iv) by (nonlinear_arith);
                assert forall|i: int| 0 <= i < out.len() implies (#[trigger] out[i]).0.market
                    == key.market && out[i].0.interval == key.interval && out[i].0.time.millis
                    == key.time.millis + i * iv by {
                    if i < len {
                        assert(out[i] == g.out[i]);
                    }
                }
            }
        }
    }
}

/// Marking the tail keeps the sequence dense.
pub proof fn lemma_fill_tail_on_grid(key: Slot, now: Time, f: Filling)
    requires
        on_grid(key, f),
        fill_tail(key, now, f).is_some(),
    ensures
        dense_from(key, fill_tail(key, now, f).unwrap()),
    decreases PREFETCH - f.out.len(),
{
    if f.out.len() >= PREFETCH || too_recent(f.next, key.interval, now) {
    } else {
        let next = after(f.next, key.interval).unwrap();
        let g = Filling { out: f.out.push((key.at(f.next), None)), next, full: f.full };
        let len = f.out.len() as int;
        let iv = key.interval.millis as int;
        assert((len + 1) * iv == len * iv + iv) by (nonlinear_arith);
        assert forall|i: int| 0 <= i < g.out.len() implies (#[trigger] g.out[i]).0.market
            == key.market && g.out[i].0.interval == key.interval && g.out[i].0.time.millis
            == key.time.millis + i * iv by {
            if i < len {
                assert(g.out[i] == f.out[i]);
            }
        }
        lemma_fill_tail_on_grid(key, now, g);
    }
}

/// What is made for a request is dense in time: it starts at the instant
/// of the request and steps by its interval, whatever the venue returned.
pub proof fn lemma_dense_is_dense(key: Slot, candles: Seq<(Slot, Bar)>, now: Time)
    requires
        dense(key, candles, now).is_some(),
    ensures
        dense_from(key, dense(key, candles, now).unwrap()),
{
    let end = window_end(key).unwrap();
    lemma_take_candles_on_grid(key, candles, end, candles.len());
    lemma_fill_tail_on_grid(key, now, take_candles(key, candles, end, candles.len()).unwrap());
}

/// The content of the candles of a venue.
pub open spec fn candles_view(c: Seq<(CandleKey, Candle)>) -> Seq<(Slot, Bar)> {
    Seq::new(c.len(), |i: int| (c[i].0@, c[i].1@))
}

/// Once the first candles could not be taken in, all of them cannot.
pub proof fn lemma_take_stays_none(key: Slot, candles: Seq<(Slot, Bar)>, end: Time, n: nat, m: nat)
    requires
        n <= m,
        take_candles(key, candles, end, n).is_none(),
    ensures
        take_candles(key, candles, end, m).is_none(),
    decreases m - n,
{
    if n < m {
        lemma_take_stays_none(key, candles, end, n + 1, m);
    }
}

/// Makes the dense sequence for a request out of the candles that the
/// venue has, which must come in the order of their instants.
pub fn dense_candles(key: &CandleKey, candles: &Vec<(CandleKey, Candle)>, now: Time) -> (r: Option<
    Vec<CandleEntry>,
>)
    ensures
        match dense(key@, candles_view(candles@), now) {
            Some(bars) => r.is_some() && entries_view(r.unwrap()@) == bars,
            None => r.is_none(),
        },
{
    if key.interval.millis <= 0 {
        return None;
    }
    let wide: i128 = key.time.millis as i128 + (PREFETCH as i128) * (key.interval.millis as i128);
    if wide > i64::MAX as i128 {
        return None;
    }
    let end = Time::from_millis(wide as i64);
    assert(window_end(key@) == Some(end));
    let ghost all = candles_view(candles@);
    let mut out: Vec<CandleEntry> = Vec::new();
    let mut next = key.time;
    let mut full = false;
    let mut i: usize = 0;
    assert(entries_view(out@) =~= Bars::empty());
    while i < candles.len() && !full
        invariant
            i <= candles@.len(),
            key@.interval.millis > 0,
            all == candles_view(candles@),
            window_end(key@) == Some(end),
            Some(Filling { out: entries_view(out@), next, full }) == take_candles(
                key@,
                all,
                end,
                i as nat,
            ),
        decreases candles@.len() - i,
    {
        let target = &candles[i].0;
        assert(all[i as int] == (target@, candles@[i as int].1@));
        let ghost start = Filling { out: entries_view(out@), next, full: false };
        loop
            invariant_except_break
                !full,
                fill_gap(key@, target@, end, start) == fill_gap(
                    key@,
                    target@,
                    end,
                    Filling { out: entries_view(out@), next, full: false },
                ),
            invariant
                i < candles@.len(),
                key@.interval.millis > 0,
                all == candles_view(candles@),
                all[i as int] == (target@, candles@[i as int].1@),
                window_end(key@) == Some(end),
                !start.full,
                Some(start) == take_candles(key@, all, end, i as nat),
            ensures
                Some(Filling { out: entries_view(out@), next, full }) == fill_gap(
                    key@,
                    target@,
                    end,
                    start,
                ),
            decreases end.millis - next.millis,
        {
            let here = CandleKey { market: key.market.clone(), time: next, interval: key.interval };
            assert(here@ == key@.at(next));
            if target.same(&here) {
                break;
            }
            let ghost before = entries_view(out@);
            let later = match next.checked_add(key.interval) {
                Some(t) => t,
                None => {
                    proof {
                        assert(take_candles(key@, all, end, (i + 1) as nat).is_none());
                        lemma_take_stays_none(key@, all, end, (i + 1) as nat, all.len());
                    }
                    return None;
                },
            };
            out.push((here, None));
            assert(entries_view(out@) =~= before.push((key@.at(next), None::<Bar>)));
            next = later;
            if next.millis >= end.millis {
                full = true;
                break;
            }
        }
        if !full {
            let ghost before = entries_view(out@);
            let later = match next.checked_add(key.interval) {
                Some(t) => t,
                None => {
                    proof {
                        assert(take_candles(key@, all, end, (i + 1) as nat).is_none());
                        lemma_take_stays_none(key@, all, end, (i + 1) as nat, all.len());
                    }
                    return None;
                },
            };
            out.push((target.clone(), Some(candles[i].1)));
            assert(entries_view(out@) =~= before.push((target@, Some(candles@[i as int].1@))));
            next = later;
        }
        i = i + 1;
    }
    proof {
        if full {
            lemma_take_stays_full(key@, all, end, i as nat, all.len());
        }
    }
    while out.len() < PREFETCH && !is_too_recent(next, key.interval, now)
        invariant
            key@.interval.millis > 0,
            fill_tail(key@, now, Filling { out: entries_view(out@), next, full }) == dense(
                key@,
                candles_view(candles@),
                now,
            ),
        decreases PREFETCH - out@.len(),
    {
        let ghost before = entries_view(out@);
        let later = match next.checked_add(key.interval) {
            Some(t) => t,
            None => {
                return None;
            },
        };
        out.push(
            (CandleKey { market: key.market.clone(), time: next, interval: key.interval }, None),
        );
        assert(entries_view(out@) =~= before.push((key@.at(next), None::<Bar>)));
        next = later;
    }
    Some(out)
}

/// Once the end of the window was reached inside a gap, further candles change nothing.
pub proof fn lemma_take_stays_full(key: Slot, candles: Seq<(Slot, Bar)>, end: Time, n: nat, m: nat)
    requires
        n <= m,
        take_candles(key, candles, end, n).is_some(),
        take_candles(key, candles, end, n).unwrap().full,
    ensures
        take_candles(key, candles, end, m) == take_candles(key, candles, end, n),
    decreases m - n,
{
    if n < m {
        lemma_take_stays_full(key, candles, end, n + 1, m);
    }
}

} // verus!
