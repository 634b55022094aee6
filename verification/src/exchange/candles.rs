use std::collections::VecDeque;
use vstd::prelude::*;
use crate::candle::{entries_view, Bar, Candle, CandleEntry, Slot};
use crate::exchange::bundle::Entries;
use crate::exchange::valuation::Valuation;
use crate::ledger::{distinct_keys, has_key, index_of, lemma_index_of, lemma_upsert, lemma_without, lookup, upsert, without, Key};
use crate::market::{Symbol, SymbolId};

verus! {

/// The candles that wait for one symbol, the current one first.
pub type Queue = Seq<(Slot, Option<Bar>)>;

/// The watched symbols with their queues, in the order in which they were first watched.
pub type Queues = Seq<(SymbolId, Queue)>;

/// A queue without its first candle.
pub open spec fn popped(q: Queue) -> Queue {
    if q.len() > 0 {
        q.subrange(1, q.len() as int)
    } else {
        q
    }
}

/// Every queue without its first candle.
pub open spec fn all_popped(s: Queues) -> Queues {
    Seq::new(s.len(), |i: int| (s[i].0, popped(s[i].1)))
}

/// The symbols whose queue is empty, in their order.
pub open spec fn empty_queues(s: Queues) -> Seq<SymbolId>
    decreases s.len(),
{
    if s.len() == 0 {
        Seq::empty()
    } else if s.last().1.len() == 0 {
        empty_queues(s.drop_last()).push(s.last().0)
    } else {
        empty_queues(s.drop_last())
    }
}

/// The close of the first candle of each queue that has one, by symbol.
pub open spec fn front_closes(s: Queues) -> Entries
    decreases s.len(),
{
    if s.len() == 0 {
        Seq::empty()
    } else {
        let prev = front_closes(s.drop_last());
        if s.last().1.len() > 0 && s.last().1[0].1.is_some() {
            upsert(prev, s.last().0, s.last().1[0].1.unwrap().close)
        } else {
            prev
        }
    }
}

/// The queues after `more` was appended to the queue of `symbol`; nothing changes for a symbol that is not watched.
pub open spec fn appended(s: Queues, symbol: SymbolId, more: Queue) -> Queues {
    match lookup(s, symbol) {
        Some(q) => upsert(s, symbol, q + more),
        None => s,
    }
}

struct Watch {
    symbol: Symbol,
    queue: VecDeque<CandleEntry>,
}

/// The candles that wait for each watched symbol.
pub struct CandleQueues {
    watches: Vec<Watch>,
}

spec fn watches_view(w: Seq<Watch>) -> Queues {
    Seq::new(w.len(), |i: int| (w[i].symbol@, entries_view(w[i].queue@)))
}

impl View for CandleQueues {
    type V = Queues;

    closed spec fn view(&self) -> Queues {
        watches_view(self.watches@)
    }
}

impl CandleQueues {
    #[verifier::type_invariant]
    spec fn inv(&self) -> bool {
        distinct_keys(self@)
    }

    pub fn new() -> (r: CandleQueues)
        ensures
            r@ == Queues::empty(),
    {
        let watches: Vec<Watch> = Vec::new();
        assert(watches_view(watches@) =~= Queues::empty());
        CandleQueues { watches }
    }

    pub fn len(&self) -> (r: usize)
        ensures
            r == self@.len(),
            distinct_keys(self@),
    {
        proof {
            use_type_invariant(self);
        }
        self.watches.len()
    }

    /// The symbol watched at `i`.
    pub fn symbol_at(&self, i: usize) -> (r: &Symbol)
        requires
            i < self@.len(),
        ensures
            r@ == self@[i as int].0,
    {
        &self.watches[i].symbol
    }

    /// How many candles wait in the queue at `i`.
    pub fn queue_len_at(&self, i: usize) -> (r: usize)
        requires
            i < self@.len(),
        ensures
            r == self@[i as int].1.len(),
    {
        self.watches[i].queue.len()
    }

    /// The candle at `j` of the queue at `i`.
    pub fn entry_at(&self, i: usize, j: usize) -> (r: &CandleEntry)
        requires
            i < self@.len(),
            j < self@[i as int].1.len(),
        ensures
            (r.0@, Candle::model(r.1)) == self@[i as int].1[j as int],
    {
        &self.watches[i].queue[j]
    }

    fn position(&self, symbol: &Symbol) -> (r: Option<usize>)
        ensures
            distinct_keys(self@),
            r.is_some() == has_key(self@, symbol@),
            r matches Some(i) ==> i == index_of(self@, symbol@) && i < self@.len(),
    {
        proof {
            use_type_invariant(self);
        }
        let mut i: usize = 0;
        while i < self.watches.len()
            invariant
                i <= self.watches@.len(),
                self@.len() == self.watches@.len(),
                distinct_keys(self@),
                forall|j: int| 0 <= j < i ==> self@[j].0 != symbol@,
            decreases self.watches@.len() - i,
        {
            if self.watches[i].symbol.same(symbol) {
                proof {
                    lemma_index_of(self@, symbol@, i as int);
                }
                return Some(i);
            }
            i = i + 1;
        }
        None
    }

    /// Whether `symbol` is watched.
    pub fn is_watched(&self, symbol: &Symbol) -> (r: bool)
        ensures
            r == has_key(self@, symbol@),
    {
        self.position(symbol).is_some()
    }

    /// The first candle that waits for `symbol`, if it is watched and one waits.
    pub fn front(&self, symbol: &Symbol) -> (r: Option<&CandleEntry>)
        ensures
            r.is_some() == (lookup(self@, symbol@) matches Some(q) && q.len() > 0),
            r matches Some(e) ==> (e.0@, Candle::model(e.1)) == lookup(self@, symbol@).unwrap()[0],
    {
        match self.position(symbol) {
            Some(i) => {
                if self.watches[i].queue.len() > 0 {
                    Some(&self.watches[i].queue[0])
                } else {
                    None
                }
            },
            None => None,
        }
    }

    /// Begins to watch `symbol` with an empty queue; what waited for it before is dropped.
    pub fn watch(&mut self, symbol: Symbol)
        ensures
            final(self)@ == upsert(old(self)@, symbol@, Queue::empty()),
    {
        let found = self.position(&symbol);
        let ghost before = self@;
        let ghost id = symbol@;
        proof {
            lemma_upsert(before, id, Queue::empty());
        }
        let mut watches: Vec<Watch> = Vec::new();
        assert(watches_view(watches@) =~= Queues::empty());
        std::mem::swap(&mut self.watches, &mut watches);
        let queue: VecDeque<CandleEntry> = VecDeque::new();
        assert(entries_view(queue@) =~= Queue::empty());
        match found {
            Some(i) => {
                watches.set(i, Watch { symbol, queue });
            },
            None => {
                watches.push(Watch { symbol, queue });
            },
        }
        assert(watches_view(watches@) =~= upsert(before, id, Queue::empty()));
        std::mem::swap(&mut self.watches, &mut watches);
    }

    /// Stops watching `symbol`.
    pub fn unwatch(&mut self, symbol: &Symbol)
        ensures
            final(self)@ == without(old(self)@, symbol@),
            !has_key(final(self)@, symbol@),
    {
        let found = self.position(symbol);
        let ghost before = self@;
        proof {
            lemma_without(before, symbol@);
        }
        match found {
            Some(i) => {
                let mut watches: Vec<Watch> = Vec::new();
                assert(watches_view(watches@) =~= Queues::empty());
                std::mem::swap(&mut self.watches, &mut watches);
                watches.remove(i);
                assert(watches_view(watches@) =~= without(before, symbol@));
                std::mem::swap(&mut self.watches, &mut watches);
            },
            None => {},
        }
    }

    /// Appends `candles` to the queue of `symbol`, if it is watched.
    pub fn append(&mut self, symbol: &Symbol, candles: &Vec<CandleEntry>)
        ensures
            final(self)@ == appended(old(self)@, symbol@, entries_view(candles@)),
    {
        let found = self.position(symbol);
        let ghost before = self@;
        let ghost more = entries_view(candles@);
        match found {
            Some(i) => {
                proof {
                    lemma_upsert(before, symbol@, before[i as int].1 + more);
                }
                let mut watches: Vec<Watch> = Vec::new();
                assert(watches_view(watches@) =~= Queues::empty());
                std::mem::swap(&mut self.watches, &mut watches);
                let mut watch = watches.remove(i);
                let mut j: usize = 0;
                assert(more.take(0) =~= Queue::empty());
                assert(before[i as int].1 + Queue::empty() =~= before[i as int].1);
                while j < candles.len()
                    invariant
                        j <= candles@.len(),
                        more == entries_view(candles@),
                        i < before.len(),
                        watch.symbol@ == before[i as int].0,
                        entries_view(watch.queue@) == before[i as int].1 + more.take(j as int),
                    decreases candles@.len() - j,
                {
                    let ghost q = entries_view(watch.queue@);
                    watch.queue.push_back((candles[j].0.clone(), candles[j].1));
                    assert(entries_view(watch.queue@) =~= q.push(more[j as int]));
                    assert(more.take(j + 1) =~= more.take(j as int).push(more[j as int]));
                    assert(before[i as int].1 + more.take(j + 1) =~= (before[i as int].1
                        + more.take(j as int)).push(more[j as int]));
                    j = j + 1;
                }
                assert(more.take(j as int) =~= more);
                watches.insert(i, watch);
                assert(watches_view(watches@) =~= upsert(
                    before,
                    symbol@,
                    before[i as int].1 + more,
                ));
                std::mem::swap(&mut self.watches, &mut watches);
            },
            None => {},
        }
    }

    /// Drops the first candle of every queue.
    pub fn advance(&mut self)
        ensures
            final(self)@ == all_popped(old(self)@),
    {
        proof {
            use_type_invariant(&*self);
        }
        let ghost before = self@;
        let mut watches: Vec<Watch> = Vec::new();
        assert(watches_view(watches@) =~= Queues::empty());
        std::mem::swap(&mut self.watches, &mut watches);
        let mut i: usize = 0;
        while i < watches.len()
            invariant
                i <= watches@.len(),
                watches@.len() == before.len(),
                forall|j: int| 0 <= j < i ==> watches_view(watches@)[j] == all_popped(before)[j],
                forall|j: int|
                    i <= j < watches@.len() ==> watches_view(watches@)[j] == before[j],
            decreases watches@.len() - i,
        {
            let ghost prev = watches_view(watches@);
            let mut watch = watches.remove(i);
            let ghost q = entries_view(watch.queue@);
            let _ = watch.queue.pop_front();
            assert(entries_view(watch.queue@) =~= popped(q));
            watches.insert(i, watch);
            assert(forall|j: int|
                0 <= j < watches@.len() && j != i ==> watches_view(watches@)[j] == prev[j]);
            i = i + 1;
        }
        assert(watches_view(watches@) =~= all_popped(before));
        assert(distinct_keys(all_popped(before))) by {
            assert(forall|j: int| 0 <= j < before.len() ==> all_popped(before)[j].0 == before[j].0);
        }
        std::mem::swap(&mut self.watches, &mut watches);
    }

    /// The watched symbols for which no candle waits.
    pub fn missing(&self) -> (r: Vec<Symbol>)
        ensures
            Seq::new(r@.len(), |i: int| r@[i]@) == empty_queues(self@),
    {
        let mut out: Vec<Symbol> = Vec::new();
        let mut i: usize = 0;
        assert(self@.take(0) =~= Queues::empty());
        assert(Seq::new(out@.len(), |i: int| out@[i]@) =~= empty_queues(self@.take(0)));
        while i < self.watches.len()
            invariant
                i <= self.watches@.len(),
                self@.len() == self.watches@.len(),
                Seq::new(out@.len(), |i: int| out@[i]@) == empty_queues(self@.take(i as int)),
            decreases self.watches@.len() - i,
        {
            proof {
                assert(self@.take(i + 1).drop_last() =~= self@.take(i as int));
                assert(self@.take(i + 1).last() == self@[i as int]);
            }
            let ghost before = Seq::new(out@.len(), |i: int| out@[i]@);
            if self.watches[i].queue.len() == 0 {
                out.push(self.watches[i].symbol.clone());
                assert(Seq::new(out@.len(), |i: int| out@[i]@) =~= before.push(self@[i as int].0));
            }
            i = i + 1;
        }
        assert(self@.take(i as int) =~= self@);
        out
    }

    /// The prices of the moment: the close of the first candle of each queue that has one.
    pub fn valuation(&self) -> (r: Valuation)
        ensures
            r@ == front_closes(self@),
    {
        let mut out = Valuation::default();
        let mut i: usize = 0;
        assert(self@.take(0) =~= Queues::empty());
        while i < self.watches.len()
            invariant
                i <= self.watches@.len(),
                self@.len() == self.watches@.len(),
                out@ == front_closes(self@.take(i as int)),
            decreases self.watches@.len() - i,
        {
            proof {
                assert(self@.take(i + 1).drop_last() =~= self@.take(i as int));
                assert(self@.take(i + 1).last() == self@[i as int]);
            }
            if self.watches[i].queue.len() > 0 {
                match self.watches[i].queue[0].1 {
                    Some(candle) => {
                        out.insert(self.watches[i].symbol.clone(), candle.close);
                    },
                    None => {},
                }
            }
            i = i + 1;
        }
        assert(self@.take(i as int) =~= self@);
        out
    }
}

} // verus!
