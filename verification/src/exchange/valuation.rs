use vstd::prelude::*;
use crate::decimal::Decimal;
use crate::exchange::bundle::{equivalent, ledgers_equivalent, Entries};
use crate::ledger::{amount, distinct_keys, lookup, upsert, Ledger};
use crate::market::Symbol;

verus! {

/// A price for each of some symbols, by convention the close of the current candle.
#[derive(Debug)]
pub struct Valuation(pub(crate) Ledger<Symbol>);

impl View for Valuation {
    type V = Entries;

    closed spec fn view(&self) -> Entries {
        self.0@
    }
}

impl Clone for Valuation {
    fn clone(&self) -> (r: Valuation)
        ensures
            r@ == self@,
    {
        Valuation(self.0.duplicate())
    }
}

impl Default for Valuation {
    fn default() -> (r: Valuation)
        ensures
            r@ == Entries::empty(),
    {
        Valuation(Ledger::new())
    }
}

impl Valuation {
    pub fn len(&self) -> (r: usize)
        ensures
            r == self@.len(),
            distinct_keys(self@),
    {
        self.0.len()
    }

    /// The symbol of the entry at `i`.
    pub fn symbol_at(&self, i: usize) -> (r: &Symbol)
        requires
            i < self@.len(),
        ensures
            r@ == self@[i as int].0,
    {
        self.0.key_at(i)
    }

    /// The price of the entry at `i`.
    pub fn price_at(&self, i: usize) -> (r: Decimal)
        requires
            i < self@.len(),
        ensures
            r@ == self@[i as int].1,
    {
        self.0.value_at(i)
    }

    /// The price entered for `symbol`, if there is one.
    pub fn get(&self, symbol: &Symbol) -> (r: Option<Decimal>)
        ensures
            Decimal::model(r) == lookup(self@, symbol@),
    {
        self.0.get(symbol)
    }

    /// The price of `symbol`, zero where none is entered.
    pub fn price(&self, symbol: &Symbol) -> (r: Decimal)
        ensures
            r@ == amount(self@, symbol@),
    {
        self.0.amount(symbol)
    }

    /// Enters `price` for `symbol`, in place of what was entered.
    pub fn insert(&mut self, symbol: Symbol, price: Decimal)
        ensures
            final(self)@ == upsert(old(self)@, symbol@, price@),
    {
        self.0.set(symbol, price);
    }

    /// Whether both hold the same symbols, each with the same price.
    pub fn same(&self, other: &Valuation) -> (r: bool)
        ensures
            r == equivalent(self@, other@),
    {
        ledgers_equivalent(&self.0, &other.0)
    }
}

} // verus!
