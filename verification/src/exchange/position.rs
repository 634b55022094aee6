use vstd::prelude::*;
use crate::decimal::{Dec, Decimal};
use crate::exchange::bundle::{absolute, all_zero, combine, dot, lemma_combine_pointwise, zeroed, Bundle, Entries, Op};
use crate::exchange::valuation::Valuation;
use crate::exchange::valued_bundle::{Valued, ValuedBundle};
use crate::id::{fresh_id, is_random_uuid};
use crate::ledger::{amount, distinct_keys, has_key, index_of, lemma_index_of, lemma_upsert, lookup, upsert};
use crate::market::{market_of, round_to_increment, MarketRules, Markets, Symbol, SymbolId};
use crate::time::Time;

verus! {

/// Why a position could not be changed or measured.
#[derive(Clone, Copy, Debug, PartialEq, Eq, Structural)]
pub enum PositionError {
    /// The position was closed before; it takes no order that moves a quantity.
    AlreadyClosed,
    /// The position holds a symbol that the venue does not list.
    UnknownMarket,
    /// A quantity or a worth left the range of decimals.
    Overflow,
}

/// An exposure over one or more symbols: what is held, what the strategy
/// wants to hold next, and the orders that opened and closed it.
#[derive(Debug)]
pub struct Position {
    id: u128,
    /// What is held, at the latest prices.
    current: ValuedBundle,
    /// The order that opened the position.
    open: Option<ValuedBundle>,
    /// The order that brought every quantity back to zero.
    close: Option<ValuedBundle>,
    /// What the strategy wants to hold after the next round of orders.
    next_size: Bundle,
}

/// The mathematical content of a position.
pub struct PositionView {
    pub id: u128,
    pub current: Valued,
    pub open: Option<Valued>,
    pub close: Option<Valued>,
    pub next_size: Entries,
}

/// The size to ask for after the rules of a market were applied to an order
/// of `size` on top of the holding `cur`: the holding itself where the order
/// is smaller than the market's smallest order; otherwise the holding plus
/// the order raised to the market's size step.
pub open spec fn fitted_size(cur: Dec, size: Dec, rules: MarketRules) -> Option<Dec> {
    if size.abs().lt(rules.min_size) {
        Some(cur)
    } else {
        match round_to_increment(size, rules.size_increment) {
            Some(rounded) => cur.add(rounded),
            None => None,
        }
    }
}

/// `sizes` after the fitted size was entered for each entry of `order` in turn.
pub open spec fn fit_entries(
    sizes: Entries,
    order: Entries,
    current: Entries,
    markets: Seq<MarketRules>,
) -> Result<Entries, PositionError>
    decreases order.len(),
{
    if order.len() == 0 {
        Ok(sizes)
    } else {
        match fit_entries(sizes, order.drop_last(), current, markets) {
            Err(e) => Err(e),
            Ok(prev) => match market_of(markets, order.last().0) {
                None => Err(PositionError::UnknownMarket),
                Some(rules) => match fitted_size(
                    amount(current, order.last().0),
                    order.last().1,
                    rules,
                ) {
                    Some(v) => Ok(upsert(prev, order.last().0, v)),
                    None => Err(PositionError::Overflow),
                },
            },
        }
    }
}

/// The symbols of `s`, in their order.
pub open spec fn symbols_of(s: Entries) -> Seq<SymbolId> {
    Seq::new(s.len(), |i: int| s[i].0)
}

impl PositionView {
    /// The order that leads from what is held to what is wanted, at the current prices.
    pub open spec fn order(self) -> Option<Valued> {
        match combine(self.next_size, self.current.bundle, Op::Sub) {
            Some(bundle) => Some(
                Valued { bundle, valuation: self.current.valuation, time: self.current.time },
            ),
            None => None,
        }
    }

    /// The position after the result of an order was applied: the order is
    /// added to what is held, and that is also what is wanted next. The first
    /// order that moves a quantity opens the position; the order that
    /// brings an open position back to zero everywhere closes it. A closed
    /// position takes no order that moves a quantity.
    pub open spec fn resized(self, order: Valued) -> Result<PositionView, PositionError> {
        if self.close.is_some() && !all_zero(order.bundle) {
            Err(PositionError::AlreadyClosed)
        } else {
            match combine(self.current.bundle, order.bundle, Op::Add) {
                None => Err(PositionError::Overflow),
                Some(bundle) => Ok(
                    PositionView {
                        id: self.id,
                        current: Valued { bundle, ..self.current },
                        next_size: bundle,
                        open: if self.open.is_none() && !all_zero(order.bundle) {
                            Some(order)
                        } else {
                            self.open
                        },
                        close: if self.close.is_some() {
                            self.close
                        } else if self.open.is_some() && all_zero(bundle) {
                            Some(order)
                        } else {
                            None
                        },
                    },
                ),
            }
        }
    }

    /// The worth at which the position was opened, zero before that.
    pub open spec fn open_value(self) -> Option<Dec> {
        match self.open {
            Some(open) => open.value(),
            None => Some(Dec::zero()),
        }
    }

    /// The worth of the magnitudes at which the position was opened, zero before that.
    pub open spec fn open_abs_value(self) -> Option<Dec> {
        match self.open {
            Some(open) => open.abs_value(),
            None => Some(Dec::zero()),
        }
    }

    /// Profit and loss. Of a closed position: minus the sum of what the
    /// opening and the closing order were worth. Otherwise: what is held
    /// is worth now, less what the opening order was worth.
    pub open spec fn pnl(self) -> Option<Dec> {
        match self.close {
            Some(close) => match self.open {
                None => None,
                Some(open) => match (open.value(), close.value()) {
                    (Some(o), Some(c)) => match o.add(c) {
                        Some(s) => Some(s.neg()),
                        None => None,
                    },
                    _ => None,
                },
            },
            None => match (self.open_value(), self.current.value()) {
                (Some(o), Some(c)) => c.sub(o),
                _ => None,
            },
        }
    }

    /// The worth of the position: what was put in at the opening, plus profit and loss.
    pub open spec fn value(self) -> Option<Dec> {
        match (self.open_abs_value(), self.pnl()) {
            (Some(v), Some(pnl)) => v.add(pnl),
            _ => None,
        }
    }

    /// Profit and loss as a share of what was put in at the opening, zero where that is zero.
    pub open spec fn relative_pnl(self) -> Option<Dec> {
        match (self.pnl(), self.open_abs_value()) {
            (Some(pnl), Some(v)) => if v.is_zero() {
                Some(Dec::zero())
            } else {
                pnl.div(v)
            },
            _ => None,
        }
    }

    /// The position with its wanted sizes fitted to the rules of the
    /// markets, and what the change is worth at the current prices.
    pub open spec fn fit(self, markets: Seq<MarketRules>) -> Result<(PositionView, Dec), PositionError> {
        match combine(self.next_size, self.current.bundle, Op::Sub) {
            None => Err(PositionError::Overflow),
            Some(order) => match fit_entries(self.next_size, order, self.current.bundle, markets) {
                Err(e) => Err(e),
                Ok(fitted) => match combine(fitted, self.next_size, Op::Sub) {
                    None => Err(PositionError::Overflow),
                    Some(diff) => match dot(absolute(diff), self.current.valuation) {
                        None => Err(PositionError::Overflow),
                        Some(worth) => Ok((PositionView { next_size: fitted, ..self }, worth)),
                    },
                },
            },
        }
    }

    /// A position is closed once an order has brought it back to zero.
    pub open spec fn closed(self) -> bool {
        self.close.is_some()
    }

    /// What every position made by this library satisfies: only an open
    /// position holds anything, and a closed one was opened before.
    pub open spec fn wf(self) -> bool {
        &&& self.open.is_none() ==> self.close.is_none() && all_zero(self.current.bundle)
        &&& self.close.is_some() ==> all_zero(self.current.bundle)
        &&& self.open.is_some() && self.close.is_none() ==> !all_zero(self.current.bundle)
    }
}

/// The content of an optional valued bundle.
pub open spec fn valued_model(v: Option<ValuedBundle>) -> Option<Valued> {
    match v {
        Some(v) => Some(v@),
        None => None,
    }
}

impl View for Position {
    type V = PositionView;

    closed spec fn view(&self) -> PositionView {
        PositionView {
            id: self.id,
            current: self.current@,
            open: valued_model(self.open),
            close: valued_model(self.close),
            next_size: self.next_size@,
        }
    }
}

impl Default for Position {
    /// A new position that holds and wants nothing, under an identifier of its own.
    fn default() -> (r: Position)
        ensures
            is_random_uuid(r@.id),
            r@.current == Valued::empty(),
            r@.open.is_none(),
            r@.close.is_none(),
            r@.next_size == Entries::empty(),
    {
        Position {
            id: fresh_id(),
            open: None,
            close: None,
            current: ValuedBundle::default(),
            next_size: Bundle::default(),
        }
    }
}

fn clone_valued(v: &Option<ValuedBundle>) -> (r: Option<ValuedBundle>)
    ensures
        valued_model(r) == valued_model(*v),
{
    match v {
        Some(v) => Some(v.clone()),
        None => None,
    }
}

impl Clone for Position {
    fn clone(&self) -> (r: Position)
        ensures
            r@ == self@,
    {
        Position {
            id: self.id,
            current: self.current.clone(),
            open: clone_valued(&self.open),
            close: clone_valued(&self.close),
            next_size: self.next_size.clone(),
        }
    }
}

impl Position {
    /// What is held, at the latest prices.
    pub fn current(&self) -> (r: &ValuedBundle)
        ensures
            r@ == self@.current,
    {
        &self.current
    }

    /// The order that opened the position, if one has.
    pub fn open_order(&self) -> (r: Option<&ValuedBundle>)
        ensures
            r.is_some() == self@.open.is_some(),
            r matches Some(v) ==> Some(v@) == self@.open,
    {
        match &self.open {
            Some(v) => Some(v),
            None => None,
        }
    }

    /// The order that brought the position back to zero, if one has.
    pub fn close_order(&self) -> (r: Option<&ValuedBundle>)
        ensures
            r.is_some() == self@.close.is_some(),
            r matches Some(v) ==> Some(v@) == self@.close,
    {
        match &self.close {
            Some(v) => Some(v),
            None => None,
        }
    }

    /// What the strategy wants to hold after the next round of orders.
    pub fn next_size(&self) -> (r: &Bundle)
        ensures
            r@ == self@.next_size,
    {
        &self.next_size
    }

    /// Enters a new price for `symbol` into the prices that value what is held.
    pub fn set_price(&mut self, symbol: Symbol, price: Decimal)
        ensures
            final(self)@ == (PositionView {
                current: Valued {
                    valuation: upsert(old(self)@.current.valuation, symbol@, price@),
                    ..old(self)@.current
                },
                ..old(self)@
            }),
    {
        self.current.valuation.insert(symbol, price);
    }

    pub fn new() -> (r: Position)
        ensures
            is_random_uuid(r@.id),
            r@.current == Valued::empty(),
            r@.open.is_none(),
            r@.close.is_none(),
            r@.next_size == Entries::empty(),
    {
        Position::default()
    }

    pub fn id(&self) -> (r: u128)
        ensures
            r == self@.id,
    {
        self.id
    }

    /// The position with `qty` of `symbol` wanted.
    pub fn long(self, symbol: Symbol, qty: Decimal) -> (r: Position)
        requires
            Dec::zero().le(qty@),
        ensures
            r@ == (PositionView { next_size: upsert(self@.next_size, symbol@, qty@), ..self@ }),
    {
        let mut r = self;
        r.next_size.insert(symbol, qty);
        r
    }

    /// The position with `qty` of `symbol` wanted sold short.
    pub fn short(self, symbol: Symbol, qty: Decimal) -> (r: Position)
        requires
            Dec::zero().le(qty@),
        ensures
            r@ == (PositionView {
                next_size: upsert(self@.next_size, symbol@, qty@.neg()),
                ..self@
            }),
    {
        let mut r = self;
        r.next_size.insert(symbol, qty.neg());
        r
    }

    /// The quantity wanted of `symbol`, zero where none was asked for.
    pub fn size(&self, symbol: &Symbol) -> (r: Decimal)
        ensures
            r@ == amount(self@.next_size, symbol@),
    {
        self.next_size.quantity(symbol)
    }

    /// Asks for `qty` of `symbol`; a negative quantity is a short sale.
    pub fn set_size(&mut self, symbol: Symbol, qty: Decimal)
        ensures
            final(self)@ == (PositionView {
                next_size: upsert(old(self)@.next_size, symbol@, qty@),
                ..old(self)@
            }),
    {
        self.next_size.insert(symbol, qty);
    }

    /// The symbols that the opening order moved, in its order.
    pub fn symbols(&self) -> (r: Vec<Symbol>)
        ensures
            Seq::new(r@.len(), |i: int| r@[i]@) == match self@.open {
                Some(open) => symbols_of(Valued::nonzero(open.bundle)),
                None => Seq::<SymbolId>::empty(),
            },
    {
        let mut out: Vec<Symbol> = Vec::new();
        match &self.open {
            None => {
                assert(Seq::new(out@.len(), |i: int| out@[i]@) =~= Seq::<SymbolId>::empty());
            },
            Some(open) => {
                let mut i: usize = 0;
                assert(open@.bundle.take(0) =~= Entries::empty());
                assert(Seq::new(out@.len(), |i: int| out@[i]@) =~= symbols_of(
                    Valued::nonzero(open@.bundle.take(0)),
                ));
                while i < open.bundle.len()
                    invariant
                        i <= open@.bundle.len(),
                        Seq::new(out@.len(), |i: int| out@[i]@) == symbols_of(
                            Valued::nonzero(open@.bundle.take(i as int)),
                        ),
                    decreases open@.bundle.len() - i,
                {
                    proof {
                        assert(open@.bundle.take(i + 1).drop_last() =~= open@.bundle.take(
                            i as int,
                        ));
                        assert(open@.bundle.take(i + 1).last() == open@.bundle[i as int]);
                    }
                    let ghost before = Seq::new(out@.len(), |i: int| out@[i]@);
                    if !open.bundle.quantity_at(i).is_zero() {
                        out.push(open.bundle.symbol_at(i).clone());
                        assert(Seq::new(out@.len(), |i: int| out@[i]@) =~= before.push(
                            open@.bundle[i as int].0,
                        ));
                        assert(symbols_of(Valued::nonzero(open@.bundle.take(i + 1)))
                            =~= symbols_of(Valued::nonzero(open@.bundle.take(i as int))).push(
                            open@.bundle[i as int].0,
                        ));
                    }
                    i = i + 1;
                }
                assert(open@.bundle.take(i as int) =~= open@.bundle);
            },
        }
        out
    }

    /// Fits the wanted sizes to the rules of the markets: for each symbol
    /// the order is raised to the market's size step, or dropped where it
    /// is smaller than the market's smallest order. Returns what the
    /// change is worth at the current prices. On an error nothing changes.
    pub fn fit(&mut self, markets: &Markets) -> (r: Result<Decimal, PositionError>)
        ensures
            match old(self)@.fit(markets@) {
                Ok((after, worth)) => final(self)@ == after && r.is_ok() && r.unwrap()@ == worth,
                Err(e) => final(self)@ == old(self)@ && r == Err::<Decimal, PositionError>(e),
            },
    {
        let order = match self.next_size.sub(&self.current.bundle) {
            Some(order) => order,
            None => {
                return Err(PositionError::Overflow);
            },
        };
        let mut fitted = self.next_size.clone();
        let mut i: usize = 0;
        assert(order@.take(0) =~= Entries::empty());
        while i < order.len()
            invariant
                i <= order@.len(),
                *self == *old(self),
                Some(order@) == combine(self@.next_size, self@.current.bundle, Op::Sub),
                Ok::<Entries, PositionError>(fitted@) == fit_entries(
                    self@.next_size,
                    order@.take(i as int),
                    self@.current.bundle,
                    markets@,
                ),
            decreases order@.len() - i,
        {
            let symbol = order.symbol_at(i);
            let size = order.quantity_at(i);
            proof {
                assert(order@.take(i + 1).drop_last() =~= order@.take(i as int));
                assert(order@.take(i + 1).last() == order@[i as int]);
            }
            let info = match markets.market(symbol) {
                Some(info) => info,
                None => {
                    proof {
                        lemma_fit_entries_stays_err(
                            self@.next_size,
                            order@,
                            self@.current.bundle,
                            markets@,
                            i + 1,
                        );
                    }
                    return Err(PositionError::UnknownMarket);
                },
            };
            let cur = self.current.bundle.quantity(symbol);
            let next = if size.abs().lt(&info.min_size) {
                Some(cur)
            } else {
                match info.round_size(size) {
                    Some(rounded) => cur.checked_add(rounded),
                    None => None,
                }
            };
            match next {
                Some(v) => {
                    fitted.insert(symbol.clone(), v);
                },
                None => {
                    proof {
                        lemma_fit_entries_stays_err(
                            self@.next_size,
                            order@,
                            self@.current.bundle,
                            markets@,
                            i + 1,
                        );
                    }
                    return Err(PositionError::Overflow);
                },
            }
            i = i + 1;
        }
        assert(order@.take(i as int) =~= order@);
        let diff = match fitted.sub(&self.next_size) {
            Some(diff) => diff,
            None => {
                return Err(PositionError::Overflow);
            },
        };
        match diff.abs().value_at(&self.current.valuation) {
            Some(worth) => {
                self.next_size = fitted;
                Ok(worth)
            },
            None => Err(PositionError::Overflow),
        }
    }

    /// Values what is held at new prices.
    pub fn valuate(&mut self, valuation: Valuation, time: Time)
        ensures
            final(self)@ == (PositionView {
                current: Valued {
                    bundle: old(self)@.current.bundle,
                    valuation: valuation@,
                    time: Some(time),
                },
                ..old(self)@
            }),
    {
        self.current.valuation = valuation;
        self.current.time = Some(time);
    }

    /// Asks for nothing to be held any more: every wanted size becomes zero.
    pub fn close(&mut self)
        ensures
            final(self)@ == (PositionView {
                next_size: zeroed(old(self)@.next_size),
                ..old(self)@
            }),
    {
        self.next_size.clear();
    }

    /// The order that leads from what is held to what is wanted, `None` where a difference overflows.
    pub fn order(&self) -> (r: Option<ValuedBundle>)
        ensures
            valued_model(r) == self@.order(),
    {
        match self.next_size.sub(&self.current.bundle) {
            Some(bundle) => Some(
                ValuedBundle {
                    bundle,
                    valuation: self.current.valuation.clone(),
                    time: self.current.time,
                },
            ),
            None => None,
        }
    }

    /// Applies the result of an order to the position. On an error nothing changes.
    pub fn resize(&mut self, order: ValuedBundle) -> (r: Result<(), PositionError>)
        ensures
            match old(self)@.resized(order@) {
                Ok(after) => final(self)@ == after && r.is_ok(),
                Err(e) => final(self)@ == old(self)@ && r == Err::<(), PositionError>(e),
            },
    {
        if self.close.is_some() && !order.bundle.is_all_zero() {
            return Err(PositionError::AlreadyClosed);
        }
        let bundle = match self.current.bundle.add(&order.bundle) {
            Some(bundle) => bundle,
            None => {
                return Err(PositionError::Overflow);
            },
        };
        let back_to_zero = bundle.is_all_zero();
        self.next_size = bundle.clone();
        self.current.bundle = bundle;
        if self.open.is_none() {
            if !order.bundle.is_all_zero() {
                self.open = Some(order);
            }
        } else if self.close.is_none() && back_to_zero {
            self.close = Some(order);
        }
        Ok(())
    }

    /// Total profit and loss of the position. `None` where a worth
    /// overflows, or where a closing order stands without an opening one.
    pub fn pnl(&self) -> (r: Option<Decimal>)
        ensures
            Decimal::model(r) == self@.pnl(),
    {
        match &self.close {
            Some(close) => match &self.open {
                None => None,
                Some(open) => match (open.value(), close.value()) {
                    (Some(o), Some(c)) => match o.checked_add(c) {
                        Some(s) => Some(s.neg()),
                        None => None,
                    },
                    _ => None,
                },
            },
            None => {
                let opened = match &self.open {
                    Some(open) => open.value(),
                    None => Some(Decimal::zero()),
                };
                match (opened, self.current.value()) {
                    (Some(o), Some(c)) => c.checked_sub(o),
                    _ => None,
                }
            },
        }
    }

    fn open_abs_value(&self) -> (r: Option<Decimal>)
        ensures
            Decimal::model(r) == self@.open_abs_value(),
    {
        match &self.open {
            Some(open) => open.abs_value(),
            None => Some(Decimal::zero()),
        }
    }

    /// Total worth of the position.
    pub fn value(&self) -> (r: Option<Decimal>)
        ensures
            Decimal::model(r) == self@.value(),
    {
        match (self.open_abs_value(), self.pnl()) {
            (Some(v), Some(pnl)) => v.checked_add(pnl),
            _ => None,
        }
    }

    /// Profit and loss relative to the worth at the opening.
    pub fn relative_pnl(&self) -> (r: Option<Decimal>)
        ensures
            Decimal::model(r) == self@.relative_pnl(),
    {
        match (self.pnl(), self.open_abs_value()) {
            (Some(pnl), Some(v)) => if v.is_zero() {
                Some(Decimal::zero())
            } else {
                pnl.checked_div(v)
            },
            _ => None,
        }
    }

    /// Whether an order has brought the position back to zero.
    pub fn closed(&self) -> (r: bool)
        ensures
            r == self@.closed(),
    {
        self.close.is_some()
    }

    /// Whether nothing is wanted any more.
    pub fn removable(&self) -> (r: bool)
        ensures
            r == all_zero(self@.next_size),
    {
        self.next_size.is_all_zero()
    }
}

/// In a sequence of distinct symbols, each entry holds the amount of its symbol.
pub proof fn lemma_entry_is_amount(s: Entries, i: int)
    requires
        distinct_keys(s),
        0 <= i < s.len(),
    ensures
        amount(s, s[i].0) == s[i].1,
        has_key(s, s[i].0),
{
    lemma_index_of(s, s[i].0, i);
}

/// Every quantity is zero if and only if the amount of every symbol is.
pub proof fn lemma_all_zero_by_amounts(s: Entries)
    requires
        distinct_keys(s),
    ensures
        all_zero(s) <==> forall|k: SymbolId| (#[trigger] amount(s, k)).is_zero(),
{
    if all_zero(s) {
        assert forall|k: SymbolId| (#[trigger] amount(s, k)).is_zero() by {
            if has_key(s, k) {
                let i = index_of(s, k);
                assert(s[i].1.is_zero());
            }
        }
    }
    if forall|k: SymbolId| (#[trigger] amount(s, k)).is_zero() {
        assert forall|i: int| 0 <= i < s.len() implies (#[trigger] s[i]).1.is_zero() by {
            lemma_entry_is_amount(s, i);
            assert(amount(s, s[i].0).is_zero());
        }
    }
}

/// The life of a position, one order result at a time. Applying a result
/// keeps the position well formed. The position is open afterwards if and
/// only if it was open before or the result moves a quantity; it is
/// closed afterwards if and only if it was open before and nothing is
/// held any more. What is wanted next is what is held. A result that
/// moves nothing never opens or closes a position.
pub proof fn lemma_resize_lifecycle(p: PositionView, order: Valued)
    requires
        p.wf(),
        distinct_keys(p.current.bundle),
        distinct_keys(order.bundle),
        p.resized(order).is_ok(),
    ensures
        p.resized(order).unwrap().wf(),
        distinct_keys(p.resized(order).unwrap().current.bundle),
        p.resized(order).unwrap().next_size == p.resized(order).unwrap().current.bundle,
        p.resized(order).unwrap().open.is_some() <==> p.open.is_some() || !all_zero(order.bundle),
        p.resized(order).unwrap().close.is_some() <==> p.open.is_some() && all_zero(
            p.resized(order).unwrap().next_size,
        ),
        all_zero(order.bundle) ==> p.resized(order).unwrap().open == p.open && p.resized(
            order,
        ).unwrap().close == p.close,
{
    let q = p.resized(order).unwrap();
    let cur = p.current.bundle;
    let next = q.current.bundle;
    lemma_combine_pointwise(cur, order.bundle, Op::Add);
    lemma_all_zero_by_amounts(cur);
    lemma_all_zero_by_amounts(order.bundle);
    lemma_all_zero_by_amounts(next);
    if p.open.is_none() || p.close.is_some() {
        assert forall|k: SymbolId| (#[trigger] amount(next, k)).is_zero() == amount(
            order.bundle,
            k,
        ).is_zero() by {
            assert(amount(cur, k).is_zero());
            if has_key(order.bundle, k) {
                assert(Some(amount(next, k)) == amount(cur, k).add(amount(order.bundle, k)));
            } else {
                assert(lookup(next, k) == lookup(cur, k));
                assert(lookup(order.bundle, k).is_none());
                assert(amount(next, k) == amount(cur, k));
            }
        }
        if all_zero(order.bundle) {
            assert forall|k: SymbolId| (#[trigger] amount(next, k)).is_zero() by {
                assert(amount(order.bundle, k).is_zero());
            }
        } else {
            let k = choose|k: SymbolId| !(#[trigger] amount(order.bundle, k)).is_zero();
            assert(!amount(next, k).is_zero());
        }
    } else if all_zero(order.bundle) {
        assert forall|k: SymbolId| (#[trigger] amount(next, k)).is_zero() == amount(
            cur,
            k,
        ).is_zero() by {
            assert(amount(order.bundle, k).is_zero());
            if has_key(order.bundle, k) {
                assert(Some(amount(next, k)) == amount(cur, k).add(amount(order.bundle, k)));
            } else {
                assert(lookup(next, k) == lookup(cur, k));
            }
        }
        let k = choose|k: SymbolId| !(#[trigger] amount(cur, k)).is_zero();
        assert(!amount(next, k).is_zero());
    }
}

/// What fitting does symbol by symbol: a symbol of the order has its
/// fitted size, by the rules of its market; every other symbol keeps its entry.
pub proof fn lemma_fit_entries_pointwise(
    sizes: Entries,
    order: Entries,
    current: Entries,
    markets: Seq<MarketRules>,
)
    requires
        distinct_keys(sizes),
        distinct_keys(order),
        fit_entries(sizes, order, current, markets).is_ok(),
    ensures
        distinct_keys(fit_entries(sizes, order, current, markets).unwrap()),
        forall|k: SymbolId| has_key(order, k) ==> (#[trigger] market_of(markets, k)).is_some(),
        forall|k: SymbolId|
            has_key(order, k) ==> Some(
                #[trigger] amount(fit_entries(sizes, order, current, markets).unwrap(), k),
            ) == fitted_size(amount(current, k), amount(order, k), market_of(markets, k).unwrap()),
        forall|k: SymbolId|
            !has_key(order, k) ==> #[trigger] lookup(
                fit_entries(sizes, order, current, markets).unwrap(),
                k,
            ) == lookup(sizes, k),
    decreases order.len(),
{
    let r = fit_entries(sizes, order, current, markets).unwrap();
    if order.len() > 0 {
        let init = order.drop_last();
        let k0 = order.last().0;
        let q0 = order.last().1;
        assert(fit_entries(sizes, init, current, markets).is_ok());
        let prev = fit_entries(sizes, init, current, markets).unwrap();
        assert(market_of(markets, k0).is_some());
        assert(fitted_size(amount(current, k0), q0, market_of(markets, k0).unwrap()).is_some());
        assert(distinct_keys(init));
        lemma_fit_entries_pointwise(sizes, init, current, markets);
        let rules = market_of(markets, k0).unwrap();
        let v = fitted_size(amount(current, k0), q0, rules).unwrap();
        assert(r == upsert(prev, k0, v));
        lemma_upsert(prev, k0, v);
        lemma_index_of(order, k0, order.len() - 1);
        assert(lookup(order, k0) == Some(q0));
        assert(lookup(r, k0) == Some(v));
        assert forall|k: SymbolId| has_key(order, k) implies (#[trigger] market_of(
            markets,
            k,
        )).is_some() by {
            if k != k0 {
                let i = index_of(order, k);
                assert(order[i].0 == k);
                assert(i != order.len() - 1);
                assert(init[i] == order[i]);
                assert(has_key(init, k));
            }
        }
        assert forall|k: SymbolId| has_key(order, k) implies Some(#[trigger] amount(r, k))
            == fitted_size(
            amount(current, k),
            amount(order, k),
            market_of(markets, k).unwrap(),
        ) by {
            if k == k0 {
                assert(amount(r, k) == v);
                assert(amount(order, k) == q0);
            } else {
                let i = index_of(order, k);
                assert(order[i].0 == k);
                assert(i != order.len() - 1);
                assert(init[i] == order[i]);
                lemma_index_of(init, k, i);
                lemma_index_of(order, k, i);
                assert(has_key(init, k));
                assert(lookup(r, k) == lookup(prev, k));
                assert(amount(init, k) == amount(order, k));
                assert(Some(amount(prev, k)) == fitted_size(
                    amount(current, k),
                    amount(init, k),
                    market_of(markets, k).unwrap(),
                ));
            }
        }
        assert forall|k: SymbolId| !has_key(order, k) implies #[trigger] lookup(r, k) == lookup(
            sizes,
            k,
        ) by {
            if has_key(init, k) {
                let i = index_of(init, k);
                assert(order[i].0 == k);
            }
            if k == k0 {
                assert(order[order.len() - 1].0 == k);
            }
            assert(lookup(r, k) == lookup(prev, k));
            assert(lookup(prev, k) == lookup(sizes, k));
        }
    }
}

/// An order smaller than the smallest order of its market is dropped:
/// the fitted position wants of that symbol exactly what it holds.
pub proof fn lemma_fit_snaps_small_order(p: PositionView, markets: Seq<MarketRules>, k: SymbolId)
    requires
        distinct_keys(p.next_size),
        distinct_keys(p.current.bundle),
        p.fit(markets).is_ok(),
        has_key(p.next_size, k) || has_key(p.current.bundle, k),
        amount(p.order().unwrap().bundle, k).abs().lt(market_of(markets, k).unwrap().min_size),
    ensures
        amount(p.fit(markets).unwrap().0.next_size, k) == amount(p.current.bundle, k),
{
    let order = combine(p.next_size, p.current.bundle, Op::Sub).unwrap();
    lemma_combine_pointwise(p.next_size, p.current.bundle, Op::Sub);
    assert(has_key(order, k));
    lemma_fit_entries_pointwise(p.next_size, order, p.current.bundle, markets);
}

/// In markets without a size step, fitting leaves the wanted sizes as
/// they are, as numbers: for a position whose orders are all large
/// enough for their markets, and wherever neither the order nor the
/// fitted size had to be rounded.
pub proof fn lemma_fit_without_increment(p: PositionView, markets: Seq<MarketRules>)
    requires
        distinct_keys(p.next_size),
        distinct_keys(p.current.bundle),
        p.fit(markets).is_ok(),
        forall|k: SymbolId|
            has_key(p.order().unwrap().bundle, k) ==> (#[trigger] market_of(
                markets,
                k,
            )).unwrap().size_increment.is_zero() && !amount(p.order().unwrap().bundle, k).abs().lt(
                market_of(markets, k).unwrap().min_size,
            ),
        forall|k: SymbolId|
            has_key(p.order().unwrap().bundle, k) ==> (#[trigger] amount(
                p.order().unwrap().bundle,
                k,
            )).sums_to(amount(p.current.bundle, k), amount(p.next_size, k)) && amount(
                p.current.bundle,
                k,
            ).sums_to(
                amount(p.order().unwrap().bundle, k),
                amount(p.fit(markets).unwrap().0.next_size, k),
            ),
    ensures
        forall|k: SymbolId|
            (#[trigger] amount(p.fit(markets).unwrap().0.next_size, k)).same(
                amount(p.next_size, k),
            ),
{
    let order = combine(p.next_size, p.current.bundle, Op::Sub).unwrap();
    let fitted = p.fit(markets).unwrap().0.next_size;
    lemma_combine_pointwise(p.next_size, p.current.bundle, Op::Sub);
    lemma_fit_entries_pointwise(p.next_size, order, p.current.bundle, markets);
    assert forall|k: SymbolId| (#[trigger] amount(fitted, k)).same(amount(p.next_size, k)) by {
        if has_key(order, k) {
            assert(market_of(markets, k).unwrap().size_increment.is_zero());
            assert(amount(order, k).sums_to(amount(p.current.bundle, k), amount(p.next_size, k)));
            assert(amount(p.current.bundle, k).sums_to(amount(order, k), amount(fitted, k)));
        } else {
            assert(lookup(fitted, k) == lookup(p.next_size, k));
        }
    }
}

/// In markets without a size step, fitting a position that holds nothing
/// yet leaves every wanted size exactly as it is, if each is large enough for its market.
pub proof fn lemma_fit_new_without_increment(p: PositionView, markets: Seq<MarketRules>)
    requires
        distinct_keys(p.next_size),
        p.current.bundle.len() == 0,
        p.fit(markets).is_ok(),
        forall|k: SymbolId|
            has_key(p.next_size, k) ==> (#[trigger] market_of(
                markets,
                k,
            )).unwrap().size_increment.is_zero() && !amount(p.next_size, k).abs().lt(
                market_of(markets, k).unwrap().min_size,
            ),
    ensures
        forall|k: SymbolId|
            #[trigger] amount(p.fit(markets).unwrap().0.next_size, k) == amount(p.next_size, k),
{
    let order = combine(p.next_size, p.current.bundle, Op::Sub).unwrap();
    assert(order == p.next_size);
    let fitted = p.fit(markets).unwrap().0.next_size;
    lemma_fit_entries_pointwise(p.next_size, order, p.current.bundle, markets);
    assert forall|k: SymbolId| #[trigger] amount(fitted, k) == amount(p.next_size, k) by {
        assert(lookup(p.current.bundle, k).is_none());
        if has_key(order, k) {
            let rules = market_of(markets, k).unwrap();
            assert(rules.size_increment.is_zero());
            assert(Some(amount(fitted, k)) == fitted_size(Dec::zero(), amount(order, k), rules));
        } else {
            assert(lookup(fitted, k) == lookup(p.next_size, k));
        }
    }
}

/// Once a prefix of the order has failed to fit, all of it has, with the same error.
pub proof fn lemma_fit_entries_stays_err(
    sizes: Entries,
    order: Entries,
    current: Entries,
    markets: Seq<MarketRules>,
    n: int,
)
    requires
        0 <= n <= order.len(),
        fit_entries(sizes, order.take(n), current, markets).is_err(),
    ensures
        fit_entries(sizes, order, current, markets) == fit_entries(
            sizes,
            order.take(n),
            current,
            markets,
        ),
    decreases order.len() - n,
{
    if n < order.len() {
        assert(order.take(n + 1).drop_last() =~= order.take(n));
        lemma_fit_entries_stays_err(sizes, order, current, markets, n + 1);
    } else {
        assert(order.take(n) =~= order);
    }
}

} // verus!
