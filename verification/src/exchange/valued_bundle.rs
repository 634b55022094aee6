use vstd::prelude::*;
use crate::decimal::{Dec, Decimal};
use crate::exchange::bundle::{absolute, combine, dot, equivalent, negated, Bundle, Entries, Op};
use crate::exchange::valuation::Valuation;
use crate::id::fresh_id;
use crate::ledger::{amount, upsert};
use crate::market::SymbolId;
use crate::order::{Fill, Order, OrderInfo, OrderKind, OrderType, OrderView, Side};
use crate::time::Time;

verus! {

/// Why two valued bundles could not be combined, or one not be turned into orders.
#[derive(Clone, Copy, Debug, PartialEq, Eq, Structural)]
pub enum BundleError {
    /// The two are valued at different prices.
    ValuationMismatch,
    /// The two are of different instants.
    TimeMismatch,
    /// A bundle without an instant cannot be ordered.
    MissingTime,
    /// A quantity left the range of decimals.
    Overflow,
}

/// A bundle together with the prices it is valued at and the instant of these prices.
#[derive(Debug)]
pub struct ValuedBundle {
    pub bundle: Bundle,
    pub valuation: Valuation,
    pub time: Option<Time>,
}

/// The mathematical content of a valued bundle.
pub struct Valued {
    pub bundle: Entries,
    pub valuation: Entries,
    pub time: Option<Time>,
}

impl Valued {
    pub open spec fn empty() -> Valued {
        Valued { bundle: Entries::empty(), valuation: Entries::empty(), time: None }
    }

    /// The worth: the sum of quantity times price.
    pub open spec fn value(self) -> Option<Dec> {
        dot(self.bundle, self.valuation)
    }

    /// The worth of the magnitudes: the sum of |quantity| times price.
    pub open spec fn abs_value(self) -> Option<Dec> {
        dot(absolute(self.bundle), self.valuation)
    }

    pub open spec fn neg(self) -> Valued {
        Valued { bundle: negated(self.bundle), valuation: self.valuation, time: self.time }
    }

    /// The sum of two valued bundles of the same prices and the same instant.
    pub open spec fn add(self, rhs: Valued) -> Result<Valued, BundleError> {
        if !equivalent(self.valuation, rhs.valuation) {
            Err(BundleError::ValuationMismatch)
        } else if self.time != rhs.time {
            Err(BundleError::TimeMismatch)
        } else {
            match combine(self.bundle, rhs.bundle, Op::Add) {
                Some(bundle) => Ok(Valued { bundle, valuation: self.valuation, time: self.time }),
                None => Err(BundleError::Overflow),
            }
        }
    }

    /// The signed quantity an order or a fill stands for.
    pub open spec fn signed(side: Side, size: Dec) -> Dec {
        if side == Side::Buy {
            size
        } else {
            size.neg()
        }
    }

    /// The valued bundle after an order or a fill was entered: its signed
    /// size and its price replace what was entered for its market, and the
    /// first instant entered stays.
    pub open spec fn with_trade(self, market: SymbolId, side: Side, size: Dec, price: Dec, time: Time) -> Valued {
        Valued {
            bundle: upsert(self.bundle, market, Valued::signed(side, size)),
            valuation: upsert(self.valuation, market, price),
            time: if self.time.is_some() {
                self.time
            } else {
                Some(time)
            },
        }
    }

    /// What a list of orders amounts to, `TimeMismatch` where two of them differ in their instant.
    pub open spec fn from_orders(orders: Seq<OrderView>) -> Result<Valued, BundleError>
        decreases orders.len(),
    {
        if orders.len() == 0 {
            Ok(Valued::empty())
        } else {
            let o = orders.last();
            match Valued::from_orders(orders.drop_last()) {
                Err(e) => Err(e),
                Ok(prev) => if prev.time.is_some() && prev.time != Some(o.time) {
                    Err(BundleError::TimeMismatch)
                } else {
                    Ok(prev.with_trade(o.market, o.side, o.size, o.current_price, o.time))
                },
            }
        }
    }

    /// What a list of fills amounts to; its instant is that of the first fill.
    pub open spec fn from_fills(fills: Seq<Fill>) -> Valued
        decreases fills.len(),
    {
        if fills.len() == 0 {
            Valued::empty()
        } else {
            let f = fills.last();
            Valued::from_fills(fills.drop_last()).with_trade(f.market, f.side, f.size, f.price, f.time)
        }
    }

    /// The entries of `s` with a quantity other than zero, in their order.
    pub open spec fn nonzero(s: Entries) -> Entries
        decreases s.len(),
    {
        if s.len() == 0 {
            s
        } else if s.last().1.is_zero() {
            Valued::nonzero(s.drop_last())
        } else {
            Valued::nonzero(s.drop_last()).push(s.last())
        }
    }

    /// One holding in words: the quantity, the symbol and, in brackets,
    /// what the quantity is worth at `price`. `None` where the worth overflows.
    pub open spec fn entry_text(entry: (SymbolId, Dec), price: Dec) -> Option<Seq<char>> {
        match entry.1.mul(price) {
            Some(worth) => Some(
                entry.1.text() + " "@ + entry.0.text() + " ("@ + worth.text() + " USD), "@,
            ),
            None => None,
        }
    }

    /// The holdings other than zero among the first `n` entries, in words.
    pub open spec fn holdings_text(self, n: nat) -> Option<Seq<char>>
        decreases n,
    {
        if n == 0 {
            Some(Seq::empty())
        } else {
            match self.holdings_text((n - 1) as nat) {
                None => None,
                Some(prev) => if self.bundle[n - 1].1.is_zero() {
                    Some(prev)
                } else {
                    match Valued::entry_text(
                        self.bundle[n - 1],
                        amount(self.valuation, self.bundle[n - 1].0),
                    ) {
                        Some(text) => Some(prev + text),
                        None => None,
                    }
                },
            }
        }
    }

    /// The valued bundle in words: one line with every holding other than zero.
    pub open spec fn text(self) -> Option<Seq<char>> {
        match self.holdings_text(self.bundle.len()) {
            Some(text) => Some(text + "\n"@),
            None => None,
        }
    }

    /// The market order for one entry: a buy of a positive quantity, a sell
    /// of a negative one, of its magnitude, at the price of the valuation.
    pub open spec fn order_for(self, entry: (SymbolId, Dec), time: Time, id: u128) -> OrderView {
        OrderView {
            order_id: id,
            market: entry.0,
            side: if Dec::zero().lt(entry.1) {
                Side::Buy
            } else {
                Side::Sell
            },
            size: entry.1.abs(),
            order_type: OrderKind::Market,
            reduce_only: false,
            time,
            current_price: amount(self.valuation, entry.0),
        }
    }

    /// `orders` are the market orders of this valued bundle: one for each
    /// entry with a quantity other than zero, in their order, under identifiers of any value.
    pub open spec fn ordered_as(self, orders: Seq<OrderView>) -> bool {
        let entries = Valued::nonzero(self.bundle);
        &&& orders.len() == entries.len()
        &&& entries.len() > 0 ==> self.time.is_some()
        &&& forall|i: int|
            0 <= i < orders.len() ==> #[trigger] orders[i] == self.order_for(
                entries[i],
                self.time.unwrap(),
                orders[i].order_id,
            )
    }
}

impl View for ValuedBundle {
    type V = Valued;

    open spec fn view(&self) -> Valued {
        Valued { bundle: self.bundle@, valuation: self.valuation@, time: self.time }
    }
}

impl Clone for ValuedBundle {
    fn clone(&self) -> (r: ValuedBundle)
        ensures
            r@ == self@,
    {
        ValuedBundle {
            bundle: self.bundle.clone(),
            valuation: self.valuation.clone(),
            time: self.time,
        }
    }
}

impl Default for ValuedBundle {
    fn default() -> (r: ValuedBundle)
        ensures
            r@ == Valued::empty(),
    {
        ValuedBundle { bundle: Bundle::default(), valuation: Valuation::default(), time: None }
    }
}

/// The content of a list of orders.
pub open spec fn orders_view(orders: Seq<Order>) -> Seq<OrderView> {
    Seq::new(orders.len(), |i: int| orders[i]@)
}

/// The content of a list of fills.
pub open spec fn fills_view(fills: Seq<OrderInfo>) -> Seq<Fill> {
    Seq::new(fills.len(), |i: int| fills[i]@)
}

impl ValuedBundle {
    /// The content of a valued bundle or of the error in its place.
    pub open spec fn model(r: Result<ValuedBundle, BundleError>) -> Result<Valued, BundleError> {
        match r {
            Ok(v) => Ok(v@),
            Err(e) => Err(e),
        }
    }

    /// The worth of the bundle at its prices.
    pub fn value(&self) -> (r: Option<Decimal>)
        ensures
            Decimal::model(r) == self@.value(),
    {
        self.bundle.value_at(&self.valuation)
    }

    /// The worth of the magnitudes of the bundle at its prices.
    pub fn abs_value(&self) -> (r: Option<Decimal>)
        ensures
            Decimal::model(r) == self@.abs_value(),
    {
        self.bundle.abs().value_at(&self.valuation)
    }

    /// The sum with `rhs`, which must be valued at the same prices and be of the same instant.
    pub fn add(&self, rhs: &ValuedBundle) -> (r: Result<ValuedBundle, BundleError>)
        ensures
            ValuedBundle::model(r) == self@.add(rhs@),
    {
        if !self.valuation.same(&rhs.valuation) {
            return Err(BundleError::ValuationMismatch);
        }
        if !same_time(self.time, rhs.time) {
            return Err(BundleError::TimeMismatch);
        }
        match self.bundle.add(&rhs.bundle) {
            Some(bundle) => Ok(
                ValuedBundle { bundle, valuation: self.valuation.clone(), time: self.time },
            ),
            None => Err(BundleError::Overflow),
        }
    }

    /// The same prices and instant with the opposite quantities.
    pub fn neg(&self) -> (r: ValuedBundle)
        ensures
            r@ == self@.neg(),
    {
        ValuedBundle {
            bundle: self.bundle.neg(),
            valuation: self.valuation.clone(),
            time: self.time,
        }
    }

    /// What a list of orders amounts to: for each market the signed size
    /// and the current price of its last order. The orders must be of one instant.
    pub fn from_orders(orders: &Vec<Order>) -> (r: Result<ValuedBundle, BundleError>)
        ensures
            ValuedBundle::model(r) == Valued::from_orders(orders_view(orders@)),
    {
        let ghost all = orders_view(orders@);
        let mut out = ValuedBundle::default();
        let mut i: usize = 0;
        assert(all.take(0) =~= Seq::<OrderView>::empty());
        while i < orders.len()
            invariant
                i <= orders@.len(),
                all == orders_view(orders@),
                Ok::<Valued, BundleError>(out@) == Valued::from_orders(all.take(i as int)),
            decreases orders@.len() - i,
        {
            let order = &orders[i];
            proof {
                assert(all.take(i + 1).drop_last() =~= all.take(i as int));
                assert(all.take(i + 1).last() == order@);
            }
            match out.time {
                Some(t) => {
                    if t.millis != order.time.millis {
                        proof {
                            lemma_from_orders_stays_err(all, i + 1);
                        }
                        return Err(BundleError::TimeMismatch);
                    }
                },
                None => {
                    out.time = Some(order.time);
                },
            }
            let qty = if order.side == Side::Buy {
                order.size
            } else {
                order.size.neg()
            };
            out.bundle.insert(order.market.clone(), qty);
            out.valuation.insert(order.market.clone(), order.current_price);
            i = i + 1;
        }
        assert(all.take(i as int) =~= all);
        Ok(out)
    }

    /// What a list of fills amounts to: for each market the signed size
    /// and the price of its last fill, at the instant of the first fill.
    pub fn from_order_infos(fills: &Vec<OrderInfo>) -> (r: ValuedBundle)
        ensures
            r@ == Valued::from_fills(fills_view(fills@)),
    {
        let ghost all = fills_view(fills@);
        let mut out = ValuedBundle::default();
        let mut i: usize = 0;
        assert(all.take(0) =~= Seq::<Fill>::empty());
        while i < fills.len()
            invariant
                i <= fills@.len(),
                all == fills_view(fills@),
                out@ == Valued::from_fills(all.take(i as int)),
            decreases fills@.len() - i,
        {
            let fill = &fills[i];
            proof {
                assert(all.take(i + 1).drop_last() =~= all.take(i as int));
                assert(all.take(i + 1).last() == fill@);
            }
            if out.time.is_none() {
                out.time = Some(fill.time);
            }
            let qty = if fill.side == Side::Buy {
                fill.size
            } else {
                fill.size.neg()
            };
            out.bundle.insert(fill.market.clone(), qty);
            out.valuation.insert(fill.market.clone(), fill.price);
            i = i + 1;
        }
        assert(all.take(i as int) =~= all);
        out
    }

    /// The valued bundle in words, for a reader: each holding other than
    /// zero with what it is worth. `None` where a worth overflows.
    pub fn to_string(&self) -> (r: Option<String>)
        ensures
            match r {
                Some(text) => self@.text() == Some(text@),
                None => self@.text().is_none(),
            },
    {
        let mut out = String::new();
        let mut i: usize = 0;
        while i < self.bundle.len()
            invariant
                i <= self@.bundle.len(),
                Some(out@) == self@.holdings_text(i as nat),
            decreases self@.bundle.len() - i,
        {
            let qty = self.bundle.quantity_at(i);
            if !qty.is_zero() {
                let symbol = self.bundle.symbol_at(i);
                let ghost before = out@;
                match qty.checked_mul(self.valuation.price(symbol)) {
                    Some(worth) => {
                        out.append(qty.to_string().as_str());
                        out.append(" ");
                        out.append(symbol.to_string().as_str());
                        out.append(" (");
                        out.append(worth.to_string().as_str());
                        out.append(" USD), ");
                        assert(out@ =~= before + Valued::entry_text(
                            self@.bundle[i as int],
                            amount(self@.valuation, self@.bundle[i as int].0),
                        ).unwrap());
                    },
                    None => {
                        proof {
                            assert(self@.holdings_text((i + 1) as nat).is_none());
                            lemma_holdings_text_stays_none(self@, (i + 1) as nat, self@.bundle.len());
                        }
                        return None;
                    },
                }
            }
            i = i + 1;
        }
        out.append("\n");
        Some(out)
    }

    /// The market orders that bring about the bundle: none for a quantity
    /// of zero. `MissingTime` where an order is due and the bundle has no instant.
    pub fn to_orders(&self) -> (r: Result<Vec<Order>, BundleError>)
        ensures
            match r {
                Ok(orders) => self@.ordered_as(orders_view(orders@)),
                Err(e) => e == BundleError::MissingTime && self@.time.is_none() && Valued::nonzero(
                    self@.bundle,
                ).len() > 0,
            },
    {
        let mut orders: Vec<Order> = Vec::new();
        let mut i: usize = 0;
        assert(self@.bundle.take(0) =~= Entries::empty());
        while i < self.bundle.len()
            invariant
                i <= self@.bundle.len(),
                (Valued { bundle: self@.bundle.take(i as int), ..self@ }).ordered_as(
                    orders_view(orders@),
                ),
            decreases self@.bundle.len() - i,
        {
            let qty = self.bundle.quantity_at(i);
            let ghost before = orders_view(orders@);
            proof {
                assert(self@.bundle.take(i + 1).drop_last() =~= self@.bundle.take(i as int));
                assert(self@.bundle.take(i + 1).last() == self@.bundle[i as int]);
            }
            if !qty.is_zero() {
                let time = match self.time {
                    Some(time) => time,
                    None => {
                        proof {
                            lemma_nonzero_grows(self@.bundle, i + 1);
                        }
                        return Err(BundleError::MissingTime);
                    },
                };
                let symbol = self.bundle.symbol_at(i);
                let side = if Decimal::zero().lt(&qty) {
                    Side::Buy
                } else {
                    Side::Sell
                };
                orders.push(
                    Order {
                        order_id: fresh_id(),
                        market: symbol.clone(),
                        side,
                        size: qty.abs(),
                        order_type: OrderType::Market,
                        reduce_only: false,
                        time,
                        current_price: self.valuation.price(symbol),
                    },
                );
                proof {
                    let after = orders_view(orders@);
                    assert(forall|j: int| 0 <= j < before.len() ==> after[j] == before[j]);
                }
            }
            i = i + 1;
        }
        assert(self@.bundle.take(i as int) =~= self@.bundle);
        Ok(orders)
    }
}

/// Whether two optional instants are the same.
pub fn same_time(a: Option<Time>, b: Option<Time>) -> (r: bool)
    ensures
        r == (a == b),
{
    match (a, b) {
        (Some(x), Some(y)) => x.millis == y.millis,
        (None, None) => true,
        _ => false,
    }
}

/// Once the first holdings could not be put in words, all of them cannot.
pub proof fn lemma_holdings_text_stays_none(v: Valued, n: nat, m: nat)
    requires
        n <= m,
        v.holdings_text(n).is_none(),
    ensures
        v.holdings_text(m).is_none(),
    decreases m - n,
{
    if n < m {
        lemma_holdings_text_stays_none(v, n + 1, m);
    }
}

/// Once a prefix of the orders has failed, all of them have.
pub proof fn lemma_from_orders_stays_err(orders: Seq<OrderView>, n: int)
    requires
        0 <= n <= orders.len(),
        Valued::from_orders(orders.take(n)).is_err(),
    ensures
        Valued::from_orders(orders) == Valued::from_orders(orders.take(n)),
    decreases orders.len() - n,
{
    if n < orders.len() {
        assert(orders.take(n + 1).drop_last() =~= orders.take(n));
        lemma_from_orders_stays_err(orders, n + 1);
    } else {
        assert(orders.take(n) =~= orders);
    }
}

/// The entries other than zero of a prefix are among those of the whole.
pub proof fn lemma_nonzero_grows(s: Entries, n: int)
    requires
        0 <= n <= s.len(),
    ensures
        Valued::nonzero(s.take(n)).len() <= Valued::nonzero(s).len(),
    decreases s.len() - n,
{
    if n < s.len() {
        assert(s.take(n + 1).drop_last() =~= s.take(n));
        lemma_nonzero_grows(s, n + 1);
    } else {
        assert(s.take(n) =~= s);
    }
}

} // verus!
