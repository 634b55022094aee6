use vstd::prelude::*;
use crate::decimal::{lemma_units_sign, pow10, Dec, Decimal, MAX_SCALE};
use crate::exchange::valuation::Valuation;
use crate::ledger::{amount, distinct_keys, has_key, index_of, lemma_index_of, lemma_upsert, lookup, upsert, Key, Ledger};
use crate::market::{Symbol, SymbolId};

verus! {

/// Quantities or prices by symbol, in the order in which the symbols were first entered.
pub type Entries = Seq<(SymbolId, Dec)>;

/// One of the three element-wise operations on bundles.
#[derive(Clone, Copy, Debug, PartialEq, Eq, Structural)]
pub enum Op {
    Add,
    Sub,
    Mul,
}

impl Op {
    pub open spec fn apply(self, x: Dec, y: Dec) -> Option<Dec> {
        match self {
            Op::Add => x.add(y),
            Op::Sub => x.sub(y),
            Op::Mul => x.mul(y),
        }
    }
}

/// `acc` after each entry of `rhs` was worked into it in turn: the amount
/// under the entry's symbol, zero where `acc` has none, is replaced by what
/// `op` makes of it and the entry's amount. `None` as soon as one of these
/// overflows.
pub open spec fn combine(acc: Entries, rhs: Entries, op: Op) -> Option<Entries>
    decreases rhs.len(),
{
    if rhs.len() == 0 {
        Some(acc)
    } else {
        match combine(acc, rhs.drop_last(), op) {
            None => None,
            Some(prev) => match op.apply(amount(prev, rhs.last().0), rhs.last().1) {
                Some(v) => Some(upsert(prev, rhs.last().0, v)),
                None => None,
            },
        }
    }
}

/// The sum over the entries of `prices`, in their order, of the quantity that
/// `sizes` holds for the symbol, zero where it holds none, times the price.
/// `None` as soon as a product or a partial sum overflows.
pub open spec fn dot(sizes: Entries, prices: Entries) -> Option<Dec>
    decreases prices.len(),
{
    if prices.len() == 0 {
        Some(Dec::zero())
    } else {
        match dot(sizes, prices.drop_last()) {
            None => None,
            Some(acc) => match amount(sizes, prices.last().0).mul(prices.last().1) {
                Some(p) => acc.add(p),
                None => None,
            },
        }
    }
}

pub open spec fn negated(s: Entries) -> Entries {
    Seq::new(s.len(), |i: int| (s[i].0, s[i].1.neg()))
}

pub open spec fn absolute(s: Entries) -> Entries {
    Seq::new(s.len(), |i: int| (s[i].0, s[i].1.abs()))
}

pub open spec fn signs(s: Entries) -> Entries {
    Seq::new(s.len(), |i: int| (s[i].0, s[i].1.signum()))
}

pub open spec fn zeroed(s: Entries) -> Entries {
    Seq::new(s.len(), |i: int| (s[i].0, Dec::zero()))
}

/// Every quantity is zero.
pub open spec fn all_zero(s: Entries) -> bool {
    forall|i: int| 0 <= i < s.len() ==> (#[trigger] s[i]).1.is_zero()
}

/// Both hold the same symbols, each with the same number.
pub open spec fn equivalent(a: Entries, b: Entries) -> bool {
    &&& forall|i: int|
        0 <= i < a.len() ==> has_key(b, (#[trigger] a[i]).0) && amount(b, a[i].0).same(a[i].1)
    &&& forall|i: int| 0 <= i < b.len() ==> has_key(a, (#[trigger] b[i]).0)
}

/// What `combine` does symbol by symbol: under a symbol of `rhs` stands what
/// `op` makes of the two amounts, a missing one counting as zero; every
/// other symbol keeps its entry.
pub proof fn lemma_combine_pointwise(acc: Entries, rhs: Entries, op: Op)
    requires
        distinct_keys(acc),
        distinct_keys(rhs),
        combine(acc, rhs, op).is_some(),
    ensures
        distinct_keys(combine(acc, rhs, op).unwrap()),
        forall|k: SymbolId|
            has_key(rhs, k) ==> Some(#[trigger] amount(combine(acc, rhs, op).unwrap(), k))
                == op.apply(amount(acc, k), amount(rhs, k)),
        forall|k: SymbolId|
            !has_key(rhs, k) ==> #[trigger] lookup(combine(acc, rhs, op).unwrap(), k) == lookup(
                acc,
                k,
            ),
        forall|k: SymbolId|
            #[trigger] has_key(combine(acc, rhs, op).unwrap(), k) == (has_key(acc, k) || has_key(
                rhs,
                k,
            )),
    decreases rhs.len(),
{
    let r = combine(acc, rhs, op).unwrap();
    if rhs.len() > 0 {
        let init = rhs.drop_last();
        let k0 = rhs.last().0;
        let q0 = rhs.last().1;
        let prev = combine(acc, init, op).unwrap();
        assert(distinct_keys(init));
        lemma_combine_pointwise(acc, init, op);
        let v = op.apply(amount(prev, k0), q0).unwrap();
        assert(r == upsert(prev, k0, v));
        lemma_upsert(prev, k0, v);
        assert(!has_key(init, k0)) by {
            if has_key(init, k0) {
                let i = index_of(init, k0);
                assert(rhs[i].0 == k0);
                assert(rhs[rhs.len() - 1].0 == k0);
            }
        }
        lemma_index_of(rhs, k0, rhs.len() - 1);
        assert(lookup(prev, k0) == lookup(acc, k0));
        assert(lookup(rhs, k0) == Some(q0));
        assert(lookup(r, k0) == Some(v));
        assert forall|k: SymbolId| has_key(rhs, k) implies Some(#[trigger] amount(r, k))
            == op.apply(amount(acc, k), amount(rhs, k)) by {
            if k == k0 {
                assert(amount(r, k) == v);
                assert(amount(prev, k0) == amount(acc, k0));
                assert(amount(rhs, k) == q0);
            } else {
                let i = index_of(rhs, k);
                assert(rhs[i].0 == k);
                assert(i != rhs.len() - 1);
                assert(init[i] == rhs[i]);
                lemma_index_of(init, k, i);
                lemma_index_of(rhs, k, i);
                assert(lookup(r, k) == lookup(prev, k));
                assert(amount(init, k) == amount(rhs, k));
                assert(Some(amount(prev, k)) == op.apply(amount(acc, k), amount(init, k)));
            }
        }
        assert forall|k: SymbolId| !has_key(rhs, k) implies #[trigger] lookup(r, k) == lookup(
            acc,
            k,
        ) by {
            if has_key(init, k) {
                let i = index_of(init, k);
                assert(rhs[i].0 == k);
            }
            if k == k0 {
                assert(rhs[rhs.len() - 1].0 == k);
            }
            assert(lookup(r, k) == lookup(prev, k));
            assert(lookup(prev, k) == lookup(acc, k));
        }
        assert forall|k: SymbolId| #[trigger] has_key(r, k) == (has_key(acc, k) || has_key(
            rhs,
            k,
        )) by {
            assert(has_key(r, k) == (k == k0 || has_key(prev, k)));
            assert(has_key(prev, k) == (has_key(acc, k) || has_key(init, k)));
            assert(has_key(rhs, k0));
            if has_key(init, k) {
                let i = index_of(init, k);
                assert(rhs[i].0 == k);
            }
            if has_key(rhs, k) && k != k0 {
                let i = index_of(rhs, k);
                assert(rhs[i].0 == k);
                assert(i != rhs.len() - 1);
                assert(init[i].0 == k);
            }
        }
    }
}

/// Taking `b` away again after adding it gives back `a`, symbol by
/// symbol, as a number: wherever neither the sum nor the difference had to
/// be rounded. The scale of a quantity may have changed on the way.
pub proof fn lemma_add_then_sub(a: Entries, b: Entries)
    requires
        distinct_keys(a),
        distinct_keys(b),
        combine(a, b, Op::Add).is_some(),
        combine(combine(a, b, Op::Add).unwrap(), b, Op::Sub).is_some(),
        forall|k: SymbolId|
            has_key(b, k) ==> amount(a, k).sums_to(
                #[trigger] amount(b, k),
                amount(combine(a, b, Op::Add).unwrap(), k),
            ) && amount(combine(combine(a, b, Op::Add).unwrap(), b, Op::Sub).unwrap(), k).sums_to(
                amount(b, k),
                amount(combine(a, b, Op::Add).unwrap(), k),
            ),
    ensures
        forall|k: SymbolId|
            (#[trigger] amount(
                combine(combine(a, b, Op::Add).unwrap(), b, Op::Sub).unwrap(),
                k,
            )).same(amount(a, k)),
{
    let c = combine(a, b, Op::Add).unwrap();
    let d = combine(c, b, Op::Sub).unwrap();
    lemma_combine_pointwise(a, b, Op::Add);
    lemma_combine_pointwise(c, b, Op::Sub);
    assert forall|k: SymbolId| (#[trigger] amount(d, k)).same(amount(a, k)) by {
        if has_key(b, k) {
            assert(amount(a, k).sums_to(amount(b, k), amount(c, k)));
            assert(amount(d, k).sums_to(amount(b, k), amount(c, k)));
        } else {
            assert(lookup(d, k) == lookup(c, k));
            assert(lookup(c, k) == lookup(a, k));
        }
    }
}

/// The magnitudes of the opposite quantities are the magnitudes of the quantities.
pub proof fn lemma_abs_of_neg(a: Entries)
    ensures
        absolute(negated(a)) == absolute(a),
{
    assert(absolute(negated(a)) =~= absolute(a));
}

/// The sum of quantity times price over the entries of `prices`, in units
/// of `10^-56`: what `dot` is worth where nothing is rounded.
pub open spec fn exact_dot(sizes: Entries, prices: Entries) -> int
    decreases prices.len(),
{
    if prices.len() == 0 {
        0
    } else {
        exact_dot(sizes, prices.drop_last()) + amount(sizes, prices.last().0).units()
            * prices.last().1.units()
    }
}

/// No product and no partial sum of `dot(sizes, prices)` had to be rounded.
pub open spec fn dot_is_exact(sizes: Entries, prices: Entries) -> bool
    decreases prices.len(),
{
    if prices.len() == 0 {
        true
    } else {
        &&& dot_is_exact(sizes, prices.drop_last())
        &&& match dot(sizes, prices.drop_last()) {
            None => false,
            Some(acc) => match amount(sizes, prices.last().0).mul(prices.last().1) {
                None => false,
                Some(p) => amount(sizes, prices.last().0).multiplies_to(prices.last().1, p)
                    && match acc.add(p) {
                    None => false,
                    Some(r) => acc.sums_to(p, r),
                },
            },
        }
    }
}

/// The worth of a bundle is the sum over the priced symbols of quantity
/// times price, a symbol that the bundle does not hold counting as zero:
/// wherever no product and no partial sum had to be rounded.
pub proof fn lemma_dot_is_sum_of_products(sizes: Entries, prices: Entries)
    requires
        dot_is_exact(sizes, prices),
    ensures
        dot(sizes, prices).is_some(),
        dot(sizes, prices).unwrap().units() * pow10(MAX_SCALE as nat) == exact_dot(sizes, prices),
    decreases prices.len(),
{
    if prices.len() == 0 {
        lemma_units_sign(Dec::zero());
    } else {
        lemma_dot_is_sum_of_products(sizes, prices.drop_last());
        let acc = dot(sizes, prices.drop_last()).unwrap();
        let x = amount(sizes, prices.last().0);
        let y = prices.last().1;
        let p = x.mul(y).unwrap();
        let r = acc.add(p).unwrap();
        let scale = pow10(MAX_SCALE as nat);
        assert(r.units() * scale == acc.units() * scale + p.units() * scale) by (nonlinear_arith)
            requires
                r.units() == acc.units() + p.units(),
        ;
    }
}

/// A signed quantity for each of some symbols. A symbol without an entry counts as zero.
#[derive(Debug)]
pub struct Bundle(pub(crate) Ledger<Symbol>);

impl View for Bundle {
    type V = Entries;

    closed spec fn view(&self) -> Entries {
        self.0@
    }
}

impl Clone for Bundle {
    fn clone(&self) -> (r: Bundle)
        ensures
            r@ == self@,
    {
        Bundle(self.0.duplicate())
    }
}

impl Default for Bundle {
    fn default() -> (r: Bundle)
        ensures
            r@ == Entries::empty(),
    {
        Bundle(Ledger::new())
    }
}

/// Works the entries of `rhs` into `acc`, as `combine` says.
pub(crate) fn combine_ledgers(acc: Ledger<Symbol>, rhs: &Ledger<Symbol>, op: Op) -> (r: Option<
    Ledger<Symbol>,
>)
    ensures
        r.is_some() == combine(acc@, rhs@, op).is_some(),
        r matches Some(out) ==> Some(out@) == combine(acc@, rhs@, op),
{
    let ghost start = acc@;
    let mut out = acc;
    let mut i: usize = 0;
    assert(rhs@.take(0) =~= Entries::empty());
    while i < rhs.len()
        invariant
            i <= rhs@.len(),
            start == acc@,
            Some(out@) == combine(start, rhs@.take(i as int), op),
        decreases rhs@.len() - i,
    {
        let k = rhs.key_at(i);
        let q = rhs.value_at(i);
        let x = out.amount(k);
        let v = match op {
            Op::Add => x.checked_add(q),
            Op::Sub => x.checked_sub(q),
            Op::Mul => x.checked_mul(q),
        };
        proof {
            assert(rhs@.take(i + 1).drop_last() =~= rhs@.take(i as int));
            assert(rhs@.take(i + 1).last() == rhs@[i as int]);
        }
        match v {
            Some(v) => {
                out.set(k.duplicate(), v);
            },
            None => {
                proof {
                    assert(op.apply(amount(out@, rhs@[i as int].0), rhs@[i as int].1).is_none());
                    assert(combine(start, rhs@.take(i + 1), op).is_none());
                    lemma_combine_stays_none(start, rhs@, op, i + 1);
                }
                return None;
            },
        }
        i = i + 1;
    }
    assert(rhs@.take(i as int) =~= rhs@);
    Some(out)
}

/// Once a prefix of `rhs` has overflowed, all of `rhs` has.
pub proof fn lemma_combine_stays_none(acc: Entries, rhs: Entries, op: Op, n: int)
    requires
        0 <= n <= rhs.len(),
        combine(acc, rhs.take(n), op).is_none(),
    ensures
        combine(acc, rhs, op).is_none(),
    decreases rhs.len() - n,
{
    if n < rhs.len() {
        assert(rhs.take(n + 1).drop_last() =~= rhs.take(n));
        lemma_combine_stays_none(acc, rhs, op, n + 1);
    } else {
        assert(rhs.take(n) =~= rhs);
    }
}

/// Once a prefix of `prices` has overflowed, all of `prices` has.
pub proof fn lemma_dot_stays_none(sizes: Entries, prices: Entries, n: int)
    requires
        0 <= n <= prices.len(),
        dot(sizes, prices.take(n)).is_none(),
    ensures
        dot(sizes, prices).is_none(),
    decreases prices.len() - n,
{
    if n < prices.len() {
        assert(prices.take(n + 1).drop_last() =~= prices.take(n));
        lemma_dot_stays_none(sizes, prices, n + 1);
    } else {
        assert(prices.take(n) =~= prices);
    }
}

impl Bundle {
    /// The content of an optional bundle.
    pub open spec fn model(r: Option<Bundle>) -> Option<Entries> {
        match r {
            Some(b) => Some(b@),
            None => None,
        }
    }

    pub fn len(&self) -> (r: usize)
        ensures
            r == self@.len(),
            distinct_keys(self@),
    {
        self.0.len()
    }

    /// The symbol of the entry at `i`.
    pub fn symbol_at(&self, i: usize) -> (r: &Symbol)
        requires
            i < self@.len(),
        ensures
            r@ == self@[i as int].0,
    {
        self.0.key_at(i)
    }

    /// The quantity of the entry at `i`.
    pub fn quantity_at(&self, i: usize) -> (r: Decimal)
        requires
            i < self@.len(),
        ensures
            r@ == self@[i as int].1,
    {
        self.0.value_at(i)
    }

    /// The quantity entered for `symbol`, if there is an entry.
    pub fn get(&self, symbol: &Symbol) -> (r: Option<Decimal>)
        ensures
            Decimal::model(r) == lookup(self@, symbol@),
    {
        self.0.get(symbol)
    }

    /// The quantity held of `symbol`, zero where nothing is entered.
    pub fn quantity(&self, symbol: &Symbol) -> (r: Decimal)
        ensures
            r@ == amount(self@, symbol@),
    {
        self.0.amount(symbol)
    }

    /// Enters `qty` for `symbol`, in place of what was entered.
    pub fn insert(&mut self, symbol: Symbol, qty: Decimal)
        ensures
            final(self)@ == upsert(old(self)@, symbol@, qty@),
    {
        self.0.set(symbol, qty);
    }

    /// The bundle of the magnitudes.
    pub fn abs(&self) -> (r: Bundle)
        ensures
            r@ == absolute(self@),
    {
        let mut out = self.0.duplicate();
        let mut i: usize = 0;
        while i < out.len()
            invariant
                i <= out@.len(),
                out@.len() == self@.len(),
                forall|j: int| 0 <= j < i ==> out@[j] == (self@[j].0, self@[j].1.abs()),
                forall|j: int| i <= j < out@.len() ==> out@[j] == self@[j],
            decreases out@.len() - i,
        {
            let v = out.value_at(i).abs();
            out.set_value_at(i, v);
            i = i + 1;
        }
        assert(out@ =~= absolute(self@));
        Bundle(out)
    }

    /// The bundle of the signs: one, zero or minus one for each symbol.
    pub fn signum(&self) -> (r: Bundle)
        ensures
            r@ == signs(self@),
    {
        let mut out = self.0.duplicate();
        let mut i: usize = 0;
        while i < out.len()
            invariant
                i <= out@.len(),
                out@.len() == self@.len(),
                forall|j: int| 0 <= j < i ==> out@[j] == (self@[j].0, self@[j].1.signum()),
                forall|j: int| i <= j < out@.len() ==> out@[j] == self@[j],
            decreases out@.len() - i,
        {
            let v = out.value_at(i).signum();
            out.set_value_at(i, v);
            i = i + 1;
        }
        assert(out@ =~= signs(self@));
        Bundle(out)
    }

    /// The bundle of the opposite quantities.
    pub fn neg(&self) -> (r: Bundle)
        ensures
            r@ == negated(self@),
    {
        let mut out = self.0.duplicate();
        let mut i: usize = 0;
        while i < out.len()
            invariant
                i <= out@.len(),
                out@.len() == self@.len(),
                forall|j: int| 0 <= j < i ==> out@[j] == (self@[j].0, self@[j].1.neg()),
                forall|j: int| i <= j < out@.len() ==> out@[j] == self@[j],
            decreases out@.len() - i,
        {
            let v = out.value_at(i).neg();
            out.set_value_at(i, v);
            i = i + 1;
        }
        assert(out@ =~= negated(self@));
        Bundle(out)
    }

    /// Sets every quantity to zero, keeping the symbols.
    pub fn clear(&mut self)
        ensures
            final(self)@ == zeroed(old(self)@),
    {
        let mut i: usize = 0;
        while i < self.0.len()
            invariant
                i <= self@.len(),
                self@.len() == old(self)@.len(),
                forall|j: int| 0 <= j < i ==> self@[j] == (old(self)@[j].0, Dec::zero()),
                forall|j: int| i <= j < self@.len() ==> self@[j] == old(self)@[j],
            decreases self@.len() - i,
        {
            self.0.set_value_at(i, Decimal::zero());
            i = i + 1;
        }
        assert(self@ =~= zeroed(old(self)@));
    }

    /// Whether every quantity is zero.
    pub fn is_all_zero(&self) -> (r: bool)
        ensures
            r == all_zero(self@),
    {
        let mut i: usize = 0;
        while i < self.0.len()
            invariant
                i <= self@.len(),
                forall|j: int| 0 <= j < i ==> (#[trigger] self@[j]).1.is_zero(),
            decreases self@.len() - i,
        {
            if !self.0.value_at(i).is_zero() {
                return false;
            }
            i = i + 1;
        }
        true
    }

    /// The element-wise sum: the quantities of `rhs` added to those of `self`.
    pub fn add(&self, rhs: &Bundle) -> (r: Option<Bundle>)
        ensures
            Bundle::model(r) == combine(self@, rhs@, Op::Add),
    {
        match combine_ledgers(self.0.duplicate(), &rhs.0, Op::Add) {
            Some(out) => Some(Bundle(out)),
            None => None,
        }
    }

    /// The element-wise difference: the quantities of `rhs` taken from those of `self`.
    pub fn sub(&self, rhs: &Bundle) -> (r: Option<Bundle>)
        ensures
            Bundle::model(r) == combine(self@, rhs@, Op::Sub),
    {
        match combine_ledgers(self.0.duplicate(), &rhs.0, Op::Sub) {
            Some(out) => Some(Bundle(out)),
            None => None,
        }
    }

    /// The element-wise product over the symbols of `rhs`.
    pub fn mul(&self, rhs: &Bundle) -> (r: Option<Bundle>)
        ensures
            Bundle::model(r) == combine(self@, rhs@, Op::Mul),
    {
        match combine_ledgers(self.0.duplicate(), &rhs.0, Op::Mul) {
            Some(out) => Some(Bundle(out)),
            None => None,
        }
    }

    /// The worth of the bundle at the prices of `valuation`.
    pub fn value_at(&self, valuation: &Valuation) -> (r: Option<Decimal>)
        ensures
            Decimal::model(r) == dot(self@, valuation@),
    {
        let mut value = Decimal::zero();
        let mut i: usize = 0;
        assert(valuation@.take(0) =~= Entries::empty());
        while i < valuation.len()
            invariant
                i <= valuation@.len(),
                Some(value@) == dot(self@, valuation@.take(i as int)),
            decreases valuation@.len() - i,
        {
            let qty = self.0.amount(valuation.symbol_at(i));
            proof {
                assert(valuation@.take(i + 1).drop_last() =~= valuation@.take(i as int));
                assert(valuation@.take(i + 1).last() == valuation@[i as int]);
            }
            let next = match qty.checked_mul(valuation.price_at(i)) {
                Some(p) => value.checked_add(p),
                None => None,
            };
            match next {
                Some(v) => {
                    value = v;
                },
                None => {
                    proof {
                        lemma_dot_stays_none(self@, valuation@, i + 1);
                    }
                    return None;
                },
            }
            i = i + 1;
        }
        assert(valuation@.take(i as int) =~= valuation@);
        Some(value)
    }

    /// Whether both hold the same symbols, each with the same number.
    pub fn same(&self, other: &Bundle) -> (r: bool)
        ensures
            r == equivalent(self@, other@),
    {
        ledgers_equivalent(&self.0, &other.0)
    }
}

/// Whether both ledgers hold the same symbols, each with the same number.
pub(crate) fn ledgers_equivalent(a: &Ledger<Symbol>, b: &Ledger<Symbol>) -> (r: bool)
    ensures
        r == equivalent(a@, b@),
{
    let mut i: usize = 0;
    while i < a.len()
        invariant
            i <= a@.len(),
            forall|j: int|
                0 <= j < i ==> has_key(b@, (#[trigger] a@[j]).0) && amount(b@, a@[j].0).same(
                    a@[j].1,
                ),
        decreases a@.len() - i,
    {
        match b.get(a.key_at(i)) {
            Some(v) => {
                if !v.same(&a.value_at(i)) {
                    return false;
                }
            },
            None => {
                return false;
            },
        }
        i = i + 1;
    }
    let mut j: usize = 0;
    while j < b.len()
        invariant
            j <= b@.len(),
            forall|k: int| 0 <= k < j ==> has_key(a@, (#[trigger] b@[k]).0),
        decreases b@.len() - j,
    {
        if a.get(b.key_at(j)).is_none() {
            return false;
        }
        j = j + 1;
    }
    true
}

} // verus!
