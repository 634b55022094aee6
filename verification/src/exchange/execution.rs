use vstd::prelude::*;
use crate::asset::Asset;
use crate::decimal::{lemma_units_sign, Dec, Decimal};
use crate::exchange::position::{Position, PositionError, PositionView};
use crate::exchange::valued_bundle::{fills_view, orders_view, BundleError, Valued, ValuedBundle};
use crate::ledger::{distinct_keys, lemma_upsert, lookup, upsert, Key};
use crate::market::{Symbol, SymbolId};
use crate::order::{Fill, Order, OrderInfo, OrderView, Side};
use crate::wallet::{Balances, Wallet, WalletError};

verus! {

/// Why a round of orders could not be prepared or settled.
#[derive(Debug, Clone, Copy, PartialEq, Eq, Structural)]
pub enum ExecutionError {
    /// A position was never valued, so its order has no instant.
    NotValued,
    /// The orders of the positions could not be added up or turned into orders.
    Bundle(BundleError),
    /// A fill is for another market or side than the order in its place.
    FillMismatch,
    /// A position refused the result of its order.
    Position(PositionError),
    /// The wallet refused a booking; wallet and positions have drifted apart.
    Wallet(WalletError),
    /// A quantity or a worth left the range of decimals.
    Overflow,
}

/// The content of a list of valued bundles.
pub open spec fn valued_view(v: Seq<ValuedBundle>) -> Seq<Valued> {
    Seq::new(v.len(), |i: int| v[i]@)
}

/// The content of a list of positions.
pub open spec fn views(p: Seq<Position>) -> Seq<PositionView> {
    Seq::new(p.len(), |i: int| p[i]@)
}

/// The order of each position, in their order.
pub open spec fn orders_of(p: Seq<PositionView>) -> Result<Seq<Valued>, ExecutionError>
    decreases p.len(),
{
    if p.len() == 0 {
        Ok(Seq::empty())
    } else {
        match orders_of(p.drop_last()) {
            Err(e) => Err(e),
            Ok(prev) => match p.last().order() {
                None => Err(ExecutionError::Overflow),
                Some(o) => if o.time.is_none() {
                    Err(ExecutionError::NotValued)
                } else {
                    Ok(prev.push(o))
                },
            },
        }
    }
}

/// All orders added up into one: nothing for no orders, the first order
/// with each of the others added in turn otherwise.
pub open spec fn coalesce(orders: Seq<Valued>) -> Result<Valued, BundleError>
    decreases orders.len(),
{
    if orders.len() == 0 {
        Ok(Valued::empty())
    } else if orders.len() == 1 {
        Ok(orders[0])
    } else {
        match coalesce(orders.drop_last()) {
            Ok(acc) => acc.add(orders.last()),
            Err(e) => Err(e),
        }
    }
}

/// What an order was short of being filled, with the sign of the order's side.
pub open spec fn missing_of(order: OrderView, fill: Fill) -> Option<Dec> {
    match order.size.sub(fill.size) {
        Some(d) => Some(
            if order.side == Side::Buy {
                d
            } else {
                d.neg()
            },
        ),
        None => None,
    }
}

/// The sum, from zero and in their order, of the sizes that the orders hold for `symbol` with the sign `sign`.
pub open spec fn same_side_sum(orders: Seq<Valued>, symbol: SymbolId, sign: Dec) -> Option<Dec>
    decreases orders.len(),
{
    if orders.len() == 0 {
        Some(Dec::zero())
    } else {
        match same_side_sum(orders.drop_last(), symbol, sign) {
            None => None,
            Some(acc) => match lookup(orders.last().bundle, symbol) {
                Some(size) => if size.signum() == sign {
                    acc.add(size)
                } else {
                    Some(acc)
                },
                None => Some(acc),
            },
        }
    }
}

/// A size less its share of what is missing: `size - missing * size / sum`.
pub open spec fn adjusted_size(size: Dec, missing: Dec, sum: Dec) -> Option<Dec> {
    match missing.mul(size) {
        None => None,
        Some(p) => match p.div(sum) {
            None => None,
            Some(q) => size.sub(q),
        },
    }
}

/// One position's order after a fill was taken into account. Where the
/// order holds the fill's symbol, its price becomes that of the fill; and
/// where its size has the sign of what is missing, the size gives up its share of that.
pub open spec fn adjust_one(
    order: Valued,
    adjusted: Valued,
    symbol: SymbolId,
    price: Dec,
    missing: Dec,
    sum: Dec,
) -> Option<Valued> {
    match lookup(order.bundle, symbol) {
        None => Some(adjusted),
        Some(size) => if size.signum() == missing.signum() && !sum.is_zero() {
            match adjusted_size(size, missing, sum) {
                Some(v) => Some(
                    Valued {
                        bundle: upsert(adjusted.bundle, symbol, v),
                        valuation: upsert(adjusted.valuation, symbol, price),
                        time: adjusted.time,
                    },
                ),
                None => None,
            }
        } else {
            Some(Valued { valuation: upsert(adjusted.valuation, symbol, price), ..adjusted })
        },
    }
}

/// Every position's order after a fill was taken into account, `None` where one of them overflows.
pub open spec fn adjust_each(
    orders: Seq<Valued>,
    adjusted: Seq<Valued>,
    symbol: SymbolId,
    price: Dec,
    missing: Dec,
    sum: Dec,
) -> Option<Seq<Valued>> {
    if exists|i: int|
        0 <= i < adjusted.len() && adjust_one(
            #[trigger] orders[i],
            adjusted[i],
            symbol,
            price,
            missing,
            sum,
        ).is_none() {
        None
    } else {
        Some(
            Seq::new(
                adjusted.len(),
                |i: int| adjust_one(orders[i], adjusted[i], symbol, price, missing, sum).unwrap(),
            ),
        )
    }
}

/// The orders of the positions after the first `n` fills were taken into account.
pub open spec fn adjust(orders: Seq<Valued>, actual: Seq<OrderView>, fills: Seq<Fill>, n: nat) -> Result<
    Seq<Valued>,
    ExecutionError,
>
    decreases n,
{
    if n == 0 {
        Ok(orders)
    } else {
        match adjust(orders, actual, fills, (n - 1) as nat) {
            Err(e) => Err(e),
            Ok(adjusted) => {
                let a = actual[n - 1];
                let f = fills[n - 1];
                if a.market != f.market || a.side != f.side {
                    Err(ExecutionError::FillMismatch)
                } else {
                    match missing_of(a, f) {
                        None => Err(ExecutionError::Overflow),
                        Some(missing) => match same_side_sum(orders, a.market, missing.signum()) {
                            None => Err(ExecutionError::Overflow),
                            Some(sum) => match adjust_each(
                                orders,
                                adjusted,
                                a.market,
                                f.price,
                                missing,
                                sum,
                            ) {
                                None => Err(ExecutionError::Overflow),
                                Some(next) => Ok(next),
                            },
                        },
                    }
                }
            },
        }
    }
}

/// The smaller of two lengths.
pub open spec fn shorter(a: nat, b: nat) -> nat {
    if a <= b {
        a
    } else {
        b
    }
}

/// The positions after each of the first `n` took the result in its place,
/// and the sum, from zero, of what each gained in worth by that.
pub open spec fn apply(positions: Seq<PositionView>, results: Seq<Valued>, n: nat) -> Result<
    (Seq<PositionView>, Dec),
    ExecutionError,
>
    decreases n,
{
    if n == 0 {
        Ok((positions, Dec::zero()))
    } else {
        match apply(positions, results, (n - 1) as nat) {
            Err(e) => Err(e),
            Ok((ps, sum)) => match ps[n - 1].value() {
                None => Err(ExecutionError::Overflow),
                Some(before) => match ps[n - 1].resized(results[n - 1]) {
                    Err(e) => Err(ExecutionError::Position(e)),
                    Ok(q) => match q.value() {
                        None => Err(ExecutionError::Overflow),
                        Some(after) => match after.sub(before) {
                            None => Err(ExecutionError::Overflow),
                            Some(diff) => match sum.add(diff) {
                                None => Err(ExecutionError::Overflow),
                                Some(total) => Ok((ps.update(n - 1, q), total)),
                            },
                        },
                    },
                },
            },
        }
    }
}

/// The wallet after the positions gained `sum` in worth: a gain is
/// reserved and withdrawn, a loss is deposited.
pub open spec fn settled(w: Balances, sum: Dec, quote: Seq<char>) -> Result<Balances, WalletError> {
    if Dec::zero().lt(sum) {
        match w.reserve(sum, quote) {
            Err(e) => Err(e),
            Ok(reserved) => reserved.withdraw(sum, quote),
        }
    } else if sum.lt(Dec::zero()) {
        w.deposit(sum.neg(), quote)
    } else {
        Ok(w)
    }
}

/// The positions that are worth something, in their order.
pub open spec fn kept(p: Seq<PositionView>) -> Option<Seq<PositionView>>
    decreases p.len(),
{
    if p.len() == 0 {
        Some(p)
    } else {
        match (kept(p.drop_last()), p.last().value()) {
            (Some(prev), Some(v)) => if v.is_zero() {
                Some(prev)
            } else {
                Some(prev.push(p.last()))
            },
            _ => None,
        }
    }
}

/// The orders of the positions, one for each. Every position must have been valued.
pub fn position_orders(positions: &Vec<Position>) -> (r: Result<Vec<ValuedBundle>, ExecutionError>)
    ensures
        match r {
            Ok(orders) => Ok::<Seq<Valued>, ExecutionError>(valued_view(orders@)) == orders_of(
                views(positions@),
            ),
            Err(e) => Err::<Seq<Valued>, ExecutionError>(e) == orders_of(views(positions@)),
        },
{
    let ghost all = views(positions@);
    let mut out: Vec<ValuedBundle> = Vec::new();
    let mut i: usize = 0;
    assert(all.take(0) =~= Seq::<PositionView>::empty());
    assert(valued_view(out@) =~= Seq::<Valued>::empty());
    while i < positions.len()
        invariant
            i <= positions@.len(),
            all == views(positions@),
            Ok::<Seq<Valued>, ExecutionError>(valued_view(out@)) == orders_of(all.take(i as int)),
        decreases positions@.len() - i,
    {
        proof {
            assert(all.take(i + 1).drop_last() =~= all.take(i as int));
            assert(all.take(i + 1).last() == positions@[i as int]@);
        }
        let ghost before = valued_view(out@);
        match positions[i].order() {
            None => {
                proof {
                    lemma_orders_of_stays_err(all, i + 1);
                }
                return Err(ExecutionError::Overflow);
            },
            Some(order) => {
                if order.time.is_none() {
                    proof {
                        lemma_orders_of_stays_err(all, i + 1);
                    }
                    return Err(ExecutionError::NotValued);
                }
                out.push(order);
                assert(valued_view(out@) =~= before.push(order@));
            },
        }
        i = i + 1;
    }
    assert(all.take(i as int) =~= all);
    Ok(out)
}

/// Once a prefix of the positions has failed, all of them have, with the same error.
pub proof fn lemma_orders_of_stays_err(p: Seq<PositionView>, n: int)
    requires
        0 <= n <= p.len(),
        orders_of(p.take(n)).is_err(),
    ensures
        orders_of(p) == orders_of(p.take(n)),
    decreases p.len() - n,
{
    if n < p.len() {
        assert(p.take(n + 1).drop_last() =~= p.take(n));
        lemma_orders_of_stays_err(p, n + 1);
    } else {
        assert(p.take(n) =~= p);
    }
}

/// Once a prefix of the orders could not be added up, all of them cannot, with the same error.
pub proof fn lemma_coalesce_stays_err(orders: Seq<Valued>, n: int)
    requires
        0 <= n <= orders.len(),
        coalesce(orders.take(n)).is_err(),
    ensures
        coalesce(orders) == coalesce(orders.take(n)),
    decreases orders.len() - n,
{
    if n < orders.len() {
        assert(orders.take(n + 1).drop_last() =~= orders.take(n));
        assert(orders.take(n).len() >= 2);
        lemma_coalesce_stays_err(orders, n + 1);
    } else {
        assert(orders.take(n) =~= orders);
    }
}

/// Adds the orders of all positions up, so that one order for each symbol is left to issue.
pub fn coalesce_orders(orders: &Vec<ValuedBundle>) -> (r: Result<ValuedBundle, BundleError>)
    ensures
        ValuedBundle::model(r) == coalesce(valued_view(orders@)),
{
    let ghost all = valued_view(orders@);
    if orders.len() == 0 {
        return Ok(ValuedBundle::default());
    }
    let mut acc = orders[0].clone();
    let mut i: usize = 1;
    assert(all.take(1) =~= seq![all[0]]);
    while i < orders.len()
        invariant
            1 <= i <= orders@.len(),
            all == valued_view(orders@),
            Ok::<Valued, BundleError>(acc@) == coalesce(all.take(i as int)),
        decreases orders@.len() - i,
    {
        proof {
            assert(all.take(i + 1).drop_last() =~= all.take(i as int));
            assert(all.take(i + 1).last() == orders@[i as int]@);
        }
        match acc.add(&orders[i]) {
            Ok(next) => {
                acc = next;
            },
            Err(e) => {
                proof {
                    lemma_coalesce_stays_err(all, i + 1);
                }
                return Err(e);
            },
        }
        i = i + 1;
    }
    assert(all.take(i as int) =~= all);
    Ok(acc)
}

fn same_sign(a: Decimal, b: Decimal) -> (r: bool)
    ensures
        r == (a@.signum() == b@.signum()),
{
    a.signum().mantissa() == b.signum().mantissa()
}

fn missing(order: &Order, fill: &OrderInfo) -> (r: Option<Decimal>)
    ensures
        Decimal::model(r) == missing_of(order@, fill@),
{
    match order.size.checked_sub(fill.size) {
        Some(d) => Some(
            if order.side == Side::Buy {
                d
            } else {
                d.neg()
            },
        ),
        None => None,
    }
}

fn sum_same_side(orders: &Vec<ValuedBundle>, symbol: &Symbol, sign: Decimal) -> (r: Option<Decimal>)
    ensures
        Decimal::model(r) == same_side_sum(valued_view(orders@), symbol@, sign@.signum()),
{
    let ghost all = valued_view(orders@);
    let mut acc = Decimal::zero();
    let mut i: usize = 0;
    assert(all.take(0) =~= Seq::<Valued>::empty());
    while i < orders.len()
        invariant
            i <= orders@.len(),
            all == valued_view(orders@),
            Some(acc@) == same_side_sum(all.take(i as int), symbol@, sign@.signum()),
        decreases orders@.len() - i,
    {
        proof {
            assert(all.take(i + 1).drop_last() =~= all.take(i as int));
            assert(all.take(i + 1).last() == orders@[i as int]@);
        }
        match orders[i].bundle.get(symbol) {
            Some(size) => {
                if same_sign(size, sign) {
                    match acc.checked_add(size) {
                        Some(next) => {
                            acc = next;
                        },
                        None => {
                            proof {
                                lemma_sum_stays_none(all, symbol@, sign@.signum(), i + 1);
                            }
                            return None;
                        },
                    }
                }
            },
            None => {},
        }
        i = i + 1;
    }
    assert(all.take(i as int) =~= all);
    Some(acc)
}

/// Once the sum over a prefix has overflowed, that over all orders has.
pub proof fn lemma_sum_stays_none(orders: Seq<Valued>, symbol: SymbolId, sign: Dec, n: int)
    requires
        0 <= n <= orders.len(),
        same_side_sum(orders.take(n), symbol, sign).is_none(),
    ensures
        same_side_sum(orders, symbol, sign).is_none(),
    decreases orders.len() - n,
{
    if n < orders.len() {
        assert(orders.take(n + 1).drop_last() =~= orders.take(n));
        lemma_sum_stays_none(orders, symbol, sign, n + 1);
    } else {
        assert(orders.take(n) =~= orders);
    }
}

fn adjust_order(
    order: &ValuedBundle,
    adjusted: &ValuedBundle,
    symbol: &Symbol,
    price: Decimal,
    missing: Decimal,
    sum: Decimal,
) -> (r: Option<ValuedBundle>)
    ensures
        r.is_some() == adjust_one(order@, adjusted@, symbol@, price@, missing@, sum@).is_some(),
        r matches Some(v) ==> Some(v@) == adjust_one(
            order@,
            adjusted@,
            symbol@,
            price@,
            missing@,
            sum@,
        ),
{
    match order.bundle.get(symbol) {
        None => Some(adjusted.clone()),
        Some(size) => {
            let mut out = adjusted.clone();
            if same_sign(size, missing) && !sum.is_zero() {
                let share = match missing.checked_mul(size) {
                    Some(p) => p.checked_div(sum),
                    None => None,
                };
                let fitted = match share {
                    Some(q) => size.checked_sub(q),
                    None => None,
                };
                match fitted {
                    Some(v) => {
                        out.bundle.insert(symbol.duplicate(), v);
                    },
                    None => {
                        return None;
                    },
                }
            }
            out.valuation.insert(symbol.duplicate(), price);
            Some(out)
        },
    }
}

/// Adapts the orders of the positions to what the venue did: each fill,
/// taken with the order in its place, sets the price of its symbol in
/// every position's order that holds it, and what it is short of the
/// order is taken from the orders of its side, each giving up in
/// proportion to its size.
pub fn adjust_orders(orders: &Vec<ValuedBundle>, actual: &Vec<Order>, fills: &Vec<OrderInfo>) -> (r:
    Result<Vec<ValuedBundle>, ExecutionError>)
    ensures
        match adjust(
            valued_view(orders@),
            orders_view(actual@),
            fills_view(fills@),
            shorter(actual@.len(), fills@.len()),
        ) {
            Ok(adjusted) => r.is_ok() && valued_view(r.unwrap()@) == adjusted,
            Err(e) => r == Err::<Vec<ValuedBundle>, ExecutionError>(e),
        },
{
    let ghost os = valued_view(orders@);
    let ghost acts = orders_view(actual@);
    let ghost fs = fills_view(fills@);
    let mut adjusted: Vec<ValuedBundle> = Vec::new();
    let mut k: usize = 0;
    while k < orders.len()
        invariant
            k <= orders@.len(),
            adjusted@.len() == k,
            forall|j: int| 0 <= j < k ==> (#[trigger] adjusted@[j])@ == orders@[j]@,
        decreases orders@.len() - k,
    {
        adjusted.push(orders[k].clone());
        k = k + 1;
    }
    assert(valued_view(adjusted@) =~= os);
    let n: usize = if actual.len() <= fills.len() {
        actual.len()
    } else {
        fills.len()
    };
    let mut j: usize = 0;
    while j < n
        invariant
            j <= n,
            n == shorter(actual@.len(), fills@.len()),
            os == valued_view(orders@),
            acts == orders_view(actual@),
            fs == fills_view(fills@),
            adjusted@.len() == orders@.len(),
            Ok::<Seq<Valued>, ExecutionError>(valued_view(adjusted@)) == adjust(
                os,
                acts,
                fs,
                j as nat,
            ),
        decreases n - j,
    {
        let a = &actual[j];
        let f = &fills[j];
        assert(acts[j as int] == a@);
        assert(fs[j as int] == f@);
        if !a.market.same(&f.market) || a.side != f.side {
            proof {
                lemma_adjust_stays_err(os, acts, fs, j as nat + 1, n as nat);
            }
            return Err(ExecutionError::FillMismatch);
        }
        let short = match missing(a, f) {
            Some(m) => m,
            None => {
                proof {
                    lemma_adjust_stays_err(os, acts, fs, j as nat + 1, n as nat);
                }
                return Err(ExecutionError::Overflow);
            },
        };
        let sum = match sum_same_side(orders, &a.market, short) {
            Some(s) => s,
            None => {
                proof {
                    lemma_adjust_stays_err(os, acts, fs, j as nat + 1, n as nat);
                }
                return Err(ExecutionError::Overflow);
            },
        };
        let ghost before = valued_view(adjusted@);
        let mut i: usize = 0;
        while i < adjusted.len()
            invariant
                i <= adjusted@.len(),
                adjusted@.len() == orders@.len(),
                before.len() == adjusted@.len(),
                os == valued_view(orders@),
                j < n,
                n == shorter(actual@.len(), fills@.len()),
                acts == orders_view(actual@),
                fs == fills_view(fills@),
                acts[j as int] == a@,
                fs[j as int] == f@,
                a@.market == f@.market,
                a@.side == f@.side,
                Some(short@) == missing_of(a@, f@),
                Some(sum@) == same_side_sum(os, a@.market, short@.signum()),
                Ok::<Seq<Valued>, ExecutionError>(before) == adjust(os, acts, fs, j as nat),
                forall|x: int|
                    0 <= x < i ==> Some((#[trigger] adjusted@[x])@) == adjust_one(
                        os[x],
                        before[x],
                        a.market@,
                        f.price@,
                        short@,
                        sum@,
                    ),
                forall|x: int| i <= x < adjusted@.len() ==> (#[trigger] adjusted@[x])@ == before[x],
            decreases adjusted@.len() - i,
        {
            assert(os[i as int] == orders@[i as int]@);
            match adjust_order(&orders[i], &adjusted[i], &a.market, f.price, short, sum) {
                Some(v) => {
                    adjusted.set(i, v);
                },
                None => {
                    proof {
                        assert(adjust_one(
                            os[i as int],
                            before[i as int],
                            a.market@,
                            f.price@,
                            short@,
                            sum@,
                        ).is_none());
                        assert(adjust_each(os, before, a.market@, f.price@, short@, sum@).is_none());
                        lemma_adjust_stays_err(os, acts, fs, j as nat + 1, n as nat);
                    }
                    return Err(ExecutionError::Overflow);
                },
            }
            i = i + 1;
        }
        proof {
            assert forall|x: int| 0 <= x < before.len() implies adjust_one(
                #[trigger] os[x],
                before[x],
                a.market@,
                f.price@,
                short@,
                sum@,
            ).is_some() by {
                assert(Some(adjusted@[x]@) == adjust_one(
                    os[x],
                    before[x],
                    a.market@,
                    f.price@,
                    short@,
                    sum@,
                ));
            }
            assert(adjust_each(os, before, a.market@, f.price@, short@, sum@).is_some());
            assert(valued_view(adjusted@) =~= adjust_each(
                os,
                before,
                a.market@,
                f.price@,
                short@,
                sum@,
            ).unwrap());
        }
        j = j + 1;
    }
    Ok(adjusted)
}

/// Once the first fills have failed, all of them have, with the same error.
pub proof fn lemma_adjust_stays_err(
    orders: Seq<Valued>,
    actual: Seq<OrderView>,
    fills: Seq<Fill>,
    n: nat,
    m: nat,
)
    requires
        n <= m,
        adjust(orders, actual, fills, n).is_err(),
    ensures
        adjust(orders, actual, fills, m) == adjust(orders, actual, fills, n),
    decreases m - n,
{
    if n < m {
        lemma_adjust_stays_err(orders, actual, fills, n + 1, m);
    }
}

/// Once the first positions have failed, all of them have, with the same error.
pub proof fn lemma_apply_stays_err(
    positions: Seq<PositionView>,
    results: Seq<Valued>,
    n: nat,
    m: nat,
)
    requires
        n <= m,
        apply(positions, results, n).is_err(),
    ensures
        apply(positions, results, m) == apply(positions, results, n),
    decreases m - n,
{
    if n < m {
        lemma_apply_stays_err(positions, results, n + 1, m);
    }
}

/// Applying results resizes each of the first `n` positions exactly once,
/// with the result in its place, and leaves the others as they are.
pub proof fn lemma_apply_resizes_each_once(
    positions: Seq<PositionView>,
    results: Seq<Valued>,
    n: nat,
)
    requires
        n <= positions.len(),
        apply(positions, results, n).is_ok(),
    ensures
        apply(positions, results, n).unwrap().0.len() == positions.len(),
        forall|i: int|
            0 <= i < n ==> Ok::<PositionView, PositionError>(
                #[trigger] apply(positions, results, n).unwrap().0[i],
            ) == positions[i].resized(results[i]),
        forall|i: int|
            n <= i < positions.len() ==> #[trigger] apply(positions, results, n).unwrap().0[i]
                == positions[i],
    decreases n,
{
    if n > 0 {
        lemma_apply_resizes_each_once(positions, results, (n - 1) as nat);
        let prev = apply(positions, results, (n - 1) as nat).unwrap().0;
        assert(prev[n - 1] == positions[n - 1]);
    }
}

/// What a position is worth in units of `10^-28`, zero where its worth overflows.
pub open spec fn worth_units_of(p: PositionView) -> int {
    match p.value() {
        Some(v) => v.units(),
        None => 0,
    }
}

/// What the positions are worth together, in units of `10^-28`.
pub open spec fn worth_units(p: Seq<PositionView>) -> int
    decreases p.len(),
{
    if p.len() == 0 {
        0
    } else {
        worth_units(p.drop_last()) + worth_units_of(p.last())
    }
}

/// Replacing one position changes the worth of all by the difference of the two.
pub proof fn lemma_worth_units_update(p: Seq<PositionView>, i: int, q: PositionView)
    requires
        0 <= i < p.len(),
    ensures
        worth_units(p.update(i, q)) == worth_units(p) - worth_units_of(p[i]) + worth_units_of(q),
    decreases p.len(),
{
    let u = p.update(i, q);
    if i == p.len() - 1 {
        assert(u.drop_last() =~= p.drop_last());
    } else {
        assert(u.drop_last() =~= p.drop_last().update(i, q));
        lemma_worth_units_update(p.drop_last(), i, q);
    }
}

/// No difference and no partial sum had to be rounded when the results were applied to the first `n` positions.
pub open spec fn apply_is_exact(positions: Seq<PositionView>, results: Seq<Valued>, n: nat) -> bool
    decreases n,
{
    if n == 0 {
        true
    } else {
        &&& apply_is_exact(positions, results, (n - 1) as nat)
        &&& match apply(positions, results, (n - 1) as nat) {
            Err(_) => false,
            Ok((ps, sum)) => match (ps[n - 1].value(), ps[n - 1].resized(results[n - 1])) {
                (Some(before), Ok(q)) => match q.value() {
                    None => false,
                    Some(after) => match after.sub(before) {
                        None => false,
                        Some(diff) => diff.sums_to(before, after) && match sum.add(diff) {
                            None => false,
                            Some(total) => sum.sums_to(diff, total),
                        },
                    },
                },
                _ => false,
            },
        }
    }
}

/// The gain that applying results adds up is what the positions are worth more afterwards.
pub proof fn lemma_gain_is_change_of_worth(
    positions: Seq<PositionView>,
    results: Seq<Valued>,
    n: nat,
)
    requires
        n <= positions.len(),
        apply(positions, results, n).is_ok(),
        apply_is_exact(positions, results, n),
    ensures
        apply(positions, results, n).unwrap().1.units() == worth_units(
            apply(positions, results, n).unwrap().0,
        ) - worth_units(positions),
    decreases n,
{
    if n == 0 {
        lemma_units_sign(Dec::zero());
    } else {
        lemma_gain_is_change_of_worth(positions, results, (n - 1) as nat);
        lemma_apply_resizes_each_once(positions, results, (n - 1) as nat);
        let (ps, sum) = apply(positions, results, (n - 1) as nat).unwrap();
        let q = ps[n - 1].resized(results[n - 1]).unwrap();
        lemma_worth_units_update(ps, n - 1, q);
    }
}

/// The worth of the positions that are kept is the worth of all: those removed are worth nothing.
pub proof fn lemma_kept_keeps_worth(p: Seq<PositionView>)
    requires
        kept(p).is_some(),
    ensures
        worth_units(kept(p).unwrap()) == worth_units(p),
    decreases p.len(),
{
    if p.len() > 0 {
        lemma_kept_keeps_worth(p.drop_last());
        let prev = kept(p.drop_last()).unwrap();
        let v = p.last().value().unwrap();
        lemma_units_sign(v);
        if !v.is_zero() {
            assert(prev.push(p.last()).drop_last() =~= prev);
        }
    }
}

/// The booking of `sum` in the wallet did not have to round what is owned of `quote`.
pub open spec fn booking_is_exact(w: Balances, sum: Dec, quote: Seq<char>) -> bool {
    if Dec::zero().lt(sum) {
        match w.total_of(quote).sub(sum) {
            Some(total) => total.sums_to(sum, w.total_of(quote)),
            None => false,
        }
    } else if sum.lt(Dec::zero()) {
        match w.total_of(quote).add(sum.neg()) {
            Some(total) => w.total_of(quote).sums_to(sum.neg(), total),
            None => false,
        }
    } else {
        true
    }
}

/// After the booking the wallet owns that much less of `quote` as the positions have gained.
pub proof fn lemma_wallet_pays_gain(w: Balances, sum: Dec, quote: Seq<char>)
    requires
        distinct_keys(w.total),
        settled(w, sum, quote).is_ok(),
        booking_is_exact(w, sum, quote),
    ensures
        settled(w, sum, quote).unwrap().total_of(quote).units() == w.total_of(quote).units()
            - sum.units(),
{
    lemma_units_sign(sum);
    lemma_units_sign(Dec::zero());
    if Dec::zero().lt(sum) {
        let reserved = w.reserve(sum, quote).unwrap();
        assert(reserved.total == w.total);
        let total = w.total_of(quote).sub(sum).unwrap();
        lemma_upsert(w.total, quote, total);
    } else if sum.lt(Dec::zero()) {
        let total = w.total_of(quote).add(sum.neg()).unwrap();
        lemma_upsert(w.total, quote, total);
    }
}

/// Applies to each position the result in its place, and adds up what the
/// positions gained in worth by that. The positions come back as copies;
/// those without a result are unchanged.
pub fn apply_results(positions: &Vec<Position>, results: &Vec<ValuedBundle>) -> (r: Result<
    (Vec<Position>, Decimal),
    ExecutionError,
>)
    ensures
        match apply(
            views(positions@),
            valued_view(results@),
            shorter(positions@.len(), results@.len()),
        ) {
            Ok((after, sum)) => r.is_ok() && views(r.unwrap().0@) == after && r.unwrap().1@ == sum,
            Err(e) => r == Err::<(Vec<Position>, Decimal), ExecutionError>(e),
        },
{
    let ghost ps = views(positions@);
    let ghost rs = valued_view(results@);
    let mut out: Vec<Position> = Vec::new();
    let mut k: usize = 0;
    while k < positions.len()
        invariant
            k <= positions@.len(),
            out@.len() == k,
            forall|j: int| 0 <= j < k ==> (#[trigger] out@[j])@ == positions@[j]@,
        decreases positions@.len() - k,
    {
        out.push(positions[k].clone());
        k = k + 1;
    }
    assert(views(out@) =~= ps);
    let n: usize = if positions.len() <= results.len() {
        positions.len()
    } else {
        results.len()
    };
    let mut sum = Decimal::zero();
    let mut i: usize = 0;
    while i < n
        invariant
            i <= n,
            n == shorter(positions@.len(), results@.len()),
            ps == views(positions@),
            rs == valued_view(results@),
            out@.len() == positions@.len(),
            Ok::<(Seq<PositionView>, Dec), ExecutionError>((views(out@), sum@)) == apply(
                ps,
                rs,
                i as nat,
            ),
        decreases n - i,
    {
        let ghost before_all = views(out@);
        assert(rs[i as int] == results@[i as int]@);
        assert(before_all[i as int] == out@[i as int]@);
        let mut p = out[i].clone();
        let before = match p.value() {
            Some(v) => v,
            None => {
                proof {
                    lemma_apply_stays_err(ps, rs, i as nat + 1, n as nat);
                }
                return Err(ExecutionError::Overflow);
            },
        };
        match p.resize(results[i].clone()) {
            Ok(()) => {},
            Err(e) => {
                proof {
                    lemma_apply_stays_err(ps, rs, i as nat + 1, n as nat);
                }
                return Err(ExecutionError::Position(e));
            },
        }
        let after = match p.value() {
            Some(v) => v,
            None => {
                proof {
                    lemma_apply_stays_err(ps, rs, i as nat + 1, n as nat);
                }
                return Err(ExecutionError::Overflow);
            },
        };
        let total = match after.checked_sub(before) {
            Some(diff) => sum.checked_add(diff),
            None => None,
        };
        match total {
            Some(t) => {
                sum = t;
            },
            None => {
                proof {
                    lemma_apply_stays_err(ps, rs, i as nat + 1, n as nat);
                }
                return Err(ExecutionError::Overflow);
            },
        }
        out.set(i, p);
        assert(views(out@) =~= before_all.update(i as int, p@));
        i = i + 1;
    }
    Ok((out, sum))
}

/// Books in the wallet what the positions gained in worth: a gain is
/// reserved and withdrawn, a loss is deposited. On an error nothing changes.
pub fn settle_wallet(wallet: &mut Wallet, sum: Decimal, quote: &Asset) -> (r: Result<
    (),
    WalletError,
>)
    ensures
        match settled(old(wallet)@, sum@, quote@) {
            Ok(after) => r.is_ok() && final(wallet)@ == after,
            Err(e) => r == Err::<(), WalletError>(e) && final(wallet)@ == old(wallet)@,
        },
{
    if Decimal::zero().lt(&sum) {
        let mut w = wallet.duplicate();
        match w.reserve(sum, quote) {
            Ok(()) => {},
            Err(e) => {
                return Err(e);
            },
        }
        match w.withdraw(sum, quote) {
            Ok(()) => {},
            Err(e) => {
                return Err(e);
            },
        }
        *wallet = w;
        Ok(())
    } else if sum.lt(&Decimal::zero()) {
        proof {
            lemma_units_sign(sum@);
        }
        wallet.deposit(sum.neg(), quote)
    } else {
        Ok(())
    }
}

/// Once a prefix could not be valued, all positions cannot.
pub proof fn lemma_kept_stays_none(p: Seq<PositionView>, n: int)
    requires
        0 <= n <= p.len(),
        kept(p.take(n)).is_none(),
    ensures
        kept(p).is_none(),
    decreases p.len() - n,
{
    if n < p.len() {
        assert(p.take(n + 1).drop_last() =~= p.take(n));
        lemma_kept_stays_none(p, n + 1);
    } else {
        assert(p.take(n) =~= p);
    }
}

/// The positions that are worth something, `None` where a worth overflows.
pub fn retain_valued(positions: Vec<Position>) -> (r: Option<Vec<Position>>)
    ensures
        r.is_some() == kept(views(positions@)).is_some(),
        r matches Some(v) ==> Some(views(v@)) == kept(views(positions@)),
{
    let ghost all = views(positions@);
    let mut out: Vec<Position> = Vec::new();
    let mut i: usize = 0;
    assert(all.take(0) =~= Seq::<PositionView>::empty());
    assert(views(out@) =~= Seq::<PositionView>::empty());
    while i < positions.len()
        invariant
            i <= positions@.len(),
            all == views(positions@),
            Some(views(out@)) == kept(all.take(i as int)),
        decreases positions@.len() - i,
    {
        proof {
            assert(all.take(i + 1).drop_last() =~= all.take(i as int));
            assert(all.take(i + 1).last() == positions@[i as int]@);
        }
        let ghost before = views(out@);
        match positions[i].value() {
            Some(v) => {
                if !v.is_zero() {
                    out.push(positions[i].clone());
                    assert(views(out@) =~= before.push(positions@[i as int]@));
                }
            },
            None => {
                proof {
                    lemma_kept_stays_none(all, i + 1);
                }
                return None;
            },
        }
        i = i + 1;
    }
    assert(all.take(i as int) =~= all);
    Some(out)
}

} // verus!
