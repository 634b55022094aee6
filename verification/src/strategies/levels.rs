use std::collections::HashMap;
use vstd::prelude::*;
use crate::decimal::{Dec, Decimal};
use crate::exchange::bundle::zeroed;
use crate::exchange::position::PositionView;
use crate::exchange::{all_closing, Exchange, ExchangeView};
use crate::strategies::strategy::{Settings, Strategy, StrategyError};
use crate::time::{Duration, Time};

verus! {

broadcast use vstd::std_specs::hash::group_hash_axioms;

/// A condition on the profit and loss of a position, relative to what was put in.
#[derive(Debug, Clone, Copy)]
pub enum Trigger {
    /// The loss has reached the threshold.
    StopLoss(Decimal),
    /// The profit has reached the threshold.
    TakeProfit(Decimal),
    /// Profit and loss have fallen by the threshold from their highest.
    TrailingStopLoss(Decimal),
}

/// The mathematical content of a trigger.
pub enum Level {
    StopLoss(Dec),
    TakeProfit(Dec),
    TrailingStopLoss(Dec),
}

impl View for Trigger {
    type V = Level;

    open spec fn view(&self) -> Level {
        match self {
            Trigger::StopLoss(t) => Level::StopLoss(t@),
            Trigger::TakeProfit(t) => Level::TakeProfit(t@),
            Trigger::TrailingStopLoss(t) => Level::TrailingStopLoss(t@),
        }
    }
}

/// What is done about a position whose trigger has fired.
#[derive(Debug, Clone, Copy, PartialEq, Eq, Structural)]
pub enum Action {
    /// Close that position.
    Close,
    /// Close all positions and keep them closed for that long.
    CloseAllAndTimeout(Duration),
    /// Close all positions and stop trading.
    CloseAllAndQuit,
}

/// What is remembered of one position.
#[derive(Debug, Clone, Copy)]
pub struct PositionData {
    /// The highest relative profit and loss seen, zero at least.
    pub max_relative_pnl: Decimal,
    /// The action of the trigger that fired last.
    pub action: Option<Action>,
}

/// The mathematical content of what is remembered of one position.
pub struct Mark {
    pub max_relative_pnl: Dec,
    pub action: Option<Action>,
}

impl View for PositionData {
    type V = Mark;

    open spec fn view(&self) -> Mark {
        Mark { max_relative_pnl: self.max_relative_pnl@, action: self.action }
    }
}

/// A profit and loss could not be measured, or a threshold or a timeout left the range that can be written.
#[derive(Debug, Clone, Copy, PartialEq, Eq, Structural)]
pub struct LevelsOverflow;

impl Level {
    /// Whether the trigger fires at a relative profit and loss of `rpnl`,
    /// `max` being the highest seen; `None` where the trailing bound overflows.
    pub open spec fn fires(self, rpnl: Dec, max: Dec) -> Option<bool> {
        match self {
            Level::StopLoss(t) => Some(rpnl.le(t.neg())),
            Level::TakeProfit(t) => Some(t.le(rpnl)),
            Level::TrailingStopLoss(t) => match max.sub(t) {
                Some(bound) => Some(rpnl.le(bound)),
                None => None,
            },
        }
    }
}

/// The content of a list of triggers with their actions.
pub open spec fn levels_view(t: Seq<(Trigger, Action)>) -> Seq<(Level, Action)> {
    Seq::new(t.len(), |i: int| (t[i].0@, t[i].1))
}

/// The pending action after the triggers were tried in their order: the action of the last one that fires.
pub open spec fn triggered(levels: Seq<(Level, Action)>, rpnl: Dec, max: Dec, pending: Option<
    Action,
>) -> Option<Option<Action>>
    decreases levels.len(),
{
    if levels.len() == 0 {
        Some(pending)
    } else {
        match (
            triggered(levels.drop_last(), rpnl, max, pending),
            levels.last().0.fires(rpnl, max),
        ) {
            (Some(prev), Some(fires)) => Some(
                if fires {
                    Some(levels.last().1)
                } else {
                    prev
                },
            ),
            _ => None,
        }
    }
}

/// What is remembered of a position that was not seen before.
pub open spec fn fresh_mark() -> Mark {
    Mark { max_relative_pnl: Dec::zero(), action: None }
}

/// What is remembered of a position after it was looked at.
pub open spec fn observed(mark: Mark, rpnl: Dec, levels: Seq<(Level, Action)>) -> Option<Mark> {
    let max = if mark.max_relative_pnl.lt(rpnl) {
        rpnl
    } else {
        mark.max_relative_pnl
    };
    match triggered(levels, rpnl, max, mark.action) {
        Some(action) => Some(Mark { max_relative_pnl: max, action }),
        None => None,
    }
}

/// What is remembered after the first `n` positions were looked at in turn.
pub open spec fn observe_all(
    marks: Map<u128, Mark>,
    positions: Seq<PositionView>,
    levels: Seq<(Level, Action)>,
    n: nat,
) -> Option<Map<u128, Mark>>
    decreases n,
{
    if n == 0 {
        Some(marks)
    } else {
        match observe_all(marks, positions, levels, (n - 1) as nat) {
            None => None,
            Some(prev) => {
                let p = positions[n - 1];
                let mark = if prev.contains_key(p.id) {
                    prev[p.id]
                } else {
                    fresh_mark()
                };
                match p.relative_pnl() {
                    None => None,
                    Some(rpnl) => match observed(mark, rpnl, levels) {
                        Some(next) => Some(prev.insert(p.id, next)),
                        None => None,
                    },
                }
            },
        }
    }
}

/// The pending action of a position.
pub open spec fn pending(marks: Map<u128, Mark>, p: PositionView) -> Option<Action> {
    if marks.contains_key(p.id) {
        marks[p.id].action
    } else {
        None
    }
}

/// The positions after each one with the pending action `Close` was asked to go back to zero.
pub open spec fn closed_by_marks(marks: Map<u128, Mark>, positions: Seq<PositionView>) -> Seq<
    PositionView,
> {
    Seq::new(
        positions.len(),
        |i: int|
            if pending(marks, positions[i]) == Some(Action::Close) {
                PositionView { next_size: zeroed(positions[i].next_size), ..positions[i] }
            } else {
                positions[i]
            },
    )
}

/// Whether one of the first `n` positions asks to stop trading.
pub open spec fn wants_quit(marks: Map<u128, Mark>, positions: Seq<PositionView>, n: nat) -> bool
    decreases n,
{
    n > 0 && (pending(marks, positions[n - 1]) == Some(Action::CloseAllAndQuit) || wants_quit(
        marks,
        positions,
        (n - 1) as nat,
    ))
}

/// The end of the timeout after the first `n` positions: the last
/// position that asks for a timeout sets it, counted from `now`. `None` where that instant cannot be written.
pub open spec fn timeout_after(
    marks: Map<u128, Mark>,
    positions: Seq<PositionView>,
    until: Time,
    now: Time,
    n: nat,
) -> Option<Time>
    decreases n,
{
    if n == 0 {
        Some(until)
    } else {
        match timeout_after(marks, positions, until, now, (n - 1) as nat) {
            None => None,
            Some(prev) => match pending(marks, positions[n - 1]) {
                Some(Action::CloseAllAndTimeout(d)) => Time::of(now.millis + d.millis),
                _ => Some(prev),
            },
        }
    }
}

/// The mathematical content of the levels' state.
pub struct LevelsView {
    pub timeout_until: Time,
    pub levels: Seq<(Level, Action)>,
    pub marks: Map<u128, Mark>,
}

impl LevelsView {
    /// The levels' state and the exchange after the positions were looked at
    /// once: every position's highest profit and pending action are
    /// brought up to date; then each pending action is carried out; a
    /// wish to quit, or a timeout that has not run out, closes every position.
    pub open spec fn apply(self, exchange: ExchangeView) -> Option<(LevelsView, ExchangeView)> {
        let n = exchange.positions.len();
        match observe_all(self.marks, exchange.positions, self.levels, n) {
            None => None,
            Some(marks) => match timeout_after(
                marks,
                exchange.positions,
                self.timeout_until,
                exchange.current_time,
                n,
            ) {
                None => None,
                Some(until) => {
                    let quit = wants_quit(marks, exchange.positions, n);
                    let closed = closed_by_marks(marks, exchange.positions);
                    let all = quit || exchange.current_time.millis <= until.millis;
                    Some(
                        (
                            LevelsView { timeout_until: until, levels: self.levels, marks },
                            ExchangeView {
                                positions: if all {
                                    all_closing(closed)
                                } else {
                                    closed
                                },
                                quit: exchange.quit || quit,
                                ..exchange
                            },
                        ),
                    )
                },
            }
        }
    }
}

/// A strategy wrapped so that its positions are left when their profit and loss reach given levels.
pub struct Levels<S: Strategy> {
    strategy: S,
    timeout_until: Time,
    triggers: Vec<(Trigger, Action)>,
    positions: HashMap<u128, PositionData>,
}

impl<S: Strategy> View for Levels<S> {
    type V = LevelsView;

    closed spec fn view(&self) -> LevelsView {
        LevelsView {
            timeout_until: self.timeout_until,
            levels: levels_view(self.triggers@),
            marks: self.positions@.map_values(|d: PositionData| d@),
        }
    }
}

fn fires(trigger: &Trigger, rpnl: Decimal, max: Decimal) -> (r: Option<bool>)
    ensures
        r == trigger@.fires(rpnl@, max@),
{
    match trigger {
        Trigger::StopLoss(t) => Some(rpnl.le(&t.neg())),
        Trigger::TakeProfit(t) => Some(t.le(&rpnl)),
        Trigger::TrailingStopLoss(t) => match max.checked_sub(*t) {
            Some(bound) => Some(rpnl.le(&bound)),
            None => None,
        },
    }
}

/// Once the first triggers could not be tried, all of them cannot.
pub proof fn lemma_triggered_stays_none(
    levels: Seq<(Level, Action)>,
    rpnl: Dec,
    max: Dec,
    pending: Option<Action>,
    n: int,
)
    requires
        0 <= n <= levels.len(),
        triggered(levels.take(n), rpnl, max, pending).is_none(),
    ensures
        triggered(levels, rpnl, max, pending).is_none(),
    decreases levels.len() - n,
{
    if n < levels.len() {
        assert(levels.take(n + 1).drop_last() =~= levels.take(n));
        lemma_triggered_stays_none(levels, rpnl, max, pending, n + 1);
    } else {
        assert(levels.take(n) =~= levels);
    }
}

/// Once the first positions could not be looked at, all of them cannot.
pub proof fn lemma_observe_stays_none(
    marks: Map<u128, Mark>,
    positions: Seq<PositionView>,
    levels: Seq<(Level, Action)>,
    n: nat,
    m: nat,
)
    requires
        n <= m,
        observe_all(marks, positions, levels, n).is_none(),
    ensures
        observe_all(marks, positions, levels, m).is_none(),
    decreases m - n,
{
    if n < m {
        lemma_observe_stays_none(marks, positions, levels, n + 1, m);
    }
}

/// Once the timeout could not be written, it stays so.
pub proof fn lemma_timeout_stays_none(
    marks: Map<u128, Mark>,
    positions: Seq<PositionView>,
    until: Time,
    now: Time,
    n: nat,
    m: nat,
)
    requires
        n <= m,
        timeout_after(marks, positions, until, now, n).is_none(),
    ensures
        timeout_after(marks, positions, until, now, m).is_none(),
    decreases m - n,
{
    if n < m {
        lemma_timeout_stays_none(marks, positions, until, now, n + 1, m);
    }
}

impl<S: Strategy> Levels<S> {
    /// The strategy without any levels yet.
    pub fn new(strategy: S) -> (r: Levels<S>)
        ensures
            r@.timeout_until.millis == 0,
            r@.levels.len() == 0,
            r@.marks == Map::<u128, Mark>::empty(),
    {
        let r = Levels {
            strategy,
            timeout_until: Time::from_millis(0),
            triggers: Vec::new(),
            positions: HashMap::new(),
        };
        assert(r.positions@.map_values(|d: PositionData| d@) =~= Map::<u128, Mark>::empty());
        r
    }

    /// One more level: when `trigger` fires for a position, `action` is taken.
    pub fn add(self, trigger: Trigger, action: Action) -> (r: Levels<S>)
        ensures
            r@ == (LevelsView { levels: self@.levels.push((trigger@, action)), ..self@ }),
    {
        let mut r = self;
        let ghost before = levels_view(r.triggers@);
        r.triggers.push((trigger, action));
        assert(levels_view(r.triggers@) =~= before.push((trigger@, action)));
        r
    }

    /// The end of the timeout; positions are kept closed up to that instant.
    pub fn timeout_until(&self) -> (r: Time)
        ensures
            r == self@.timeout_until,
    {
        self.timeout_until
    }

    /// The highest relative profit and loss seen of a position, if it was looked at.
    pub fn max_relative_pnl(&self, id: u128) -> (r: Option<Decimal>)
        ensures
            match r {
                Some(max) => self@.marks.contains_key(id) && self@.marks[id].max_relative_pnl
                    == max@,
                None => !self@.marks.contains_key(id),
            },
    {
        match self.positions.get(&id) {
            Some(data) => Some(data.max_relative_pnl),
            None => None,
        }
    }

    fn observe(data: PositionData, rpnl: Decimal, triggers: &Vec<(Trigger, Action)>) -> (r: Option<
        PositionData,
    >)
        ensures
            match r {
                Some(next) => Some(next@) == observed(data@, rpnl@, levels_view(triggers@)),
                None => observed(data@, rpnl@, levels_view(triggers@)).is_none(),
            },
    {
        let ghost levels = levels_view(triggers@);
        let max = data.max_relative_pnl.max(rpnl);
        let mut action = data.action;
        let mut i: usize = 0;
        assert(levels.take(0) =~= Seq::<(Level, Action)>::empty());
        while i < triggers.len()
            invariant
                i <= triggers@.len(),
                levels == levels_view(triggers@),
                max@ == if data@.max_relative_pnl.lt(rpnl@) {
                    rpnl@
                } else {
                    data@.max_relative_pnl
                },
                Some(action) == triggered(levels.take(i as int), rpnl@, max@, data.action),
            decreases triggers@.len() - i,
        {
            proof {
                assert(levels.take(i + 1).drop_last() =~= levels.take(i as int));
                assert(levels.take(i + 1).last() == (triggers@[i as int].0@, triggers@[i as int].1));
            }
            match fires(&triggers[i].0, rpnl, max) {
                Some(true) => {
                    action = Some(triggers[i].1);
                },
                Some(false) => {},
                None => {
                    proof {
                        lemma_triggered_stays_none(levels, rpnl@, max@, data.action, i + 1);
                    }
                    return None;
                },
            }
            i = i + 1;
        }
        assert(levels.take(i as int) =~= levels);
        Some(PositionData { max_relative_pnl: max, action })
    }

    /// Looks at the positions of the exchange after the wrapped strategy
    /// has run, and leaves those whose levels were reached. On an error nothing changes.
    pub fn apply(&mut self, exchange: &mut Exchange) -> (r: Result<(), LevelsOverflow>)
        ensures
            match old(self)@.apply(old(exchange)@) {
                Some((levels, state)) => r.is_ok() && final(self)@ == levels && final(exchange)@
                    == state,
                None => r.is_err() && final(self)@ == old(self)@ && final(exchange)@ == old(
                    exchange,
                )@,
            },
    {
        let ghost marks0 = self@.marks;
        let ghost ps = exchange@.positions;
        let ghost levels = self@.levels;
        let n = exchange.positions().len();
        let mut marks: HashMap<u128, PositionData> = self.positions.clone();
        assert(marks@.map_values(|d: PositionData| d@) =~= marks0);
        let mut i: usize = 0;
        while i < n
            invariant
                i <= n,
                n == ps.len(),
                exchange@ == old(exchange)@,
                *self == *old(self),
                ps == exchange@.positions,
                levels == self@.levels,
                levels == levels_view(self.triggers@),
                marks0 == self@.marks,
                Some(marks@.map_values(|d: PositionData| d@)) == observe_all(
                    marks0,
                    ps,
                    levels,
                    i as nat,
                ),
            decreases n - i,
        {
            let position = &exchange.positions()[i];
            let id = position.id();
            assert(position@ == ps[i as int]);
            let data = match marks.get(&id) {
                Some(d) => *d,
                None => PositionData { max_relative_pnl: Decimal::zero(), action: None },
            };
            let next = match position.relative_pnl() {
                Some(rpnl) => Levels::<S>::observe(data, rpnl, &self.triggers),
                None => None,
            };
            match next {
                Some(next) => {
                    let ghost before = marks@.map_values(|d: PositionData| d@);
                    marks.insert(id, next);
                    assert(marks@.map_values(|d: PositionData| d@) =~= before.insert(id, next@));
                },
                None => {
                    proof {
                        assert(observe_all(marks0, ps, levels, (i + 1) as nat).is_none());
                        lemma_observe_stays_none(marks0, ps, levels, (i + 1) as nat, n as nat);
                    }
                    return Err(LevelsOverflow);
                },
            }
            i = i + 1;
        }
        let ghost seen = marks@.map_values(|d: PositionData| d@);
        let now = exchange.current_time();
        let mut until = self.timeout_until;
        let mut quit = false;
        let mut close: Vec<bool> = Vec::new();
        let mut j: usize = 0;
        while j < n
            invariant
                j <= n,
                n == ps.len(),
                exchange@ == old(exchange)@,
                *self == *old(self),
                ps == exchange@.positions,
                now == exchange@.current_time,
                seen == marks@.map_values(|d: PositionData| d@),
                marks0 == old(self)@.marks,
                levels == old(self)@.levels,
                Some(seen) == observe_all(marks0, ps, levels, n as nat),
                close@.len() == j,
                forall|k: int|
                    0 <= k < j ==> #[trigger] close@[k] == (pending(seen, ps[k]) == Some(
                        Action::Close,
                    )),
                quit == wants_quit(seen, ps, j as nat),
                Some(until) == timeout_after(seen, ps, self@.timeout_until, now, j as nat),
            decreases n - j,
        {
            let position = &exchange.positions()[j];
            let id = position.id();
            assert(position@ == ps[j as int]);
            let action = match marks.get(&id) {
                Some(d) => d.action,
                None => None,
            };
            assert(action == pending(seen, ps[j as int]));
            let mut closes = false;
            match action {
                Some(Action::Close) => {
                    closes = true;
                },
                Some(Action::CloseAllAndQuit) => {
                    quit = true;
                },
                Some(Action::CloseAllAndTimeout(d)) => {
                    match now.checked_add(d) {
                        Some(t) => {
                            until = t;
                        },
                        None => {
                            proof {
                                assert(timeout_after(
                                    seen,
                                    ps,
                                    self@.timeout_until,
                                    now,
                                    (j + 1) as nat,
                                ).is_none());
                                lemma_timeout_stays_none(
                                    seen,
                                    ps,
                                    self@.timeout_until,
                                    now,
                                    (j + 1) as nat,
                                    n as nat,
                                );
                            }
                            return Err(LevelsOverflow);
                        },
                    }
                },
                None => {},
            }
            close.push(closes);
            j = j + 1;
        }
        let mut k: usize = 0;
        while k < n
            invariant
                k <= n,
                n == ps.len(),
                close@.len() == n,
                ps == old(exchange)@.positions,
                exchange@.positions.len() == n,
                exchange@ == (ExchangeView { positions: exchange@.positions, ..old(exchange)@ }),
                forall|x: int|
                    0 <= x < n ==> #[trigger] close@[x] == (pending(seen, ps[x]) == Some(
                        Action::Close,
                    )),
                forall|x: int|
                    0 <= x < k ==> #[trigger] exchange@.positions[x] == closed_by_marks(
                        seen,
                        ps,
                    )[x],
                forall|x: int| k <= x < n ==> #[trigger] exchange@.positions[x] == ps[x],
            decreases n - k,
        {
            if close[k] {
                exchange.position_mut(k).close();
            }
            k = k + 1;
        }
        assert(exchange@.positions =~= closed_by_marks(seen, ps));
        if quit {
            exchange.close_all();
            exchange.quit();
        }
        if now.millis <= until.millis {
            exchange.close_all();
        }
        proof {
            let closed = closed_by_marks(seen, ps);
            assert(all_closing(all_closing(closed)) =~= all_closing(closed)) by {
                assert forall|x: int| 0 <= x < closed.len() implies zeroed(
                    zeroed(#[trigger] closed[x].next_size),
                ) =~= zeroed(closed[x].next_size) by {}
            }
        }
        self.timeout_until = until;
        self.positions = marks;
        Ok(())
    }
}

impl<S: Strategy> Levels<S> {
    /// What follows the evaluation of the wrapped strategy, `outcome` being
    /// what that evaluation returned and `exchange` how it left the exchange.
    /// An error of the wrapped strategy is handed on, and nothing changes.
    /// After a success the positions are looked at, as `apply` does; where
    /// that cannot be measured the error says so, and nothing changes.
    pub fn after_eval(&mut self, outcome: Result<(), StrategyError>, exchange: &mut Exchange) -> (r:
        Result<(), StrategyError>)
        ensures
            match outcome {
                Err(e) => r.is_err() && r.unwrap_err().message@ == e.message@ && final(self)@
                    == old(self)@ && final(exchange)@ == old(exchange)@,
                Ok(_) => match old(self)@.apply(old(exchange)@) {
                    Some((levels, state)) => r.is_ok() && final(self)@ == levels
                        && final(exchange)@ == state,
                    None => r.is_err() && r.unwrap_err().message@
                        == "A level left the range of decimals."@ && final(self)@ == old(self)@
                        && final(exchange)@ == old(exchange)@,
                },
            },
    {
        match outcome {
            Err(e) => Err(e),
            Ok(()) => match self.apply(exchange) {
                Ok(()) => Ok(()),
                Err(_) => Err(StrategyError::new("A level left the range of decimals.")),
            },
        }
    }
}

impl<S: Strategy> Strategy for Levels<S> {
    /// The name of the wrapped strategy, as that strategy gives it.
    fn name(&self) -> String {
        self.strategy.name()
    }

    /// Initialises the wrapped strategy and hands its settings, or its
    /// error, on. The levels themselves are left as they are.
    fn init(&mut self, exchange: &mut Exchange) -> (r: Result<Settings, StrategyError>)
        ensures
            final(self)@ == old(self)@,
    {
        self.strategy.init(exchange)
    }

    /// Evaluates the wrapped strategy, then looks at the positions. On
    /// success the levels and the exchange are what `apply` makes of the
    /// levels before and of the exchange as the wrapped strategy left it.
    /// On an error, of the wrapped strategy or of the levels, the levels are as before.
    fn eval(&mut self, exchange: &mut Exchange) -> (r: Result<(), StrategyError>)
        ensures
            r.is_ok() ==> exists|mid: ExchangeView| #[trigger]
                old(self)@.apply(mid) == Some((final(self)@, final(exchange)@)),
            r.is_err() ==> final(self)@ == old(self)@,
    {
        let outcome = self.strategy.eval(exchange);
        let ghost mid = exchange@;
        let r = self.after_eval(outcome, exchange);
        proof {
            if r.is_ok() {
                assert(old(self)@.apply(mid) == Some((self@, exchange@)));
            }
        }
        r
    }
}

} // verus!
