use vstd::prelude::*;
use crate::decimal::Decimal;
use crate::id::{fresh_id, is_random_uuid};
use crate::order::{Order, OrderInfo};
use crate::time::Time;

verus! {

/// The record that a session of trading has begun.
#[derive(Debug)]
pub struct Session {
    pub id: u128,
    pub name: String,
    pub exchange: String,
    pub live_trading: bool,
}

/// The record of what wallet and positions were worth at an instant.
#[derive(Debug, Clone, Copy)]
pub struct Equity {
    pub total: Decimal,
    pub time: Time,
}

/// What the monitor hands to its sink.
#[derive(Debug)]
pub enum Record {
    Session(Session),
    Equity(Equity),
    /// An order as it was meant, before it is placed.
    Order(Order),
    /// What the venue made of an order.
    OrderInfo(OrderInfo),
}

/// Whether the worth at `time` is recorded: once an hour, at the full hour.
pub open spec fn equity_due(time: Time) -> bool {
    time.spec_minute() == 0
}

/// A layer that records the session, the worth and the orders, and passes everything on unchanged.
#[derive(Debug)]
pub struct Monitor {
    session_id: u128,
}

impl Monitor {
    /// A monitor for a new session, under an identifier of its own.
    pub fn new() -> (r: Monitor)
        ensures
            is_random_uuid(r.spec_session_id()),
    {
        Monitor { session_id: fresh_id() }
    }

    pub closed spec fn spec_session_id(&self) -> u128 {
        self.session_id
    }

    /// The identifier under which the session is recorded.
    pub fn session_id(&self) -> (r: u128)
        ensures
            r == self.spec_session_id(),
    {
        self.session_id
    }

    /// The record that opens the session.
    pub fn hello(&self, strategy_name: &str, exchange_name: &str, live_trading: bool) -> (r: Record)
        ensures
            r matches Record::Session(s) && s.id == self.spec_session_id() && s.name@
                == strategy_name@ && s.exchange@ == exchange_name@ && s.live_trading
                == live_trading,
    {
        Record::Session(
            Session {
                name: strategy_name.to_owned(),
                exchange: exchange_name.to_owned(),
                live_trading,
                id: self.session_id,
            },
        )
    }

    /// The record of the worth at `time`, at the full hour only.
    pub fn status(&self, time: Time, total: Decimal) -> (r: Option<Record>)
        ensures
            r.is_some() == equity_due(time),
            r matches Some(record) ==> record matches Record::Equity(e) && e.total == total
                && e.time == time,
    {
        if time.minute() == 0 {
            Some(Record::Equity(Equity { total, time }))
        } else {
            None
        }
    }

    /// The record of an order that is about to be placed.
    pub fn order_placed(&self, order: &Order) -> (r: Record)
        ensures
            r matches Record::Order(o) && o@ == order@,
    {
        Record::Order(order.clone())
    }

    /// The record of what the venue made of an order.
    pub fn order_filled(&self, info: &OrderInfo) -> (r: Record)
        ensures
            r matches Record::OrderInfo(i) && i@ == info@,
    {
        Record::OrderInfo(info.clone())
    }
}

} // verus!
