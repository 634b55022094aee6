use vstd::prelude::*;
use crate::decimal::{Dec, Decimal};
use crate::market::{Symbol, SymbolId};
use crate::time::Time;

verus! {

#[derive(Clone, Copy, Debug, PartialEq, Eq, Hash, Structural)]
pub enum Side {
    Buy,
    Sell,
}

#[derive(PartialEq, Eq, Debug, Clone, Copy)]
pub enum OrderType {
    Limit(Decimal),
    Market,
}

/// The mathematical content of an order type.
pub enum OrderKind {
    Limit(Dec),
    Market,
}

impl View for OrderType {
    type V = OrderKind;

    open spec fn view(&self) -> OrderKind {
        match self {
            OrderType::Limit(price) => OrderKind::Limit(price@),
            OrderType::Market => OrderKind::Market,
        }
    }
}

/// Defines an order that can be placed in an exchange.
#[derive(Debug)]
pub struct Order {
    pub order_id: u128,
    pub market: Symbol,
    pub side: Side,
    pub size: Decimal,
    pub order_type: OrderType,
    pub reduce_only: bool,
    pub time: Time,
    pub current_price: Decimal,
}

/// The mathematical content of an order.
pub struct OrderView {
    pub order_id: u128,
    pub market: SymbolId,
    pub side: Side,
    pub size: Dec,
    pub order_type: OrderKind,
    pub reduce_only: bool,
    pub time: Time,
    pub current_price: Dec,
}

impl View for Order {
    type V = OrderView;

    open spec fn view(&self) -> OrderView {
        OrderView {
            order_id: self.order_id,
            market: self.market@,
            side: self.side,
            size: self.size@,
            order_type: self.order_type@,
            reduce_only: self.reduce_only,
            time: self.time,
            current_price: self.current_price@,
        }
    }
}

impl Clone for Order {
    fn clone(&self) -> (r: Order)
        ensures
            r@ == self@,
    {
        Order {
            order_id: self.order_id,
            market: self.market.clone(),
            side: self.side,
            size: self.size,
            order_type: self.order_type,
            reduce_only: self.reduce_only,
            time: self.time,
            current_price: self.current_price,
        }
    }
}

/// The confirmation of an order: what was filled, and at which average price.
#[derive(Debug)]
pub struct OrderInfo {
    pub order_id: u128,
    pub market: Symbol,
    pub size: Decimal,
    pub price: Decimal,
    pub time: Time,
    pub side: Side,
}

/// The mathematical content of an order's confirmation.
pub struct Fill {
    pub order_id: u128,
    pub market: SymbolId,
    pub size: Dec,
    pub price: Dec,
    pub time: Time,
    pub side: Side,
}

impl View for OrderInfo {
    type V = Fill;

    open spec fn view(&self) -> Fill {
        Fill {
            order_id: self.order_id,
            market: self.market@,
            size: self.size@,
            price: self.price@,
            time: self.time,
            side: self.side,
        }
    }
}

impl Clone for OrderInfo {
    fn clone(&self) -> (r: OrderInfo)
        ensures
            r@ == self@,
    {
        OrderInfo {
            order_id: self.order_id,
            market: self.market.clone(),
            size: self.size,
            price: self.price,
            time: self.time,
            side: self.side,
        }
    }
}

} // verus!
