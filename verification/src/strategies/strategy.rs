use vstd::prelude::*;
use crate::exchange::Exchange;
use crate::time::{Duration, MILLIS_PER_MINUTE};

verus! {

/// An error that a strategy reports to the loop that drives it.
#[derive(Debug)]
pub struct StrategyError {
    pub message: String,
}

impl StrategyError {
    pub fn new(message: &str) -> (r: StrategyError)
        ensures
            r.message@ == message@,
    {
        StrategyError { message: message.to_owned() }
    }

    /// The message of the error.
    pub fn to_string(&self) -> (r: String)
        ensures
            r@ == self.message@,
    {
        self.message.clone()
    }
}

/// This trait needs to be implemented by your strategy.
pub trait Strategy {
    /// The name under which the strategy is recorded.
    fn name(&self) -> String;

    /// This method is called once at the start of the strategy.
    fn init(&mut self, exchange: &mut Exchange) -> Result<Settings, StrategyError>;

    /// This method is called after each interval.
    fn eval(&mut self, exchange: &mut Exchange) -> Result<(), StrategyError>;
}

/// What a strategy asks of the loop that drives it.
#[derive(Clone, Copy, Debug)]
pub struct Settings {
    /// Specifies the interval on which to trade on.
    pub interval: Duration,
    /// Specifies how errors caused by the strategy should be handled,
    pub on_error: OnError,
}

impl Default for Settings {
    /// One-minute steps; on an error all positions are left and the error is returned.
    fn default() -> (r: Settings)
        ensures
            r.interval.millis == MILLIS_PER_MINUTE,
            r.on_error == OnError::ExitAllPositionsAndReturn,
    {
        Settings {
            interval: Duration::milliseconds(MILLIS_PER_MINUTE),
            on_error: OnError::ExitAllPositionsAndReturn,
        }
    }
}

#[derive(Clone, Copy, Debug, PartialEq, Eq, Structural)]
pub enum OnError {
    /// Stop running the strategy and return the error.
    Return,
    /// If an error occurs, exit all positions and return the error.
    ExitAllPositionsAndReturn,
    /// If an error occurs, exit all positions, skip the step and go on.
    ExitAllPositionsAndResume,
}

/// What the loop does after a step has failed.
#[derive(Clone, Copy, Debug, PartialEq, Eq, Structural)]
pub struct Recovery {
    /// Close every position and send the orders for that.
    pub exit_positions: bool,
    /// Hand the error to the caller and stop.
    pub propagate: bool,
    /// Skip to the next step before going on.
    pub step: bool,
}

impl OnError {
    pub open spec fn spec_recovery(self) -> Recovery {
        match self {
            OnError::Return => Recovery { exit_positions: false, propagate: true, step: false },
            OnError::ExitAllPositionsAndReturn => Recovery {
                exit_positions: true,
                propagate: true,
                step: false,
            },
            OnError::ExitAllPositionsAndResume => Recovery {
                exit_positions: true,
                propagate: false,
                step: true,
            },
        }
    }

    /// What the loop does after a step has failed under this policy.
    pub fn recovery(&self) -> (r: Recovery)
        ensures
            r == self.spec_recovery(),
    {
        match self {
            OnError::Return => Recovery { exit_positions: false, propagate: true, step: false },
            OnError::ExitAllPositionsAndReturn => Recovery {
                exit_positions: true,
                propagate: true,
                step: false,
            },
            OnError::ExitAllPositionsAndResume => Recovery {
                exit_positions: true,
                propagate: false,
                step: true,
            },
        }
    }
}

} // verus!
