use vstd::prelude::*;
use crate::time::Time;

verus! {

/// The record that a session ended on an error.
#[derive(Debug)]
pub struct Abort {
    pub reason: String,
}

impl Abort {
    pub fn new(reason: String) -> (r: Abort)
        ensures
            r.reason@ == reason@,
    {
        Abort { reason }
    }
}

/// What an operator can ask of a running session.
#[derive(Debug, Clone, Copy, PartialEq, Eq, Structural)]
pub enum Command {
    /// Exit all positions and stop execution.
    Stop,
}

/// Whether the worth is recorded after a step: always once the loop has
/// caught up with the clock, and at the full hour before that.
pub fn equity_due(real_time: bool, time: Time) -> (r: bool)
    ensures
        r == (real_time || time.spec_minute() == 0),
{
    real_time || time.minute() == 0
}

} // verus!
