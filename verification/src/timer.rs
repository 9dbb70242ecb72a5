//! A counter of ticks.

use vstd::prelude::*;

verus! {

/// Counter that goes on by one every time it is read.
#[derive(Debug)]
pub struct Ticker {
    ticks: u32,
}

impl View for Ticker {
    type V = nat;

    /// What the next reading gives.
    closed spec fn view(&self) -> nat {
        self.ticks as nat
    }
}

impl Ticker {
    /// A counter at zero.
    pub fn new() -> (r: Self)
        ensures
            r@ == 0,
    {
        Ticker { ticks: 0 }
    }

    /// Whether the counter can be read once more.
    pub fn has_next(&self) -> (r: bool)
        ensures
            r == (self@ < u32::MAX),
    {
        self.ticks < u32::MAX
    }

    /// Gives the count and moves the counter on by one.
    pub fn get_ticks(&mut self) -> (r: u32)
        requires
            old(self)@ < u32::MAX,
        ensures
            r == old(self)@,
            final(self)@ == old(self)@ + 1,
    {
        let ticks = self.ticks;
        self.ticks += 1;
        ticks
    }
}

} // verus!
