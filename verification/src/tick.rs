//! The tick clock: a monotonically increasing discrete simulation time,
//! advanced at a fixed rate by both peers. The client runs ahead of its
//! estimate of the server tick by a configured input delay.

use vstd::prelude::*;
use crate::types::Tick;

verus! {

pub struct TickClock {
    /// The local simulation tick.
    pub tick: Tick,
    /// How many ticks the client runs ahead of the server (zero on the
    /// server itself).
    pub input_delay: u64,
}

impl TickClock {
    pub fn new(input_delay: u64) -> (c: TickClock)
        ensures
            c.tick == 0,
            c.input_delay == input_delay,
    {
        TickClock { tick: 0, input_delay }
    }

    /// One simulation step: the tick strictly increases by one.
    pub fn advance(&mut self)
        requires
            old(self).tick < Tick::MAX,
        ensures
            final(self).tick == old(self).tick + 1,
            final(self).input_delay == old(self).input_delay,
    {
        self.tick = self.tick + 1;
    }

    /// The tick a freshly captured input is stamped with: the local tick
    /// offset ahead by the configured input delay (saturating at the top
    /// of the tick range).
    pub fn target_tick(&self) -> (t: Tick)
        ensures
            self.tick as int + self.input_delay as int <= Tick::MAX as int ==> t
                == self.tick + self.input_delay,
            self.tick as int + self.input_delay as int > Tick::MAX as int ==> t == Tick::MAX,
    {
        if self.tick > Tick::MAX - self.input_delay {
            Tick::MAX
        } else {
            self.tick + self.input_delay
        }
    }

    /// Session teardown: a reconnect starts a fresh tick negotiation
    /// rather than resuming stale history.
    pub fn reset(&mut self)
        ensures
            final(self).tick == 0,
            final(self).input_delay == old(self).input_delay,
    {
        self.tick = 0;
    }
}

} // verus!
