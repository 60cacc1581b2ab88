//! The input pipeline. The local action set is captured once per tick,
//! stamped with the tick number, kept in a bounded ring buffer (the
//! source for rollback replay), and transmitted over an ordered-reliable
//! channel. Records are retained until the server has acknowledged the
//! corresponding simulated tick.

use vstd::prelude::*;
use crate::types::{EntityId, Tick};

verus! {

/// The wire form of one captured input: `{ tick, entity_id, action_bitset }`.
#[derive(Clone, Copy, PartialEq, Eq, Structural, Debug)]
pub struct InputMessage {
    pub tick: Tick,
    pub entity: EntityId,
    pub actions: u32,
}

/// Bounded history of the local entity's action sets, one per tick, for
/// consecutive ticks `start_tick .. start_tick + actions.len()`.
pub struct InputBuffer {
    pub entity: EntityId,
    pub start_tick: Tick,
    pub actions: Vec<u32>,
    pub cap: usize,
}

impl InputBuffer {
    pub open spec fn wf(self) -> bool {
        &&& self.cap >= 1
        &&& self.actions@.len() <= self.cap
        &&& self.start_tick as int + self.actions@.len() <= Tick::MAX as int
    }

    /// The tick the next captured input will be stamped with.
    pub open spec fn next_tick(self) -> int {
        self.start_tick as int + self.actions@.len()
    }

    /// Whether an action set is retained for every tick in `[lo, hi]`.
    pub open spec fn covers(self, lo: int, hi: int) -> bool {
        self.start_tick as int <= lo && hi < self.next_tick()
    }

    /// The retained action set for `tick`.
    pub open spec fn action_at(self, tick: int) -> u32 {
        self.actions@[tick - self.start_tick as int]
    }

    pub fn new(entity: EntityId, start_tick: Tick, cap: usize) -> (b: InputBuffer)
        requires
            cap >= 1,
            start_tick < Tick::MAX,
        ensures
            b.wf(),
            b.entity == entity,
            b.start_tick == start_tick,
            b.actions@.len() == 0,
            b.cap == cap,
    {
        InputBuffer { entity, start_tick, actions: Vec::new(), cap }
    }

    /// Capture the action set for the next tick. When the buffer is full
    /// the oldest record is evicted; the stamped message to transmit to
    /// the server is returned.
    pub fn record(&mut self, actions: u32) -> (msg: InputMessage)
        requires
            old(self).wf(),
            old(self).next_tick() < Tick::MAX as int,
        ensures
            final(self).wf(),
            msg.tick as int == old(self).next_tick(),
            msg.entity == final(self).entity,
            msg.actions == actions,
            final(self).entity == old(self).entity,
            final(self).cap == old(self).cap,
            old(self).actions@.len() < old(self).cap ==> {
                &&& final(self).start_tick == old(self).start_tick
                &&& final(self).actions@ == old(self).actions@.push(actions)
            },
            old(self).actions@.len() == old(self).cap ==> {
                &&& final(self).start_tick == old(self).start_tick + 1
                &&& final(self).actions@ == old(self).actions@.drop_first().push(actions)
            },
            final(self).next_tick() == old(self).next_tick() + 1,
    {
        let tick_u64: u64 = self.start_tick + (self.actions.len() as u64);
        if self.actions.len() == self.cap {
            let _ = self.actions.remove(0);
            self.start_tick = self.start_tick + 1;
        }
        self.actions.push(actions);
        InputMessage { tick: tick_u64, entity: self.entity, actions }
    }

    /// The action set recorded for `tick`, if it is still retained.
    pub fn get(&self, tick: Tick) -> (r: Option<u32>)
        requires
            self.wf(),
        ensures
            match r {
                Some(a) => self.covers(tick as int, tick as int) && a == self.action_at(
                    tick as int,
                ),
                None => !self.covers(tick as int, tick as int),
            },
    {
        if tick < self.start_tick {
            return None;
        }
        let idx: u64 = tick - self.start_tick;
        if idx < self.actions.len() as u64 {
            Some(self.actions[idx as usize])
        } else {
            None
        }
    }

    /// The most recently captured action set, or `fallback` if nothing
    /// was captured yet: prediction repeats the last input for ticks
    /// whose input was not captured yet.
    pub fn latest_or(&self, fallback: u32) -> (r: u32)
        ensures
            self.actions@.len() > 0 ==> r == self.actions@.last(),
            self.actions@.len() == 0 ==> r == fallback,
    {
        if self.actions.len() > 0 {
            self.actions[self.actions.len() - 1]
        } else {
            fallback
        }
    }

    /// Drop every record up to and including the acknowledged tick: once
    /// the server has simulated a tick, its input can no longer be
    /// needed for replay.
    pub fn acknowledge(&mut self, acked: Tick)
        requires
            old(self).wf(),
        ensures
            final(self).wf(),
            final(self).entity == old(self).entity,
            final(self).cap == old(self).cap,
            final(self).next_tick() == old(self).next_tick(),
            final(self).start_tick as int == if acked as int + 1 > old(self).start_tick as int {
                if acked as int + 1 > old(self).next_tick() {
                    old(self).next_tick()
                } else {
                    acked as int + 1
                }
            } else {
                old(self).start_tick as int
            },
            final(self).actions@ == old(self).actions@.skip(
                final(self).start_tick as int - old(self).start_tick as int,
            ),
    {
        proof {
            assert(old(self).actions@.skip(0) =~= old(self).actions@);
        }
        while self.start_tick <= acked && self.actions.len() > 0
            invariant
                self.wf(),
                self.entity == old(self).entity,
                self.cap == old(self).cap,
                self.start_tick >= old(self).start_tick,
                self.next_tick() == old(self).next_tick(),
                self.actions@ == old(self).actions@.skip(
                    self.start_tick as int - old(self).start_tick as int,
                ),
                self.start_tick as int <= acked as int + 1 || self.start_tick
                    == old(self).start_tick,
            decreases self.actions@.len(),
        {
            let ghost prev = self.actions@;
            let ghost prev_start = self.start_tick as int;
            let _ = self.actions.remove(0);
            self.start_tick = self.start_tick + 1;
            proof {
                assert(self.actions@ =~= prev.drop_first());
                assert(prev.drop_first() =~= old(self).actions@.skip(
                    prev_start + 1 - old(self).start_tick as int,
                ));
            }
        }
    }

    /// Session teardown: all buffered records are cleared.
    pub fn reset(&mut self, start_tick: Tick)
        requires
            old(self).wf(),
            start_tick < Tick::MAX,
        ensures
            final(self).wf(),
            final(self).entity == old(self).entity,
            final(self).cap == old(self).cap,
            final(self).start_tick == start_tick,
            final(self).actions@.len() == 0,
    {
        self.actions = Vec::new();
        self.start_tick = start_tick;
    }
}

/// What the server does with an arriving input for tick `input_tick`
/// while it is about to simulate `current_tick`.
#[derive(Clone, Copy, PartialEq, Eq, Structural, Debug)]
pub enum InputDisposition {
    /// The input arrived in time and is applied at its own tick.
    Apply,
    /// The input arrived after its tick was simulated, but within the
    /// grace window: it is applied at the next simulated tick.
    ApplyNext,
    /// The input arrived too late and is discarded; server ticks are
    /// never retroactively re-simulated.
    Discard,
}

/// The server's late-input policy, chosen explicitly: a late input
/// within `grace` ticks of the current tick is applied at the next tick,
/// anything older is discarded.
pub fn classify_input(current_tick: Tick, input_tick: Tick, grace: u64) -> (d: InputDisposition)
    ensures
        input_tick >= current_tick ==> d == InputDisposition::Apply,
        input_tick < current_tick && current_tick as int - input_tick as int <= grace as int ==> d
            == InputDisposition::ApplyNext,
        input_tick < current_tick && current_tick as int - input_tick as int > grace as int ==> d
            == InputDisposition::Discard,
{
    if input_tick >= current_tick {
        InputDisposition::Apply
    } else if current_tick - input_tick <= grace {
        InputDisposition::ApplyNext
    } else {
        InputDisposition::Discard
    }
}

} // verus!
