//! The prediction engine. The controlling client simulates its own
//! entities ahead of the last confirmed server state with a fixed
//! deterministic kinematic step. When a confirmed snapshot arrives it is
//! compared against what was predicted for that tick: a match within
//! tolerance confirms the prediction; a divergence rewinds to the
//! confirmed tick and replays the retained inputs forward; a divergence
//! older than the retained input history is a reported desync, recovered
//! by restarting prediction from the confirmed state.

use vstd::prelude::*;
use crate::types::{EntityId, Tick, Vec2};
use crate::math::{sat_add, sat_sub, spec_abs_diff, spec_sat_add, spec_sat_sub, within_tol};
use crate::input::InputBuffer;

verus! {

/// Action bits of the per-tick input bitset.
pub const ACTION_UP: u32 = 1;

pub const ACTION_DOWN: u32 = 2;

pub const ACTION_LEFT: u32 = 4;

pub const ACTION_RIGHT: u32 = 8;

/// The physical state prediction tracks for an entity.
#[derive(Clone, Copy, PartialEq, Eq, Structural, Debug)]
pub struct PhysState {
    pub pos: Vec2,
    pub vel: Vec2,
}

/// The horizontal velocity an action set commands.
pub open spec fn spec_vel_x(actions: u32, speed: i64) -> int {
    (if actions & ACTION_RIGHT != 0 {
        speed as int
    } else {
        0
    }) - (if actions & ACTION_LEFT != 0 {
        speed as int
    } else {
        0
    })
}

/// The vertical velocity an action set commands.
pub open spec fn spec_vel_y(actions: u32, speed: i64) -> int {
    (if actions & ACTION_UP != 0 {
        speed as int
    } else {
        0
    }) - (if actions & ACTION_DOWN != 0 {
        speed as int
    } else {
        0
    })
}

/// One deterministic simulation step: the action set commands the
/// velocity, and the position advances by it (saturating at the
/// representable range).
pub open spec fn spec_step(s: PhysState, actions: u32, speed: i64) -> PhysState {
    PhysState {
        pos: Vec2 {
            x: spec_sat_add(s.pos.x as int, spec_vel_x(actions, speed)) as i64,
            y: spec_sat_add(s.pos.y as int, spec_vel_y(actions, speed)) as i64,
        },
        vel: Vec2 { x: spec_vel_x(actions, speed) as i64, y: spec_vel_y(actions, speed) as i64 },
    }
}

/// A from-scratch re-simulation: fold the deterministic step over a
/// sequence of action sets.
pub open spec fn spec_replay(s: PhysState, inputs: Seq<u32>, speed: i64) -> PhysState
    decreases inputs.len(),
{
    if inputs.len() == 0 {
        s
    } else {
        spec_replay(spec_step(s, inputs[0], speed), inputs.drop_first(), speed)
    }
}

/// Replaying one more input steps the replayed state once more.
pub proof fn lemma_replay_snoc(s: PhysState, inputs: Seq<u32>, a: u32, speed: i64)
    ensures
        spec_replay(s, inputs.push(a), speed) == spec_step(spec_replay(s, inputs, speed), a, speed),
    decreases inputs.len(),
{
    reveal_with_fuel(spec_replay, 3);
    assert(inputs.push(a)[0] == if inputs.len() == 0 { a } else { inputs[0] });
    if inputs.len() == 0 {
        assert(inputs.push(a).drop_first() =~= Seq::<u32>::empty());
    } else {
        assert(inputs.push(a).drop_first() =~= inputs.drop_first().push(a));
        lemma_replay_snoc(spec_step(s, inputs[0], speed), inputs.drop_first(), a, speed);
    }
}

/// The deterministic step, executed.
pub fn step(s: &PhysState, actions: u32, speed: i64) -> (r: PhysState)
    requires
        speed >= 0,
    ensures
        r == spec_step(*s, actions, speed),
{
    let vx: i64 = (if actions & ACTION_RIGHT != 0 {
        speed
    } else {
        0
    }) - (if actions & ACTION_LEFT != 0 {
        speed
    } else {
        0
    });
    let vy: i64 = (if actions & ACTION_UP != 0 {
        speed
    } else {
        0
    }) - (if actions & ACTION_DOWN != 0 {
        speed
    } else {
        0
    });
    PhysState {
        pos: Vec2 { x: sat_add(s.pos.x, vx), y: sat_add(s.pos.y, vy) },
        vel: Vec2 { x: vx, y: vy },
    }
}

/// Component-by-component closeness of a confirmed state to a predicted
/// one.
pub open spec fn states_close(a: PhysState, b: PhysState, tol: u64) -> bool {
    &&& spec_abs_diff(a.pos.x as int, b.pos.x as int) <= tol as int
    &&& spec_abs_diff(a.pos.y as int, b.pos.y as int) <= tol as int
    &&& spec_abs_diff(a.vel.x as int, b.vel.x as int) <= tol as int
    &&& spec_abs_diff(a.vel.y as int, b.vel.y as int) <= tol as int
}

/// A prediction that the server confirmed exactly is always within
/// tolerance, whatever the tolerance: no correction event fires on it.
pub proof fn lemma_exact_match_close(a: PhysState, b: PhysState, tol: u64)
    requires
        a == b,
    ensures
        states_close(a, b, tol),
{
}

pub fn close(a: &PhysState, b: &PhysState, tol: u64) -> (r: bool)
    ensures
        r <==> states_close(*a, *b, tol),
{
    within_tol(a.pos.x, b.pos.x, tol) && within_tol(a.pos.y, b.pos.y, tol) && within_tol(
        a.vel.x,
        b.vel.x,
        tol,
    ) && within_tol(a.vel.y, b.vel.y, tol)
}

/// What reconciling a confirmed snapshot did.
#[derive(Clone, Copy, PartialEq, Eq, Structural, Debug)]
pub enum ReconcileOutcome {
    /// Confirmed and predicted state agree within tolerance: nothing
    /// changes, the correction delta is zero.
    NoCorrection,
    /// The prediction diverged: state was rewound to the confirmed tick
    /// and replayed; `delta` is the positional gap between the old and
    /// the recomputed current prediction, exposed so a corrector can
    /// blend it away over later frames.
    Corrected { delta: Vec2 },
    /// The confirmed tick is outside the retained prediction or input
    /// history: exact replay is impossible. Prediction restarts from the
    /// confirmed state; reported as a desync event, never a crash.
    Desync,
}

/// Client-side speculative simulation of one predicted entity.
pub struct PredictionEngine {
    pub entity: EntityId,
    /// Fixed-point distance a commanded axis moves per tick.
    pub speed: i64,
    /// Per-component tolerance under which a confirmed snapshot counts
    /// as matching the prediction.
    pub tolerance: u64,
    /// The tick `states[0]` describes.
    pub base_tick: Tick,
    /// Predicted states for the consecutive ticks starting at
    /// `base_tick`; never empty.
    pub states: Vec<PhysState>,
}

impl PredictionEngine {
    pub open spec fn wf(self) -> bool {
        &&& self.speed >= 0
        &&& self.states@.len() >= 1
        &&& self.base_tick as int + self.states@.len() <= Tick::MAX as int + 1
    }

    /// The newest predicted tick.
    pub open spec fn current_tick(self) -> int {
        self.base_tick as int + self.states@.len() - 1
    }

    /// The predicted state for a tick inside the retained range.
    pub open spec fn state_at(self, t: int) -> PhysState {
        self.states@[t - self.base_tick as int]
    }

    /// Whether a predicted snapshot for tick `t` is retained.
    pub open spec fn in_range(self, t: int) -> bool {
        self.base_tick as int <= t <= self.current_tick()
    }

    pub fn new(
        entity: EntityId,
        speed: i64,
        tolerance: u64,
        start_tick: Tick,
        initial: PhysState,
    ) -> (e: PredictionEngine)
        requires
            speed >= 0,
        ensures
            e.wf(),
            e.entity == entity,
            e.speed == speed,
            e.tolerance == tolerance,
            e.base_tick == start_tick,
            e.states@ == seq![initial],
    {
        let mut states: Vec<PhysState> = Vec::new();
        states.push(initial);
        proof {
            assert(states@ =~= seq![initial]);
        }
        PredictionEngine { entity, speed, tolerance, base_tick: start_tick, states }
    }

    /// Predict the next tick: step the newest predicted state by the
    /// action set captured for that tick, or by the repeated latest
    /// input where none was captured yet.
    pub fn predict_next(&mut self, inputs: &InputBuffer)
        requires
            old(self).wf(),
            inputs.wf(),
            old(self).current_tick() < Tick::MAX as int,
        ensures
            final(self).wf(),
            final(self).entity == old(self).entity,
            final(self).speed == old(self).speed,
            final(self).tolerance == old(self).tolerance,
            final(self).base_tick == old(self).base_tick,
            final(self).states@ == old(self).states@.push(
                spec_step(
                    old(self).states@.last(),
                    if inputs.covers(old(self).current_tick() + 1, old(self).current_tick() + 1) {
                        inputs.action_at(old(self).current_tick() + 1)
                    } else if inputs.actions@.len() > 0 {
                        inputs.actions@.last()
                    } else {
                        0
                    },
                    old(self).speed,
                ),
            ),
    {
        let next: Tick = self.base_tick + (self.states.len() as u64 - 1) + 1;
        let a: u32 = match inputs.get(next) {
            Some(x) => x,
            None => inputs.latest_or(0),
        };
        let last = self.states[self.states.len() - 1];
        let n = step(&last, a, self.speed);
        self.states.push(n);
    }

    /// Reconcile a server-confirmed snapshot for `confirmed_tick`
    /// against what this engine predicted for that tick.
    ///
    /// Within tolerance nothing happens. On a divergence inside the
    /// retained windows, state is rewound to the confirmed value and
    /// every retained input is replayed forward, so the corrected
    /// prediction equals a from-scratch re-simulation from the
    /// confirmed snapshot. Outside the retained windows the confirmed
    /// value is accepted as-is and prediction restarts from it: a
    /// reported desync, never a silent one.
    pub fn reconcile(
        &mut self,
        confirmed_tick: Tick,
        confirmed: PhysState,
        inputs: &InputBuffer,
    ) -> (outcome: ReconcileOutcome)
        requires
            old(self).wf(),
            inputs.wf(),
        ensures
            final(self).wf(),
            final(self).entity == old(self).entity,
            final(self).speed == old(self).speed,
            final(self).tolerance == old(self).tolerance,
            outcome == ReconcileOutcome::NoCorrection <==> (old(self).in_range(
                confirmed_tick as int,
            ) && states_close(confirmed, old(self).state_at(confirmed_tick as int), old(self).tolerance)),
            outcome == ReconcileOutcome::NoCorrection ==> *final(self) == *old(self),
            outcome matches ReconcileOutcome::Corrected { .. } ==> {
                &&& old(self).in_range(confirmed_tick as int)
                &&& !states_close(
                    confirmed,
                    old(self).state_at(confirmed_tick as int),
                    old(self).tolerance,
                )
                &&& final(self).base_tick == old(self).base_tick
                &&& final(self).states@.len() == old(self).states@.len()
                &&& forall|t: int|
                    old(self).base_tick as int <= t < confirmed_tick as int ==> final(self).state_at(t) == old(self).state_at(t)
                &&& final(self).state_at(confirmed_tick as int) == confirmed
                &&& forall|t: int|
                    confirmed_tick as int + 1 <= t <= final(self).current_tick() ==> final(self).state_at(t) == spec_replay(
                        confirmed,
                        inputs.actions@.subrange(
                            confirmed_tick as int + 1 - inputs.start_tick as int,
                            t + 1 - inputs.start_tick as int,
                        ),
                        old(self).speed,
                    )
            },
            outcome matches ReconcileOutcome::Corrected { delta } ==> {
                &&& delta.x as int == spec_sat_sub(
                    old(self).states@.last().pos.x as int,
                    final(self).states@.last().pos.x as int,
                )
                &&& delta.y as int == spec_sat_sub(
                    old(self).states@.last().pos.y as int,
                    final(self).states@.last().pos.y as int,
                )
            },
            outcome == ReconcileOutcome::Desync <==> (!old(self).in_range(confirmed_tick as int)
                || (!states_close(
                confirmed,
                old(self).state_at(confirmed_tick as int),
                old(self).tolerance,
            ) && confirmed_tick as int != old(self).current_tick() && !inputs.covers(
                confirmed_tick as int + 1,
                old(self).current_tick(),
            ))),
            outcome == ReconcileOutcome::Desync ==> {
                &&& final(self).base_tick == confirmed_tick
                &&& final(self).states@ =~= seq![confirmed]
            },
    {
        // a confirmed tick outside the retained prediction history
        // cannot be compared or replayed: accept it and restart
        if confirmed_tick < self.base_tick {
            return self.desync_reset(confirmed_tick, confirmed);
        }
        let off: u64 = confirmed_tick - self.base_tick;
        if off >= self.states.len() as u64 {
            return self.desync_reset(confirmed_tick, confirmed);
        }
        let idx: usize = off as usize;
        let predicted = self.states[idx];
        if close(&confirmed, &predicted, self.tolerance) {
            return ReconcileOutcome::NoCorrection;
        }
        // divergence: replay needs the input of every tick after the
        // confirmed one
        let replay_needed: bool = idx + 1 < self.states.len();
        if replay_needed {
            let first_needed: Tick = confirmed_tick + 1;
            let last_needed: Tick = self.base_tick + (self.states.len() as u64 - 1);
            if inputs.start_tick > first_needed || !(last_needed < inputs.start_tick + (
            inputs.actions.len() as u64)) {
                return self.desync_reset(confirmed_tick, confirmed);
            }
        }
        let old_last = self.states[self.states.len() - 1];
        self.states.set(idx, confirmed);
        let ghost prior = old(self).states@;
        let mut cur = confirmed;
        let mut j: usize = idx + 1;
        while j < self.states.len()
            invariant
                old(self).wf(),
                inputs.wf(),
                self.entity == old(self).entity,
                self.speed == old(self).speed,
                self.tolerance == old(self).tolerance,
                self.base_tick == old(self).base_tick,
                self.states@.len() == prior.len(),
                idx < j <= self.states@.len(),
                idx == confirmed_tick as int - self.base_tick as int,
                j < self.states@.len() ==> inputs.covers(
                    confirmed_tick as int + 1,
                    self.current_tick(),
                ),
                forall|i: int| 0 <= i < idx ==> self.states@[i] == prior[i],
                self.states@[idx as int] == confirmed,
                forall|i: int|
                    idx < i < j ==> self.states@[i] == spec_replay(
                        confirmed,
                        inputs.actions@.subrange(
                            confirmed_tick as int + 1 - inputs.start_tick as int,
                            self.base_tick as int + i + 1 - inputs.start_tick as int,
                        ),
                        self.speed,
                    ),
                cur == self.states@[j - 1],
            decreases self.states@.len() - j,
        {
            let t: Tick = self.base_tick + (j as u64);
            let a: u32 = match inputs.get(t) {
                Some(x) => x,
                None => {
                    proof {
                        assert(false);
                    }
                    0
                },
            };
            let ghost prev_cur = cur;
            cur = step(&cur, a, self.speed);
            self.states.set(j, cur);
            proof {
                let lo = confirmed_tick as int + 1 - inputs.start_tick as int;
                let hi = self.base_tick as int + j - inputs.start_tick as int;
                if j == idx + 1 {
                    assert(inputs.actions@.subrange(lo, hi) =~= Seq::<u32>::empty());
                    assert(prev_cur == spec_replay(
                        confirmed,
                        inputs.actions@.subrange(lo, hi),
                        self.speed,
                    ));
                }
                assert(inputs.actions@.subrange(lo, hi + 1) =~= inputs.actions@.subrange(
                    lo,
                    hi,
                ).push(a));
                lemma_replay_snoc(
                    confirmed,
                    inputs.actions@.subrange(lo, hi),
                    a,
                    self.speed,
                );
            }
            j = j + 1;
        }
        let new_last = self.states[self.states.len() - 1];
        ReconcileOutcome::Corrected {
            delta: Vec2 {
                x: sat_sub(old_last.pos.x, new_last.pos.x),
                y: sat_sub(old_last.pos.y, new_last.pos.y),
            },
        }
    }

    /// Accept a confirmed state that cannot be compared or replayed and
    /// restart prediction from it.
    fn desync_reset(&mut self, confirmed_tick: Tick, confirmed: PhysState) -> (outcome:
        ReconcileOutcome)
        requires
            old(self).wf(),
        ensures
            final(self).wf(),
            final(self).entity == old(self).entity,
            final(self).speed == old(self).speed,
            final(self).tolerance == old(self).tolerance,
            final(self).base_tick == confirmed_tick,
            final(self).states@ =~= seq![confirmed],
            outcome == ReconcileOutcome::Desync,
    {
        let mut states: Vec<PhysState> = Vec::new();
        states.push(confirmed);
        self.states = states;
        self.base_tick = confirmed_tick;
        ReconcileOutcome::Desync
    }
}

/// The visual corrector. An instant corrector snaps the rendered value
/// to the corrected one; a blending corrector moves it along the same
/// linear interpolation the remote view uses, reaching the corrected
/// value exactly when the blend completes. A zero delta leaves the
/// rendered value already at the corrected one: a confirmed prediction
/// shows no discontinuity.
pub fn blend_correction(old_pred: Vec2, corrected: Vec2, num: u64, den: u64) -> (r: Vec2)
    requires
        den > 0,
        num <= den,
    ensures
        r.x as int == crate::math::spec_lerp(
            old_pred.x as int,
            corrected.x as int,
            num as int,
            den as int,
        ),
        r.y as int == crate::math::spec_lerp(
            old_pred.y as int,
            corrected.y as int,
            num as int,
            den as int,
        ),
        num == den ==> r == corrected,
        num == 0 ==> r == old_pred,
{
    Vec2 {
        x: crate::math::lerp_i64(old_pred.x, corrected.x, num, den),
        y: crate::math::lerp_i64(old_pred.y, corrected.y, num, den),
    }
}

} // verus!
