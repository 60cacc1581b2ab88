//! The interpolation engine. Remote, non-predicted entities are
//! rendered at a target time lagging the newest received tick by a
//! configured delay, linearly interpolating each `full`-mode component
//! between the two bracketing stored snapshots. Scalar and vector kinds
//! interpolate componentwise; rotation interpolates along the shortest
//! arc. When no later snapshot exists yet (a network stall), the newest
//! known value is held: the engine never extrapolates.

use vstd::prelude::*;
use crate::types::{ComponentType, ComponentValue, Tick, Vec2, is_full_mode, spec_lookup, spec_type_of};
use crate::math::{lemma_lerp_bounded, lerp_i64, spec_lerp};
use crate::snapshot::{EntityHistory, hv, spec_bracket, hist_lookup};

verus! {

/// Angle units in one full turn; rotation values live in `[0, TURN)`.
pub const TURN: i64 = 65536;

/// Half a turn: the threshold deciding the shorter arc.
pub const HALF_TURN: i64 = 32768;

/// Fold a value that is at most one turn out of range back into
/// `[0, TURN)`.
pub open spec fn spec_wrap_turn(v: int) -> int {
    if v < 0 {
        v + TURN as int
    } else if v >= TURN as int {
        v - TURN as int
    } else {
        v
    }
}

/// The signed angular distance from `a` to `b` along the shorter arc.
pub open spec fn spec_arc_delta(a: int, b: int) -> int {
    let d = b - a;
    if d > HALF_TURN as int {
        d - TURN as int
    } else if d < -(HALF_TURN as int) {
        d + TURN as int
    } else {
        d
    }
}

/// Shortest-arc interpolation between two normalized angles.
pub open spec fn spec_lerp_angle(a: int, b: int, num: int, den: int) -> int {
    spec_wrap_turn(spec_lerp(a, a + spec_arc_delta(a, b), num, den))
}

/// Shortest-arc interpolation, executed: starts at `a`, ends exactly at
/// `b`, and stays normalized.
pub fn lerp_angle(a: i64, b: i64, num: u64, den: u64) -> (r: i64)
    requires
        den > 0,
        num <= den,
        0 <= a < TURN,
        0 <= b < TURN,
    ensures
        r as int == spec_lerp_angle(a as int, b as int, num as int, den as int),
        0 <= r < TURN,
        num == 0 ==> r == a,
        num == den ==> r == b,
{
    let diff: i64 = b - a;
    let d: i64 = if diff > HALF_TURN {
        diff - TURN
    } else if diff < -HALF_TURN {
        diff + TURN
    } else {
        diff
    };
    let target: i64 = a + d;
    let r0: i64 = lerp_i64(a, target, num, den);
    if r0 < 0 {
        r0 + TURN
    } else if r0 >= TURN {
        r0 - TURN
    } else {
        r0
    }
}

/// How a frame is rendered from the stored history.
#[derive(Clone, Copy, PartialEq, Eq, Structural, Debug)]
pub enum Rendered {
    /// Interpolated between the two bracketing snapshots.
    Between(ComponentValue),
    /// No later snapshot exists yet: the newest known value is held
    /// rather than extrapolated.
    Held(ComponentValue),
    /// The history is too short on the early side: nothing to show.
    Unavailable,
}

/// The interpolated value between two component payloads: defined for
/// matching `full`-mode kinds (with rotation angles normalized), and
/// nothing otherwise.
pub open spec fn spec_interp_value(
    a: ComponentValue,
    b: ComponentValue,
    num: u64,
    den: u64,
) -> Option<ComponentValue> {
    match (a, b) {
        (ComponentValue::Position(va), ComponentValue::Position(vb)) => Some(
            ComponentValue::Position(
                Vec2 {
                    x: spec_lerp(va.x as int, vb.x as int, num as int, den as int) as i64,
                    y: spec_lerp(va.y as int, vb.y as int, num as int, den as int) as i64,
                },
            ),
        ),
        (ComponentValue::LinearVelocity(va), ComponentValue::LinearVelocity(vb)) => Some(
            ComponentValue::LinearVelocity(
                Vec2 {
                    x: spec_lerp(va.x as int, vb.x as int, num as int, den as int) as i64,
                    y: spec_lerp(va.y as int, vb.y as int, num as int, den as int) as i64,
                },
            ),
        ),
        (ComponentValue::AngularVelocity(va), ComponentValue::AngularVelocity(vb)) => Some(
            ComponentValue::AngularVelocity(
                spec_lerp(va as int, vb as int, num as int, den as int) as i64,
            ),
        ),
        (ComponentValue::Rotation(va), ComponentValue::Rotation(vb)) => {
            if 0 <= va < TURN && 0 <= vb < TURN {
                Some(
                    ComponentValue::Rotation(
                        spec_lerp_angle(va as int, vb as int, num as int, den as int) as i64,
                    ),
                )
            } else {
                None
            }
        },
        _ => None,
    }
}

/// Interpolate two component payloads of the same `full`-mode kind.
/// `once`-mode kinds (and mismatched or unnormalized payloads) are
/// never interpolated.
pub fn interpolate_value(a: &ComponentValue, b: &ComponentValue, num: u64, den: u64) -> (r: Option<
    ComponentValue,
>)
    requires
        den > 0,
        num <= den,
    ensures
        r == spec_interp_value(*a, *b, num, den),
        r is Some ==> is_full_mode(spec_type_of(*a)),
{
    match (a, b) {
        (ComponentValue::Position(va), ComponentValue::Position(vb)) => Some(
            ComponentValue::Position(
                Vec2 { x: lerp_i64(va.x, vb.x, num, den), y: lerp_i64(va.y, vb.y, num, den) },
            ),
        ),
        (ComponentValue::LinearVelocity(va), ComponentValue::LinearVelocity(vb)) => Some(
            ComponentValue::LinearVelocity(
                Vec2 { x: lerp_i64(va.x, vb.x, num, den), y: lerp_i64(va.y, vb.y, num, den) },
            ),
        ),
        (ComponentValue::AngularVelocity(va), ComponentValue::AngularVelocity(vb)) => Some(
            ComponentValue::AngularVelocity(lerp_i64(*va, *vb, num, den)),
        ),
        (ComponentValue::Rotation(va), ComponentValue::Rotation(vb)) => {
            if 0 <= *va && *va < TURN && 0 <= *vb && *vb < TURN {
                Some(ComponentValue::Rotation(lerp_angle(*va, *vb, num, den)))
            } else {
                None
            }
        },
        _ => None,
    }
}

/// Interpolation is bounded: every linearly interpolated component lies
/// within the convex combination of its two bracketing values. (The
/// shortest-arc rotation travels the short way around the circle, so a
/// numeric interval does not describe it.)
pub proof fn lemma_interpolation_bounded(a: ComponentValue, b: ComponentValue, num: u64, den: u64)
    requires
        den > 0,
        num <= den,
    ensures
        match (a, b, spec_interp_value(a, b, num, den)) {
            (
                ComponentValue::Position(va),
                ComponentValue::Position(vb),
                Some(ComponentValue::Position(vr)),
            ) => in_interval(va.x as int, vb.x as int, vr.x as int) && in_interval(
                va.y as int,
                vb.y as int,
                vr.y as int,
            ),
            (
                ComponentValue::LinearVelocity(va),
                ComponentValue::LinearVelocity(vb),
                Some(ComponentValue::LinearVelocity(vr)),
            ) => in_interval(va.x as int, vb.x as int, vr.x as int) && in_interval(
                va.y as int,
                vb.y as int,
                vr.y as int,
            ),
            (
                ComponentValue::AngularVelocity(va),
                ComponentValue::AngularVelocity(vb),
                Some(ComponentValue::AngularVelocity(vr)),
            ) => in_interval(va as int, vb as int, vr as int),
            _ => true,
        },
{
    match (a, b) {
        (ComponentValue::Position(va), ComponentValue::Position(vb)) => {
            lemma_lerp_bounded(va.x as int, vb.x as int, num as int, den as int);
            lemma_lerp_bounded(va.y as int, vb.y as int, num as int, den as int);
        },
        (ComponentValue::LinearVelocity(va), ComponentValue::LinearVelocity(vb)) => {
            lemma_lerp_bounded(va.x as int, vb.x as int, num as int, den as int);
            lemma_lerp_bounded(va.y as int, vb.y as int, num as int, den as int);
        },
        (ComponentValue::AngularVelocity(va), ComponentValue::AngularVelocity(vb)) => {
            lemma_lerp_bounded(va as int, vb as int, num as int, den as int);
        },
        _ => {},
    }
}

/// `r` lies in the closed interval spanned by `a` and `b`.
pub open spec fn in_interval(a: int, b: int, r: int) -> bool {
    &&& a <= b ==> a <= r <= b
    &&& b <= a ==> b <= r <= a
}

/// The client-side view of remote entities: a render-time delay buffer.
pub struct InterpolationEngine {
    /// How many ticks the rendered view lags the newest received tick:
    /// input latency traded for smoothness.
    pub delay: u64,
}

impl InterpolationEngine {
    pub fn new(delay: u64) -> (e: InterpolationEngine)
        ensures
            e.delay == delay,
    {
        InterpolationEngine { delay }
    }

    /// The target render tick: the newest received tick, lagged by the
    /// configured delay (saturating at the start of time).
    pub fn render_tick(&self, latest_received: Tick) -> (t: Tick)
        ensures
            latest_received >= self.delay ==> t == latest_received - self.delay,
            latest_received < self.delay ==> t == 0,
    {
        if latest_received >= self.delay {
            latest_received - self.delay
        } else {
            0
        }
    }

    /// Render one `full`-mode component of a remote entity at render
    /// tick `rt`: interpolated between the bracketing snapshots where
    /// both exist, the newest known value held where no later snapshot
    /// has arrived, and nothing where the history is too short.
    pub fn render_component(&self, hist: &EntityHistory, ctype: ComponentType, rt: Tick) -> (r:
        Rendered)
        requires
            hist.wf(),
        ensures
            match spec_bracket(hv(hist.snaps@), rt) {
                Some(i) => {
                    let sa = hv(hist.snaps@)[i];
                    let sb = hv(hist.snaps@)[i + 1];
                    match (spec_lookup(sa.values, ctype), spec_lookup(sb.values, ctype)) {
                        (Some(va), Some(vb)) => r == (match spec_interp_value(
                            va,
                            vb,
                            (rt - sa.tick) as u64,
                            (sb.tick - sa.tick) as u64,
                        ) {
                            Some(v) => Rendered::Between(v),
                            None => Rendered::Unavailable,
                        }),
                        _ => r == Rendered::Unavailable,
                    }
                },
                None => {
                    if hist.snaps@.len() > 0 && rt >= hv(hist.snaps@)[hist.snaps@.len()
                        - 1].tick {
                        match spec_lookup(
                            hv(hist.snaps@)[hist.snaps@.len() - 1].values,
                            ctype,
                        ) {
                            Some(v) => r == Rendered::Held(v),
                            None => r == Rendered::Unavailable,
                        }
                    } else {
                        r == Rendered::Unavailable
                    }
                },
            },
    {
        match hist.bracket(rt) {
            Some(i) => {
                let n = hist.snaps.len();
                let sa = &hist.snaps[i];
                let sb = &hist.snaps[i + 1];
                let num: u64 = rt - sa.tick;
                let den: u64 = sb.tick - sa.tick;
                match (
                    crate::types::lookup_component(&sa.values, ctype),
                    crate::types::lookup_component(&sb.values, ctype),
                ) {
                    (Some(va), Some(vb)) => {
                        match interpolate_value(&va, &vb, num, den) {
                            Some(v) => Rendered::Between(v),
                            None => Rendered::Unavailable,
                        }
                    },
                    _ => Rendered::Unavailable,
                }
            },
            None => {
                if hist.snaps.len() > 0 && rt >= hist.snaps[hist.snaps.len() - 1].tick {
                    match crate::types::lookup_component(
                        &hist.snaps[hist.snaps.len() - 1].values,
                        ctype,
                    ) {
                        Some(v) => Rendered::Held(v),
                        None => Rendered::Unavailable,
                    }
                } else {
                    Rendered::Unavailable
                }
            },
        }
    }
}

} // verus!
