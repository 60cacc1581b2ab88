use netsim::types::{ComponentType, ComponentValue, Vec2};
use netsim::input::InputBuffer;
use netsim::prediction::{
    blend_correction, step, PhysState, PredictionEngine, ReconcileOutcome, ACTION_RIGHT, ACTION_UP,
};
use netsim::interpolate::{interpolate_value, lerp_angle, InterpolationEngine, Rendered, TURN};
use netsim::snapshot::{EntityHistory, Snap};
use netsim::math::lerp_i64;

fn at(x: i64, y: i64, vx: i64, vy: i64) -> PhysState {
    PhysState { pos: Vec2 { x, y }, vel: Vec2 { x: vx, y: vy } }
}

fn pos(x: i64, y: i64) -> ComponentValue {
    ComponentValue::Position(Vec2 { x, y })
}

// With a speed of 10 fixed-point units per tick, 10 units stand for one
// world unit: "1.0" is 10 and "0.5" is 5.

#[test]
fn step_moves_by_commanded_velocity() {
    let s = step(&at(0, 0, 0, 0), ACTION_RIGHT, 10);
    assert_eq!(s, at(10, 0, 10, 0));
    let s2 = step(&s, ACTION_RIGHT | ACTION_UP, 10);
    assert_eq!(s2, at(20, 10, 10, 10));
    let s3 = step(&s2, 0, 10);
    assert_eq!(s3, at(20, 10, 0, 0));
}

/// The client predicts position 0.0 -> 1.0 over tick 10 and the server
/// confirms exactly 1.0 at tick 10: no correction fires.
#[test]
fn confirmed_prediction_needs_no_correction() {
    let mut inputs = InputBuffer::new(1, 10, 16);
    inputs.record(ACTION_RIGHT);
    let mut eng = PredictionEngine::new(1, 10, 0, 9, at(0, 0, 0, 0));
    eng.predict_next(&inputs);
    assert_eq!(eng.states[1], at(10, 0, 10, 0));
    let outcome = eng.reconcile(10, at(10, 0, 10, 0), &inputs);
    assert_eq!(outcome, ReconcileOutcome::NoCorrection);
    assert_eq!(eng.states[1], at(10, 0, 10, 0));
}

/// The client predicted 1.0 at tick 10 but the server confirms 0.5,
/// with inputs for ticks 11..=13 already recorded: the engine rewinds
/// to 0.5 at tick 10, replays the three inputs, and reaches a tick-13
/// state different from the original prediction.
#[test]
fn divergence_rewinds_and_replays() {
    let mut inputs = InputBuffer::new(1, 10, 16);
    let mut eng = PredictionEngine::new(1, 10, 0, 9, at(0, 0, 0, 0));
    for _ in 0..4 {
        inputs.record(ACTION_RIGHT);
        eng.predict_next(&inputs);
    }
    // predicted positions for ticks 10..=13
    assert_eq!(eng.states[4], at(40, 0, 10, 0));
    let old_tick13 = eng.states[4];
    let outcome = eng.reconcile(10, at(5, 0, 10, 0), &inputs);
    // rewound to the confirmed value at tick 10
    assert_eq!(eng.states[1], at(5, 0, 10, 0));
    // replayed ticks 11..=13 from it
    assert_eq!(eng.states[2], at(15, 0, 10, 0));
    assert_eq!(eng.states[3], at(25, 0, 10, 0));
    assert_eq!(eng.states[4], at(35, 0, 10, 0));
    assert_ne!(eng.states[4], old_tick13);
    assert_eq!(
        outcome,
        ReconcileOutcome::Corrected { delta: Vec2 { x: 5, y: 0 } },
    );
}

/// A confirmed tick older than the retained history cannot be replayed:
/// the confirmed state is accepted and prediction restarts from it, as
/// a reported desync.
#[test]
fn stale_confirmation_is_a_reported_desync() {
    let inputs = InputBuffer::new(1, 10, 16);
    let mut eng = PredictionEngine::new(1, 10, 0, 9, at(0, 0, 0, 0));
    let outcome = eng.reconcile(4, at(3, 3, 0, 0), &inputs);
    assert_eq!(outcome, ReconcileOutcome::Desync);
    assert_eq!(eng.base_tick, 4);
    assert_eq!(eng.states, vec![at(3, 3, 0, 0)]);
}

#[test]
fn correction_blends_toward_corrected_value() {
    let old_pred = Vec2 { x: 40, y: 0 };
    let corrected = Vec2 { x: 35, y: 0 };
    assert_eq!(blend_correction(old_pred, corrected, 0, 4), old_pred);
    assert_eq!(blend_correction(old_pred, corrected, 2, 4), Vec2 { x: 38, y: 0 });
    assert_eq!(blend_correction(old_pred, corrected, 4, 4), corrected);
    // a zero delta shows no discontinuity
    assert_eq!(blend_correction(corrected, corrected, 1, 4), corrected);
}

#[test]
fn lerp_is_exact_and_bounded() {
    assert_eq!(lerp_i64(0, 10, 1, 2), 5);
    assert_eq!(lerp_i64(10, 0, 1, 2), 5);
    assert_eq!(lerp_i64(-10, 10, 3, 4), 5);
    assert_eq!(lerp_i64(7, 7, 1, 3), 7);
}

#[test]
fn rotation_interpolates_along_shortest_arc() {
    // a quarter of the way from 10 units before the wrap to 10 after it
    let a = TURN - 10;
    assert_eq!(lerp_angle(a, 10, 0, 4), a);
    assert_eq!(lerp_angle(a, 10, 1, 4), TURN - 5);
    assert_eq!(lerp_angle(a, 10, 2, 4), 0);
    assert_eq!(lerp_angle(a, 10, 4, 4), 10);
}

#[test]
fn once_mode_components_are_not_interpolated() {
    let r = interpolate_value(&ComponentValue::Color(1), &ComponentValue::Color(2), 1, 2);
    assert_eq!(r, None);
    let m = interpolate_value(&pos(0, 0), &ComponentValue::Rotation(0), 1, 2);
    assert_eq!(m, None, "mismatched kinds are not interpolated");
}

fn history_48_52() -> EntityHistory {
    EntityHistory {
        entity: 1,
        snaps: vec![
            Snap { tick: 48, values: vec![pos(480, 0)] },
            Snap { tick: 52, values: vec![pos(520, 0)] },
        ],
    }
}

/// The update for tick 50 was lost but tick 52 arrived: the engine
/// interpolates across the (48, 52) bracket and, past the newest
/// snapshot, holds it rather than extrapolating.
#[test]
fn lost_update_brackets_and_holds() {
    let eng = InterpolationEngine::new(2);
    let hist = history_48_52();
    assert_eq!(
        eng.render_component(&hist, ComponentType::Position, 50),
        Rendered::Between(pos(500, 0)),
    );
    assert_eq!(
        eng.render_component(&hist, ComponentType::Position, 49),
        Rendered::Between(pos(490, 0)),
    );
    // at or past the newest snapshot: held, never extrapolated
    assert_eq!(
        eng.render_component(&hist, ComponentType::Position, 52),
        Rendered::Held(pos(520, 0)),
    );
    assert_eq!(
        eng.render_component(&hist, ComponentType::Position, 60),
        Rendered::Held(pos(520, 0)),
    );
    // before the history started: nothing to show yet
    assert_eq!(
        eng.render_component(&hist, ComponentType::Position, 40),
        Rendered::Unavailable,
    );
}

#[test]
fn render_tick_lags_by_the_delay() {
    let eng = InterpolationEngine::new(6);
    assert_eq!(eng.render_tick(52), 46);
    assert_eq!(eng.render_tick(3), 0);
}
