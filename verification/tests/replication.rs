use netsim::types::{ComponentValue, Vec2};
use netsim::snapshot::SnapshotStore;
use netsim::group::{apply_update, ApplyError, GroupManager, GroupSender, UpdateEntry, UpdateMessage};
use netsim::session::{apply_despawn, apply_spawn, DespawnMessage, PrePredictionMap, SessionContext, SpawnMessage};
use netsim::interpolate::{InterpolationEngine, Rendered};
use netsim::types::ComponentType;

fn pos(x: i64, y: i64) -> ComponentValue {
    ComponentValue::Position(Vec2 { x, y })
}

fn color(c: u32) -> ComponentValue {
    ComponentValue::Color(c)
}

#[test]
fn store_insert_and_get() {
    let mut s = SnapshotStore::new(100);
    s.insert(1, 10, vec![pos(1, 2)]);
    s.insert(1, 11, vec![pos(3, 4)]);
    s.insert(2, 10, vec![pos(5, 6)]);
    assert_eq!(s.get(1, 10), Some(vec![pos(1, 2)]));
    assert_eq!(s.get(1, 11), Some(vec![pos(3, 4)]));
    assert_eq!(s.get(2, 10), Some(vec![pos(5, 6)]));
    assert_eq!(s.get(2, 11), None);
    assert_eq!(s.get(3, 10), None);
}

#[test]
fn store_overwrites_same_tick() {
    let mut s = SnapshotStore::new(100);
    s.insert(1, 10, vec![pos(1, 2)]);
    s.insert(1, 10, vec![pos(9, 9)]);
    assert_eq!(s.get(1, 10), Some(vec![pos(9, 9)]));
}

#[test]
fn store_evicts_outside_window() {
    let mut s = SnapshotStore::new(5);
    s.insert(1, 10, vec![pos(1, 1)]);
    s.insert(1, 20, vec![pos(2, 2)]);
    // tick 10 + window 5 < 20: evicted lazily on insert
    assert_eq!(s.get(1, 10), None);
    assert_eq!(s.get(1, 20), Some(vec![pos(2, 2)]));
}

#[test]
fn store_reset_clears_history() {
    let mut s = SnapshotStore::new(100);
    s.insert(1, 10, vec![pos(1, 2)]);
    s.reset();
    assert_eq!(s.get(1, 10), None);
}

#[test]
fn groups_register_and_look_up() {
    let mut g = GroupManager::new();
    assert!(g.register(1, 100));
    assert!(g.register(2, 100));
    assert!(g.register(3, 200));
    assert!(!g.register(1, 999), "an entity keeps its group");
    assert_eq!(g.group_of(1), Some(100));
    assert_eq!(g.group_of(3), Some(200));
    assert_eq!(g.group_of(4), None);
    let m = g.members_of(100);
    assert_eq!(m, vec![1, 2]);
}

fn two_member_setup() -> (SnapshotStore, GroupManager) {
    let mut g = GroupManager::new();
    g.register(1, 100);
    g.register(2, 100);
    (SnapshotStore::new(1000), g)
}

fn group_msg(tick: u64) -> UpdateMessage {
    UpdateMessage {
        group_id: 100,
        tick,
        entries: vec![
            UpdateEntry { entity: 1, values: vec![pos(10, 0)] },
            UpdateEntry { entity: 2, values: vec![pos(0, 10)] },
        ],
    }
}

#[test]
fn apply_update_writes_whole_group_atomically() {
    let (mut s, g) = two_member_setup();
    let r = apply_update(&mut s, &g, &group_msg(7));
    assert_eq!(r, Ok(()));
    // every member of the group is observed at the same source tick
    assert_eq!(s.get(1, 7), Some(vec![pos(10, 0)]));
    assert_eq!(s.get(2, 7), Some(vec![pos(0, 10)]));
}

#[test]
fn apply_update_duplicate_delivery_is_idempotent() {
    let (mut s, g) = two_member_setup();
    assert_eq!(apply_update(&mut s, &g, &group_msg(7)), Ok(()));
    assert_eq!(apply_update(&mut s, &g, &group_msg(7)), Ok(()));
    assert_eq!(s.get(1, 7), Some(vec![pos(10, 0)]));
    assert_eq!(s.get(2, 7), Some(vec![pos(0, 10)]));
}

#[test]
fn apply_update_rejects_empty() {
    let (mut s, g) = two_member_setup();
    let msg = UpdateMessage { group_id: 100, tick: 7, entries: vec![] };
    assert_eq!(apply_update(&mut s, &g, &msg), Err(ApplyError::Empty));
}

#[test]
fn apply_update_rejects_unknown_entity() {
    let (mut s, g) = two_member_setup();
    let msg = UpdateMessage {
        group_id: 100,
        tick: 7,
        entries: vec![
            UpdateEntry { entity: 1, values: vec![pos(1, 1)] },
            UpdateEntry { entity: 2, values: vec![pos(2, 2)] },
            UpdateEntry { entity: 99, values: vec![pos(3, 3)] },
        ],
    };
    assert_eq!(apply_update(&mut s, &g, &msg), Err(ApplyError::WrongGroup));
    // atomic rejection: nothing was written
    assert_eq!(s.get(1, 7), None);
    assert_eq!(s.get(2, 7), None);
}

#[test]
fn apply_update_rejects_duplicate_entity() {
    let (mut s, g) = two_member_setup();
    let msg = UpdateMessage {
        group_id: 100,
        tick: 7,
        entries: vec![
            UpdateEntry { entity: 1, values: vec![pos(1, 1)] },
            UpdateEntry { entity: 2, values: vec![pos(2, 2)] },
            UpdateEntry { entity: 1, values: vec![pos(3, 3)] },
        ],
    };
    assert_eq!(apply_update(&mut s, &g, &msg), Err(ApplyError::DuplicateEntity));
    assert_eq!(s.get(1, 7), None);
}

#[test]
fn apply_update_rejects_partial_group() {
    let (mut s, g) = two_member_setup();
    let msg = UpdateMessage {
        group_id: 100,
        tick: 7,
        entries: vec![UpdateEntry { entity: 1, values: vec![pos(1, 1)] }],
    };
    assert_eq!(apply_update(&mut s, &g, &msg), Err(ApplyError::MissingMember));
    // no member may be observed without the others
    assert_eq!(s.get(1, 7), None);
}

#[test]
fn pack_sends_only_changed_groups() {
    let mut sender = GroupSender::new(100);
    let world = vec![
        UpdateEntry { entity: 1, values: vec![pos(10, 0)] },
        UpdateEntry { entity: 2, values: vec![pos(0, 10)] },
    ];
    let msg = sender.pack(5, &world).expect("first send always carries the group");
    assert_eq!(msg.group_id, 100);
    assert_eq!(msg.tick, 5);
    assert_eq!(msg.entries.len(), 2);
    assert_eq!(msg.entries[0].entity, 1);
    assert_eq!(msg.entries[0].values, vec![pos(10, 0)]);
    // nothing changed: no message
    assert!(sender.pack(6, &world).is_none());
    // one member's component changed: the whole group travels again
    let world2 = vec![
        UpdateEntry { entity: 1, values: vec![pos(11, 0)] },
        UpdateEntry { entity: 2, values: vec![pos(0, 10)] },
    ];
    let msg2 = sender.pack(7, &world2).expect("a changed component re-sends the group");
    assert_eq!(msg2.entries.len(), 2);
    assert_eq!(msg2.entries[0].values, vec![pos(11, 0)]);
}

#[test]
fn spawn_and_despawn() {
    let mut s = SnapshotStore::new(1000);
    let mut g = GroupManager::new();
    let spawn = SpawnMessage { entity: 5, group: 300, initial: vec![pos(0, 0), color(7)] };
    assert!(apply_spawn(&mut s, &mut g, &spawn, 1));
    assert_eq!(g.group_of(5), Some(300));
    assert_eq!(s.get(5, 1), Some(vec![pos(0, 0), color(7)]));
    assert!(!apply_spawn(&mut s, &mut g, &spawn, 2), "a second spawn of the same entity is refused");
    apply_despawn(&mut s, &DespawnMessage { entity: 5 });
    assert_eq!(s.get(5, 1), None);
}

#[test]
fn replicated_snapshots_drive_interpolation() {
    let mut g = GroupManager::new();
    g.register(9, 400);
    let mut s = SnapshotStore::new(1000);
    for (tick, x) in [(48u64, 480i64), (52, 520)] {
        let msg = UpdateMessage {
            group_id: 400,
            tick,
            entries: vec![UpdateEntry { entity: 9, values: vec![pos(x, 0)] }],
        };
        assert_eq!(apply_update(&mut s, &g, &msg), Ok(()));
    }
    let view = InterpolationEngine::new(2);
    let hist = s.history_of(9).expect("entity 9 has replicated history");
    assert_eq!(
        view.render_component(hist, ComponentType::Position, view.render_tick(52)),
        Rendered::Between(pos(500, 0)),
    );
}

#[test]
fn pre_prediction_claims_resolve_once() {
    let mut p = PrePredictionMap::new();
    assert!(p.claim(11));
    assert!(!p.claim(11));
    assert!(p.resolve(11));
    assert!(!p.resolve(11), "a resolved claim is discarded");
}

#[test]
fn session_reset_clears_everything() {
    let mut ctx = SessionContext::new(2, 64, 1, 32);
    ctx.clock.advance();
    ctx.inputs.record(3);
    ctx.store.insert(1, 0, vec![pos(1, 1)]);
    ctx.claims.claim(9);
    ctx.reset();
    assert!(ctx.prediction.is_none());
    assert_eq!(ctx.clock.tick, 0);
    assert_eq!(ctx.store.get(1, 0), None);
    assert_eq!(ctx.inputs.latest_or(0), 0);
    assert!(ctx.claims.claim(9), "claims were cleared");
}
