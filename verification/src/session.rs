//! Per-connection state: the tick clock, snapshot history, input buffer
//! and pre-prediction claims of one peer, packaged as one explicit
//! context. Disconnect or reset clears all of it; a reconnect starts a
//! fresh session rather than resuming stale history.

use vstd::prelude::*;
use crate::types::{ComponentValue, EntityId, GroupId, Tick};
use crate::tick::TickClock;
use crate::snapshot::{SnapshotStore, find_hist, store_insert, store_lookup};
use crate::group::{GroupManager, spec_group_of};
use crate::input::InputBuffer;
use crate::prediction::PredictionEngine;

verus! {

/// The Spawn Message: an entity enters replication with its group and
/// its initial (`once`-mode included) component values.
pub struct SpawnMessage {
    pub entity: EntityId,
    pub group: GroupId,
    pub initial: Vec<ComponentValue>,
}

/// The Despawn Message: an entity leaves replication.
#[derive(Clone, Copy, PartialEq, Eq, Structural, Debug)]
pub struct DespawnMessage {
    pub entity: EntityId,
}

/// Claims of pre-predicted entities: client-generated ids sent to the
/// server at spawn time, so the authoritative entity can be unified
/// with the client's speculative one instead of duplicating it. A claim
/// is resolved at spawn confirmation and then discarded.
pub struct PrePredictionMap {
    pub claims: Vec<EntityId>,
}

impl PrePredictionMap {
    pub fn new() -> (r: PrePredictionMap)
        ensures
            r.claims@.len() == 0,
    {
        PrePredictionMap { claims: Vec::new() }
    }

    /// Record a client-local entity id awaiting server confirmation.
    pub fn claim(&mut self, local: EntityId) -> (fresh: bool)
        ensures
            fresh <==> !old(self).claims@.contains(local),
            fresh ==> final(self).claims@ == old(self).claims@.push(local),
            !fresh ==> *final(self) == *old(self),
    {
        let mut i: usize = 0;
        while i < self.claims.len()
            invariant
                *self == *old(self),
                0 <= i <= self.claims@.len(),
                forall|j: int| 0 <= j < i ==> self.claims@[j] != local,
            decreases self.claims@.len() - i,
        {
            if self.claims[i] == local {
                return false;
            }
            i = i + 1;
        }
        self.claims.push(local);
        true
    }

    /// Resolve a claim at spawn confirmation: the local id is unified
    /// with the server's and the claim is discarded.
    pub fn resolve(&mut self, local: EntityId) -> (found: bool)
        ensures
            found <==> old(self).claims@.contains(local),
            !found ==> *final(self) == *old(self),
            found ==> exists|i: int|
                0 <= i < old(self).claims@.len() && old(self).claims@[i] == local && final(self).claims@
                    == old(self).claims@.remove(i),
    {
        let mut i: usize = 0;
        while i < self.claims.len()
            invariant
                *self == *old(self),
                0 <= i <= self.claims@.len(),
                forall|j: int| 0 <= j < i ==> self.claims@[j] != local,
            decreases self.claims@.len() - i,
        {
            if self.claims[i] == local {
                let _ = self.claims.remove(i);
                return true;
            }
            i = i + 1;
        }
        false
    }

    /// Session teardown: pending claims are dropped.
    pub fn reset(&mut self)
        ensures
            final(self).claims@.len() == 0,
    {
        self.claims = Vec::new();
    }
}

/// Apply a Spawn Message: the entity joins its replication group and
/// its initial component values become its first stored snapshot.
pub fn apply_spawn(
    store: &mut SnapshotStore,
    groups: &mut GroupManager,
    msg: &SpawnMessage,
    tick: Tick,
) -> (fresh: bool)
    requires
        old(store).wf(),
        old(groups).wf(),
    ensures
        final(store).wf(),
        final(groups).wf(),
        final(store).window == old(store).window,
        fresh <==> spec_group_of(old(groups).members@, msg.entity) == None::<GroupId>,
        fresh ==> {
            &&& final(store).contents() == store_insert(
                old(store).contents(),
                msg.entity,
                tick,
                msg.initial@,
                old(store).window,
            )
            &&& store_lookup(final(store).contents(), msg.entity, tick) == Some(msg.initial@)
        },
        !fresh ==> *final(store) == *old(store) && *final(groups) == *old(groups),
{
    let fresh = groups.register(msg.entity, msg.group);
    if !fresh {
        return false;
    }
    let mut vals: Vec<ComponentValue> = Vec::new();
    let mut i: usize = 0;
    while i < msg.initial.len()
        invariant
            0 <= i <= msg.initial@.len(),
            vals@ == msg.initial@.take(i as int),
        decreases msg.initial@.len() - i,
    {
        vals.push(msg.initial[i]);
        proof {
            assert(vals@ =~= msg.initial@.take(i as int + 1));
        }
        i = i + 1;
    }
    proof {
        assert(vals@ =~= msg.initial@);
    }
    store.insert(msg.entity, tick, vals);
    true
}

/// Apply a Despawn Message: the entity's snapshot history is dropped.
pub fn apply_despawn(store: &mut SnapshotStore, msg: &DespawnMessage)
    requires
        old(store).wf(),
    ensures
        final(store).wf(),
        final(store).window == old(store).window,
        find_hist(final(store).contents(), msg.entity) >= final(store).contents().len(),
        find_hist(old(store).contents(), msg.entity) < old(store).contents().len() ==> final(store).contents()
            == old(store).contents().remove(find_hist(old(store).contents(), msg.entity)),
        find_hist(old(store).contents(), msg.entity) >= old(store).contents().len()
            ==> *final(store) == *old(store),
{
    store.remove_entity(msg.entity);
    proof {
        crate::snapshot::lemma_find_hist_char(old(store).contents(), msg.entity);
        crate::snapshot::lemma_find_hist_char(store.contents(), msg.entity);
        let i = find_hist(old(store).contents(), msg.entity);
        if i < old(store).contents().len() {
            let orig = old(store).contents();
            let now = store.contents();
            if find_hist(now, msg.entity) < now.len() {
                let j = find_hist(now, msg.entity);
                assert(now[j].entity == msg.entity);
                assert(now[j] == if j < i {
                    orig[j]
                } else {
                    orig[j + 1]
                });
                if j < i {
                    assert(orig[j].entity != msg.entity);
                } else {
                    assert(orig[i].entity == orig[j + 1].entity);
                }
                assert(false);
            }
        }
    }
}

/// All per-connection state of one peer.
pub struct SessionContext {
    pub clock: TickClock,
    pub store: SnapshotStore,
    pub inputs: InputBuffer,
    pub groups: GroupManager,
    pub claims: PrePredictionMap,
    /// In-flight predicted state, once prediction has started.
    pub prediction: Option<PredictionEngine>,
}

impl SessionContext {
    pub open spec fn wf(self) -> bool {
        &&& self.store.wf()
        &&& self.inputs.wf()
        &&& self.groups.wf()
        &&& match self.prediction {
            Some(e) => e.wf(),
            None => true,
        }
    }

    pub fn new(input_delay: u64, window: u64, entity: EntityId, input_cap: usize) -> (s:
        SessionContext)
        requires
            input_cap >= 1,
        ensures
            s.wf(),
            s.clock.tick == 0,
            s.store.contents().len() == 0,
            s.store.window == window,
            s.inputs.actions@.len() == 0,
            s.groups.members@.len() == 0,
            s.claims.claims@.len() == 0,
            s.prediction is None,
    {
        SessionContext {
            clock: TickClock::new(input_delay),
            store: SnapshotStore::new(window),
            inputs: InputBuffer::new(entity, 0, input_cap),
            groups: GroupManager::new(),
            claims: PrePredictionMap::new(),
            prediction: None,
        }
    }

    /// Disconnect or explicit reset: every buffered Input Record, every
    /// stored snapshot, every pending claim and all in-flight predicted
    /// state of this peer is cleared.
    pub fn reset(&mut self)
        requires
            old(self).wf(),
        ensures
            final(self).wf(),
            final(self).clock.tick == 0,
            final(self).store.contents().len() == 0,
            final(self).store.window == old(self).store.window,
            final(self).inputs.actions@.len() == 0,
            final(self).claims.claims@.len() == 0,
            final(self).prediction is None,
    {
        self.clock.reset();
        self.store.reset();
        self.inputs.reset(0);
        self.claims.reset();
        self.prediction = None;
    }
}

} // verus!
