//! The replication group manager. Entities that must stay mutually
//! consistent are grouped; a group's component updates always travel in
//! one wire message and are applied as a single atomic update, so a
//! receiver never observes a group half-applied or members disagreeing
//! on their source tick.

use vstd::prelude::*;
use crate::types::{ComponentValue, EntityId, GroupId, Tick};
use crate::snapshot::{
    HistView, SnapshotStore, hist_or_empty, lemma_hist_insert_idempotent, lemma_store_insert_props,
    lemma_store_insert_stable, spec_hist_insert, store_insert, store_lookup, store_wf,
};

verus! {

/// One row of the membership table: `entity` belongs to `group`.
#[derive(Clone, Copy, PartialEq, Eq, Structural, Debug)]
pub struct GroupMember {
    pub entity: EntityId,
    pub group: GroupId,
}

/// The group an entity belongs to, if it is registered.
pub open spec fn spec_group_of(s: Seq<GroupMember>, e: EntityId) -> Option<GroupId>
    decreases s.len(),
{
    if s.len() == 0 {
        None
    } else if s[0].entity == e {
        Some(s[0].group)
    } else {
        spec_group_of(s.drop_first(), e)
    }
}

pub proof fn lemma_group_of_at(s: Seq<GroupMember>, k: int)
    requires
        0 <= k < s.len(),
        forall|i: int| 0 <= i < k ==> (#[trigger] s[i]).entity != s[k].entity,
    ensures
        spec_group_of(s, s[k].entity) == Some(s[k].group),
    decreases k,
{
    if k > 0 {
        assert(forall|i: int|
            0 <= i < k - 1 ==> (#[trigger] s.drop_first()[i]) == s[i + 1]);
        lemma_group_of_at(s.drop_first(), k - 1);
    }
}

pub proof fn lemma_group_of_none(s: Seq<GroupMember>, e: EntityId)
    requires
        forall|i: int| 0 <= i < s.len() ==> (#[trigger] s[i]).entity != e,
    ensures
        spec_group_of(s, e) == None::<GroupId>,
    decreases s.len(),
{
    if s.len() > 0 {
        assert(forall|i: int|
            0 <= i < s.len() - 1 ==> (#[trigger] s.drop_first()[i]) == s[i + 1]);
        lemma_group_of_none(s.drop_first(), e);
    }
}

/// A registered entity has a row carrying its group.
pub proof fn lemma_group_of_some(s: Seq<GroupMember>, e: EntityId, g: GroupId)
    requires
        spec_group_of(s, e) == Some(g),
    ensures
        exists|i: int|
            0 <= i < s.len() && (#[trigger] s[i]).entity == e && s[i].group == g,
    decreases s.len(),
{
    if s.len() > 0 && s[0].entity != e {
        lemma_group_of_some(s.drop_first(), e, g);
        let i = choose|i: int|
            0 <= i < s.drop_first().len() && (#[trigger] s.drop_first()[i]).entity == e
                && s.drop_first()[i].group == g;
        assert(s[i + 1] == s.drop_first()[i]);
    }
}

/// The membership table: every entity belongs to at most one group.
pub struct GroupManager {
    pub members: Vec<GroupMember>,
}

impl GroupManager {
    pub open spec fn wf(self) -> bool {
        forall|i: int, j: int|
            0 <= i < j < self.members@.len() ==> self.members@[i].entity != self.members@[j].entity
    }

    pub fn new() -> (r: GroupManager)
        ensures
            r.wf(),
            r.members@.len() == 0,
    {
        GroupManager { members: Vec::new() }
    }

    /// Register an entity into a group. An entity already registered
    /// keeps its old group: ownership of an entity never silently moves.
    pub fn register(&mut self, entity: EntityId, group: GroupId) -> (fresh: bool)
        requires
            old(self).wf(),
        ensures
            final(self).wf(),
            fresh <==> spec_group_of(old(self).members@, entity) == None::<GroupId>,
            fresh ==> final(self).members@ == old(self).members@.push(
                GroupMember { entity, group },
            ),
            !fresh ==> *final(self) == *old(self),
    {
        match self.group_of(entity) {
            Some(_) => false,
            None => {
                let ghost prev = self.members@;
                proof {
                    assert forall|i: int| 0 <= i < prev.len() implies (#[trigger] prev[i]).entity
                        != entity by {
                        if prev[i].entity == entity {
                            assert(forall|j: int|
                                0 <= j < i ==> (#[trigger] prev[j]).entity != prev[i].entity);
                            lemma_group_of_at(prev, i);
                        }
                    }
                }
                self.members.push(GroupMember { entity, group });
                proof {
                    assert(forall|i: int|
                        0 <= i < prev.len() ==> self.members@[i] == prev[i]);
                }
                true
            },
        }
    }

    /// The group `entity` belongs to.
    pub fn group_of(&self, entity: EntityId) -> (r: Option<GroupId>)
        ensures
            r == spec_group_of(self.members@, entity),
    {
        let mut i: usize = 0;
        while i < self.members.len()
            invariant
                0 <= i <= self.members@.len(),
                forall|j: int| 0 <= j < i ==> (#[trigger] self.members@[j]).entity != entity,
            decreases self.members@.len() - i,
        {
            if self.members[i].entity == entity {
                proof {
                    lemma_group_of_at(self.members@, i as int);
                }
                return Some(self.members[i].group);
            }
            i = i + 1;
        }
        proof {
            lemma_group_of_none(self.members@, entity);
        }
        None
    }

    /// All entities registered in `group`, in registration order.
    pub fn members_of(&self, group: GroupId) -> (r: Vec<EntityId>)
        requires
            self.wf(),
        ensures
            forall|k: int|
                0 <= k < r@.len() ==> spec_group_of(self.members@, #[trigger] r@[k]) == Some(
                    group,
                ),
            forall|i: int|
                0 <= i < self.members@.len() && (#[trigger] self.members@[i]).group == group
                    ==> r@.contains(self.members@[i].entity),
            forall|i: int, j: int| 0 <= i < j < r@.len() ==> r@[i] != r@[j],
    {
        let mut r: Vec<EntityId> = Vec::new();
        let mut i: usize = 0;
        while i < self.members.len()
            invariant
                self.wf(),
                0 <= i <= self.members@.len(),
                forall|k: int|
                    0 <= k < r@.len() ==> spec_group_of(self.members@, #[trigger] r@[k]) == Some(
                        group,
                    ),
                forall|j: int|
                    0 <= j < i && (#[trigger] self.members@[j]).group == group ==> r@.contains(
                        self.members@[j].entity,
                    ),
                forall|k: int|
                    0 <= k < r@.len() ==> exists|j: int|
                        0 <= j < i && (#[trigger] self.members@[j]).entity == #[trigger] r@[k],
                forall|a: int, b: int| 0 <= a < b < r@.len() ==> r@[a] != r@[b],
            decreases self.members@.len() - i,
        {
            if self.members[i].group == group {
                let ghost prev = r@;
                let ghost ent = self.members@[i as int].entity;
                proof {
                    lemma_group_of_at(self.members@, i as int);
                    assert forall|k: int|
                        0 <= k < prev.len() implies prev[k] != ent by {
                        let j = choose|j: int|
                            0 <= j < i && (#[trigger] self.members@[j]).entity == prev[k];
                        assert(self.members@[j].entity != ent);
                    }
                }
                r.push(self.members[i].entity);
                proof {
                    assert(r@ == prev.push(ent));
                    assert(r@[prev.len() as int] == ent);
                    assert forall|j: int|
                        0 <= j <= i && (#[trigger] self.members@[j]).group == group implies r@
                        .contains(self.members@[j].entity) by {
                        if j < i {
                            let wdx = choose|wdx: int|
                                0 <= wdx < prev.len() && prev[wdx] == self.members@[j].entity;
                            assert(r@[wdx] == self.members@[j].entity);
                        } else {
                            assert(r@[prev.len() as int] == self.members@[j].entity);
                        }
                    }
                }
            } else {
                proof {
                    assert forall|j: int|
                        0 <= j <= i && (#[trigger] self.members@[j]).group == group implies r@
                        .contains(self.members@[j].entity) by {
                        let wdx = choose|wdx: int|
                            0 <= wdx < r@.len() && r@[wdx] == self.members@[j].entity;
                    }
                }
            }
            i = i + 1;
        }
        r
    }
}

/// One entity's component values inside an update message.
pub struct UpdateEntry {
    pub entity: EntityId,
    pub values: Vec<ComponentValue>,
}

/// The mathematical value of an update entry.
#[verifier::ext_equal]
pub struct EntryView {
    pub entity: EntityId,
    pub values: Seq<ComponentValue>,
}

impl View for UpdateEntry {
    type V = EntryView;

    open spec fn view(&self) -> EntryView {
        EntryView { entity: self.entity, values: self.values@ }
    }
}

/// The Component Update Message: every member entity's component values
/// for one source tick, packaged so the receiver applies them together.
pub struct UpdateMessage {
    pub group_id: GroupId,
    pub tick: Tick,
    pub entries: Vec<UpdateEntry>,
}

pub open spec fn ev(es: Seq<UpdateEntry>) -> Seq<EntryView> {
    es.map_values(|x: UpdateEntry| x@)
}

/// No entity appears twice in a message.
pub open spec fn entries_distinct(es: Seq<EntryView>) -> bool {
    forall|i: int, j: int| 0 <= i < j < es.len() ==> es[i].entity != es[j].entity
}

/// The store after the entries of one message are written in order.
pub open spec fn spec_apply(s: Seq<HistView>, es: Seq<EntryView>, t: Tick, w: u64) -> Seq<HistView>
    decreases es.len(),
{
    if es.len() == 0 {
        s
    } else {
        store_insert(
            spec_apply(s, es.drop_last(), t, w),
            es.last().entity,
            t,
            es.last().values,
            w,
        )
    }
}

/// Applying a message touches only the entities it names, keeps the
/// store well formed, and makes every named entity's snapshot at the
/// message tick exactly the sent values: group atomicity, seen from the
/// end state.
pub proof fn lemma_apply_atomic(s: Seq<HistView>, es: Seq<EntryView>, t: Tick, w: u64)
    requires
        store_wf(s),
        entries_distinct(es),
    ensures
        store_wf(spec_apply(s, es, t, w)),
        forall|k: int|
            0 <= k < es.len() ==> store_lookup(
                spec_apply(s, es, t, w),
                (#[trigger] es[k]).entity,
                t,
            ) == Some(es[k].values),
        forall|e2: EntityId|
            (forall|k: int| 0 <= k < es.len() ==> (#[trigger] es[k]).entity != e2)
                ==> #[trigger] crate::snapshot::hist_of(spec_apply(s, es, t, w), e2)
                == crate::snapshot::hist_of(s, e2),
    decreases es.len(),
{
    if es.len() > 0 {
        let es0 = es.drop_last();
        let last = es.last();
        assert(entries_distinct(es0)) by {
            assert(forall|i: int| 0 <= i < es0.len() ==> es0[i] == es[i]);
        }
        lemma_apply_atomic(s, es0, t, w);
        let s1 = spec_apply(s, es0, t, w);
        lemma_store_insert_props(s1, last.entity, t, last.values, w);
        assert forall|k: int|
            0 <= k < es.len() implies store_lookup(
            spec_apply(s, es, t, w),
            (#[trigger] es[k]).entity,
            t,
        ) == Some(es[k].values) by {
            if k < es.len() - 1 {
                assert(es[k] == es0[k]);
                assert(es[k].entity != last.entity);
                lemma_lookup_from_hist(s1, spec_apply(s, es, t, w), es[k].entity, t);
            }
        }
    }
}

/// Two stores in which an entity has the same history agree on every
/// lookup of that entity.
proof fn lemma_lookup_from_hist(s1: Seq<HistView>, s2: Seq<HistView>, e: EntityId, t: Tick)
    requires
        crate::snapshot::hist_of(s2, e) == crate::snapshot::hist_of(s1, e),
    ensures
        store_lookup(s2, e, t) == store_lookup(s1, e, t),
{
    crate::snapshot::lemma_find_hist_char(s1, e);
    crate::snapshot::lemma_find_hist_char(s2, e);
}

/// Duplicate delivery is harmless: applying the same message twice
/// leaves the store exactly as applying it once.
pub proof fn lemma_apply_idempotent(s: Seq<HistView>, es: Seq<EntryView>, t: Tick, w: u64)
    requires
        store_wf(s),
        entries_distinct(es),
    ensures
        spec_apply(spec_apply(s, es, t, w), es, t, w) == spec_apply(s, es, t, w),
{
    let s1 = spec_apply(s, es, t, w);
    lemma_apply_atomic(s, es, t, w);
    lemma_apply_fixed(s, s1, es, es, t, w);
}

/// Every entity of `sub` is already stable in `s1` (its history absorbs
/// its own re-insert), so re-applying `sub` to `s1` changes nothing.
proof fn lemma_apply_fixed(
    s: Seq<HistView>,
    s1: Seq<HistView>,
    es: Seq<EntryView>,
    sub: Seq<EntryView>,
    t: Tick,
    w: u64,
)
    requires
        store_wf(s),
        entries_distinct(es),
        s1 == spec_apply(s, es, t, w),
        forall|k: int|
            0 <= k < sub.len() ==> exists|k2: int|
                0 <= k2 < es.len() && es[k2] == #[trigger] sub[k],
    ensures
        spec_apply(s1, sub, t, w) == s1,
    decreases sub.len(),
{
    lemma_apply_atomic(s, es, t, w);
    if sub.len() > 0 {
        let sub0 = sub.drop_last();
        let last = sub.last();
        assert(forall|k: int| 0 <= k < sub0.len() ==> sub0[k] == sub[k]);
        lemma_apply_fixed(s, s1, es, sub0, t, w);
        // the last entry's history in s1 is a fixed point of its own
        // insert, established when es was applied to s
        let k2 = choose|k2: int| 0 <= k2 < es.len() && es[k2] == last;
        lemma_entry_stable(s, es, t, w, k2);
        lemma_store_insert_stable(s1, last.entity, t, last.values, w);
    }
}

/// After a message is applied, each of its entries' histories absorbs a
/// repeat of the same insert.
proof fn lemma_entry_stable(s: Seq<HistView>, es: Seq<EntryView>, t: Tick, w: u64, k: int)
    requires
        store_wf(s),
        entries_distinct(es),
        0 <= k < es.len(),
    ensures
        crate::snapshot::hist_of(spec_apply(s, es, t, w), es[k].entity) == Some(
            spec_hist_insert(hist_or_empty(spec_apply(s, es, t, w), es[k].entity), t, es[k].values, w),
        ),
        spec_hist_insert(hist_or_empty(spec_apply(s, es, t, w), es[k].entity), t, es[k].values, w)
            == hist_or_empty(spec_apply(s, es, t, w), es[k].entity),
    decreases es.len(),
{
    let es0 = es.drop_last();
    let last = es.last();
    assert(entries_distinct(es0)) by {
        assert(forall|i: int| 0 <= i < es0.len() ==> es0[i] == es[i]);
    }
    lemma_apply_atomic(s, es0, t, w);
    let s1 = spec_apply(s, es0, t, w);
    lemma_store_insert_props(s1, last.entity, t, last.values, w);
    let r = spec_apply(s, es, t, w);
    if k == es.len() - 1 {
        // this entry was the last insert: its history is the freshly
        // inserted one, which absorbs its own repeat
        let h0 = hist_or_empty(s1, last.entity);
        assert(crate::snapshot::sorted(h0)) by {
            crate::snapshot::lemma_find_hist_char(s1, last.entity);
            if crate::snapshot::find_hist(s1, last.entity) < s1.len() {
            } else {
                assert(h0 =~= Seq::<crate::snapshot::SnapView>::empty());
            }
        }
        lemma_hist_insert_idempotent(h0, t, last.values, w);
        assert(hist_or_empty(r, last.entity) == spec_hist_insert(h0, t, last.values, w));
    } else {
        assert(es[k] == es0[k]);
        lemma_entry_stable(s, es0, t, w, k);
        assert(es[k].entity != last.entity);
        assert(crate::snapshot::hist_of(r, es[k].entity) == crate::snapshot::hist_of(
            s1,
            es[k].entity,
        ));
    }
}

/// Two entry lists carry the same entities with the same values.
pub open spec fn entries_eq(a: Seq<EntryView>, b: Seq<EntryView>) -> bool {
    &&& a.len() == b.len()
    &&& forall|i: int|
        0 <= i < a.len() ==> (#[trigger] a[i]).entity == b[i].entity && a[i].values == b[i].values
}

/// The sending half of one replication group: remembers what was last
/// successfully sent, so unchanged groups produce no traffic.
pub struct GroupSender {
    pub group: GroupId,
    /// Every member's component values at the last successful send.
    pub last_sent: Vec<UpdateEntry>,
}

impl GroupSender {
    pub fn new(group: GroupId) -> (s: GroupSender)
        ensures
            s.group == group,
            s.last_sent@.len() == 0,
    {
        GroupSender { group, last_sent: Vec::new() }
    }

    /// Package the group's current component values (one entry per
    /// member) into one wire message for `tick` — but only if at least
    /// one component changed since the last successful send. The whole
    /// group always travels in the one message.
    pub fn pack(&mut self, tick: Tick, current: &Vec<UpdateEntry>) -> (r: Option<UpdateMessage>)
        ensures
            final(self).group == old(self).group,
            r is Some <==> !entries_eq(ev(current@), ev(old(self).last_sent@)),
            r is None ==> *final(self) == *old(self),
            match r {
                Some(msg) => {
                    &&& msg.group_id == old(self).group
                    &&& msg.tick == tick
                    &&& entries_eq(ev(msg.entries@), ev(current@))
                    &&& entries_eq(ev(final(self).last_sent@), ev(current@))
                },
                None => true,
            },
    {
        let changed = entries_differ(current, &self.last_sent);
        if !changed {
            return None;
        }
        let entries = clone_entries(current);
        self.last_sent = clone_entries(current);
        Some(UpdateMessage { group_id: self.group, tick, entries })
    }
}

/// Whether two entry lists differ in any entity or component value.
fn entries_differ(a: &Vec<UpdateEntry>, b: &Vec<UpdateEntry>) -> (r: bool)
    ensures
        r <==> !entries_eq(ev(a@), ev(b@)),
{
    if a.len() != b.len() {
        return true;
    }
    let mut i: usize = 0;
    while i < a.len()
        invariant
            a@.len() == b@.len(),
            0 <= i <= a@.len(),
            forall|j: int|
                0 <= j < i ==> (#[trigger] ev(a@)[j]).entity == ev(b@)[j].entity && ev(
                    a@,
                )[j].values == ev(b@)[j].values,
        decreases a@.len() - i,
    {
        if a[i].entity != b[i].entity || !crate::types::values_equal(&a[i].values, &b[i].values) {
            proof {
                assert(ev(a@)[i as int] == a@[i as int]@);
                assert(ev(b@)[i as int] == b@[i as int]@);
            }
            return true;
        }
        i = i + 1;
    }
    false
}

/// An owned copy of an entry list.
fn clone_entries(src: &Vec<UpdateEntry>) -> (r: Vec<UpdateEntry>)
    ensures
        entries_eq(ev(r@), ev(src@)),
{
    let mut out: Vec<UpdateEntry> = Vec::new();
    let mut i: usize = 0;
    while i < src.len()
        invariant
            0 <= i <= src@.len(),
            out@.len() == i,
            forall|j: int|
                0 <= j < i ==> (#[trigger] ev(out@)[j]).entity == ev(src@)[j].entity && ev(
                    out@,
                )[j].values == ev(src@)[j].values,
        decreases src@.len() - i,
    {
        let ghost prev_out = out@;
        let e = &src[i];
        out.push(UpdateEntry { entity: e.entity, values: crate::types::clone_values(&e.values) });
        proof {
            assert forall|j: int|
                0 <= j < i + 1 implies (#[trigger] ev(out@)[j]).entity == ev(src@)[j].entity && ev(
                out@,
            )[j].values == ev(src@)[j].values by {
                assert(ev(out@)[j] == out@[j]@);
                assert(ev(src@)[j] == src@[j]@);
                if j < i as int {
                    assert(out@[j] == prev_out[j]);
                    assert(ev(prev_out)[j] == prev_out[j]@);
                }
            }
        }
        i = i + 1;
    }
    out
}

/// Group atomicity, stated over the whole membership table: after a
/// well-formed update message for group `g` is applied, every member of
/// `g` has a snapshot at the message tick. A receiver that observes one
/// member at tick `t` therefore observes them all.
pub proof fn lemma_group_members_visible(
    ms: Seq<GroupMember>,
    s: Seq<HistView>,
    es: Seq<EntryView>,
    g: GroupId,
    t: Tick,
    w: u64,
)
    requires
        store_wf(s),
        msg_wf(ms, es, g),
    ensures
        forall|i: int|
            0 <= i < ms.len() && (#[trigger] ms[i]).group == g ==> store_lookup(
                spec_apply(s, es, t, w),
                ms[i].entity,
                t,
            ) is Some,
{
    lemma_apply_atomic(s, es, t, w);
    assert forall|i: int|
        0 <= i < ms.len() && (#[trigger] ms[i]).group == g implies store_lookup(
        spec_apply(s, es, t, w),
        ms[i].entity,
        t,
    ) is Some by {
        let k = choose|k: int| 0 <= k < es.len() && (#[trigger] es[k]).entity == ms[i].entity;
        assert(store_lookup(spec_apply(s, es, t, w), es[k].entity, t) == Some(es[k].values));
    }
}

/// Why a Component Update Message was rejected. A rejected message
/// changes nothing: a group is never half-applied.
#[derive(Clone, Copy, PartialEq, Eq, Structural, Debug)]
pub enum ApplyError {
    /// The message carries no entries.
    Empty,
    /// An entry's entity is unknown or not in the message's group.
    WrongGroup,
    /// An entity appears twice in the message.
    DuplicateEntity,
    /// A member of the group is missing from the message.
    MissingMember,
}

/// Every entry's entity belongs to the message's group.
pub open spec fn all_in_group(ms: Seq<GroupMember>, es: Seq<EntryView>, g: GroupId) -> bool {
    forall|k: int| 0 <= k < es.len() ==> spec_group_of(ms, (#[trigger] es[k]).entity) == Some(g)
}

/// Every member of the group has an entry in the message.
pub open spec fn covers_group(ms: Seq<GroupMember>, es: Seq<EntryView>, g: GroupId) -> bool {
    forall|i: int|
        0 <= i < ms.len() && (#[trigger] ms[i]).group == g ==> exists|k: int|
            0 <= k < es.len() && (#[trigger] es[k]).entity == ms[i].entity
}

/// A message the receiver accepts: non-empty, duplicate-free, aimed at
/// its own group, and complete for that group.
pub open spec fn msg_wf(ms: Seq<GroupMember>, es: Seq<EntryView>, g: GroupId) -> bool {
    &&& es.len() > 0
    &&& all_in_group(ms, es, g)
    &&& entries_distinct(es)
    &&& covers_group(ms, es, g)
}

/// Apply a Component Update Message to the snapshot store as one atomic
/// update: either every entry of the group is written at the message
/// tick, or the message is rejected and the store is untouched.
#[verifier::loop_isolation(false)]
pub fn apply_update(
    store: &mut SnapshotStore,
    mgr: &GroupManager,
    msg: &UpdateMessage,
) -> (r: Result<(), ApplyError>)
    requires
        old(store).wf(),
        mgr.wf(),
    ensures
        final(store).wf(),
        final(store).window == old(store).window,
        r is Ok <==> msg_wf(mgr.members@, ev(msg.entries@), msg.group_id),
        r is Err ==> *final(store) == *old(store),
        r == Err::<(), ApplyError>(ApplyError::Empty) <==> msg.entries@.len() == 0,
        r == Err::<(), ApplyError>(ApplyError::WrongGroup) <==> (msg.entries@.len() > 0
            && !all_in_group(mgr.members@, ev(msg.entries@), msg.group_id)),
        r == Err::<(), ApplyError>(ApplyError::DuplicateEntity) <==> (msg.entries@.len() > 0
            && all_in_group(mgr.members@, ev(msg.entries@), msg.group_id) && !entries_distinct(
            ev(msg.entries@),
        )),
        r == Err::<(), ApplyError>(ApplyError::MissingMember) <==> (msg.entries@.len() > 0
            && all_in_group(mgr.members@, ev(msg.entries@), msg.group_id) && entries_distinct(
            ev(msg.entries@),
        ) && !covers_group(mgr.members@, ev(msg.entries@), msg.group_id)),
        r is Ok ==> {
            &&& final(store).contents() == spec_apply(
                old(store).contents(),
                ev(msg.entries@),
                msg.tick,
                old(store).window,
            )
            &&& forall|k: int|
                0 <= k < msg.entries@.len() ==> store_lookup(
                    final(store).contents(),
                    (#[trigger] msg.entries@[k])@.entity,
                    msg.tick,
                ) == Some(msg.entries@[k]@.values)
        },
{
    let ghost es = ev(msg.entries@);
    if msg.entries.len() == 0 {
        return Err(ApplyError::Empty);
    }
    // every entry must name an entity of this very group
    let mut i: usize = 0;
    while i < msg.entries.len()
        invariant
            0 <= i <= msg.entries@.len(),
            forall|k: int|
                0 <= k < i ==> spec_group_of(mgr.members@, (#[trigger] ev(msg.entries@)[k]).entity)
                    == Some(msg.group_id),
        decreases msg.entries@.len() - i,
    {
        let g = mgr.group_of(msg.entries[i].entity);
        if g != Some(msg.group_id) {
            proof {
                assert(ev(msg.entries@)[i as int].entity == msg.entries@[i as int].entity);
                assert(!all_in_group(mgr.members@, ev(msg.entries@), msg.group_id));
            }
            return Err(ApplyError::WrongGroup);
        }
        i = i + 1;
    }
    // no entity may appear twice
    let mut a: usize = 0;
    while a < msg.entries.len()
        invariant
            0 <= a <= msg.entries@.len(),
            forall|x: int, y: int|
                0 <= x < y < msg.entries@.len() && x < a ==> ev(msg.entries@)[x].entity != ev(
                    msg.entries@,
                )[y].entity,
        decreases msg.entries@.len() - a,
    {
        let mut b: usize = a + 1;
        while b < msg.entries.len()
            invariant
                0 <= a < b <= msg.entries@.len(),
                forall|y: int|
                    a < y < b ==> ev(msg.entries@)[a as int].entity != (#[trigger] ev(
                        msg.entries@,
                    )[y]).entity,
            decreases msg.entries@.len() - b,
        {
            if msg.entries[a].entity == msg.entries[b].entity {
                proof {
                    assert(ev(msg.entries@)[a as int].entity == ev(msg.entries@)[b as int].entity);
                    assert(!entries_distinct(ev(msg.entries@)));
                }
                return Err(ApplyError::DuplicateEntity);
            }
            b = b + 1;
        }
        a = a + 1;
    }
    // the message must carry the whole group
    let members = mgr.members_of(msg.group_id);
    let mut m: usize = 0;
    while m < members.len()
        invariant
            0 <= m <= members@.len(),
            forall|j: int|
                0 <= j < m ==> exists|k: int|
                    0 <= k < ev(msg.entries@).len() && (#[trigger] ev(msg.entries@)[k]).entity
                        == #[trigger] members@[j],
        decreases members@.len() - m,
    {
        let mut k: usize = 0;
        let mut found = false;
        while k < msg.entries.len()
            invariant
                0 <= k <= msg.entries@.len(),
                found ==> exists|k2: int|
                    0 <= k2 < ev(msg.entries@).len() && (#[trigger] ev(msg.entries@)[k2]).entity
                        == members@[m as int],
                !found ==> forall|k2: int|
                    0 <= k2 < k ==> (#[trigger] ev(msg.entries@)[k2]).entity != members@[m as int],
            decreases msg.entries@.len() - k,
        {
            if msg.entries[k].entity == members[m] {
                proof {
                    assert((ev(msg.entries@)[k as int]).entity == members@[m as int]);
                }
                found = true;
            }
            k = k + 1;
        }
        if !found {
            proof {
                lemma_group_of_some(mgr.members@, members@[m as int], msg.group_id);
                let i0 = choose|i0: int|
                    0 <= i0 < mgr.members@.len() && (#[trigger] mgr.members@[i0]).entity
                        == members@[m as int] && mgr.members@[i0].group == msg.group_id;
                assert(!covers_group(mgr.members@, ev(msg.entries@), msg.group_id));
            }
            return Err(ApplyError::MissingMember);
        }
        m = m + 1;
    }
    proof {
        assert(covers_group(mgr.members@, es, msg.group_id)) by {
            assert forall|j: int|
                0 <= j < mgr.members@.len() && (#[trigger] mgr.members@[j]).group == msg.group_id
                    implies exists|k: int|
                0 <= k < es.len() && (#[trigger] es[k]).entity == mgr.members@[j].entity by {
                assert(members@.contains(mgr.members@[j].entity));
                let mj = choose|mj: int| 0 <= mj < members@.len() && members@[mj] == mgr.members@[j].entity;
            }
        }
    }
    // validated: write every entry at the message tick
    let ghost orig = store.contents();
    let ghost w = store.window;
    let mut n: usize = 0;
    while n < msg.entries.len()
        invariant
            store.wf(),
            store.window == w,
            0 <= n <= msg.entries@.len(),
            store.contents() == spec_apply(orig, ev(msg.entries@).take(n as int), msg.tick, w),
        decreases msg.entries@.len() - n,
    {
        let entry = &msg.entries[n];
        let vals = crate::types::clone_values(&entry.values);
        let ghost pre = store.contents();
        store.insert(entry.entity, msg.tick, vals);
        proof {
            let tk = ev(msg.entries@).take(n as int + 1);
            assert(tk.drop_last() =~= ev(msg.entries@).take(n as int));
            assert(tk.last() == ev(msg.entries@)[n as int]);
            assert(ev(msg.entries@)[n as int] == msg.entries@[n as int]@);
            assert(store.contents() == store_insert(pre, entry.entity, msg.tick, vals@, w));
        }
        n = n + 1;
    }
    proof {
        assert(ev(msg.entries@).take(msg.entries@.len() as int) =~= ev(msg.entries@));
        lemma_apply_atomic(orig, es, msg.tick, w);
        assert forall|k: int|
            0 <= k < msg.entries@.len() implies store_lookup(
            store.contents(),
            (#[trigger] msg.entries@[k])@.entity,
            msg.tick,
        ) == Some(msg.entries@[k]@.values) by {
            assert(es[k] == msg.entries@[k]@);
        }
    }
    Ok(())
}

} // verus!
