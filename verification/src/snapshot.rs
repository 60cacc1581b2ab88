//! The snapshot store: a bounded, per-entity history of component
//! values keyed by tick, sized to cover the larger of the rollback
//! window and the interpolation delay. Snapshots older than the window
//! are dropped lazily on insert; a bracket query returns the two stored
//! snapshots nearest around a requested render time.

use vstd::prelude::*;
use crate::types::{ComponentValue, EntityId, Tick};

verus! {

/// One stored snapshot of an entity: all its replicated component
/// values at one tick.
pub struct Snap {
    pub tick: Tick,
    pub values: Vec<ComponentValue>,
}

/// The mathematical value of a `Snap`.
#[verifier::ext_equal]
pub struct SnapView {
    pub tick: Tick,
    pub values: Seq<ComponentValue>,
}

impl View for Snap {
    type V = SnapView;

    open spec fn view(&self) -> SnapView {
        SnapView { tick: self.tick, values: self.values@ }
    }
}

/// The mathematical value of a sequence of stored snapshots.
pub open spec fn hv(s: Seq<Snap>) -> Seq<SnapView> {
    s.map_values(|x: Snap| x@)
}

/// Ticks strictly increase along the history: at most one snapshot per
/// tick, ordered from oldest to newest.
pub open spec fn sorted(s: Seq<SnapView>) -> bool {
    forall|i: int, j: int| 0 <= i < j < s.len() ==> s[i].tick < s[j].tick
}

/// How many leading snapshots fall out of the retention window when a
/// snapshot for tick `t` arrives.
pub open spec fn first_keep(s: Seq<SnapView>, t: int, w: int) -> int
    decreases s.len(),
{
    if s.len() == 0 {
        0
    } else if s[0].tick + w < t {
        1 + first_keep(s.drop_first(), t, w)
    } else {
        0
    }
}

/// The position at which a snapshot for tick `t` belongs: the first
/// index whose tick is not older than `t`.
pub open spec fn insert_pos(s: Seq<SnapView>, t: int) -> int
    decreases s.len(),
{
    if s.len() == 0 {
        0
    } else if s[0].tick < t {
        1 + insert_pos(s.drop_first(), t)
    } else {
        0
    }
}

/// The history after a snapshot `(t, v)` is stored with retention
/// window `w`: stale leading snapshots are evicted, then the snapshot
/// is written at its tick (overwriting a snapshot already stored for
/// the same tick).
pub open spec fn spec_hist_insert(
    s: Seq<SnapView>,
    t: Tick,
    v: Seq<ComponentValue>,
    w: u64,
) -> Seq<SnapView> {
    let s1 = s.skip(first_keep(s, t as int, w as int));
    let p = insert_pos(s1, t as int);
    if p < s1.len() && s1[p].tick == t {
        s1.update(p, SnapView { tick: t, values: v })
    } else {
        s1.insert(p, SnapView { tick: t, values: v })
    }
}

/// The stored component values of the snapshot at exactly tick `t`.
pub open spec fn hist_lookup(s: Seq<SnapView>, t: Tick) -> Option<Seq<ComponentValue>>
    decreases s.len(),
{
    if s.len() == 0 {
        None
    } else if s[0].tick == t {
        Some(s[0].values)
    } else {
        hist_lookup(s.drop_first(), t)
    }
}

/// `first_keep` is the unique boundary between the evicted prefix and
/// the retained suffix.
pub proof fn lemma_first_keep_is(s: Seq<SnapView>, t: int, w: int, k: int)
    requires
        0 <= k <= s.len(),
        forall|i: int| 0 <= i < k ==> (#[trigger] s[i].tick) + w < t,
        k < s.len() ==> s[k].tick + w >= t,
    ensures
        first_keep(s, t, w) == k,
    decreases s.len(),
{
    if s.len() > 0 && k > 0 {
        assert(s[0].tick + w < t);
        assert(forall|i: int| 0 <= i < k - 1 ==> (#[trigger] s.drop_first()[i]).tick + w < t)
            by {
            assert(forall|i: int| 0 <= i < k - 1 ==> s.drop_first()[i] == s[i + 1]);
        }
        lemma_first_keep_is(s.drop_first(), t, w, k - 1);
    }
}

/// `insert_pos` is the unique boundary between older and not-older
/// snapshots.
pub proof fn lemma_insert_pos_is(s: Seq<SnapView>, t: int, p: int)
    requires
        0 <= p <= s.len(),
        forall|i: int| 0 <= i < p ==> (#[trigger] s[i].tick) < t,
        p < s.len() ==> s[p].tick >= t,
    ensures
        insert_pos(s, t) == p,
    decreases s.len(),
{
    if s.len() > 0 && p > 0 {
        assert(forall|i: int| 0 <= i < p - 1 ==> (#[trigger] s.drop_first()[i]).tick < t) by {
            assert(forall|i: int| 0 <= i < p - 1 ==> s.drop_first()[i] == s[i + 1]);
        }
        lemma_insert_pos_is(s.drop_first(), t, p - 1);
    }
}

/// What `insert_pos` found: everything before it is older than `t`,
/// and the element there (if any) is not.
pub proof fn lemma_insert_pos_char(s: Seq<SnapView>, t: int)
    ensures
        0 <= insert_pos(s, t) <= s.len(),
        forall|i: int| 0 <= i < insert_pos(s, t) ==> (#[trigger] s[i].tick) < t,
        insert_pos(s, t) < s.len() ==> s[insert_pos(s, t)].tick >= t,
    decreases s.len(),
{
    if s.len() > 0 && s[0].tick < t {
        lemma_insert_pos_char(s.drop_first(), t);
        assert(forall|i: int| 1 <= i < insert_pos(s, t) ==> s[i] == s.drop_first()[i - 1]);
    }
}

/// The unique pair of adjacent stored snapshots straddling render tick
/// `rt`: `Some(i)` when the ticks at `i` and `i + 1` bracket `rt`.
pub open spec fn spec_bracket(s: Seq<SnapView>, rt: Tick) -> Option<int> {
    let p = insert_pos(s, rt as int + 1);
    if 1 <= p && p < s.len() {
        Some(p - 1)
    } else {
        None
    }
}

/// Inserting preserves ordering, every retained tick sits inside the
/// window of `t`, and the inserted snapshot is at `insert_pos`.
pub proof fn lemma_hist_insert_shape(s: Seq<SnapView>, t: Tick, v: Seq<ComponentValue>, w: u64) -> (q: int)
    requires
        sorted(s),
    ensures
        sorted(spec_hist_insert(s, t, v, w)),
        forall|i: int|
            0 <= i < spec_hist_insert(s, t, v, w).len() ==> (#[trigger] spec_hist_insert(
                s,
                t,
                v,
                w,
            )[i]).tick + w >= t,
        0 <= q < spec_hist_insert(s, t, v, w).len(),
        spec_hist_insert(s, t, v, w)[q] == (SnapView { tick: t, values: v }),
        forall|i: int| 0 <= i < q ==> (#[trigger] spec_hist_insert(s, t, v, w)[i]).tick < t,
        forall|i: int|
            q < i < spec_hist_insert(s, t, v, w).len() ==> (#[trigger] spec_hist_insert(
                s,
                t,
                v,
                w,
            )[i]).tick > t,
{
    let fk = first_keep(s, t as int, w as int);
    lemma_first_keep_char(s, t as int, w as int);
    let s1 = s.skip(fk);
    assert(forall|i: int| 0 <= i < s1.len() ==> s1[i] == s[fk + i]);
    assert(sorted(s1));
    // every retained tick is inside the window: the first retained one
    // is, and ticks only grow after it
    assert(forall|i: int| 0 <= i < s1.len() ==> (#[trigger] s1[i]).tick + w >= t) by {
        if s1.len() > 0 {
            assert(s[fk].tick + w >= t);
            assert(forall|i: int| 0 < i < s1.len() ==> (#[trigger] s1[i]).tick >= s1[0].tick);
        }
    }
    let p = insert_pos(s1, t as int);
    lemma_insert_pos_char(s1, t as int);
    let x = SnapView { tick: t, values: v };
    let r = spec_hist_insert(s, t, v, w);
    if p < s1.len() && s1[p].tick == t {
        assert(r == s1.update(p, x));
        assert(forall|i: int| 0 <= i < r.len() && i != p ==> r[i] == s1[i]);
        assert(sorted(r));
        assert(r[p] == x);
        assert(forall|i: int| 0 <= i < p ==> (#[trigger] r[i]).tick < t);
        assert(forall|i: int| p < i < r.len() ==> (#[trigger] r[i]).tick > t);
    } else {
        assert(r == s1.insert(p, x));
        assert(forall|i: int| 0 <= i < p ==> r[i] == s1[i]);
        assert(r[p] == x);
        assert(forall|i: int| p < i < r.len() ==> r[i] == s1[i - 1]);
        assert forall|i: int| p < i < r.len() implies (#[trigger] r[i]).tick > t by {
            assert(r[i] == s1[i - 1]);
            assert(p < s1.len());
            assert(s1[p].tick >= t && s1[p].tick != t);
            if i - 1 > p {
                assert(s1[i - 1].tick > s1[p].tick);
            }
        }
        assert(sorted(r)) by {
            assert(forall|i: int, j: int|
                0 <= i < j < r.len() && i != p && j != p ==> (#[trigger] r[i]).tick < (
                #[trigger] r[j]).tick);
        }
    }
    p
}

/// Everything `first_keep` skips is stale; the element at the boundary
/// (if any) is not.
pub proof fn lemma_first_keep_char(s: Seq<SnapView>, t: int, w: int)
    ensures
        0 <= first_keep(s, t, w) <= s.len(),
        forall|i: int| 0 <= i < first_keep(s, t, w) ==> (#[trigger] s[i].tick) + w < t,
        first_keep(s, t, w) < s.len() ==> s[first_keep(s, t, w)].tick + w >= t,
    decreases s.len(),
{
    if s.len() > 0 && s[0].tick + w < t {
        lemma_first_keep_char(s.drop_first(), t, w);
        assert(forall|i: int| 1 <= i < first_keep(s, t, w) ==> s[i] == s.drop_first()[i - 1]);
    }
}

/// A lookup finds the snapshot that sits at `q` when everything before
/// `q` has another tick.
pub proof fn lemma_hist_lookup_at(s: Seq<SnapView>, t: Tick, q: int)
    requires
        0 <= q < s.len(),
        s[q].tick == t,
        forall|i: int| 0 <= i < q ==> (#[trigger] s[i]).tick != t,
    ensures
        hist_lookup(s, t) == Some(s[q].values),
    decreases q,
{
    if q > 0 {
        assert(forall|i: int| 0 <= i < q - 1 ==> (#[trigger] s.drop_first()[i]).tick != t) by {
            assert(forall|i: int| 0 <= i < q - 1 ==> s.drop_first()[i] == s[i + 1]);
        }
        lemma_hist_lookup_at(s.drop_first(), t, q - 1);
        assert(s.drop_first()[q - 1] == s[q]);
    }
}

/// An inserted snapshot is immediately visible: looking its tick up
/// finds exactly the inserted values.
pub proof fn lemma_hist_insert_lookup(s: Seq<SnapView>, t: Tick, v: Seq<ComponentValue>, w: u64)
    requires
        sorted(s),
    ensures
        hist_lookup(spec_hist_insert(s, t, v, w), t) == Some(v),
{
    let q = lemma_hist_insert_shape(s, t, v, w);
    let r = spec_hist_insert(s, t, v, w);
    assert(forall|i: int| 0 <= i < q ==> (#[trigger] r[i]).tick != t);
    lemma_hist_lookup_at(r, t, q);
}

/// Duplicate delivery is harmless: storing the same snapshot twice
/// leaves the history exactly as storing it once.
pub proof fn lemma_hist_insert_idempotent(s: Seq<SnapView>, t: Tick, v: Seq<ComponentValue>, w: u64)
    requires
        sorted(s),
    ensures
        spec_hist_insert(spec_hist_insert(s, t, v, w), t, v, w) == spec_hist_insert(s, t, v, w),
{
    let q = lemma_hist_insert_shape(s, t, v, w);
    let r = spec_hist_insert(s, t, v, w);
    lemma_first_keep_is(r, t as int, w as int, 0);
    assert(r.skip(0) =~= r);
    lemma_insert_pos_is(r, t as int, q);
    assert(r[q].tick == t);
    assert(spec_hist_insert(r, t, v, w) == r.update(q, SnapView { tick: t, values: v }));
    assert(r.update(q, SnapView { tick: t, values: v }) =~= r);
}

/// A bounded, ordered history of one entity's snapshots.
pub struct EntityHistory {
    pub entity: EntityId,
    pub snaps: Vec<Snap>,
}

impl EntityHistory {
    pub open spec fn wf(self) -> bool {
        sorted(hv(self.snaps@))
    }

    /// Store the component values of `entity` for `tick`, evicting
    /// snapshots that fall out of the retention `window`.
    pub fn insert(&mut self, tick: Tick, values: Vec<ComponentValue>, window: u64)
        requires
            old(self).wf(),
        ensures
            final(self).wf(),
            final(self).entity == old(self).entity,
            hv(final(self).snaps@) == spec_hist_insert(hv(old(self).snaps@), tick, values@, window),
    {
        let ghost orig = hv(self.snaps@);
        let ghost mut k: int = 0;
        // lazy eviction of snapshots that fell out of the window
        while self.snaps.len() > 0 && tick > window && self.snaps[0].tick < tick - window
            invariant
                0 <= k <= orig.len(),
                self.entity == old(self).entity,
                hv(self.snaps@) =~= orig.skip(k),
                forall|i: int| 0 <= i < k ==> (#[trigger] orig[i].tick) + window < tick,
            decreases self.snaps@.len(),
        {
            let ghost prev = hv(self.snaps@);
            proof {
                assert(prev.len() == self.snaps@.len());
                assert(orig.skip(k).len() == orig.len() - k);
                assert(k < orig.len());
                assert(prev[0] == orig.skip(k)[0]);
                assert(orig.skip(k)[0] == orig[0 + k]);
                assert(orig[k].tick + window < tick);
            }
            let _ = self.snaps.remove(0);
            proof {
                assert(hv(self.snaps@) =~= prev.drop_first());
                assert(prev.drop_first() =~= orig.skip(k + 1));
                k = k + 1;
            }
        }
        proof {
            if k < orig.len() {
                assert(hv(self.snaps@)[0] == orig[k]);
                assert(orig[k].tick + window >= tick);
            }
            lemma_first_keep_is(orig, tick as int, window as int, k);
        }
        let ghost s1 = hv(self.snaps@);
        // find the position the new snapshot belongs at
        let mut i: usize = 0;
        while i < self.snaps.len() && self.snaps[i].tick < tick
            invariant
                0 <= i <= self.snaps@.len(),
                hv(self.snaps@) == s1,
                forall|j: int| 0 <= j < i ==> (#[trigger] s1[j].tick) < tick,
            decreases self.snaps@.len() - i,
        {
            i = i + 1;
        }
        proof {
            lemma_insert_pos_is(s1, tick as int, i as int);
        }
        if i < self.snaps.len() && self.snaps[i].tick == tick {
            self.snaps.set(i, Snap { tick, values });
            proof {
                assert(hv(self.snaps@) =~= s1.update(
                    i as int,
                    SnapView { tick, values: values@ },
                ));
            }
        } else {
            self.snaps.insert(i, Snap { tick, values });
            proof {
                assert(hv(self.snaps@) =~= s1.insert(
                    i as int,
                    SnapView { tick, values: values@ },
                ));
            }
        }
        proof {
            lemma_hist_insert_shape(orig, tick, values@, window);
        }
    }

    /// The index of the snapshot stored for exactly `tick`.
    pub fn get(&self, tick: Tick) -> (r: Option<usize>)
        requires
            self.wf(),
        ensures
            match r {
                Some(i) => i < self.snaps@.len() && self.snaps@[i as int]@.tick == tick
                    && hist_lookup(hv(self.snaps@), tick) == Some(self.snaps@[i as int]@.values),
                None => hist_lookup(hv(self.snaps@), tick) == None::<Seq<ComponentValue>>,
            },
    {
        let mut i: usize = 0;
        while i < self.snaps.len()
            invariant
                self.wf(),
                0 <= i <= self.snaps@.len(),
                forall|j: int| 0 <= j < i ==> (#[trigger] hv(self.snaps@)[j]).tick != tick,
            decreases self.snaps@.len() - i,
        {
            if self.snaps[i].tick == tick {
                proof {
                    lemma_hist_lookup_at(hv(self.snaps@), tick, i as int);
                }
                return Some(i);
            }
            i = i + 1;
        }
        proof {
            lemma_hist_lookup_none(hv(self.snaps@), tick);
        }
        None
    }

    /// The two stored snapshots straddling render tick `rt`: `Some(i)`
    /// brackets `rt` between the adjacent stored ticks at `i` and
    /// `i + 1`. `None` means the history is too short on one side; the
    /// caller must hold the last known value rather than extrapolate.
    pub fn bracket(&self, rt: Tick) -> (r: Option<usize>)
        requires
            self.wf(),
        ensures
            match r {
                Some(i) => {
                    &&& spec_bracket(hv(self.snaps@), rt) == Some(i as int)
                    &&& i as int + 1 < self.snaps@.len()
                    &&& self.snaps@[i as int]@.tick <= rt < self.snaps@[i as int + 1]@.tick
                },
                None => {
                    &&& spec_bracket(hv(self.snaps@), rt) == None::<int>
                    &&& self.snaps@.len() == 0 || rt < self.snaps@[0]@.tick || rt
                        >= self.snaps@[self.snaps@.len() - 1]@.tick
                },
            },
    {
        let ghost s = hv(self.snaps@);
        if self.snaps.len() == 0 {
            proof {
                lemma_insert_pos_is(s, rt as int + 1, 0);
            }
            return None;
        }
        if rt < self.snaps[0].tick {
            proof {
                lemma_insert_pos_is(s, rt as int + 1, 0);
            }
            return None;
        }
        let n = self.snaps.len();
        let mut j: usize = 0;
        while j + 1 < n && self.snaps[j + 1].tick <= rt
            invariant
                self.wf(),
                n == self.snaps@.len(),
                0 <= j < n,
                self.snaps@[j as int]@.tick <= rt,
            decreases n - j,
        {
            j = j + 1;
        }
        proof {
            assert(forall|i: int|
                0 <= i <= j ==> (#[trigger] s[i]).tick <= s[j as int].tick);
        }
        if j + 1 < n {
            proof {
                lemma_insert_pos_is(s, rt as int + 1, j as int + 1);
            }
            Some(j)
        } else {
            proof {
                lemma_insert_pos_is(s, rt as int + 1, n as int);
            }
            None
        }
    }
}

/// A history without a snapshot at `t` anywhere has no lookup result.
pub proof fn lemma_hist_lookup_none(s: Seq<SnapView>, t: Tick)
    requires
        forall|i: int| 0 <= i < s.len() ==> (#[trigger] s[i]).tick != t,
    ensures
        hist_lookup(s, t) == None::<Seq<ComponentValue>>,
    decreases s.len(),
{
    if s.len() > 0 {
        assert(forall|i: int| 0 <= i < s.len() - 1 ==> s.drop_first()[i] == s[i + 1]);
        lemma_hist_lookup_none(s.drop_first(), t);
    }
}

/// The mathematical value of one entity's history.
#[verifier::ext_equal]
pub struct HistView {
    pub entity: EntityId,
    pub snaps: Seq<SnapView>,
}

impl View for EntityHistory {
    type V = HistView;

    open spec fn view(&self) -> HistView {
        HistView { entity: self.entity, snaps: hv(self.snaps@) }
    }
}

/// The mathematical value of the whole store.
pub open spec fn sv(hs: Seq<EntityHistory>) -> Seq<HistView> {
    hs.map_values(|h: EntityHistory| h@)
}

/// Entities are unique and every history is ordered.
pub open spec fn store_wf(s: Seq<HistView>) -> bool {
    &&& forall|i: int, j: int| 0 <= i < j < s.len() ==> s[i].entity != s[j].entity
    &&& forall|i: int| 0 <= i < s.len() ==> sorted((#[trigger] s[i]).snaps)
}

/// The index of an entity's history, or the length if none exists.
pub open spec fn find_hist(s: Seq<HistView>, e: EntityId) -> int
    decreases s.len(),
{
    if s.len() == 0 {
        0
    } else if s[0].entity == e {
        0
    } else {
        1 + find_hist(s.drop_first(), e)
    }
}

pub proof fn lemma_find_hist_is(s: Seq<HistView>, e: EntityId, k: int)
    requires
        0 <= k <= s.len(),
        forall|i: int| 0 <= i < k ==> (#[trigger] s[i]).entity != e,
        k < s.len() ==> s[k].entity == e,
    ensures
        find_hist(s, e) == k,
    decreases s.len(),
{
    if s.len() > 0 && k > 0 {
        assert(forall|i: int| 0 <= i < k - 1 ==> (#[trigger] s.drop_first()[i]).entity != e) by {
            assert(forall|i: int| 0 <= i < k - 1 ==> s.drop_first()[i] == s[i + 1]);
        }
        lemma_find_hist_is(s.drop_first(), e, k - 1);
    }
}

pub proof fn lemma_find_hist_char(s: Seq<HistView>, e: EntityId)
    ensures
        0 <= find_hist(s, e) <= s.len(),
        forall|i: int| 0 <= i < find_hist(s, e) ==> (#[trigger] s[i]).entity != e,
        find_hist(s, e) < s.len() ==> s[find_hist(s, e)].entity == e,
    decreases s.len(),
{
    if s.len() > 0 && s[0].entity != e {
        lemma_find_hist_char(s.drop_first(), e);
        assert(forall|i: int| 1 <= i < find_hist(s, e) ==> s[i] == s.drop_first()[i - 1]);
    }
}

/// The store after an entity's snapshot `(t, v)` is written with
/// retention window `w`.
pub open spec fn store_insert(
    s: Seq<HistView>,
    e: EntityId,
    t: Tick,
    v: Seq<ComponentValue>,
    w: u64,
) -> Seq<HistView> {
    let i = find_hist(s, e);
    if i < s.len() {
        s.update(i, HistView { entity: e, snaps: spec_hist_insert(s[i].snaps, t, v, w) })
    } else {
        s.push(HistView { entity: e, snaps: seq![SnapView { tick: t, values: v }] })
    }
}

/// The stored values of entity `e` at tick `t`.
pub open spec fn store_lookup(s: Seq<HistView>, e: EntityId, t: Tick) -> Option<
    Seq<ComponentValue>,
> {
    let i = find_hist(s, e);
    if i < s.len() {
        hist_lookup(s[i].snaps, t)
    } else {
        None
    }
}

/// The history of entity `e` in the store, if one exists.
pub open spec fn hist_of(s: Seq<HistView>, e: EntityId) -> Option<Seq<SnapView>> {
    let i = find_hist(s, e);
    if i < s.len() {
        Some(s[i].snaps)
    } else {
        None
    }
}

/// The history an insert for entity `e` starts from: what is stored, or
/// a fresh empty history.
pub open spec fn hist_or_empty(s: Seq<HistView>, e: EntityId) -> Seq<SnapView> {
    match hist_of(s, e) {
        Some(h) => h,
        None => Seq::empty(),
    }
}

/// A store insert keeps the store well formed, writes exactly the
/// entity's new history, and leaves every other entity's history alone.
pub proof fn lemma_store_insert_props(
    s: Seq<HistView>,
    e: EntityId,
    t: Tick,
    v: Seq<ComponentValue>,
    w: u64,
)
    requires
        store_wf(s),
    ensures
        store_wf(store_insert(s, e, t, v, w)),
        hist_of(store_insert(s, e, t, v, w), e) == Some(
            spec_hist_insert(hist_or_empty(s, e), t, v, w),
        ),
        forall|e2: EntityId| e2 != e ==> #[trigger] hist_of(store_insert(s, e, t, v, w), e2)
            == hist_of(s, e2),
        store_lookup(store_insert(s, e, t, v, w), e, t) == Some(v),
{
    let i = find_hist(s, e);
    lemma_find_hist_char(s, e);
    let r = store_insert(s, e, t, v, w);
    if i < s.len() {
        assert(sorted(s[i].snaps));
        let q = lemma_hist_insert_shape(s[i].snaps, t, v, w);
        assert(spec_hist_insert(Seq::empty(), t, v, w) =~= seq![SnapView { tick: t, values: v }]);
        assert(forall|j: int| 0 <= j < r.len() ==> (#[trigger] r[j]).entity == s[j].entity);
        assert(store_wf(r)) by {
            assert(forall|j: int| 0 <= j < r.len() && j != i ==> r[j] == s[j]);
        }
        lemma_find_hist_is(r, e, i);
        assert(hist_or_empty(s, e) == s[i].snaps);
        lemma_hist_insert_lookup(s[i].snaps, t, v, w);
        assert forall|e2: EntityId| e2 != e implies #[trigger] hist_of(r, e2) == hist_of(
            s,
            e2,
        ) by {
            let k2 = find_hist(s, e2);
            lemma_find_hist_char(s, e2);
            if k2 < s.len() {
                assert(k2 != i);
                lemma_find_hist_is(r, e2, k2);
                assert(r[k2] == s[k2]);
            } else {
                lemma_find_hist_is(r, e2, r.len() as int);
            }
        }
    } else {
        // a fresh entity: its singleton history is appended
        let x = SnapView { tick: t, values: v };
        assert(r == s.push(HistView { entity: e, snaps: seq![x] }));
        assert(spec_hist_insert(Seq::empty(), t, v, w) =~= seq![x]) by {
            assert(Seq::<SnapView>::empty().skip(0) =~= Seq::<SnapView>::empty());
        }
        assert(store_wf(r)) by {
            assert(forall|j: int| 0 <= j < s.len() ==> r[j] == s[j]);
            assert(sorted(seq![x]));
        }
        lemma_find_hist_is(r, e, s.len() as int);
        lemma_hist_lookup_at(seq![x], t, 0);
        assert forall|e2: EntityId| e2 != e implies #[trigger] hist_of(r, e2) == hist_of(
            s,
            e2,
        ) by {
            let k2 = find_hist(s, e2);
            lemma_find_hist_char(s, e2);
            if k2 < s.len() {
                lemma_find_hist_is(r, e2, k2);
                assert(r[k2] == s[k2]);
            } else {
                lemma_find_hist_is(r, e2, r.len() as int);
            }
        }
    }
}

/// Inserting a snapshot an entity already has, unchanged, changes
/// nothing.
pub proof fn lemma_store_insert_stable(
    s: Seq<HistView>,
    e: EntityId,
    t: Tick,
    v: Seq<ComponentValue>,
    w: u64,
)
    requires
        store_wf(s),
        hist_of(s, e) == Some(spec_hist_insert(hist_or_empty(s, e), t, v, w)),
        spec_hist_insert(hist_or_empty(s, e), t, v, w) == hist_or_empty(s, e),
    ensures
        store_insert(s, e, t, v, w) == s,
{
    let i = find_hist(s, e);
    lemma_find_hist_char(s, e);
    assert(i < s.len());
    let r = store_insert(s, e, t, v, w);
    assert(r == s.update(i, HistView { entity: e, snaps: spec_hist_insert(s[i].snaps, t, v, w) }));
    assert(hist_or_empty(s, e) == s[i].snaps);
    assert(HistView { entity: e, snaps: spec_hist_insert(s[i].snaps, t, v, w) } =~~= s[i]);
    assert(r =~~= s);
}

/// Ring buffer of past simulation states keyed by tick, per entity.
pub struct SnapshotStore {
    /// Retention window in ticks: the maximum of the rollback window
    /// and the interpolation delay.
    pub window: u64,
    pub histories: Vec<EntityHistory>,
}

impl SnapshotStore {
    pub open spec fn wf(self) -> bool {
        store_wf(sv(self.histories@))
    }

    pub open spec fn contents(self) -> Seq<HistView> {
        sv(self.histories@)
    }

    pub fn new(window: u64) -> (s: SnapshotStore)
        ensures
            s.wf(),
            s.window == window,
            s.contents().len() == 0,
    {
        SnapshotStore { window, histories: Vec::new() }
    }

    /// The index of `entity`'s history.
    fn find(&self, entity: EntityId) -> (r: Option<usize>)
        ensures
            match r {
                Some(i) => i < self.histories@.len() && find_hist(self.contents(), entity)
                    == i as int,
                None => find_hist(self.contents(), entity) == self.contents().len(),
            },
    {
        let mut i: usize = 0;
        while i < self.histories.len()
            invariant
                0 <= i <= self.histories@.len(),
                forall|j: int| 0 <= j < i ==> (#[trigger] sv(self.histories@)[j]).entity != entity,
            decreases self.histories@.len() - i,
        {
            if self.histories[i].entity == entity {
                proof {
                    lemma_find_hist_is(sv(self.histories@), entity, i as int);
                }
                return Some(i);
            }
            i = i + 1;
        }
        proof {
            lemma_find_hist_is(sv(self.histories@), entity, self.histories@.len() as int);
        }
        None
    }

    /// Store `values` as the snapshot of `entity` for `tick`, evicting
    /// what fell out of the retention window.
    pub fn insert(&mut self, entity: EntityId, tick: Tick, values: Vec<ComponentValue>)
        requires
            old(self).wf(),
        ensures
            final(self).wf(),
            final(self).window == old(self).window,
            final(self).contents() == store_insert(
                old(self).contents(),
                entity,
                tick,
                values@,
                old(self).window,
            ),
            store_lookup(final(self).contents(), entity, tick) == Some(values@),
    {
        let ghost orig = sv(self.histories@);
        let window = self.window;
        match self.find(entity) {
            Some(i) => {
                proof {
                    lemma_find_hist_char(orig, entity);
                    assert(orig[i as int].entity == entity);
                    assert(orig[i as int] == sv(self.histories@)[i as int]);
                    assert(sorted(orig[i as int].snaps));
                }
                let mut h = self.histories.remove(i);
                proof {
                    assert(hv(h.snaps@) == orig[i as int].snaps);
                    assert(h.entity == entity);
                }
                h.insert(tick, values, window);
                self.histories.insert(i, h);
                proof {
                    let target = orig.update(
                        i as int,
                        HistView {
                            entity,
                            snaps: spec_hist_insert(orig[i as int].snaps, tick, values@, window),
                        },
                    );
                    assert forall|j: int|
                        0 <= j < sv(self.histories@).len() implies sv(self.histories@)[j]
                        =~~= target[j] by {
                        if j < i as int {
                            assert(self.histories@[j] == old(self).histories@[j]);
                        } else if j > i as int {
                            assert(self.histories@[j] == old(self).histories@[j]);
                        } else {
                            assert(sv(self.histories@)[j] == h@);
                        }
                    }
                    assert(sv(self.histories@) =~~= target);
                    let q = lemma_hist_insert_shape(orig[i as int].snaps, tick, values@, window);
                    assert forall|a: int|
                        0 <= a < i implies (#[trigger] sv(self.histories@)[a]).entity
                        != entity by {}
                    lemma_find_hist_is(sv(self.histories@), entity, i as int);
                    lemma_hist_insert_lookup(orig[i as int].snaps, tick, values@, window);
                }
            },
            None => {
                let mut snaps: Vec<Snap> = Vec::new();
                snaps.push(Snap { tick, values });
                self.histories.push(EntityHistory { entity, snaps });
                proof {
                    assert(sv(self.histories@) =~~= orig.push(
                        HistView { entity, snaps: seq![SnapView { tick, values: values@ }] },
                    ));
                    lemma_find_hist_char(orig, entity);
                    lemma_find_hist_is(sv(self.histories@), entity, orig.len() as int);
                    lemma_hist_lookup_at(seq![SnapView { tick, values: values@ }], tick, 0);
                }
            },
        }
    }

    /// The stored snapshot of `entity` at exactly `tick`, if retained.
    pub fn get(&self, entity: EntityId, tick: Tick) -> (r: Option<Vec<ComponentValue>>)
        requires
            self.wf(),
        ensures
            match r {
                Some(v) => store_lookup(self.contents(), entity, tick) == Some(v@),
                None => store_lookup(self.contents(), entity, tick) == None::<
                    Seq<ComponentValue>,
                >,
            },
    {
        match self.find(entity) {
            Some(i) => {
                match self.histories[i].get(tick) {
                    Some(j) => Some(crate::types::clone_values(&self.histories[i].snaps[j].values)),
                    None => None,
                }
            },
            None => None,
        }
    }

    /// Borrow an entity's stored history, for bracket and render
    /// queries.
    pub fn history_of(&self, entity: EntityId) -> (r: Option<&EntityHistory>)
        requires
            self.wf(),
        ensures
            match r {
                Some(h) => {
                    &&& find_hist(self.contents(), entity) < self.contents().len()
                    &&& h@ == self.contents()[find_hist(self.contents(), entity)]
                    &&& h.wf()
                    &&& h.entity == entity
                },
                None => find_hist(self.contents(), entity) == self.contents().len(),
            },
    {
        match self.find(entity) {
            Some(i) => {
                proof {
                    lemma_find_hist_char(sv(self.histories@), entity);
                }
                Some(&self.histories[i])
            },
            None => None,
        }
    }

    /// Drop an entity's whole history (despawn).
    pub fn remove_entity(&mut self, entity: EntityId)
        requires
            old(self).wf(),
        ensures
            final(self).wf(),
            final(self).window == old(self).window,
            find_hist(old(self).contents(), entity) < old(self).contents().len() ==> final(self).contents()
                == old(self).contents().remove(find_hist(old(self).contents(), entity)),
            find_hist(old(self).contents(), entity) >= old(self).contents().len() ==> *final(self)
                == *old(self),
    {
        let ghost orig = sv(self.histories@);
        match self.find(entity) {
            Some(i) => {
                let _ = self.histories.remove(i);
                proof {
                    assert(sv(self.histories@) =~~= orig.remove(i as int));
                    assert forall|a: int, b: int|
                        0 <= a < b < sv(self.histories@).len() implies sv(self.histories@)[a].entity
                        != sv(self.histories@)[b].entity && sorted(
                        sv(self.histories@)[a].snaps,
                    ) && sorted(sv(self.histories@)[b].snaps) by {
                        let ra = if a < i as int {
                            a
                        } else {
                            a + 1
                        };
                        let rb = if b < i as int {
                            b
                        } else {
                            b + 1
                        };
                        assert(sv(self.histories@)[a] == orig[ra]);
                        assert(sv(self.histories@)[b] == orig[rb]);
                    }
                }
            },
            None => {},
        }
    }

    /// Session teardown: all snapshot history is cleared.
    pub fn reset(&mut self)
        ensures
            final(self).wf(),
            final(self).window == old(self).window,
            final(self).contents().len() == 0,
    {
        self.histories = Vec::new();
    }
}

} // verus!
