//! Shared identifiers and the component registry: each replicated
//! component kind carries a typed payload and declares how it is
//! synchronized (`Once` on spawn, or `Full` on every update).

use vstd::prelude::*;

verus! {

/// Discrete unit of simulation time; strictly increases by one per step.
pub type Tick = u64;

/// Opaque entity identifier; the server is its single authority.
pub type EntityId = u64;

/// Identifier of a replication group.
pub type GroupId = u64;

/// A two-dimensional fixed-point vector. The scale (how many units make
/// one world unit) is chosen by the caller and never interpreted here.
#[derive(Clone, Copy, PartialEq, Eq, Structural, Debug)]
pub struct Vec2 {
    pub x: i64,
    pub y: i64,
}

/// Tag of a replicated component kind.
#[derive(Clone, Copy, PartialEq, Eq, Structural, Debug)]
pub enum ComponentType {
    Position,
    Rotation,
    LinearVelocity,
    AngularVelocity,
    Color,
    StableId,
}

/// How a component kind is synchronized: `Once` is sent at spawn and is
/// immutable thereafter; `Full` is sent on every update and participates
/// in interpolation and correction.
#[derive(Clone, Copy, PartialEq, Eq, Structural, Debug)]
pub enum SyncMode {
    Once,
    Full,
}

/// A typed component payload. Spatial payloads are fixed-point integers;
/// `Rotation` is an angle in turn units (see `interpolate::TURN`).
#[derive(Clone, Copy, PartialEq, Eq, Structural, Debug)]
pub enum ComponentValue {
    Position(Vec2),
    Rotation(i64),
    LinearVelocity(Vec2),
    AngularVelocity(i64),
    Color(u32),
    StableId(u64),
}

/// The kind a payload belongs to.
pub open spec fn spec_type_of(v: ComponentValue) -> ComponentType {
    match v {
        ComponentValue::Position(_) => ComponentType::Position,
        ComponentValue::Rotation(_) => ComponentType::Rotation,
        ComponentValue::LinearVelocity(_) => ComponentType::LinearVelocity,
        ComponentValue::AngularVelocity(_) => ComponentType::AngularVelocity,
        ComponentValue::Color(_) => ComponentType::Color,
        ComponentValue::StableId(_) => ComponentType::StableId,
    }
}

pub fn type_of(v: &ComponentValue) -> (t: ComponentType)
    ensures
        t == spec_type_of(*v),
{
    match v {
        ComponentValue::Position(_) => ComponentType::Position,
        ComponentValue::Rotation(_) => ComponentType::Rotation,
        ComponentValue::LinearVelocity(_) => ComponentType::LinearVelocity,
        ComponentValue::AngularVelocity(_) => ComponentType::AngularVelocity,
        ComponentValue::Color(_) => ComponentType::Color,
        ComponentValue::StableId(_) => ComponentType::StableId,
    }
}

/// Registry: the synchronization mode each component kind declares.
pub open spec fn spec_sync_mode(t: ComponentType) -> SyncMode {
    match t {
        ComponentType::Color => SyncMode::Once,
        ComponentType::StableId => SyncMode::Once,
        _ => SyncMode::Full,
    }
}

pub fn sync_mode(t: ComponentType) -> (m: SyncMode)
    ensures
        m == spec_sync_mode(t),
{
    match t {
        ComponentType::Color => SyncMode::Once,
        ComponentType::StableId => SyncMode::Once,
        _ => SyncMode::Full,
    }
}

/// Whether a kind is re-sent every update (and hence interpolated).
pub open spec fn is_full_mode(t: ComponentType) -> bool {
    spec_sync_mode(t) == SyncMode::Full
}

/// A component list is well formed when each kind appears at most once.
pub open spec fn wf_values(vs: Seq<ComponentValue>) -> bool {
    forall|i: int, j: int|
        0 <= i < j < vs.len() ==> spec_type_of(vs[i]) != spec_type_of(vs[j])
}

/// The first value of kind `t` in `vs`, if one is stored.
pub open spec fn spec_lookup(vs: Seq<ComponentValue>, t: ComponentType) -> Option<ComponentValue>
    decreases vs.len(),
{
    if vs.len() == 0 {
        None
    } else if spec_type_of(vs[0]) == t {
        Some(vs[0])
    } else {
        spec_lookup(vs.drop_first(), t)
    }
}

pub fn lookup_component(vs: &Vec<ComponentValue>, t: ComponentType) -> (r: Option<ComponentValue>)
    ensures
        r == spec_lookup(vs@, t),
{
    let mut i: usize = 0;
    proof {
        assert(vs@.skip(0) =~= vs@);
    }
    while i < vs.len()
        invariant
            0 <= i <= vs@.len(),
            spec_lookup(vs@, t) == spec_lookup(vs@.skip(i as int), t),
        decreases vs@.len() - i,
    {
        assert(vs@.skip(i as int)[0] == vs@[i as int]);
        if type_of(&vs[i]) == t {
            return Some(vs[i]);
        }
        assert(vs@.skip(i as int).drop_first() =~= vs@.skip(i as int + 1));
        i = i + 1;
    }
    assert(vs@.skip(i as int) =~= Seq::<ComponentValue>::empty());
    None
}

/// An owned copy of a component list.
pub fn clone_values(vs: &Vec<ComponentValue>) -> (r: Vec<ComponentValue>)
    ensures
        r@ == vs@,
{
    let mut out: Vec<ComponentValue> = Vec::new();
    let mut i: usize = 0;
    while i < vs.len()
        invariant
            0 <= i <= vs@.len(),
            out@ == vs@.take(i as int),
        decreases vs@.len() - i,
    {
        out.push(vs[i]);
        proof {
            assert(out@ =~= vs@.take(i as int + 1));
        }
        i = i + 1;
    }
    proof {
        assert(out@ =~= vs@);
    }
    out
}

/// Structural equality of two component lists.
pub fn values_equal(a: &Vec<ComponentValue>, b: &Vec<ComponentValue>) -> (r: bool)
    ensures
        r <==> a@ == b@,
{
    if a.len() != b.len() {
        return false;
    }
    let mut i: usize = 0;
    while i < a.len()
        invariant
            0 <= i <= a@.len(),
            a@.len() == b@.len(),
            forall|j: int| 0 <= j < i ==> a@[j] == b@[j],
        decreases a@.len() - i,
    {
        if a[i] != b[i] {
            return false;
        }
        i = i + 1;
    }
    proof {
        assert(a@ =~= b@);
    }
    true
}

} // verus!
