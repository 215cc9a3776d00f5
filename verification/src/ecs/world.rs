//! The ECS world: entity ids, archetype storage and the location of every live entity.

use vstd::prelude::*;

use crate::ecs::archetype::{
    index_of, lemma_index_of, lemma_row_map_insert, lemma_row_map_remove, lemma_row_map_update, lemma_sorted_insert,
    row_map, strictly_increasing, Archetype,
};
use crate::ecs::storage::{ComponentKind, Entity};

verus! {

/// Where an entity's components are stored.
#[derive(Clone, Copy)]
struct Location {
    archetype_id: usize,
    row: usize,
}

/// ECS world backed by archetype storage: entities with the same set of component kinds share
/// one archetype, each kind is a contiguous column, and every live entity has a location.
pub struct World<C> {
    next_id: Entity,
    recycled: Vec<Entity>,
    archetypes: Vec<Archetype<C>>,
    /// Indexed by entity id; `None` for ids that are free.
    entity_location: Vec<Option<Location>>,
}

impl<C> View for World<C> {
    type V = Map<Entity, Map<ComponentKind, C>>;

    /// Every live entity and its components.
    closed spec fn view(&self) -> Map<Entity, Map<ComponentKind, C>> {
        view_in(self.entity_location@, self.archetypes@)
    }
}

spec fn alive_in(locs: Seq<Option<Location>>, e: Entity) -> bool {
    (e as int) < locs.len() && locs[e as int] is Some
}

spec fn loc_in(locs: Seq<Option<Location>>, e: Entity) -> Location {
    locs[e as int]->Some_0
}

spec fn components_in<C>(locs: Seq<Option<Location>>, archs: Seq<Archetype<C>>, e: Entity) -> Map<ComponentKind, C> {
    archs[loc_in(locs, e).archetype_id as int].components(loc_in(locs, e).row as int)
}

spec fn view_in<C>(locs: Seq<Option<Location>>, archs: Seq<Archetype<C>>) -> Map<Entity, Map<ComponentKind, C>> {
    Map::new(|e: Entity| alive_in(locs, e), |e: Entity| components_in(locs, archs, e))
}

spec fn loc_valid_in<C>(locs: Seq<Option<Location>>, archs: Seq<Archetype<C>>, e: Entity) -> bool {
    let l = loc_in(locs, e);
    &&& l.archetype_id < archs.len()
    &&& l.row < archs[l.archetype_id as int].entities@.len()
    &&& archs[l.archetype_id as int].entities@[l.row as int] == e
}

spec fn row_owned_in<C>(locs: Seq<Option<Location>>, archs: Seq<Archetype<C>>, a: int, r: int) -> bool {
    let e = archs[a].entities@[r];
    &&& (e as int) < locs.len()
    &&& locs[e as int] == Some(Location { archetype_id: a as usize, row: r as usize })
}

spec fn archetypes_ok_in<C>(archs: Seq<Archetype<C>>) -> bool {
    &&& archs.len() > 0
    &&& archs[0].key@.len() == 0
    &&& forall|a: int| 0 <= a < archs.len() ==> (#[trigger] archs[a]).wf()
    &&& forall|a: int, b: int| 0 <= a < b < archs.len() ==> (#[trigger] archs[a]).key@ != (#[trigger] archs[b]).key@
}

spec fn locations_ok_in<C>(next_id: Entity, locs: Seq<Option<Location>>, archs: Seq<Archetype<C>>) -> bool {
    &&& locs.len() == next_id
    &&& forall|e: Entity| #[trigger] alive_in(locs, e) ==> loc_valid_in(locs, archs, e)
}

spec fn rows_ok_in<C>(locs: Seq<Option<Location>>, archs: Seq<Archetype<C>>) -> bool {
    forall|a: int, r: int|
        0 <= a < archs.len() && 0 <= r < archs[a].entities@.len() ==> #[trigger] row_owned_in(locs, archs, a, r)
}

spec fn recycled_ok_in(next_id: Entity, recycled: Seq<Entity>, locs: Seq<Option<Location>>) -> bool {
    &&& forall|i: int| 0 <= i < recycled.len() ==> (#[trigger] recycled[i] as int) < next_id
        && !alive_in(locs, recycled[i])
    &&& forall|i: int, j: int| 0 <= i < j < recycled.len() ==> recycled[i] != recycled[j]
}

/// Replacing one value of a live entity's row, leaving everything else of its archetype alone,
/// keeps the storage consistent and changes exactly that component.
proof fn lemma_replace_value<C>(
    next_id: Entity,
    recycled: Seq<Entity>,
    locs: Seq<Option<Location>>,
    archs: Seq<Archetype<C>>,
    e: Entity,
    kind: ComponentKind,
    arch2: Archetype<C>,
    v: C,
)
    requires
        archetypes_ok_in(archs),
        locations_ok_in(next_id, locs, archs),
        rows_ok_in(locs, archs),
        recycled_ok_in(next_id, recycled, locs),
        alive_in(locs, e),
        archs[loc_in(locs, e).archetype_id as int].key@.contains(kind),
        arch2.key@ == archs[loc_in(locs, e).archetype_id as int].key@,
        arch2.entities@ == archs[loc_in(locs, e).archetype_id as int].entities@,
        arch2.columns@.len() == archs[loc_in(locs, e).archetype_id as int].columns@.len(),
        forall|c: int| 0 <= c < arch2.columns@.len() && c != index_of(arch2.key@, kind)
            ==> #[trigger] arch2.columns@[c] == archs[loc_in(locs, e).archetype_id as int].columns@[c],
        arch2.column_of(kind) == archs[loc_in(locs, e).archetype_id as int].column_of(kind).update(
            loc_in(locs, e).row as int,
            v,
        ),
    ensures
        ({
            let archs2 = archs.update(loc_in(locs, e).archetype_id as int, arch2);
            &&& archetypes_ok_in(archs2)
            &&& locations_ok_in(next_id, locs, archs2)
            &&& rows_ok_in(locs, archs2)
            &&& view_in(locs, archs2) == view_in(locs, archs).insert(e, view_in(locs, archs)[e].insert(kind, v))
        }),
{
    let l = loc_in(locs, e);
    let a = l.archetype_id as int;
    let oa = archs[a];
    let archs2 = archs.update(a, arch2);
    assert(loc_valid_in(locs, archs, e));
    assert(oa.wf());
    let c = index_of(oa.key@, kind);
    let ci = choose|i: int| 0 <= i < oa.key@.len() && oa.key@[i] == kind;
    lemma_index_of(oa.key@, ci);
    assert(arch2.wf()) by {
        assert forall|j: int| 0 <= j < arch2.columns@.len() implies (#[trigger] arch2.columns@[j]).data@.len()
            == arch2.entities@.len() by {
            if j != c {
                assert(arch2.columns@[j] == oa.columns@[j]);
            }
        }
    }
    assert(arch2.row(l.row as int) =~= oa.row(l.row as int).update(c, v));
    lemma_row_map_update(oa.key@, oa.row(l.row as int), c, v);
    assert forall|q: int| 0 <= q < oa.entities@.len() && q != l.row implies #[trigger] arch2.row(q) == oa.row(q) by {
        assert(arch2.row(q) =~= oa.row(q));
    }
    assert forall|x: int| 0 <= x < archs2.len() implies (#[trigger] archs2[x]).wf() by {
        if x != a {
            assert(archs[x].wf());
        }
    }
    assert forall|x: Entity| #[trigger] alive_in(locs, x) implies loc_valid_in(locs, archs2, x)
        && (x != e ==> components_in(locs, archs2, x) == components_in(locs, archs, x)) by {
        assert(loc_valid_in(locs, archs, x));
        let lx = loc_in(locs, x);
        if x != e && lx.archetype_id as int == a {
            assert(lx.row != l.row);
        }
    }
    assert forall|x: int, q: int| 0 <= x < archs2.len() && 0 <= q < archs2[x].entities@.len()
        implies #[trigger] row_owned_in(locs, archs2, x, q) by {
        assert(row_owned_in(locs, archs, x, q));
    }
    assert(view_in(locs, archs2) =~= view_in(locs, archs).insert(e, view_in(locs, archs)[e].insert(kind, v)));
}

/// The live entities `m` after `e` is given the component `c` of kind `kind`, replacing one of the
/// same kind (nothing changes when `e` is not alive).
pub open spec fn with_component<C>(m: Map<Entity, Map<ComponentKind, C>>, e: Entity, kind: ComponentKind, c: C) -> Map<
    Entity,
    Map<ComponentKind, C>,
> {
    if m.contains_key(e) {
        m.insert(e, m[e].insert(kind, c))
    } else {
        m
    }
}

/// The live entities `m` after the component of kind `kind` is taken from `e` (nothing changes
/// when `e` is not alive or has none).
pub open spec fn without_component<C>(m: Map<Entity, Map<ComponentKind, C>>, e: Entity, kind: ComponentKind) -> Map<
    Entity,
    Map<ComponentKind, C>,
> {
    if m.contains_key(e) {
        m.insert(e, m[e].remove(kind))
    } else {
        m
    }
}

/// The update applies to an entity with components `comps`: it has `kind` and not `excl`.
pub open spec fn applies<C>(comps: Map<ComponentKind, C>, kind: ComponentKind, excl: Option<ComponentKind>) -> bool {
    comps.contains_key(kind) && match excl {
        Some(x) => !comps.contains_key(x),
        None => true,
    }
}

impl<C> World<C> {
    /// `e` is a live entity.
    #[verifier::inline]
    spec fn alive(&self, e: Entity) -> bool {
        alive_in(self.entity_location@, e)
    }

    #[verifier::inline]
    spec fn loc(&self, e: Entity) -> Location {
        loc_in(self.entity_location@, e)
    }

    #[verifier::inline]
    spec fn components_of(&self, e: Entity) -> Map<ComponentKind, C> {
        components_in(self.entity_location@, self.archetypes@, e)
    }

    #[verifier::inline]
    spec fn loc_valid(&self, e: Entity) -> bool {
        loc_valid_in(self.entity_location@, self.archetypes@, e)
    }

    #[verifier::inline]
    spec fn row_owned(&self, a: int, r: int) -> bool {
        row_owned_in(self.entity_location@, self.archetypes@, a, r)
    }

    #[verifier::inline]
    spec fn archetypes_ok(&self) -> bool {
        archetypes_ok_in(self.archetypes@)
    }

    #[verifier::inline]
    spec fn locations_ok(&self) -> bool {
        locations_ok_in(self.next_id, self.entity_location@, self.archetypes@)
    }

    #[verifier::inline]
    spec fn rows_ok(&self) -> bool {
        rows_ok_in(self.entity_location@, self.archetypes@)
    }

    #[verifier::inline]
    spec fn recycled_ok(&self) -> bool {
        recycled_ok_in(self.next_id, self.recycled@, self.entity_location@)
    }

    /// The component kinds stored by archetype `a` (empty for an index past the last archetype).
    pub closed spec fn archetype_kinds(&self, a: int) -> Set<ComponentKind> {
        if 0 <= a < self.archetypes@.len() { self.archetypes@[a].key@.to_set() } else { Set::empty() }
    }

    /// Internal consistency of the storage.
    pub closed spec fn wf(&self) -> bool {
        &&& self.archetypes_ok()
        &&& self.locations_ok()
        &&& self.rows_ok()
        &&& self.recycled_ok()
    }

    /// The id allocator: the next fresh id, and the freed ids waiting to be handed out again
    /// (the last one first).
    pub closed spec fn ids(&self) -> (Entity, Seq<Entity>) {
        (self.next_id, self.recycled@)
    }

    /// The id the next [`World::create_entity`] hands out: the most recently freed id, else a fresh one.
    pub open spec fn next_entity(&self) -> Entity {
        if self.ids().1.len() > 0 { self.ids().1.last() } else { self.ids().0 }
    }

    /// An entity can still be created without running out of ids: a freed id waits, or the next
    /// fresh id is not the last one.
    pub open spec fn can_create(&self) -> bool {
        self.recycling() || self.ids().0 < Entity::MAX
    }

    /// Some freed id waits to be handed out again.
    pub open spec fn recycling(&self) -> bool {
        self.ids().1.len() > 0
    }

    /// Number of archetypes (archetype 0 holds the entities without components).
    pub closed spec fn archetype_count(&self) -> nat {
        self.archetypes@.len()
    }

    /// An empty world (archetype 0 is the empty archetype every new entity starts in).
    pub fn new() -> (w: Self)
        ensures
            w.wf(),
            w@ == Map::<Entity, Map<ComponentKind, C>>::empty(),
            w.ids() == (0 as Entity, Seq::<Entity>::empty()),
            w.next_entity() == 0,
            w.can_create(),
            !w.recycling(),
    {
        let mut archetypes: Vec<Archetype<C>> = Vec::new();
        archetypes.push(Archetype::new(Vec::new()));
        let w = World { next_id: 0, recycled: Vec::new(), archetypes, entity_location: Vec::new() };
        assert(w@ =~= Map::<Entity, Map<ComponentKind, C>>::empty());
        w
    }

    fn keys_equal(a: &Vec<ComponentKind>, b: &Vec<ComponentKind>) -> (r: bool)
        ensures
            r == (a@ == b@),
    {
        if a.len() != b.len() {
            return false;
        }
        let mut i: usize = 0;
        while i < a.len()
            invariant
                a@.len() == b@.len(),
                i <= a@.len(),
                forall|j: int| 0 <= j < i ==> a@[j] == b@[j],
            decreases a.len() - i,
        {
            if a[i] != b[i] {
                return false;
            }
            i = i + 1;
        }
        assert(a@ =~= b@);
        true
    }

    /// Index of the archetype with kinds `key`, creating it (empty) when missing.
    fn find_or_create(&mut self, key: Vec<ComponentKind>) -> (b: usize)
        requires
            old(self).wf(),
            strictly_increasing(key@),
        ensures
            final(self).wf(),
            final(self)@ == old(self)@,
            b < final(self).archetypes@.len(),
            final(self).archetypes@[b as int].key@ == key@,
            final(self).archetypes@.len() >= old(self).archetypes@.len(),
            forall|a: int| 0 <= a < old(self).archetypes@.len() ==> #[trigger] final(self).archetypes@[a] == old(self).archetypes@[a],
            final(self).next_id == old(self).next_id,
            final(self).recycled@ == old(self).recycled@,
            final(self).entity_location@ == old(self).entity_location@,
    {
        let mut i: usize = 0;
        while i < self.archetypes.len()
            invariant
                i <= self.archetypes@.len(),
                *self == *old(self),
                old(self).wf(),
                forall|j: int| 0 <= j < i ==> (#[trigger] self.archetypes@[j]).key@ != key@,
            decreases self.archetypes.len() - i,
        {
            if Self::keys_equal(&self.archetypes[i].key, &key) {
                return i;
            }
            i = i + 1;
        }
        let ghost old_self = *self;
        self.archetypes.push(Archetype::new(key));
        let b = self.archetypes.len() - 1;
        proof {
            assert forall|x: int, y: int| 0 <= x < y < self.archetypes@.len() implies (#[trigger] self.archetypes@[x]).key@
                != (#[trigger] self.archetypes@[y]).key@ by {
                if y == b as int {
                    assert(old_self.archetypes@[x].key@ != key@);
                } else {
                    assert(old_self.archetypes@[x].key@ != old_self.archetypes@[y].key@);
                }
            }
            assert(self.archetypes_ok());
            assert forall|e: Entity| #[trigger] self.alive(e) implies self.loc_valid(e) by {
                assert(old_self.alive(e));
                assert(old_self.loc_valid(e));
            }
            assert forall|a: int, r: int|
                0 <= a < self.archetypes@.len() && 0 <= r < self.archetypes@[a].entities@.len()
                implies #[trigger] self.row_owned(a, r) by {
                assert(a < old_self.archetypes@.len());
                assert(old_self.row_owned(a, r));
            }
            assert forall|i: int| 0 <= i < self.recycled@.len() implies (#[trigger] self.recycled@[i] as int) < self.next_id
                && !self.alive(self.recycled@[i]) by {
                assert(!old_self.alive(old_self.recycled@[i]));
            }
            assert forall|e: Entity| self.alive(e) implies #[trigger] self.components_of(e) == old_self.components_of(e) by {
                assert(old_self.loc_valid(e));
            }
            assert(self@ =~= old_self@);
        }
        b
    }
    /// Remove live entity `e` from its archetype row (the last row moves into its place) and
    /// forget its location; returns the row values and the archetype they came from.
    fn detach(&mut self, e: Entity) -> (out: (Vec<C>, usize))
        requires
            old(self).wf(),
            old(self).alive(e),
        ensures
            final(self).wf(),
            !final(self).alive(e),
            final(self)@ == old(self)@.remove(e),
            out.1 == old(self).loc(e).archetype_id,
            out.1 < old(self).archetypes@.len(),
            out.0@.len() == old(self).archetypes@[out.1 as int].key@.len(),
            row_map(old(self).archetypes@[out.1 as int].key@, out.0@) == old(self)@[e],
            final(self).archetypes@.len() == old(self).archetypes@.len(),
            forall|a: int| 0 <= a < old(self).archetypes@.len() ==> (#[trigger] final(self).archetypes@[a]).key@
                == old(self).archetypes@[a].key@,
            final(self).next_id == old(self).next_id,
            final(self).recycled@ == old(self).recycled@,
    {
        let ghost old_self = *self;
        let l = self.entity_location[e as usize].unwrap();
        let a = l.archetype_id;
        let r = l.row;
        proof {
            assert(old_self.loc_valid(e));
        }
        let ghost n = self.archetypes@[a as int].entities@.len();
        let ghost last = self.archetypes@[a as int].entities@[n - 1];
        let (_, vals) = self.archetypes[a].take_row(r);
        self.entity_location.set(e as usize, None);
        if r < self.archetypes[a].entities.len() {
            let moved = self.archetypes[a].entities[r];
            proof {
                assert(moved == last);
                assert(old_self.row_owned(a as int, n - 1));
            }
            self.entity_location.set(moved as usize, Some(Location { archetype_id: a, row: r }));
        }
        proof {
            let ar = a as int;
            let rr = r as int;
            assert(old_self.row_owned(ar, rr));
            assert(old_self.row_owned(ar, n - 1));
            assert(self.archetypes_ok()) by {
                assert forall|x: int| 0 <= x < self.archetypes@.len() implies (#[trigger] self.archetypes@[x]).wf() by {
                    assert(old_self.archetypes@[x].wf());
                }
            }
            // Entities other than `e` keep their location, except the one moved into row `r`.
            assert forall|x: Entity| #[trigger] self.alive(x) implies self.loc_valid(x)
                && self.components_of(x) == old_self.components_of(x) && old_self.alive(x) && x != e by {
                if rr < n - 1 && x == last {
                    assert(old_self.alive(x));
                    assert(self.archetypes@[ar].row(rr) == old_self.archetypes@[ar].row(n - 1));
                } else {
                    assert(self.entity_location@[x as int] == old_self.entity_location@[x as int]);
                    assert(old_self.alive(x));
                    assert(old_self.loc_valid(x));
                    let lx = old_self.loc(x);
                    if lx.archetype_id == a {
                        assert(old_self.row_owned(ar, lx.row as int));
                        assert(lx.row as int != rr);
                        assert(lx.row as int != n - 1);
                        assert(self.archetypes@[ar].row(lx.row as int) == old_self.archetypes@[ar].row(lx.row as int));
                    }
                }
            }
            assert forall|x: int, q: int|
                0 <= x < self.archetypes@.len() && 0 <= q < self.archetypes@[x].entities@.len()
                implies #[trigger] self.row_owned(x, q) by {
                if x == ar {
                    if q == rr {
                    } else {
                        assert(old_self.row_owned(ar, q));
                        assert(old_self.archetypes@[ar].entities@[q] != e);
                        assert(old_self.archetypes@[ar].entities@[q] != last);
                    }
                } else {
                    assert(old_self.row_owned(x, q));
                    let y = old_self.archetypes@[x].entities@[q];
                    assert(old_self.archetypes.len() == old_self.archetypes@.len());
                    assert(x as usize != a);
                    assert(old_self.entity_location@[e as int] == Some(l));
                    assert(y != e);
                    if rr < n - 1 {
                        assert(old_self.entity_location@[last as int] == Some(Location { archetype_id: a, row: (n - 1) as usize }));
                        assert(y != last);
                    }
                }
            }
            assert forall|i: int| 0 <= i < self.recycled@.len() implies (#[trigger] self.recycled@[i] as int) < self.next_id
                && !self.alive(self.recycled@[i]) by {
                let y = self.recycled@[i];
                assert(!old_self.alive(y));
                assert(y != e);
                if rr < n - 1 {
                    assert(old_self.alive(last));
                    assert(y != last);
                }
            }
            assert(self@ =~= old_self@.remove(e));
            assert(old_self@[e] == old_self.archetypes@[ar].components(rr));
        }
        (vals, a)
    }

    /// Store entity `e` (currently without location) in archetype `b` with the row values `vals`.
    fn attach(&mut self, e: Entity, b: usize, vals: Vec<C>)
        requires
            old(self).wf(),
            (e as int) < old(self).next_id,
            !old(self).alive(e),
            forall|i: int| 0 <= i < old(self).recycled@.len() ==> old(self).recycled@[i] != e,
            b < old(self).archetypes@.len(),
            vals@.len() == old(self).archetypes@[b as int].key@.len(),
        ensures
            final(self).wf(),
            final(self).alive(e),
            final(self)@ == old(self)@.insert(e, row_map(old(self).archetypes@[b as int].key@, vals@)),
            final(self).archetypes@.len() == old(self).archetypes@.len(),
            forall|a: int| 0 <= a < old(self).archetypes@.len() ==> (#[trigger] final(self).archetypes@[a]).key@
                == old(self).archetypes@[a].key@,
            final(self).next_id == old(self).next_id,
            final(self).recycled@ == old(self).recycled@,
    {
        let ghost old_self = *self;
        let ghost vs = vals@;
        let row = self.archetypes[b].entities.len();
        self.archetypes[b].push_row(e, vals);
        self.entity_location.set(e as usize, Some(Location { archetype_id: b, row }));
        proof {
            let br = b as int;
            assert(self.archetypes_ok()) by {
                assert forall|x: int| 0 <= x < self.archetypes@.len() implies (#[trigger] self.archetypes@[x]).wf() by {
                    assert(old_self.archetypes@[x].wf());
                }
            }
            assert forall|x: Entity| #[trigger] self.alive(x) implies self.loc_valid(x)
                && (x != e ==> old_self.alive(x) && self.components_of(x) == old_self.components_of(x)) by {
                if x != e {
                    assert(old_self.alive(x));
                    assert(old_self.loc_valid(x));
                    let lx = old_self.loc(x);
                    if lx.archetype_id == b {
                        assert(self.archetypes@[br].row(lx.row as int) == old_self.archetypes@[br].row(lx.row as int));
                    }
                }
            }
            assert forall|x: int, q: int|
                0 <= x < self.archetypes@.len() && 0 <= q < self.archetypes@[x].entities@.len()
                implies #[trigger] self.row_owned(x, q) by {
                if x == br && q == row as int {
                } else {
                    assert(old_self.row_owned(x, q));
                    let y = old_self.archetypes@[x].entities@[q];
                    assert(old_self.alive(y));
                    assert(y != e);
                }
            }
            assert forall|i: int| 0 <= i < self.recycled@.len() implies (#[trigger] self.recycled@[i] as int) < self.next_id
                && !self.alive(self.recycled@[i]) by {
                assert(!old_self.alive(self.recycled@[i]));
            }
            assert(self.components_of(e) == row_map(old_self.archetypes@[br].key@, vs));
            assert(self@ =~= old_self@.insert(e, row_map(old_self.archetypes@[br].key@, vs)));
        }
    }
    fn copy_key(key: &Vec<ComponentKind>) -> (r: Vec<ComponentKind>)
        ensures
            r@ == key@,
    {
        let mut out: Vec<ComponentKind> = Vec::new();
        let mut i: usize = 0;
        while i < key.len()
            invariant
                i <= key@.len(),
                out@ == key@.subrange(0, i as int),
            decreases key.len() - i,
        {
            out.push(key[i]);
            i = i + 1;
            assert(out@ =~= key@.subrange(0, i as int));
        }
        assert(out@ =~= key@);
        out
    }

    /// Create an entity with no components; reuses the most recently freed id when there is one.
    pub fn create_entity(&mut self) -> (id: Entity)
        requires
            old(self).wf(),
            old(self).can_create(),
        ensures
            created(*old(self), *final(self), id),
    {
        let ghost old_self = *self;
        let id = match self.recycled.pop() {
            Some(id) => id,
            None => {
                let id = self.next_id;
                self.next_id = self.next_id + 1;
                self.entity_location.push(None);
                id
            },
        };
        proof {
            if old_self.recycled@.len() > 0 {
                let n = old_self.recycled@.len();
                assert(old_self.recycled@[n - 1] == id);
                assert(!old_self.alive(id));
                assert forall|i: int| 0 <= i < self.recycled@.len() implies self.recycled@[i] != id by {
                    assert(old_self.recycled@[i] != old_self.recycled@[n - 1]);
                }
                assert(self.recycled_ok()) by {
                    assert forall|i: int| 0 <= i < self.recycled@.len() implies (#[trigger] self.recycled@[i] as int) < self.next_id
                        && !self.alive(self.recycled@[i]) by {
                        assert(old_self.recycled@[i] == self.recycled@[i]);
                    }
                    assert forall|i: int, j: int| 0 <= i < j < self.recycled@.len() implies self.recycled@[i] != self.recycled@[j] by {
                        assert(old_self.recycled@[i] == self.recycled@[i]);
                        assert(old_self.recycled@[j] == self.recycled@[j]);
                    }
                }
                assert(self.locations_ok()) by {
                    assert forall|x: Entity| #[trigger] self.alive(x) implies self.loc_valid(x) by {
                        assert(old_self.alive(x));
                    }
                }
                assert(self.rows_ok()) by {
                    assert forall|x: int, q: int|
                        0 <= x < self.archetypes@.len() && 0 <= q < self.archetypes@[x].entities@.len()
                        implies #[trigger] self.row_owned(x, q) by {
                        assert(old_self.row_owned(x, q));
                    }
                }
            } else {
                assert forall|x: Entity| #[trigger] self.alive(x) implies self.loc_valid(x) && old_self.alive(x) by {
                    assert((x as int) < old_self.entity_location@.len());
                    assert(self.entity_location@[x as int] == old_self.entity_location@[x as int]);
                    assert(old_self.alive(x));
                    assert(old_self.loc_valid(x));
                }
                assert forall|x: int, q: int|
                    0 <= x < self.archetypes@.len() && 0 <= q < self.archetypes@[x].entities@.len()
                    implies #[trigger] self.row_owned(x, q) by {
                    assert(old_self.row_owned(x, q));
                }
                assert forall|i: int| 0 <= i < self.recycled@.len() implies (#[trigger] self.recycled@[i] as int) < self.next_id
                    && !self.alive(self.recycled@[i]) by {
                }
                assert(!self.alive(id));
            }
            assert(self@ =~= old_self@);
            assert(self.archetypes@[0].key@ =~= Seq::<ComponentKind>::empty());
        }
        self.attach(id, 0, Vec::new());
        proof {
            assert(row_map(Seq::<ComponentKind>::empty(), Seq::<C>::empty()) =~= Map::<ComponentKind, C>::empty());
        }
        id
    }

    /// Destroy a live entity and all its components; its id is the next one handed out. An id
    /// that is not alive is left alone (it is not put back among the free ids a second time).
    pub fn destroy_entity(&mut self, entity: Entity)
        requires
            old(self).wf(),
        ensures
            old(self)@.contains_key(entity) ==> destroyed(*old(self), *final(self), entity),
            !old(self)@.contains_key(entity) ==> *final(self) == *old(self),
    {
        let ghost old_self = *self;
        if entity as usize >= self.entity_location.len() {
            return;
        }
        if self.entity_location[entity as usize].is_none() {
            return;
        }
        let _ = self.detach(entity);
        proof {
            assert forall|i: int| 0 <= i < self.recycled@.len() implies self.recycled@[i] != entity by {
                assert(!old_self.alive(old_self.recycled@[i]));
            }
        }
        let ghost mid = *self;
        self.recycled.push(entity);
        proof {
            assert forall|i: int| 0 <= i < self.recycled@.len() implies (#[trigger] self.recycled@[i] as int) < self.next_id
                && !self.alive(self.recycled@[i]) by {
                if i < mid.recycled@.len() {
                    assert(self.recycled@[i] == mid.recycled@[i]);
                }
            }
            assert forall|i: int, j: int| 0 <= i < j < self.recycled@.len() implies self.recycled@[i] != self.recycled@[j] by {
                if j < mid.recycled@.len() {
                    assert(self.recycled@[i] == mid.recycled@[i]);
                    assert(self.recycled@[j] == mid.recycled@[j]);
                } else {
                    assert(self.recycled@[i] == mid.recycled@[i]);
                }
            }
            assert(self.locations_ok()) by {
                assert forall|x: Entity| #[trigger] self.alive(x) implies self.loc_valid(x) by {
                    assert(mid.alive(x));
                }
            }
            assert(self.rows_ok()) by {
                assert forall|x: int, q: int|
                    0 <= x < self.archetypes@.len() && 0 <= q < self.archetypes@[x].entities@.len()
                    implies #[trigger] self.row_owned(x, q) by {
                    assert(mid.row_owned(x, q));
                }
            }
            assert(self@ =~= mid@);
        }
    }

    /// Index of the first kind of `key` not below `k`.
    fn insert_position(key: &Vec<ComponentKind>, k: ComponentKind) -> (p: usize)
        ensures
            p <= key@.len(),
            forall|j: int| 0 <= j < p ==> key@[j] < k,
            p < key@.len() ==> key@[p as int] >= k,
    {
        let mut p: usize = 0;
        while p < key.len() && key[p] < k
            invariant
                p <= key@.len(),
                forall|j: int| 0 <= j < p ==> key@[j] < k,
            decreases key.len() - p,
        {
            p = p + 1;
        }
        p
    }

    /// Give `entity` the component `component` of kind `kind`, replacing an existing one.
    /// Entities that are not alive are left alone.
    pub fn add_component(&mut self, entity: Entity, kind: ComponentKind, component: C)
        requires
            old(self).wf(),
        ensures
            final(self).wf(),
            final(self)@ == with_component(old(self)@, entity, kind, component),
            final(self).ids() == old(self).ids(),
    {
        let ghost old_self = *self;
        if entity as usize >= self.entity_location.len() {
            return;
        }
        let l = match self.entity_location[entity as usize] {
            None => return,
            Some(l) => l,
        };
        proof {
            assert(old_self.alive(entity));
            assert(old_self.loc_valid(entity));
        }
        let a = l.archetype_id;
        match self.archetypes[a].position(kind) {
            Some(p) => {
                let ghost row = self.archetypes@[a as int].row(l.row as int);
                self.archetypes[a].set_value(p, l.row, component);
                proof {
                    let ar = a as int;
                    lemma_row_map_update(old_self.archetypes@[ar].key@, row, p as int, component);
                    assert(self.archetypes_ok()) by {
                        assert forall|x: int| 0 <= x < self.archetypes@.len() implies (#[trigger] self.archetypes@[x]).wf() by {
                            assert(old_self.archetypes@[x].wf());
                        }
                    }
                    assert forall|x: Entity| #[trigger] self.alive(x) implies self.loc_valid(x)
                        && (x != entity ==> self.components_of(x) == old_self.components_of(x)) by {
                        assert(old_self.alive(x));
                        assert(old_self.loc_valid(x));
                        let lx = old_self.loc(x);
                        if x != entity && lx.archetype_id == a {
                            assert(lx.row != l.row);
                        }
                    }
                    assert forall|x: int, q: int|
                        0 <= x < self.archetypes@.len() && 0 <= q < self.archetypes@[x].entities@.len()
                        implies #[trigger] self.row_owned(x, q) by {
                        assert(old_self.row_owned(x, q));
                    }
                    assert forall|i: int| 0 <= i < self.recycled@.len() implies (#[trigger] self.recycled@[i] as int) < self.next_id
                        && !self.alive(self.recycled@[i]) by {
                        assert(!old_self.alive(self.recycled@[i]));
                    }
                    assert(self@ =~= old_self@.insert(entity, old_self@[entity].insert(kind, component)));
                }
            },
            None => {
                let p = Self::insert_position(&self.archetypes[a].key, kind);
                let mut new_key = Self::copy_key(&self.archetypes[a].key);
                proof {
                    let key = old_self.archetypes@[a as int].key@;
                    assert(old_self.archetypes@[a as int].wf());
                    if (p as int) < key.len() {
                        assert(key[p as int] != kind);
                    }
                    lemma_sorted_insert(key, p as int, kind);
                }
                new_key.insert(p, kind);
                let b = self.find_or_create(new_key);
                let ghost mid = *self;
                let (mut vals, a2) = self.detach(entity);
                proof {
                    assert(a2 == a);
                    assert(mid.archetypes@[a as int] == old_self.archetypes@[a as int]);
                    lemma_row_map_insert(old_self.archetypes@[a as int].key@, vals@, p as int, kind, component);
                }
                vals.insert(p, component);
                proof {
                    assert(!self.alive(entity));
                    assert forall|i: int| 0 <= i < self.recycled@.len() implies self.recycled@[i] != entity by {
                        assert(!old_self.alive(old_self.recycled@[i]));
                    }
                }
                self.attach(entity, b, vals);
                proof {
                    assert(self@ =~= old_self@.insert(entity, old_self@[entity].insert(kind, component)));
                }
            },
        }
    }

    /// Take the component of kind `kind` away from `entity` (no-op when it has none or is not alive).
    pub fn remove_component(&mut self, entity: Entity, kind: ComponentKind)
        requires
            old(self).wf(),
        ensures
            final(self).wf(),
            final(self)@ == without_component(old(self)@, entity, kind),
            final(self).ids() == old(self).ids(),
    {
        let ghost old_self = *self;
        if entity as usize >= self.entity_location.len() {
            return;
        }
        let l = match self.entity_location[entity as usize] {
            None => return,
            Some(l) => l,
        };
        proof {
            assert(old_self.alive(entity));
            assert(old_self.loc_valid(entity));
        }
        let a = l.archetype_id;
        match self.archetypes[a].position(kind) {
            None => {
                proof {
                    assert(old_self@[entity].remove(kind) =~= old_self@[entity]);
                    assert(old_self@.insert(entity, old_self@[entity].remove(kind)) =~= old_self@);
                }
            },
            Some(p) => {
                let mut new_key = Self::copy_key(&self.archetypes[a].key);
                proof {
                    assert(old_self.archetypes@[a as int].wf());
                    lemma_row_map_remove(old_self.archetypes@[a as int].key@, old_self.archetypes@[a as int].row(l.row as int), p as int);
                }
                new_key.remove(p);
                let b = self.find_or_create(new_key);
                let ghost mid = *self;
                let (mut vals, a2) = self.detach(entity);
                proof {
                    assert(a2 == a);
                    assert(mid.archetypes@[a as int] == old_self.archetypes@[a as int]);
                    lemma_row_map_remove(old_self.archetypes@[a as int].key@, vals@, p as int);
                }
                let _ = vals.remove(p);
                proof {
                    assert(!self.alive(entity));
                    assert forall|i: int| 0 <= i < self.recycled@.len() implies self.recycled@[i] != entity by {
                        assert(!old_self.alive(old_self.recycled@[i]));
                    }
                }
                self.attach(entity, b, vals);
                proof {
                    assert(self@ =~= old_self@.insert(entity, old_self@[entity].remove(kind)));
                }
            },
        }
    }
    /// The component of kind `kind` of `entity`, if it is alive and has one.
    pub fn get_component(&self, entity: Entity, kind: ComponentKind) -> (r: Option<&C>)
        requires
            self.wf(),
        ensures
            match r {
                Some(v) => self@.contains_key(entity) && self@[entity].contains_key(kind) && *v == self@[entity][kind],
                None => !(self@.contains_key(entity) && self@[entity].contains_key(kind)),
            },
    {
        if entity as usize >= self.entity_location.len() {
            return None;
        }
        match self.entity_location[entity as usize] {
            None => None,
            Some(l) => {
                proof {
                    assert(self.alive(entity));
                    assert(self.loc_valid(entity));
                }
                self.archetypes[l.archetype_id].get(kind, l.row)
            },
        }
    }

    /// Mutable access to the component of kind `kind` of `entity`; what is written through the
    /// reference becomes that component.
    pub fn get_component_mut(&mut self, entity: Entity, kind: ComponentKind) -> (r: Option<&mut C>)
        requires
            old(self).wf(),
        ensures
            final(self).wf(),
            match r {
                Some(v) => {
                    &&& old(self)@.contains_key(entity)
                    &&& old(self)@[entity].contains_key(kind)
                    &&& *v == old(self)@[entity][kind]
                    &&& final(self)@ == old(self)@.insert(entity, old(self)@[entity].insert(kind, *final(v)))
                },
                None => !(old(self)@.contains_key(entity) && old(self)@[entity].contains_key(kind)) && final(self)@
                    == old(self)@,
            },
            final(self).ids() == old(self).ids(),
    {
        if entity as usize >= self.entity_location.len() {
            return None;
        }
        match self.entity_location[entity as usize] {
            None => None,
            Some(l) => {
                let ghost locs = self.entity_location@;
                let ghost archs = self.archetypes@;
                proof {
                    assert(self.alive(entity));
                    assert(self.loc_valid(entity));
                    assert(archs.update(l.archetype_id as int, archs[l.archetype_id as int]) =~= archs);
                    assert forall|arch2: Archetype<C>, v: C|
                        #![trigger archs.update(l.archetype_id as int, arch2), archs[l.archetype_id as int].column_of(kind).update(l.row as int, v)]
                        archs[l.archetype_id as int].key@.contains(kind)
                        && arch2.key@ == archs[l.archetype_id as int].key@
                        && arch2.entities@ == archs[l.archetype_id as int].entities@
                        && arch2.columns@.len() == archs[l.archetype_id as int].columns@.len()
                        && (forall|c: int| 0 <= c < arch2.columns@.len() && c != index_of(arch2.key@, kind)
                            ==> #[trigger] arch2.columns@[c] == archs[l.archetype_id as int].columns@[c])
                        && arch2.column_of(kind) == archs[l.archetype_id as int].column_of(kind).update(l.row as int, v)
                        implies ({
                            let archs2 = archs.update(l.archetype_id as int, arch2);
                            &&& archetypes_ok_in(archs2)
                            &&& locations_ok_in(self.next_id, locs, archs2)
                            &&& rows_ok_in(locs, archs2)
                            &&& view_in(locs, archs2) == view_in(locs, archs).insert(
                                entity,
                                view_in(locs, archs)[entity].insert(kind, v),
                            )
                        }) by {
                        lemma_replace_value(self.next_id, self.recycled@, locs, archs, entity, kind, arch2, v);
                    }
                }
                let arch = &mut self.archetypes[l.archetype_id];
                arch.get_mut(kind, l.row)
            },
        }
    }
    /// Whether `entity` is alive and has a component of kind `kind`.
    pub fn has_component(&self, entity: Entity, kind: ComponentKind) -> (r: bool)
        requires
            self.wf(),
        ensures
            r == (self@.contains_key(entity) && self@[entity].contains_key(kind)),
    {
        if entity as usize >= self.entity_location.len() {
            return false;
        }
        match self.entity_location[entity as usize] {
            None => false,
            Some(l) => {
                proof {
                    assert(self.alive(entity));
                    assert(self.loc_valid(entity));
                }
                self.archetypes[l.archetype_id].has_type(kind)
            },
        }
    }

    /// Index of the archetype that stores `entity`, if it is alive. Entities with the same set of
    /// component kinds share an archetype.
    pub fn archetype_of(&self, entity: Entity) -> (r: Option<usize>)
        requires
            self.wf(),
        ensures
            r is Some <==> self@.contains_key(entity),
            r matches Some(a) ==> a < self.archetype_count() && self.archetype_kinds(a as int) == self@[entity].dom(),
    {
        if entity as usize >= self.entity_location.len() {
            return None;
        }
        match self.entity_location[entity as usize] {
            None => None,
            Some(l) => {
                proof {
                    assert(self.alive(entity));
                    assert(self.loc_valid(entity));
                    assert(self.archetypes@[l.archetype_id as int].key@.to_set() =~= self@[entity].dom());
                }
                Some(l.archetype_id)
            },
        }
    }

    /// All entities that have a component of kind `kind`, each once (archetype by archetype).
    pub fn query_entities(&self, kind: ComponentKind) -> (r: Vec<Entity>)
        requires
            self.wf(),
        ensures
            forall|i: int, j: int| 0 <= i < j < r@.len() ==> r@[i] != r@[j],
            forall|e: Entity| r@.contains(e) <==> (self@.contains_key(e) && self@[e].contains_key(kind)),
    {
        let mut out: Vec<Entity> = Vec::new();
        let mut a: usize = 0;
        while a < self.archetypes.len()
            invariant
                self.wf(),
                a <= self.archetypes@.len(),
                forall|i: int, j: int| 0 <= i < j < out@.len() ==> out@[i] != out@[j],
                forall|i: int| 0 <= i < out@.len() ==> self.alive(#[trigger] out@[i])
                    && self.loc(out@[i]).archetype_id < a
                    && self.archetypes@[self.loc(out@[i]).archetype_id as int].key@.contains(kind),
                forall|e: Entity| #[trigger] self.alive(e) && self.loc(e).archetype_id < a
                    && self.archetypes@[self.loc(e).archetype_id as int].key@.contains(kind) ==> out@.contains(e),
            decreases self.archetypes.len() - a,
        {
            if self.archetypes[a].has_type(kind) {
                let ents = &self.archetypes[a].entities;
                let mut q: usize = 0;
                while q < ents.len()
                    invariant
                        self.wf(),
                        a < self.archetypes@.len(),
                        *ents == self.archetypes@[a as int].entities,
                        self.archetypes@[a as int].key@.contains(kind),
                        q <= ents@.len(),
                        forall|i: int, j: int| 0 <= i < j < out@.len() ==> out@[i] != out@[j],
                        forall|i: int| 0 <= i < out@.len() ==> self.alive(#[trigger] out@[i])
                            && (self.loc(out@[i]).archetype_id < a || (self.loc(out@[i]).archetype_id == a
                            && self.loc(out@[i]).row < q))
                            && self.archetypes@[self.loc(out@[i]).archetype_id as int].key@.contains(kind),
                        forall|e: Entity| #[trigger] self.alive(e) && (self.loc(e).archetype_id < a || (
                            self.loc(e).archetype_id == a && self.loc(e).row < q))
                            && self.archetypes@[self.loc(e).archetype_id as int].key@.contains(kind)
                            ==> out@.contains(e),
                    decreases ents.len() - q,
                {
                    let y = ents[q];
                    proof {
                        assert(self.row_owned(a as int, q as int));
                        assert(self.alive(y));
                        assert forall|i: int| 0 <= i < out@.len() implies out@[i] != y by {
                            assert(self.alive(out@[i]));
                        }
                    }
                    let ghost prev = out@;
                    out.push(y);
                    proof {
                        assert(out@[out@.len() - 1] == y);
                        assert forall|e: Entity| #[trigger] self.alive(e) && (self.loc(e).archetype_id < a || (
                            self.loc(e).archetype_id == a && self.loc(e).row < q + 1))
                            && self.archetypes@[self.loc(e).archetype_id as int].key@.contains(kind)
                            implies out@.contains(e) by {
                            if self.loc(e).archetype_id == a && self.loc(e).row == q {
                                assert(self.loc_valid(e));
                                assert(out@[out@.len() - 1] == e);
                            } else {
                                assert(prev.contains(e));
                                let k = choose|k: int| 0 <= k < prev.len() && prev[k] == e;
                                assert(out@[k] == e);
                            }
                        }
                    }
                    q = q + 1;
                }
            }
            proof {
                assert forall|e: Entity| #[trigger] self.alive(e) && self.loc(e).archetype_id < a + 1
                    && self.archetypes@[self.loc(e).archetype_id as int].key@.contains(kind) implies out@.contains(e) by {
                    assert(self.loc_valid(e));
                }
            }
            a = a + 1;
        }
        proof {
            assert forall|e: Entity| out@.contains(e) <==> (self@.contains_key(e) && self@[e].contains_key(kind)) by {
                if out@.contains(e) {
                    let k = choose|k: int| 0 <= k < out@.len() && out@[k] == e;
                    assert(self.alive(out@[k]));
                }
                if self@.contains_key(e) && self@[e].contains_key(kind) {
                    assert(self.alive(e));
                    assert(self.loc_valid(e));
                }
            }
        }
        out
    }

    /// Every `(entity, component)` pair of kind `kind`, each entity once (archetype by archetype).
    pub fn iter(&self, kind: ComponentKind) -> (r: Vec<(Entity, &C)>)
        requires
            self.wf(),
        ensures
            forall|i: int, j: int| 0 <= i < j < r@.len() ==> r@[i].0 != r@[j].0,
            forall|i: int| 0 <= i < r@.len() ==> self@.contains_key(#[trigger] r@[i].0) && self@[r@[i].0].contains_key(kind)
                && *r@[i].1 == self@[r@[i].0][kind],
            forall|e: Entity| self@.contains_key(e) && self@[e].contains_key(kind) ==> exists|i: int| 0 <= i < r@.len() && #[trigger] r@[i].0 == e,
    {
        let mut out: Vec<(Entity, &C)> = Vec::new();
        let mut a: usize = 0;
        while a < self.archetypes.len()
            invariant
                self.wf(),
                a <= self.archetypes@.len(),
                forall|i: int, j: int| 0 <= i < j < out@.len() ==> out@[i].0 != out@[j].0,
                forall|i: int| 0 <= i < out@.len() ==> self.alive(#[trigger] out@[i].0)
                    && self.loc(out@[i].0).archetype_id < a
                    && self.archetypes@[self.loc(out@[i].0).archetype_id as int].key@.contains(kind)
                    && *out@[i].1 == self.components_of(out@[i].0)[kind],
                forall|e: Entity| #[trigger] self.alive(e) && self.loc(e).archetype_id < a
                    && self.archetypes@[self.loc(e).archetype_id as int].key@.contains(kind)
                    ==> exists|i: int| 0 <= i < out@.len() && #[trigger] out@[i].0 == e,
            decreases self.archetypes.len() - a,
        {
            match self.archetypes[a].position(kind) {
                None => {},
                Some(c) => {
                    let arch = &self.archetypes[a];
                    proof {
                        assert(arch.wf());
                        lemma_index_of(arch.key@, c as int);
                    }
                    let mut q: usize = 0;
                    while q < arch.entities.len()
                        invariant
                            self.wf(),
                            a < self.archetypes@.len(),
                            *arch == self.archetypes@[a as int],
                            arch.wf(),
                            c < arch.key@.len(),
                            arch.key@[c as int] == kind,
                            index_of(arch.key@, kind) == c,
                            q <= arch.entities@.len(),
                            forall|i: int, j: int| 0 <= i < j < out@.len() ==> out@[i].0 != out@[j].0,
                            forall|i: int| 0 <= i < out@.len() ==> self.alive(#[trigger] out@[i].0)
                                && (self.loc(out@[i].0).archetype_id < a || (self.loc(out@[i].0).archetype_id == a
                                && self.loc(out@[i].0).row < q))
                                && self.archetypes@[self.loc(out@[i].0).archetype_id as int].key@.contains(kind)
                                && *out@[i].1 == self.components_of(out@[i].0)[kind],
                            forall|e: Entity| #[trigger] self.alive(e) && (self.loc(e).archetype_id < a || (
                                self.loc(e).archetype_id == a && self.loc(e).row < q))
                                && self.archetypes@[self.loc(e).archetype_id as int].key@.contains(kind)
                                ==> exists|i: int| 0 <= i < out@.len() && #[trigger] out@[i].0 == e,
                        decreases arch.entities.len() - q,
                    {
                        let y = arch.entities[q];
                        proof {
                            assert(self.row_owned(a as int, q as int));
                            assert(self.alive(y));
                            assert forall|i: int| 0 <= i < out@.len() implies out@[i].0 != y by {
                                assert(self.alive(out@[i].0));
                            }
                        }
                        let v = &arch.columns[c].data[q];
                        proof {
                            assert(arch.row(q as int)[c as int] == *v);
                            assert(self.components_of(y)[kind] == *v);
                        }
                        let ghost prev = out@;
                        out.push((y, v));
                        proof {
                            assert forall|e: Entity| #[trigger] self.alive(e) && (self.loc(e).archetype_id < a || (
                                self.loc(e).archetype_id == a && self.loc(e).row < q + 1))
                                && self.archetypes@[self.loc(e).archetype_id as int].key@.contains(kind)
                                implies exists|i: int| 0 <= i < out@.len() && #[trigger] out@[i].0 == e by {
                                if self.loc(e).archetype_id == a && self.loc(e).row == q {
                                    assert(self.loc_valid(e));
                                    assert(out@[out@.len() - 1].0 == e);
                                } else {
                                    assert(exists|i: int| 0 <= i < prev.len() && #[trigger] prev[i].0 == e);
                                    let k = choose|k: int| 0 <= k < prev.len() && #[trigger] prev[k].0 == e;
                                    assert(out@[k].0 == e);
                                }
                            }
                        }
                        q = q + 1;
                    }
                },
            }
            proof {
                assert forall|e: Entity| #[trigger] self.alive(e) && self.loc(e).archetype_id < a + 1
                    && self.archetypes@[self.loc(e).archetype_id as int].key@.contains(kind)
                    implies exists|i: int| 0 <= i < out@.len() && #[trigger] out@[i].0 == e by {
                    assert(self.loc_valid(e));
                }
            }
            a = a + 1;
        }
        proof {
            assert forall|e: Entity| self@.contains_key(e) && self@[e].contains_key(kind)
                implies exists|i: int| 0 <= i < out@.len() && #[trigger] out@[i].0 == e by {
                assert(self.alive(e));
                assert(self.loc_valid(e));
            }
        }
        out
    }
    fn for_each_where<F: Fn(C) -> C>(&mut self, kind: ComponentKind, excl: Option<ComponentKind>, f: &F)
        requires
            old(self).wf(),
            forall|x: C| call_requires(*f, (x,)),
        ensures
            final(self).wf(),
            final(self).ids() == old(self).ids(),
            final(self)@.dom() == old(self)@.dom(),
            forall|e: Entity| #[trigger] old(self)@.contains_key(e) ==> final(self)@[e].dom() == old(self)@[e].dom() && if applies(
                old(self)@[e],
                kind,
                excl,
            ) {
                final(self)@[e] == old(self)@[e].insert(kind, final(self)@[e][kind]) && call_ensures(
                    *f,
                    (old(self)@[e][kind],),
                    final(self)@[e][kind],
                )
            } else {
                final(self)@[e] == old(self)@[e]
            },
    {
        let ghost old_self = *self;
        let mut i: usize = 0;
        while i < self.archetypes.len()
            invariant
                self.wf(),
                forall|x: C| call_requires(*f, (x,)),
                i <= self.archetypes@.len(),
                self.archetypes@.len() == old_self.archetypes@.len(),
                self.entity_location@ == old_self.entity_location@,
                self.next_id == old_self.next_id,
                self.recycled@ == old_self.recycled@,
                forall|a: int| 0 <= a < self.archetypes@.len() ==> (#[trigger] self.archetypes@[a]).key@
                    == old_self.archetypes@[a].key@ && self.archetypes@[a].entities@ == old_self.archetypes@[a].entities@,
                forall|a: int| i <= a < self.archetypes@.len() ==> #[trigger] self.archetypes@[a] == old_self.archetypes@[a],
                forall|e: Entity| #[trigger] self.alive(e) ==> if self.loc(e).archetype_id < i && applies(
                    old_self.components_of(e),
                    kind,
                    excl,
                ) {
                    self.components_of(e) == old_self.components_of(e).insert(kind, self.components_of(e)[kind])
                        && call_ensures(*f, (old_self.components_of(e)[kind],), self.components_of(e)[kind])
                } else {
                    self.components_of(e) == old_self.components_of(e)
                },
            decreases self.archetypes.len() - i,
        {
            let has = self.archetypes[i].has_type(kind);
            let skip = match excl {
                Some(x) => self.archetypes[i].has_type(x),
                None => false,
            };
            if has && !skip {
                let c = self.archetypes[i].position(kind).unwrap();
                let ghost before = *self;
                proof {
                    assert(self.archetypes@[i as int].wf());
                }
                let arch = &mut self.archetypes[i];
                arch.map_column(c, f);
                proof {
                    let ir = i as int;
                    let oa = before.archetypes@[ir];
                    let na = self.archetypes@[ir];
                    assert forall|x: int| 0 <= x < self.archetypes@.len() implies (#[trigger] self.archetypes@[x]).wf() by {
                        assert(before.archetypes@[x].wf());
                    }
                    assert forall|x: int, y: int| 0 <= x < y < self.archetypes@.len() implies (#[trigger] self.archetypes@[x]).key@
                        != (#[trigger] self.archetypes@[y]).key@ by {
                        assert(before.archetypes@[x].key@ != before.archetypes@[y].key@);
                    }
                    lemma_index_of(oa.key@, c as int);
                    assert forall|e: Entity| #[trigger] self.alive(e) implies self.loc_valid(e) && if self.loc(e).archetype_id
                        < i + 1 && applies(old_self.components_of(e), kind, excl) {
                        self.components_of(e) == old_self.components_of(e).insert(kind, self.components_of(e)[kind])
                            && call_ensures(*f, (old_self.components_of(e)[kind],), self.components_of(e)[kind])
                    } else {
                        self.components_of(e) == old_self.components_of(e)
                    } by {
                        assert(before.alive(e));
                        assert(before.loc_valid(e));
                        let l = self.loc(e);
                        if l.archetype_id == i {
                            let q = l.row as int;
                            assert(old_self.archetypes@[ir] == oa);
                            assert(old_self.components_of(e) == oa.components(q));
                            assert(oa.key@.contains(kind));
                            lemma_row_map_update(oa.key@, oa.row(q), c as int, na.row(q)[c as int]);
                            assert(na.row(q) == oa.row(q).update(c as int, na.row(q)[c as int]));
                            assert(oa.row(q)[c as int] == oa.components(q)[kind]);
                            assert(na.components(q)[kind] == na.row(q)[c as int]) by {
                                lemma_index_of(na.key@, c as int);
                            }
                            match excl {
                                Some(x) => {
                                    assert(!oa.key@.contains(x));
                                },
                                None => {},
                            }
                        }
                    }
                    assert forall|x: int, q: int|
                        0 <= x < self.archetypes@.len() && 0 <= q < self.archetypes@[x].entities@.len()
                        implies #[trigger] self.row_owned(x, q) by {
                        assert(before.row_owned(x, q));
                    }
                    assert forall|k: int| 0 <= k < self.recycled@.len() implies (#[trigger] self.recycled@[k] as int) < self.next_id
                        && !self.alive(self.recycled@[k]) by {
                        assert(!before.alive(self.recycled@[k]));
                    }
                }
            } else {
                proof {
                    assert forall|e: Entity| #[trigger] self.alive(e) && self.loc(e).archetype_id == i implies !applies(
                        old_self.components_of(e),
                        kind,
                        excl,
                    ) by {
                        assert(self.loc_valid(e));
                        assert(self.archetypes@[i as int] == old_self.archetypes@[i as int]);
                        match excl {
                            Some(x) => {},
                            None => {},
                        }
                    }
                }
            }
            i = i + 1;
        }
        proof {
            assert(self@.dom() =~= old_self@.dom());
            assert forall|e: Entity| #[trigger] old_self@.contains_key(e) implies self@[e].dom() == old_self@[e].dom() && if applies(
                old_self@[e],
                kind,
                excl,
            ) {
                self@[e] == old_self@[e].insert(kind, self@[e][kind]) && call_ensures(*f, (old_self@[e][kind],), self@[e][kind])
            } else {
                self@[e] == old_self@[e]
            } by {
                assert(self.alive(e));
                assert(self.loc_valid(e));
                if applies(old_self@[e], kind, excl) {
                    assert(self@[e].dom() =~= old_self@[e].dom());
                }
            }
        }
    }

    /// Replace every component `x` of kind `kind` by `f(x)`.
    pub fn for_each_mut<F: Fn(C) -> C>(&mut self, kind: ComponentKind, f: F)
        requires
            old(self).wf(),
            forall|x: C| call_requires(f, (x,)),
        ensures
            final(self).wf(),
            final(self).ids() == old(self).ids(),
            final(self)@.dom() == old(self)@.dom(),
            forall|e: Entity| #[trigger] old(self)@.contains_key(e) ==> final(self)@[e].dom() == old(self)@[e].dom() && if old(
                self,
            )@[e].contains_key(kind) {
                final(self)@[e] == old(self)@[e].insert(kind, final(self)@[e][kind]) && call_ensures(
                    f,
                    (old(self)@[e][kind],),
                    final(self)@[e][kind],
                )
            } else {
                final(self)@[e] == old(self)@[e]
            },
    {
        self.for_each_where(kind, None, &f);
    }

    /// Replace every component `x` of kind `kind` by `f(x)`, skipping the entities that also have
    /// a component of kind `excl`.
    pub fn for_each_without_mut<F: Fn(C) -> C>(&mut self, kind: ComponentKind, excl: ComponentKind, f: F)
        requires
            old(self).wf(),
            forall|x: C| call_requires(f, (x,)),
        ensures
            final(self).wf(),
            final(self).ids() == old(self).ids(),
            final(self)@.dom() == old(self)@.dom(),
            forall|e: Entity| #[trigger] old(self)@.contains_key(e) ==> final(self)@[e].dom() == old(self)@[e].dom() && if old(
                self,
            )@[e].contains_key(kind) && !old(self)@[e].contains_key(excl) {
                final(self)@[e] == old(self)@[e].insert(kind, final(self)@[e][kind]) && call_ensures(
                    f,
                    (old(self)@[e][kind],),
                    final(self)@[e][kind],
                )
            } else {
                final(self)@[e] == old(self)@[e]
            },
    {
        self.for_each_where(kind, Some(excl), &f);
    }
}

impl<C> Default for World<C> {
    fn default() -> (w: Self)
        ensures
            w.wf(),
            w@ == Map::<Entity, Map<ComponentKind, C>>::empty(),
    {
        Self::new()
    }
}

// ───────────────────────────── laws ─────────────────────────────

/// Two strictly increasing key lists with the same kinds are the same list.
proof fn lemma_increasing_same_set(a: Seq<ComponentKind>, b: Seq<ComponentKind>)
    requires
        strictly_increasing(a),
        strictly_increasing(b),
        a.to_set() == b.to_set(),
    ensures
        a == b,
    decreases a.len(),
{
    if a.len() == 0 {
        if b.len() > 0 {
            assert(b.to_set().contains(b[0]));
            assert(!a.contains(b[0]));
        }
        assert(a =~= b);
    } else {
        assert(a.to_set().contains(a[0]));
        assert(b.contains(a[0]));
        let j = choose|j: int| 0 <= j < b.len() && b[j] == a[0];
        assert(b.to_set().contains(b[0]));
        assert(a.contains(b[0]));
        let k = choose|k: int| 0 <= k < a.len() && a[k] == b[0];
        if j > 0 {
            assert(b[0] < b[j]);
        }
        if k > 0 {
            assert(a[0] < a[k]);
        }
        assert(a[0] == b[0]);
        let a1 = a.drop_first();
        let b1 = b.drop_first();
        assert forall|x: ComponentKind| a1.to_set().contains(x) <==> b1.to_set().contains(x) by {
            if a1.contains(x) {
                let i = choose|i: int| 0 <= i < a1.len() && a1[i] == x;
                assert(a[i + 1] == x);
                assert(a[0] < x);
                assert(a.to_set().contains(x));
                assert(b.contains(x));
                let jj = choose|jj: int| 0 <= jj < b.len() && b[jj] == x;
                assert(jj != 0);
                assert(b1[jj - 1] == x);
            }
            if b1.contains(x) {
                let i = choose|i: int| 0 <= i < b1.len() && b1[i] == x;
                assert(b[i + 1] == x);
                assert(b[0] < x);
                assert(b.to_set().contains(x));
                assert(a.contains(x));
                let jj = choose|jj: int| 0 <= jj < a.len() && a[jj] == x;
                assert(jj != 0);
                assert(a1[jj - 1] == x);
            }
        }
        assert(a1.to_set() =~= b1.to_set());
        lemma_increasing_same_set(a1, b1);
        assert(a =~= seq![a[0]] + a1);
        assert(b =~= seq![b[0]] + b1);
    }
}

impl<C> World<C> {
    /// Entities share an archetype exactly when they have the same set of component kinds: two
    /// archetypes of a consistent world never store the same kinds.
    pub proof fn lemma_archetype_per_kind_set(&self, a: int, b: int)
        requires
            self.wf(),
            0 <= a < self.archetype_count(),
            0 <= b < self.archetype_count(),
        ensures
            self.archetype_kinds(a) == self.archetype_kinds(b) <==> a == b,
    {
        if a != b && self.archetype_kinds(a) == self.archetype_kinds(b) {
            assert(self.archetypes@[a].wf());
            assert(self.archetypes@[b].wf());
            lemma_increasing_same_set(self.archetypes@[a].key@, self.archetypes@[b].key@);
            if a < b {
                assert(self.archetypes@[a].key@ != self.archetypes@[b].key@);
            } else {
                assert(self.archetypes@[b].key@ != self.archetypes@[a].key@);
            }
        }
    }
}

/// Reading a component right after writing it gives back what was written; the entity's other
/// kinds and the other entities are left as they were.
pub proof fn lemma_read_after_write<C>(
    m: Map<Entity, Map<ComponentKind, C>>,
    e: Entity,
    kind: ComponentKind,
    c: C,
    other: ComponentKind,
    x: Entity,
)
    requires
        m.contains_key(e),
    ensures
        with_component(m, e, kind, c)[e].contains_key(kind),
        with_component(m, e, kind, c)[e][kind] == c,
        other != kind ==> with_component(m, e, kind, c)[e].contains_key(other) == m[e].contains_key(other),
        other != kind && m[e].contains_key(other) ==> with_component(m, e, kind, c)[e][other] == m[e][other],
        with_component(m, e, kind, c).dom() == m.dom(),
        x != e && m.contains_key(x) ==> with_component(m, e, kind, c)[x] == m[x],
{
}

/// Writing a component twice keeps the second value only.
pub proof fn lemma_write_overwrites<C>(m: Map<Entity, Map<ComponentKind, C>>, e: Entity, kind: ComponentKind, c1: C, c2: C)
    ensures
        with_component(with_component(m, e, kind, c1), e, kind, c2) == with_component(m, e, kind, c2),
{
    if m.contains_key(e) {
        assert(m[e].insert(kind, c1).insert(kind, c2) =~= m[e].insert(kind, c2));
        assert(with_component(with_component(m, e, kind, c1), e, kind, c2) =~= with_component(m, e, kind, c2));
    }
}

/// Removing a component that was just added to an entity without one restores the world.
pub proof fn lemma_add_then_remove<C>(m: Map<Entity, Map<ComponentKind, C>>, e: Entity, kind: ComponentKind, c: C)
    requires
        m.contains_key(e) ==> !m[e].contains_key(kind),
    ensures
        without_component(with_component(m, e, kind, c), e, kind) == m,
{
    if m.contains_key(e) {
        assert(m[e].insert(kind, c).remove(kind) =~= m[e]);
        assert(without_component(with_component(m, e, kind, c), e, kind) =~= m);
    }
}

/// After a removal the entity has no component of that kind, and removing again changes nothing.
pub proof fn lemma_remove_idempotent<C>(m: Map<Entity, Map<ComponentKind, C>>, e: Entity, kind: ComponentKind)
    ensures
        m.contains_key(e) ==> !without_component(m, e, kind)[e].contains_key(kind),
        without_component(without_component(m, e, kind), e, kind) == without_component(m, e, kind),
{
    if m.contains_key(e) {
        assert(m[e].remove(kind).remove(kind) =~= m[e].remove(kind));
        assert(without_component(without_component(m, e, kind), e, kind) =~= without_component(m, e, kind));
    }
}

/// What [`World::destroy_entity`] promises of `after`, the world it leaves behind `before`.
pub open spec fn destroyed<C>(before: World<C>, after: World<C>, e: Entity) -> bool {
    &&& before.wf()
    &&& before@.contains_key(e)
    &&& after.wf()
    &&& after@ == before@.remove(e)
    &&& after.ids() == (before.ids().0, before.ids().1.push(e))
    &&& after.next_entity() == e
    &&& after.can_create()
    &&& after.recycling()
}

/// What [`World::create_entity`] promises of `after` and of the id `id` it returns.
pub open spec fn created<C>(before: World<C>, after: World<C>, id: Entity) -> bool {
    &&& after.wf()
    &&& id == before.next_entity()
    &&& !before@.contains_key(id)
    &&& after@ == before@.insert(id, Map::<ComponentKind, C>::empty())
    &&& after.ids() == if before.recycling() {
        (before.ids().0, before.ids().1.drop_last())
    } else {
        ((before.ids().0 + 1) as Entity, before.ids().1)
    }
    &&& !before.recycling() ==> !after.recycling() && after.next_entity() == id + 1
}

/// A destroyed entity's id is the next one created, and it comes back without components while
/// the other entities keep theirs.
pub proof fn lemma_destroyed_id_reused<C>(w0: World<C>, w1: World<C>, w2: World<C>, e: Entity, id: Entity)
    requires
        destroyed(w0, w1, e),
        created(w1, w2, id),
    ensures
        id == e,
        w2@.contains_key(e),
        w2@[e] == Map::<ComponentKind, C>::empty(),
        forall|x: Entity| x != e ==> (w2@.contains_key(x) == w0@.contains_key(x)),
        forall|x: Entity| x != e && w0@.contains_key(x) ==> w2@[x] == w0@[x],
{
}

/// While no freed id waits, created ids follow each other.
pub proof fn lemma_fresh_ids_consecutive<C>(w0: World<C>, w1: World<C>, w2: World<C>, a: Entity, b: Entity)
    requires
        !w0.recycling(),
        created(w0, w1, a),
        created(w1, w2, b),
    ensures
        b == a + 1,
        !w2.recycling(),
{
}

/// One call that changes a world's entities or components, as far as the components go.
pub enum WorldOp<C> {
    /// [`World::create_entity`] handed out this id.
    Create(Entity),
    /// [`World::destroy_entity`].
    Destroy(Entity),
    /// [`World::add_component`].
    Add(Entity, ComponentKind, C),
    /// [`World::remove_component`].
    Remove(Entity, ComponentKind),
}

/// What `op` does to the entities and their components (each call's contract says the same).
pub open spec fn op_applied<C>(m: Map<Entity, Map<ComponentKind, C>>, op: WorldOp<C>) -> Map<
    Entity,
    Map<ComponentKind, C>,
> {
    match op {
        WorldOp::Create(id) => m.insert(id, Map::<ComponentKind, C>::empty()),
        WorldOp::Destroy(e) => m.remove(e),
        WorldOp::Add(e, k, c) => with_component(m, e, k, c),
        WorldOp::Remove(e, k) => without_component(m, e, k),
    }
}

/// The entities and components after `ops`, starting from an empty world.
pub open spec fn after_ops<C>(ops: Seq<WorldOp<C>>) -> Map<Entity, Map<ComponentKind, C>>
    decreases ops.len(),
{
    if ops.len() == 0 {
        Map::empty()
    } else {
        op_applied(after_ops(ops.drop_last()), ops.last())
    }
}

/// Whether `e` is alive after `ops`: its last creation or destruction among them is a creation.
pub open spec fn alive_after<C>(ops: Seq<WorldOp<C>>, e: Entity) -> bool
    decreases ops.len(),
{
    if ops.len() == 0 {
        false
    } else {
        match ops.last() {
            WorldOp::Create(x) => x == e || alive_after(ops.drop_last(), e),
            WorldOp::Destroy(x) => x != e && alive_after(ops.drop_last(), e),
            _ => alive_after(ops.drop_last(), e),
        }
    }
}

/// The latest value written for kind `k` of `e` since `e` was last created: `None` when a removal
/// came after it, or no write did.
pub open spec fn latest_write<C>(ops: Seq<WorldOp<C>>, e: Entity, k: ComponentKind) -> Option<C>
    decreases ops.len(),
{
    if ops.len() == 0 {
        None
    } else {
        match ops.last() {
            WorldOp::Create(x) => if x == e { None } else { latest_write(ops.drop_last(), e, k) },
            WorldOp::Destroy(x) => if x == e { None } else { latest_write(ops.drop_last(), e, k) },
            WorldOp::Add(x, kk, c) => if x == e && kk == k { Some(c) } else { latest_write(ops.drop_last(), e, k) },
            WorldOp::Remove(x, kk) => if x == e && kk == k { None } else { latest_write(ops.drop_last(), e, k) },
        }
    }
}

/// The component of kind `k` of `e` in `m`, if `e` is there and has one.
pub open spec fn component_in<C>(m: Map<Entity, Map<ComponentKind, C>>, e: Entity, k: ComponentKind) -> Option<C> {
    if m.contains_key(e) && m[e].contains_key(k) {
        Some(m[e][k])
    } else {
        None
    }
}

/// After any sequence of creations, destructions, additions and removals from an empty world, an
/// entity is alive exactly when its last creation or destruction was a creation, and reading a
/// component of a live entity gives the latest value written for it since the entity was created,
/// unless a removal came later; a dead entity has no component.
pub proof fn lemma_read_latest_write<C>(ops: Seq<WorldOp<C>>, e: Entity, k: ComponentKind)
    ensures
        after_ops(ops).contains_key(e) == alive_after(ops, e),
        after_ops(ops).contains_key(e) ==> component_in(after_ops(ops), e, k) == latest_write(ops, e, k),
        !after_ops(ops).contains_key(e) ==> component_in(after_ops(ops), e, k) is None,
    decreases ops.len(),
{
    if ops.len() > 0 {
        lemma_read_latest_write(ops.drop_last(), e, k);
    }
}

/// A run of calls on a world: each world comes from the one before it by the call `ops[i]`, as
/// the calls' contracts state it. The first world is empty.
pub open spec fn is_run<C>(worlds: Seq<World<C>>, ops: Seq<WorldOp<C>>) -> bool {
    &&& worlds.len() == ops.len() + 1
    &&& worlds[0]@ == Map::<Entity, Map<ComponentKind, C>>::empty()
    &&& forall|i: int| 0 <= i < ops.len() ==> #[trigger] worlds[i + 1]@ == op_applied(worlds[i]@, ops[i])
}

/// The last world of a run holds what [`after_ops`] says of its calls, so
/// [`lemma_read_latest_write`] describes what it reads.
pub proof fn lemma_run_view<C>(worlds: Seq<World<C>>, ops: Seq<WorldOp<C>>)
    requires
        is_run(worlds, ops),
    ensures
        worlds.last()@ == after_ops(ops),
    decreases ops.len(),
{
    if ops.len() > 0 {
        let w2 = worlds.drop_last();
        let o2 = ops.drop_last();
        assert forall|i: int| 0 <= i < o2.len() implies #[trigger] w2[i + 1]@ == op_applied(w2[i]@, o2[i]) by {
            assert(worlds[i + 1]@ == op_applied(worlds[i]@, ops[i]));
        }
        lemma_run_view(w2, o2);
        assert(worlds[ops.len() as int]@ == op_applied(worlds[ops.len() - 1]@, ops[ops.len() - 1]));
    }
}

} // verus!
