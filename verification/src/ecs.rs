//! Entity identity, per-type component storage, the world, and the
//! system scheduler.

use vstd::prelude::*;

verus! {

/// An entity is an opaque numeric handle.  Entities carry no data of
/// their own; they are pure keys into the component storages.  The
/// value 0 is reserved: a `World` never issues it.
#[derive(Debug, Copy, Clone, PartialEq, Eq, Hash, Structural)]
pub struct Entity(pub u32);

impl Entity {
    /// Wraps a raw numeric value.  No validation happens here:
    /// validity is a property of whether a world currently lists the
    /// id, not of the value itself.
    pub fn new(id: u32) -> (e: Entity)
        ensures
            e.0 == id,
    {
        Entity(id)
    }

    /// The numeric value of the handle.
    pub fn id(&self) -> (id: u32)
        ensures
            id == self.0,
    {
        self.0
    }
}

/// The mathematical contents of an association list: the map that
/// sends each listed entity to its value.  Later pairs win, though a
/// storage never holds two pairs with the same key.
pub open spec fn pairs_as_map<T>(s: Seq<(Entity, T)>) -> Map<Entity, T>
    decreases s.len(),
{
    if s.len() == 0 {
        Map::empty()
    } else {
        pairs_as_map(s.drop_last()).insert(s.last().0, s.last().1)
    }
}

/// No two pairs of the sequence share a key.
pub open spec fn distinct_keys<T>(s: Seq<(Entity, T)>) -> bool {
    forall|i: int, j: int|
        0 <= i < s.len() && 0 <= j < s.len() && i != j ==> (#[trigger] s[i]).0 != (#[trigger] s[j]).0
}

/// A per-type component store: an owning mapping from entities to
/// values of one component type `T`.  Its view is that mapping.
pub struct ComponentStorage<T> {
    entries: Vec<(Entity, T)>,
}

impl<T> View for ComponentStorage<T> {
    type V = Map<Entity, T>;

    closed spec fn view(&self) -> Map<Entity, T> {
        pairs_as_map(self.entries@)
    }
}

impl<T> ComponentStorage<T> {
    /// The storage's pairs in iteration order.  The order is an
    /// implementation detail; only "each stored pair appears exactly
    /// once" may be relied on.
    pub closed spec fn entry_seq(&self) -> Seq<(Entity, T)> {
        self.entries@
    }

    /// Well-formedness: no entity is listed twice.  Constructors
    /// establish it and every method preserves it.
    pub closed spec fn wf(&self) -> bool {
        distinct_keys(self.entries@)
    }

    /// Creates an empty storage.
    pub fn new() -> (s: ComponentStorage<T>)
        ensures
            s@ == Map::<Entity, T>::empty(),
            s.entry_seq() == Seq::<(Entity, T)>::empty(),
            s.wf(),
    {
        ComponentStorage { entries: Vec::new() }
    }

    /// Attaches `component` to `entity`, replacing and returning the
    /// value stored before, if any.  Always succeeds.
    pub fn insert(&mut self, entity: Entity, component: T) -> (prev: Option<T>)
        requires
            old(self).wf(),
        ensures
            final(self).wf(),
            final(self)@ == old(self)@.insert(entity, component),
            prev == (if old(self)@.dom().contains(entity) {
                Some(old(self)@[entity])
            } else {
                None::<T>
            }),
    {
        let ghost s0 = self.entries@;
        let n = self.entries.len();
        let mut i: usize = 0;
        while i < n
            invariant
                n == self.entries@.len(),
                self.entries@ == s0,
                distinct_keys(s0),
                pairs_as_map(s0) == old(self)@,
                0 <= i <= n,
                forall|k: int| 0 <= k < i ==> (#[trigger] s0[k]).0 != entity,
            decreases n - i,
        {
            if self.entries[i].0 == entity {
                let old_pair = self.entries.remove(i);
                self.entries.insert(i, (entity, component));
                proof {
                    assert(self.entries@ =~= s0.update(i as int, (entity, component)));
                    lemma_pairs_as_map_value(s0, i as int);
                    lemma_pairs_as_map_update(s0, i as int, component);
                    lemma_pairs_as_map_contains(s0, entity);
                    assert(distinct_keys(self.entries@));
                }
                return Some(old_pair.1);
            }
            i += 1;
        }
        self.entries.push((entity, component));
        proof {
            assert(self.entries@.drop_last() =~= s0);
            assert(pairs_as_map(self.entries@) =~= pairs_as_map(s0).insert(entity, component));
            lemma_pairs_as_map_contains(s0, entity);
            assert(distinct_keys(self.entries@));
        }
        None
    }

    /// Looks up the component attached to `entity`, or returns
    /// nothing when the entity has none.
    pub fn get(&self, entity: Entity) -> (r: Option<&T>)
        requires
            self.wf(),
        ensures
            match r {
                Some(v) => self@.dom().contains(entity) && *v == self@[entity],
                None => !self@.dom().contains(entity),
            },
    {
        let n = self.entries.len();
        let mut i: usize = 0;
        while i < n
            invariant
                n == self.entries@.len(),
                distinct_keys(self.entries@),
                0 <= i <= n,
                forall|k: int| 0 <= k < i ==> (#[trigger] self.entries@[k]).0 != entity,
            decreases n - i,
        {
            if self.entries[i].0 == entity {
                proof {
                    lemma_pairs_as_map_value(self.entries@, i as int);
                }
                return Some(&self.entries[i].1);
            }
            i += 1;
        }
        proof {
            lemma_pairs_as_map_contains(self.entries@, entity);
        }
        None
    }

    /// Looks up the component attached to `entity` for in-place
    /// mutation.  The storage afterwards maps `entity` to whatever
    /// the caller leaves in the reference; nothing else changes.
    pub fn get_mut(&mut self, entity: Entity) -> (r: Option<&mut T>)
        requires
            old(self).wf(),
        ensures
            final(self).wf(),
            match r {
                Some(m) => old(self)@.dom().contains(entity) && *m == old(self)@[entity]
                    && final(self)@ == old(self)@.insert(entity, *final(m)),
                None => !old(self)@.dom().contains(entity) && final(self)@ == old(self)@,
            },
    {
        let ghost s0 = self.entries@;
        let n = self.entries.len();
        let mut i: usize = 0;
        while i < n
            invariant
                n == self.entries@.len(),
                self.entries == old(self).entries,
                self.entries@ == s0,
                distinct_keys(s0),
                pairs_as_map(s0) == old(self)@,
                0 <= i <= n,
                forall|k: int| 0 <= k < i ==> (#[trigger] s0[k]).0 != entity,
            decreases n - i,
        {
            if self.entries[i].0 == entity {
                proof {
                    lemma_pairs_as_map_value(s0, i as int);
                    lemma_pairs_as_map_update_all(s0, i as int);
                }
                return Some(&mut self.entries[i].1);
            }
            i += 1;
        }
        proof {
            lemma_pairs_as_map_contains(s0, entity);
        }
        None
    }

    /// Detaches the component of `entity` and hands it back, or
    /// returns nothing when the entity has none.
    pub fn remove(&mut self, entity: Entity) -> (r: Option<T>)
        requires
            old(self).wf(),
        ensures
            final(self).wf(),
            final(self)@ == old(self)@.remove(entity),
            r == (if old(self)@.dom().contains(entity) {
                Some(old(self)@[entity])
            } else {
                None::<T>
            }),
    {
        let ghost s0 = self.entries@;
        let n = self.entries.len();
        let mut i: usize = 0;
        while i < n
            invariant
                n == self.entries@.len(),
                self.entries@ == s0,
                distinct_keys(s0),
                pairs_as_map(s0) == old(self)@,
                0 <= i <= n,
                forall|k: int| 0 <= k < i ==> (#[trigger] s0[k]).0 != entity,
            decreases n - i,
        {
            if self.entries[i].0 == entity {
                let old_pair = self.entries.remove(i);
                proof {
                    lemma_pairs_as_map_value(s0, i as int);
                    lemma_pairs_as_map_remove(s0, i as int);
                    assert(distinct_keys(self.entries@));
                }
                return Some(old_pair.1);
            }
            i += 1;
        }
        proof {
            lemma_pairs_as_map_contains(s0, entity);
            assert(old(self)@ =~= old(self)@.remove(entity));
        }
        None
    }

    /// Reports whether `entity` currently has a component here.
    pub fn contains(&self, entity: Entity) -> (b: bool)
        requires
            self.wf(),
        ensures
            b == self@.dom().contains(entity),
    {
        let n = self.entries.len();
        let mut i: usize = 0;
        while i < n
            invariant
                n == self.entries@.len(),
                distinct_keys(self.entries@),
                0 <= i <= n,
                forall|k: int| 0 <= k < i ==> (#[trigger] self.entries@[k]).0 != entity,
            decreases n - i,
        {
            if self.entries[i].0 == entity {
                proof {
                    lemma_pairs_as_map_value(self.entries@, i as int);
                }
                return true;
            }
            i += 1;
        }
        proof {
            lemma_pairs_as_map_contains(self.entries@, entity);
        }
        false
    }

    /// All stored pairs, for iteration.  Every attached pair appears
    /// exactly once; the order is unspecified and must not be relied
    /// on.
    pub fn iter(&self) -> (r: &Vec<(Entity, T)>)
        requires
            self.wf(),
        ensures
            r@ == self.entry_seq(),
            distinct_keys(r@),
            r@.len() == self@.dom().len(),
            forall|k: int|
                0 <= k < r@.len() ==> self@.dom().contains((#[trigger] r@[k]).0) && self@[r@[k].0]
                    == r@[k].1,
            forall|e: Entity|
                self@.dom().contains(e) ==> exists|k: int|
                    0 <= k < r@.len() && (#[trigger] r@[k]) == (e, self@[e]),
    {
        proof {
            lemma_pairs_as_map_agrees(self.entries@);
        }
        &self.entries
    }

    /// The number of stored components.
    pub fn len(&self) -> (n: usize)
        requires
            self.wf(),
        ensures
            n == self@.dom().len(),
            n == self.entry_seq().len(),
    {
        proof {
            lemma_pairs_as_map_agrees(self.entries@);
        }
        self.entries.len()
    }

    /// Reports whether the storage holds nothing.
    pub fn is_empty(&self) -> (b: bool)
        requires
            self.wf(),
        ensures
            b == (self@.dom().len() == 0),
    {
        self.len() == 0
    }
}

/// A component registry: one storage slot per component type that a
/// world can hold.  Verified Rust has no safe run-time type-erasure
/// and downcast, so the registry resolves "which slot belongs to this
/// type" at compile time instead: a registry type lists its slots as
/// fields, and each component type locates its own slot through the
/// `Component` capability.  New component types need no central enum;
/// they only add a slot and a `Component` impl.
///
/// Every slot exists, empty, from construction on; to callers that
/// is indistinguishable from a storage created lazily on the first
/// insertion, since absence and emptiness answer every query alike.
pub trait Registry: Sized {
    /// Whether the registry is fresh: no component of any type was
    /// ever inserted.
    spec fn is_init(self) -> bool;

    /// Every slot of the registry is well formed.
    spec fn reg_wf(self) -> bool;

    /// Creates a fresh, well-formed registry.
    fn new() -> (r: Self)
        ensures
            r.is_init(),
            r.reg_wf(),
    ;
}

/// The capability a data type must have to be stored in a world over
/// the registry `R`: it identifies this type's storage slot inside
/// `R`.  The proof obligations say that the slot really behaves as a
/// slot: reading back what was written, starting out empty, and
/// staying well formed.
pub trait Component<R: Registry>: Sized {
    /// This type's storage inside the registry.
    spec fn storage_of(r: R) -> ComponentStorage<Self>;

    /// The registry with this type's storage replaced.
    spec fn with_storage(r: R, s: ComponentStorage<Self>) -> R;

    /// Replacing the slot and reading it back yields the replacement.
    proof fn lemma_with_storage(r: R, s: ComponentStorage<Self>)
        ensures
            Self::storage_of(Self::with_storage(r, s)) == s,
    ;

    /// Replacing the slot twice is replacing it once.
    proof fn lemma_with_storage_twice(r: R, s1: ComponentStorage<Self>, s2: ComponentStorage<Self>)
        ensures
            Self::with_storage(Self::with_storage(r, s1), s2) == Self::with_storage(r, s2),
    ;

    /// Replacing the slot by its own contents changes nothing.
    proof fn lemma_with_storage_self(r: R)
        ensures
            Self::with_storage(r, Self::storage_of(r)) == r,
    ;

    /// In a fresh registry this type's storage is empty.
    proof fn lemma_init_empty(r: R)
        requires
            r.is_init(),
        ensures
            Self::storage_of(r)@ == Map::<Entity, Self>::empty(),
            Self::storage_of(r).entry_seq() == Seq::<(Entity, Self)>::empty(),
    ;

    /// In a well-formed registry this type's storage is well formed.
    proof fn lemma_storage_wf(r: R)
        requires
            r.reg_wf(),
        ensures
            Self::storage_of(r).wf(),
    ;

    /// Replacing the slot by a well-formed storage keeps the registry
    /// well formed.
    proof fn lemma_with_storage_wf(r: R, s: ComponentStorage<Self>)
        requires
            r.reg_wf(),
            s.wf(),
        ensures
            Self::with_storage(r, s).reg_wf(),
    ;

    /// Borrows this type's storage.
    fn storage(r: &R) -> (s: &ComponentStorage<Self>)
        ensures
            *s == Self::storage_of(*r),
    ;

    /// Borrows this type's storage for mutation.  The registry
    /// afterwards holds whatever the caller leaves in the slot, and
    /// nothing else of it changes.
    fn storage_mut(r: &mut R) -> (s: &mut ComponentStorage<Self>)
        ensures
            *s == Self::storage_of(*old(r)),
            *final(r) == Self::with_storage(*old(r), *final(s)),
    ;
}

/// The central authority over entities and components: it allocates
/// entity ids, keeps the roster of live entities, and routes typed
/// component operations to the registry slot of the component's type.
pub struct World<R> {
    next_entity_id: u32,
    entities: Vec<Entity>,
    components: R,
}

impl<R: Registry> World<R> {
    /// The id the next created entity will get.
    pub closed spec fn next_id(self) -> u32 {
        self.next_entity_id
    }

    /// The roster of live entities, in creation order.
    pub closed spec fn entity_seq(self) -> Seq<Entity> {
        self.entities@
    }

    /// The component registry.
    pub closed spec fn registry(self) -> R {
        self.components
    }

    /// The mapping from entities to their components of type `T`.
    pub open spec fn component_map<T: Component<R>>(self) -> Map<Entity, T> {
        T::storage_of(self.registry())@
    }

    /// The stored pairs of type `T`, in iteration order.
    pub open spec fn component_seq<T: Component<R>>(self) -> Seq<(Entity, T)> {
        T::storage_of(self.registry()).entry_seq()
    }

    /// Well-formedness: ids start at 1, the roster is strictly
    /// increasing (so ids are distinct and never reused), every
    /// listed id is below the next to be issued, and every storage is
    /// well formed.
    pub closed spec fn wf(self) -> bool {
        &&& 1 <= self.next_entity_id
        &&& forall|i: int|
            0 <= i < self.entities@.len() ==> 1 <= (#[trigger] self.entities@[i]).0
                < self.next_entity_id
        &&& forall|i: int, j: int|
            0 <= i < j < self.entities@.len() ==> (#[trigger] self.entities@[i]).0 < (
            #[trigger] self.entities@[j]).0
        &&& self.components.reg_wf()
    }

    /// Borrows the storage of type `T` for reading: the single
    /// typed routing point for lookups.  Every type's slot exists
    /// from construction, so unlike a run-time registry this lookup
    /// cannot miss.
    fn get_storage<T: Component<R>>(&self) -> (s: &ComponentStorage<T>)
        ensures
            *s == T::storage_of(self.registry()),
    {
        T::storage(&self.components)
    }

    /// Borrows the storage of type `T` for writing: the single
    /// typed routing point for mutation.  The world afterwards
    /// holds whatever the caller leaves in the slot, and nothing
    /// else of it changes.
    fn get_or_create_storage_mut<T: Component<R>>(&mut self) -> (s: &mut ComponentStorage<T>)
        ensures
            *s == T::storage_of(old(self).registry()),
            final(self).registry() == T::with_storage(old(self).registry(), *final(s)),
            final(self).next_id() == old(self).next_id(),
            final(self).entity_seq() == old(self).entity_seq(),
    {
        T::storage_mut(&mut self.components)
    }

    /// Creates a world with no entities and no components.  Entity
    /// ids will be issued from 1; the id 0 is never valid.
    pub fn new() -> (w: World<R>)
        ensures
            w.wf(),
            w.next_id() == 1,
            w.entity_seq() == Seq::<Entity>::empty(),
            w.registry().is_init(),
    {
        World { next_entity_id: 1, entities: Vec::new(), components: R::new() }
    }

    /// Allocates the next id, appends the new entity to the roster,
    /// and returns it.  Ids are strictly increasing and are never
    /// reused within one world.
    pub fn create_entity(&mut self) -> (e: Entity)
        requires
            old(self).wf(),
            old(self).next_id() < u32::MAX,
        ensures
            final(self).wf(),
            e.0 == old(self).next_id(),
            final(self).next_id() == old(self).next_id() + 1,
            final(self).entity_seq() == old(self).entity_seq().push(e),
            final(self).registry() == old(self).registry(),
    {
        let entity = Entity::new(self.next_entity_id);
        self.next_entity_id += 1;
        self.entities.push(entity);
        entity
    }

    /// Removes `entity` from the live roster if present and reports
    /// whether it was found.  Component storages are left untouched:
    /// removal is a soft delete, and any components of the entity
    /// stay resident (and visible to queries) until removed
    /// explicitly.
    pub fn remove_entity(&mut self, entity: Entity) -> (found: bool)
        requires
            old(self).wf(),
        ensures
            final(self).wf(),
            found == old(self).entity_seq().contains(entity),
            final(self).entity_seq() == old(self).entity_seq().remove_value(entity),
            final(self).next_id() == old(self).next_id(),
            final(self).registry() == old(self).registry(),
    {
        let ghost s0 = self.entities@;
        let n = self.entities.len();
        let mut i: usize = 0;
        while i < n
            invariant
                old(self).wf(),
                n == self.entities@.len(),
                self.entities@ == s0,
                s0 == old(self).entity_seq(),
                self.next_entity_id == old(self).next_id(),
                self.components == old(self).registry(),
                0 <= i <= n,
                forall|k: int| 0 <= k < i ==> (#[trigger] s0[k]) != entity,
            decreases n - i,
        {
            if self.entities[i] == entity {
                self.entities.remove(i);
                proof {
                    assert forall|k: int| 0 <= k < s0.len() && k != i implies (#[trigger] s0[k])
                        != entity by {
                        if k > i {
                            assert(s0[i as int].0 < s0[k].0);
                        }
                    }
                    lemma_unique_index(s0, entity, i as int);
                    assert(self.entities@ == s0.remove_value(entity));
                    assert forall|p: int, q: int|
                        0 <= p < q < self.entities@.len() implies (
                    #[trigger] self.entities@[p]).0 < (#[trigger] self.entities@[q]).0 by {
                        if q < i {
                            assert(s0[p] == self.entities@[p] && s0[q] == self.entities@[q]);
                        } else if p < i {
                            assert(self.entities@[q] == s0[q + 1]);
                        } else {
                            assert(self.entities@[p] == s0[p + 1] && self.entities@[q] == s0[q
                                + 1]);
                        }
                    }
                }
                return true;
            }
            i += 1;
        }
        proof {
            assert(!s0.contains(entity));
            s0.index_of_first_ensures(entity);
            assert(s0.remove_value(entity) == s0);
        }
        false
    }

    /// Read access to the live roster, in creation order.
    pub fn entities(&self) -> (r: &Vec<Entity>)
        ensures
            r@ == self.entity_seq(),
    {
        &self.entities
    }

    /// The number of live entities: entities created and not yet
    /// removed from the roster.
    pub fn entity_count(&self) -> (n: usize)
        ensures
            n == self.entity_seq().len(),
    {
        self.entities.len()
    }

    /// Attaches `component` to `entity`, routing to the storage of
    /// type `T`; returns the value the entity had before, if any.
    /// Never fails.
    pub fn add_component<T: Component<R>>(&mut self, entity: Entity, component: T) -> (prev: Option<
        T,
    >)
        requires
            old(self).wf(),
        ensures
            final(self).wf(),
            final(self).component_map::<T>() == old(self).component_map::<T>().insert(
                entity,
                component,
            ),
            final(self).registry() == T::with_storage(
                old(self).registry(),
                T::storage_of(final(self).registry()),
            ),
            final(self).next_id() == old(self).next_id(),
            final(self).entity_seq() == old(self).entity_seq(),
            prev == (if old(self).component_map::<T>().dom().contains(entity) {
                Some(old(self).component_map::<T>()[entity])
            } else {
                None::<T>
            }),
    {
        let ghost r0 = self.components;
        proof {
            T::lemma_storage_wf(r0);
            lemma_component_frame::<R, T>(r0);
        }
        let s = self.get_or_create_storage_mut::<T>();
        s.insert(entity, component)
    }

    /// Looks up the component of type `T` attached to `entity`.  When
    /// the entity has none — in particular when no component of type
    /// `T` was ever inserted — the result is empty, never an error.
    pub fn get_component<T: Component<R>>(&self, entity: Entity) -> (r: Option<&T>)
        requires
            self.wf(),
        ensures
            match r {
                Some(v) => self.component_map::<T>().dom().contains(entity) && *v
                    == self.component_map::<T>()[entity],
                None => !self.component_map::<T>().dom().contains(entity),
            },
    {
        proof {
            T::lemma_storage_wf(self.components);
        }
        self.get_storage::<T>().get(entity)
    }

    /// Looks up the component of type `T` attached to `entity` for
    /// in-place mutation.  The world afterwards maps `entity` to
    /// whatever the caller leaves in the reference; nothing else
    /// changes.
    pub fn get_component_mut<T: Component<R>>(&mut self, entity: Entity) -> (r: Option<&mut T>)
        requires
            old(self).wf(),
        ensures
            final(self).wf(),
            final(self).next_id() == old(self).next_id(),
            final(self).entity_seq() == old(self).entity_seq(),
            final(self).registry() == T::with_storage(
                old(self).registry(),
                T::storage_of(final(self).registry()),
            ),
            match r {
                Some(m) => {
                    &&& old(self).component_map::<T>().dom().contains(entity)
                    &&& *m == old(self).component_map::<T>()[entity]
                    &&& final(self).component_map::<T>()
                        == old(self).component_map::<T>().insert(entity, *final(m))
                },
                None => {
                    &&& !old(self).component_map::<T>().dom().contains(entity)
                    &&& final(self).component_map::<T>() == old(self).component_map::<T>()
                },
            },
    {
        let ghost r0 = self.components;
        proof {
            T::lemma_storage_wf(r0);
            lemma_component_frame::<R, T>(r0);
        }
        let s = self.get_or_create_storage_mut::<T>();
        s.get_mut(entity)
    }

    /// Detaches the component of type `T` from `entity` and hands it
    /// back; empty when the entity has none.
    pub fn remove_component<T: Component<R>>(&mut self, entity: Entity) -> (r: Option<T>)
        requires
            old(self).wf(),
        ensures
            final(self).wf(),
            final(self).component_map::<T>() == old(self).component_map::<T>().remove(entity),
            final(self).registry() == T::with_storage(
                old(self).registry(),
                T::storage_of(final(self).registry()),
            ),
            final(self).next_id() == old(self).next_id(),
            final(self).entity_seq() == old(self).entity_seq(),
            r == (if old(self).component_map::<T>().dom().contains(entity) {
                Some(old(self).component_map::<T>()[entity])
            } else {
                None::<T>
            }),
    {
        let ghost r0 = self.components;
        proof {
            T::lemma_storage_wf(r0);
            lemma_component_frame::<R, T>(r0);
        }
        let s = self.get_or_create_storage_mut::<T>();
        s.remove(entity)
    }

    /// Reports whether `entity` currently has a component of type
    /// `T`; false rather than an error when no such component — or no
    /// such storage — exists.
    pub fn has_component<T: Component<R>>(&self, entity: Entity) -> (b: bool)
        requires
            self.wf(),
        ensures
            b == self.component_map::<T>().dom().contains(entity),
    {
        proof {
            T::lemma_storage_wf(self.components);
        }
        self.get_storage::<T>().contains(entity)
    }

    /// All (entity, component) pairs of type `T`, for iteration.
    /// Every attached pair appears exactly once; the order is
    /// unspecified and must not be relied on.  A world in which no
    /// component of type `T` was ever inserted yields the empty
    /// sequence, indistinguishable from an emptied storage.
    pub fn query<T: Component<R>>(&self) -> (r: &Vec<(Entity, T)>)
        requires
            self.wf(),
        ensures
            r@ == self.component_seq::<T>(),
            distinct_keys(r@),
            r@.len() == self.component_map::<T>().dom().len(),
            forall|k: int|
                0 <= k < r@.len() ==> self.component_map::<T>().dom().contains(
                    (#[trigger] r@[k]).0,
                ) && self.component_map::<T>()[r@[k].0] == r@[k].1,
            forall|e: Entity|
                self.component_map::<T>().dom().contains(e) ==> exists|k: int|
                    0 <= k < r@.len() && (#[trigger] r@[k]) == (e, self.component_map::<T>()[e]),
    {
        proof {
            T::lemma_storage_wf(self.components);
        }
        self.get_storage::<T>().iter()
    }

    /// Borrows the whole storage of type `T` for mutation, for
    /// callers that edit many components of one type in a row.  The
    /// world afterwards holds whatever the caller leaves in the slot,
    /// and nothing else of it changes.
    pub fn query_mut<T: Component<R>>(&mut self) -> (s: &mut ComponentStorage<T>)
        requires
            old(self).wf(),
        ensures
            *s == T::storage_of(old(self).registry()),
            s.wf(),
            final(self).registry() == T::with_storage(old(self).registry(), *final(s)),
            final(self).next_id() == old(self).next_id(),
            final(self).entity_seq() == old(self).entity_seq(),
            final(s).wf() ==> final(self).wf(),
    {
        let ghost r0 = self.components;
        proof {
            T::lemma_storage_wf(r0);
            lemma_component_frame::<R, T>(r0);
        }
        self.get_or_create_storage_mut::<T>()
    }
}

/// A unit of per-tick behavior: given mutable access to the world
/// and a time delta (in milliseconds), it reads and writes
/// components.
pub trait System<R: Registry>: Sized {
    /// What one `update` call may do: a relation between the system
    /// and world before the call and after it.  Each implementation
    /// chooses how precisely to pin its behavior down.
    spec fn effect(pre: Self, w_pre: World<R>, post: Self, w_post: World<R>, delta_time: u64) -> bool;

    /// Runs the system once.  It must keep the world well formed and
    /// act within its declared effect.
    fn update(&mut self, world: &mut World<R>, delta_time: u64)
        requires
            old(world).wf(),
        ensures
            final(world).wf(),
            Self::effect(*old(self), *old(world), *final(self), *final(world), delta_time),
    ;

    /// A short display name for logs.
    fn name(&self) -> &'static str;
}

/// Systems `pre` were each run exactly once, in order, turning
/// `w_pre` into `w_post` and leaving the systems as `post`: there is
/// a chain of intermediate worlds in which each system's declared
/// effect links one world to the next.
pub open spec fn runs_in_order<R: Registry, S: System<R>>(
    pre: Seq<S>,
    post: Seq<S>,
    w_pre: World<R>,
    w_post: World<R>,
    delta_time: u64,
) -> bool
    decreases pre.len(),
{
    if pre.len() != post.len() {
        false
    } else if pre.len() == 0 {
        w_post == w_pre
    } else {
        exists|w_mid: World<R>|
            #[trigger] S::effect(pre[0], w_pre, post[0], w_mid, delta_time) && runs_in_order(
                pre.drop_first(),
                post.drop_first(),
                w_mid,
                w_post,
                delta_time,
            )
    }
}

/// Chains hold under appending one more step at the end.
proof fn lemma_runs_in_order_snoc<R: Registry, S: System<R>>(
    pre: Seq<S>,
    post: Seq<S>,
    w0: World<R>,
    w1: World<R>,
    x: S,
    y: S,
    w2: World<R>,
    delta_time: u64,
)
    requires
        runs_in_order(pre, post, w0, w1, delta_time),
        S::effect(x, w1, y, w2, delta_time),
    ensures
        runs_in_order(pre.push(x), post.push(y), w0, w2, delta_time),
    decreases pre.len(),
{
    if pre.len() == 0 {
        assert(pre.push(x).drop_first() =~= pre);
        assert(post.push(y).drop_first() =~= post);
        assert(S::effect(pre.push(x)[0], w0, post.push(y)[0], w2, delta_time));
        assert(runs_in_order(pre, post, w2, w2, delta_time));
    } else {
        let w_mid = choose|w_mid: World<R>|
            #[trigger] S::effect(pre[0], w0, post[0], w_mid, delta_time) && runs_in_order(
                pre.drop_first(),
                post.drop_first(),
                w_mid,
                w1,
                delta_time,
            );
        lemma_runs_in_order_snoc(
            pre.drop_first(),
            post.drop_first(),
            w_mid,
            w1,
            x,
            y,
            w2,
            delta_time,
        );
        assert(pre.push(x).drop_first() =~= pre.drop_first().push(x));
        assert(post.push(y).drop_first() =~= post.drop_first().push(y));
        assert(S::effect(pre.push(x)[0], w0, post.push(y)[0], w_mid, delta_time));
    }
}

/// An ordered list of systems, executed once per tick in
/// registration order.
pub struct SystemScheduler<S> {
    systems: Vec<S>,
}

impl<S> SystemScheduler<S> {
    /// The registered systems, in registration order.
    pub closed spec fn system_seq(&self) -> Seq<S> {
        self.systems@
    }

    /// Creates a scheduler with no systems.
    pub fn new() -> (s: SystemScheduler<S>)
        ensures
            s.system_seq() == Seq::<S>::empty(),
    {
        SystemScheduler { systems: Vec::new() }
    }

    /// Appends a system.  Registration order is execution order.
    pub fn add_system(&mut self, system: S)
        ensures
            final(self).system_seq() == old(self).system_seq().push(system),
    {
        self.systems.push(system);
    }

    /// The number of registered systems.
    pub fn system_count(&self) -> (n: usize)
        ensures
            n == self.system_seq().len(),
    {
        self.systems.len()
    }

    /// Runs every registered system exactly once, strictly in
    /// registration order, handing each the same world and the same
    /// time delta.  No system is skipped, reordered, or retried.
    pub fn update<R: Registry>(&mut self, world: &mut World<R>, delta_time: u64) where S: System<R>
        requires
            old(world).wf(),
        ensures
            final(world).wf(),
            final(self).system_seq().len() == old(self).system_seq().len(),
            runs_in_order(
                old(self).system_seq(),
                final(self).system_seq(),
                *old(world),
                *final(world),
                delta_time,
            ),
    {
        let ghost all = self.systems@;
        let n = self.systems.len();
        let mut i: usize = 0;
        while i < n
            invariant
                n == self.systems@.len(),
                all.len() == n,
                all == old(self).system_seq(),
                0 <= i <= n,
                world.wf(),
                self.systems@.skip(i as int) == all.skip(i as int),
                runs_in_order(
                    all.take(i as int),
                    self.systems@.take(i as int),
                    *old(world),
                    *world,
                    delta_time,
                ),
            decreases n - i,
        {
            let ghost w_before = *world;
            let ghost systems_before = self.systems@;
            let s = &mut self.systems[i];
            s.update(world, delta_time);
            proof {
                assert(systems_before[i as int] == all[i as int]) by {
                    assert(systems_before.skip(i as int)[0] == all.skip(i as int)[0]);
                }
                lemma_runs_in_order_snoc(
                    all.take(i as int),
                    systems_before.take(i as int),
                    *old(world),
                    w_before,
                    all[i as int],
                    self.systems@[i as int],
                    *world,
                    delta_time,
                );
                assert(all.take(i + 1) =~= all.take(i as int).push(all[i as int]));
                assert(self.systems@.take(i + 1) =~= systems_before.take(i as int).push(
                    self.systems@[i as int],
                ));
                assert forall|k: int| i + 1 <= k < n implies self.systems@[k] == all[k] by {
                    assert(self.systems@[k] == systems_before[k]);
                    assert(systems_before.skip(i as int)[k - i] == all.skip(i as int)[k - i]);
                }
                assert(self.systems@.skip(i + 1) =~= all.skip(i + 1));
            }
            i += 1;
        }
        proof {
            assert(all.take(n as int) =~= all);
            assert(self.systems@.take(n as int) =~= self.systems@);
        }
    }
}

/// Helper for the frame conditions above: replacing a slot by a
/// well-formed storage yields a well-formed registry, stated for
/// every replacement value at once.
proof fn lemma_component_frame<R: Registry, T: Component<R>>(r: R)
    requires
        r.reg_wf(),
    ensures
        forall|s: ComponentStorage<T>|
            s.wf() ==> (#[trigger] T::with_storage(r, s)).reg_wf(),
        forall|s: ComponentStorage<T>| T::storage_of(#[trigger] T::with_storage(r, s)) == s,
{
    assert forall|s: ComponentStorage<T>| s.wf() implies (#[trigger] T::with_storage(
        r,
        s,
    )).reg_wf() by {
        T::lemma_with_storage_wf(r, s);
    }
    assert forall|s: ComponentStorage<T>|
        T::storage_of(#[trigger] T::with_storage(r, s)) == s by {
        T::lemma_with_storage(r, s);
    }
}

/// When a value occurs at exactly one index, removing the value
/// removes that index.
proof fn lemma_unique_index<T>(s: Seq<T>, v: T, i: int)
    requires
        0 <= i < s.len(),
        s[i] == v,
        forall|k: int| 0 <= k < s.len() && k != i ==> (#[trigger] s[k]) != v,
    ensures
        s.contains(v),
        s.remove_value(v) == s.remove(i),
{
    assert(s.contains(v)) by {
        assert(s[i] == v);
    }
    s.index_of_first_ensures(v);
    let j = s.index_of(v);
    assert(s[j] == v);
}

/// The domain of `pairs_as_map` is exactly the set of listed keys.
proof fn lemma_pairs_as_map_contains<T>(s: Seq<(Entity, T)>, e: Entity)
    ensures
        pairs_as_map(s).dom().contains(e) <==> exists|i: int| 0 <= i < s.len() && (#[trigger] s[i]).0 == e,
    decreases s.len(),
{
    if s.len() > 0 {
        lemma_pairs_as_map_contains(s.drop_last(), e);
        if s.last().0 == e {
            assert(s[s.len() - 1].0 == e);
        } else if pairs_as_map(s).dom().contains(e) {
            let i = choose|i: int| 0 <= i < s.drop_last().len() && (#[trigger] s.drop_last()[i]).0 == e;
            assert(s[i].0 == e);
        } else if exists|i: int| 0 <= i < s.len() && (#[trigger] s[i]).0 == e {
            let i = choose|i: int| 0 <= i < s.len() && (#[trigger] s[i]).0 == e;
            assert(s.drop_last()[i].0 == e);
        }
    }
}

/// Under distinct keys, the map sends each listed key to its listed
/// value.
proof fn lemma_pairs_as_map_value<T>(s: Seq<(Entity, T)>, i: int)
    requires
        distinct_keys(s),
        0 <= i < s.len(),
    ensures
        pairs_as_map(s).dom().contains(s[i].0),
        pairs_as_map(s)[s[i].0] == s[i].1,
    decreases s.len(),
{
    if i + 1 < s.len() {
        assert(distinct_keys(s.drop_last()));
        lemma_pairs_as_map_value(s.drop_last(), i);
        assert(s.drop_last()[i] == s[i]);
        assert(s.last().0 != s[i].0);
    }
}

/// Under distinct keys, replacing the value at one listed key updates
/// the map at that key alone.
proof fn lemma_pairs_as_map_update<T>(s: Seq<(Entity, T)>, i: int, v: T)
    requires
        distinct_keys(s),
        0 <= i < s.len(),
    ensures
        pairs_as_map(s.update(i, (s[i].0, v))) =~= pairs_as_map(s).insert(s[i].0, v),
    decreases s.len(),
{
    let t = s.update(i, (s[i].0, v));
    if i + 1 == s.len() {
        assert(t.drop_last() =~= s.drop_last());
    } else {
        assert(distinct_keys(s.drop_last()));
        lemma_pairs_as_map_update(s.drop_last(), i, v);
        assert(t.drop_last() =~= s.drop_last().update(i, (s[i].0, v)));
        assert(t.last() == s.last());
        assert(s.last().0 != s[i].0);
    }
}

/// The forall form of the update lemma, for callers that learn the
/// new value only later.
proof fn lemma_pairs_as_map_update_all<T>(s: Seq<(Entity, T)>, i: int)
    requires
        distinct_keys(s),
        0 <= i < s.len(),
    ensures
        forall|v: T| #[trigger]
            pairs_as_map(s.update(i, (s[i].0, v))) == pairs_as_map(s).insert(s[i].0, v),
        forall|v: T| distinct_keys(#[trigger] s.update(i, (s[i].0, v))),
{
    assert forall|v: T| #[trigger]
        pairs_as_map(s.update(i, (s[i].0, v))) == pairs_as_map(s).insert(s[i].0, v) by {
        lemma_pairs_as_map_update(s, i, v);
    }
}

/// Under distinct keys, removing the pair at one listed key removes
/// that key from the map.
proof fn lemma_pairs_as_map_remove<T>(s: Seq<(Entity, T)>, i: int)
    requires
        distinct_keys(s),
        0 <= i < s.len(),
    ensures
        pairs_as_map(s.remove(i)) =~= pairs_as_map(s).remove(s[i].0),
        distinct_keys(s.remove(i)),
    decreases s.len(),
{
    let t = s.remove(i);
    assert(distinct_keys(t));
    if i + 1 == s.len() {
        assert(t =~= s.drop_last());
        lemma_pairs_as_map_contains(s.drop_last(), s[i].0);
        assert(pairs_as_map(s.drop_last()) =~= pairs_as_map(s.drop_last()).remove(s[i].0));
    } else {
        assert(distinct_keys(s.drop_last()));
        lemma_pairs_as_map_remove(s.drop_last(), i);
        assert(t.drop_last() =~= s.drop_last().remove(i));
        assert(t.last() == s.last());
        assert(s.last().0 != s[i].0);
    }
}

/// Under distinct keys, the map's domain is finite and counts the
/// pairs, and each pair agrees with the map.
proof fn lemma_pairs_as_map_agrees<T>(s: Seq<(Entity, T)>)
    requires
        distinct_keys(s),
    ensures
        pairs_as_map(s).dom().finite(),
        pairs_as_map(s).dom().len() == s.len(),
        forall|k: int|
            0 <= k < s.len() ==> pairs_as_map(s).dom().contains((#[trigger] s[k]).0) && pairs_as_map(
                s,
            )[s[k].0] == s[k].1,
        forall|e: Entity|
            pairs_as_map(s).dom().contains(e) ==> exists|k: int|
                0 <= k < s.len() && (#[trigger] s[k]) == (e, pairs_as_map(s)[e]),
    decreases s.len(),
{
    assert forall|k: int| 0 <= k < s.len() implies pairs_as_map(s).dom().contains(
        (#[trigger] s[k]).0,
    ) && pairs_as_map(s)[s[k].0] == s[k].1 by {
        lemma_pairs_as_map_value(s, k);
    }
    assert forall|e: Entity| pairs_as_map(s).dom().contains(e) implies exists|k: int|
        0 <= k < s.len() && (#[trigger] s[k]) == (e, pairs_as_map(s)[e]) by {
        lemma_pairs_as_map_contains(s, e);
        let k = choose|k: int| 0 <= k < s.len() && (#[trigger] s[k]).0 == e;
        lemma_pairs_as_map_value(s, k);
        assert(s[k] == (e, pairs_as_map(s)[e]));
    }
    if s.len() > 0 {
        assert(distinct_keys(s.drop_last()));
        lemma_pairs_as_map_agrees(s.drop_last());
        lemma_pairs_as_map_contains(s.drop_last(), s.last().0);
        assert(!pairs_as_map(s.drop_last()).dom().contains(s.last().0));
        assert(pairs_as_map(s).dom() =~= pairs_as_map(s.drop_last()).dom().insert(s.last().0));
    }
}


impl<R: Registry> Default for World<R> {
    /// The same world `new` creates.
    fn default() -> (w: World<R>)
        ensures
            w.wf(),
            w.next_id() == 1,
            w.entity_seq() == Seq::<Entity>::empty(),
            w.registry().is_init(),
    {
        World::new()
    }
}

impl<S> Default for SystemScheduler<S> {
    /// The same scheduler `new` creates.
    fn default() -> (s: SystemScheduler<S>)
        ensures
            s.system_seq() == Seq::<S>::empty(),
    {
        SystemScheduler::new()
    }
}

/// Entity ids are strictly increasing along the roster and start at
/// 1: no two live entities share an id, the id 0 is never listed,
/// and every listed id is below the next to be issued.
pub proof fn lemma_entity_ids_strictly_increasing<R: Registry>(w: World<R>)
    requires
        w.wf(),
    ensures
        forall|i: int, j: int|
            0 <= i < j < w.entity_seq().len() ==> (#[trigger] w.entity_seq()[i]).0 < (
            #[trigger] w.entity_seq()[j]).0,
        forall|i: int|
            0 <= i < w.entity_seq().len() ==> 1 <= (#[trigger] w.entity_seq()[i]).0
                < w.next_id(),
        forall|i: int, j: int|
            0 <= i < j < w.entity_seq().len() ==> w.entity_seq()[i] != w.entity_seq()[j],
{
    assert forall|i: int, j: int|
        0 <= i < j < w.entity_seq().len() implies w.entity_seq()[i] != w.entity_seq()[j] by {
        assert(w.entity_seq()[i].0 < w.entity_seq()[j].0);
    }
}

/// The roster accounting behind `entity_count`: a successful
/// removal shortens the roster by exactly one entry, a missed one
/// leaves it alone — so after any run of creations (each of which
/// appends one entry) and removals, the count is the number of
/// creations minus the number of completed removals.
pub proof fn lemma_roster_after_removal(s: Seq<Entity>, e: Entity)
    ensures
        s.contains(e) ==> s.remove_value(e).len() == s.len() - 1,
        !s.contains(e) ==> s.remove_value(e) == s,
{
    s.index_of_first_ensures(e);
}

/// Attaching a component and then looking it up yields the value
/// attached, and leaves every other entity's component of that type
/// as it was — until the entry is overwritten or removed.
pub proof fn lemma_add_then_get<R: Registry, T: Component<R>>(
    w_before: World<R>,
    w_after: World<R>,
    entity: Entity,
    value: T,
)
    requires
        w_after.component_map::<T>() == w_before.component_map::<T>().insert(entity, value),
    ensures
        w_after.component_map::<T>().dom().contains(entity),
        w_after.component_map::<T>()[entity] == value,
        forall|other: Entity|
            other != entity && w_before.component_map::<T>().dom().contains(other)
                ==> w_after.component_map::<T>().dom().contains(other)
                && w_after.component_map::<T>()[other] == w_before.component_map::<T>()[other],
{
}

/// Detaching a component leaves the entity without one — a
/// subsequent lookup comes back empty — and leaves every other
/// entity's component of that type as it was.  (That the detach
/// call itself hands back exactly the value stored before is part
/// of `remove_component`'s own contract.)
pub proof fn lemma_remove_then_get<R: Registry, T: Component<R>>(
    w_before: World<R>,
    w_after: World<R>,
    entity: Entity,
)
    requires
        w_after.component_map::<T>() == w_before.component_map::<T>().remove(entity),
    ensures
        !w_after.component_map::<T>().dom().contains(entity),
        forall|other: Entity|
            other != entity && w_before.component_map::<T>().dom().contains(other)
                ==> w_after.component_map::<T>().dom().contains(other)
                && w_after.component_map::<T>()[other] == w_before.component_map::<T>()[other],
{
}

/// In a world in which no component of type `T` was ever inserted —
/// its registry is fresh — the query sequence of `T` is empty and no
/// entity has a `T`: absence of a storage is indistinguishable from
/// an empty storage, and no error arises.
pub proof fn lemma_fresh_world_has_no_components<R: Registry, T: Component<R>>(w: World<R>)
    requires
        w.registry().is_init(),
    ensures
        w.component_seq::<T>() == Seq::<(Entity, T)>::empty(),
        w.component_map::<T>() == Map::<Entity, T>::empty(),
        forall|e: Entity| !w.component_map::<T>().dom().contains(e),
{
    T::lemma_init_empty(w.registry());
}

/// An entity has a component of type `T` exactly when the latest
/// operation on that (entity, type) pair was an insert not followed
/// by a remove: an insert establishes presence, a remove ends it,
/// and operations on other entities (or other types, which live in
/// other slots) change nothing — `has_component` reports exactly
/// this state.
pub proof fn lemma_presence_follows_inserts_and_removes<R: Registry, T: Component<R>>(
    w_before: World<R>,
    w_inserted: World<R>,
    w_removed: World<R>,
    entity: Entity,
    value: T,
)
    requires
        w_inserted.component_map::<T>() == w_before.component_map::<T>().insert(entity, value),
        w_removed.component_map::<T>() == w_before.component_map::<T>().remove(entity),
    ensures
        w_inserted.component_map::<T>().dom().contains(entity),
        !w_removed.component_map::<T>().dom().contains(entity),
        forall|other: Entity|
            other != entity ==> (w_inserted.component_map::<T>().dom().contains(other)
                <==> w_before.component_map::<T>().dom().contains(other)),
        forall|other: Entity|
            other != entity ==> (w_removed.component_map::<T>().dom().contains(other)
                <==> w_before.component_map::<T>().dom().contains(other)),
{
}

/// A scheduler over exactly three systems runs them in order: the
/// run chain is precisely one step of the first system, then one of
/// the second from where the first left off, then one of the third,
/// ending in the final world — each invoked exactly once.
pub proof fn lemma_three_systems_run_in_order<R: Registry, S: System<R>>(
    a: S,
    b: S,
    c: S,
    a_post: S,
    b_post: S,
    c_post: S,
    w0: World<R>,
    w3: World<R>,
    delta_time: u64,
)
    requires
        runs_in_order(seq![a, b, c], seq![a_post, b_post, c_post], w0, w3, delta_time),
    ensures
        exists|w1: World<R>, w2: World<R>|
            #[trigger] S::effect(b, w1, b_post, w2, delta_time) && S::effect(
                a,
                w0,
                a_post,
                w1,
                delta_time,
            ) && S::effect(c, w2, c_post, w3, delta_time),
{
    let s = seq![a, b, c];
    let t = seq![a_post, b_post, c_post];
    assert(s[0] == a && t[0] == a_post);
    let w1 = choose|w_mid: World<R>|
        #[trigger] S::effect(s[0], w0, t[0], w_mid, delta_time) && runs_in_order(
            s.drop_first(),
            t.drop_first(),
            w_mid,
            w3,
            delta_time,
        );
    let s1 = s.drop_first();
    let t1 = t.drop_first();
    assert(s1 =~= seq![b, c]);
    assert(t1 =~= seq![b_post, c_post]);
    let w2 = choose|w_mid: World<R>|
        #[trigger] S::effect(s1[0], w1, t1[0], w_mid, delta_time) && runs_in_order(
            s1.drop_first(),
            t1.drop_first(),
            w_mid,
            w3,
            delta_time,
        );
    let s2 = s1.drop_first();
    let t2 = t1.drop_first();
    assert(s2 =~= seq![c]);
    assert(t2 =~= seq![c_post]);
    let w_end = choose|w_mid: World<R>|
        #[trigger] S::effect(s2[0], w2, t2[0], w_mid, delta_time) && runs_in_order(
            s2.drop_first(),
            t2.drop_first(),
            w_mid,
            w3,
            delta_time,
        );
    assert(s2.drop_first().len() == 0);
    assert(w_end == w3);
    assert(S::effect(b, w1, b_post, w2, delta_time) && S::effect(a, w0, a_post, w1, delta_time)
        && S::effect(c, w2, c_post, w3, delta_time));
}

} // verus!
