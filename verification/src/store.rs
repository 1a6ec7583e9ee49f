//! The component store: one container per component type, each mapping
//! entities to values, and a few global slots beside them.

use vstd::prelude::*;
use std::collections::hash_map::Entry;
use std::collections::HashMap;
use crate::entity::Entity;
use crate::component::{
    Component, ComponentType, Coords, Global, MyColor, MySize, Velocity, Weight, TTL, TYPE_COUNT,
};

verus! {

broadcast use vstd::std_specs::hash::group_hash_axioms;

/// The component that each entity holds of each type.
pub type Cells = Map<(Entity, ComponentType), Component>;

/// The position that `e` has in `cells`, if it has one.
pub open spec fn coords_of(cells: Cells, e: Entity) -> Option<Coords> {
    if cells.contains_key((e, ComponentType::Coords)) {
        match cells[(e, ComponentType::Coords)] {
            Component::Coords(c) => Some(c),
            _ => None,
        }
    } else {
        None
    }
}

/// The velocity that `e` has in `cells`, if it has one.
pub open spec fn velocity_of(cells: Cells, e: Entity) -> Option<Velocity> {
    if cells.contains_key((e, ComponentType::Velocity)) {
        match cells[(e, ComponentType::Velocity)] {
            Component::Velocity(v) => Some(v),
            _ => None,
        }
    } else {
        None
    }
}

/// The weight that `e` has in `cells`, if it has one.
pub open spec fn weight_of(cells: Cells, e: Entity) -> Option<Weight> {
    if cells.contains_key((e, ComponentType::Weight)) {
        match cells[(e, ComponentType::Weight)] {
            Component::Weight(w) => Some(w),
            _ => None,
        }
    } else {
        None
    }
}

/// The remaining ticks that `e` has in `cells`, if it counts them.
pub open spec fn ttl_of(cells: Cells, e: Entity) -> Option<TTL> {
    if cells.contains_key((e, ComponentType::TTL)) {
        match cells[(e, ComponentType::TTL)] {
            Component::TTL(t) => Some(t),
            _ => None,
        }
    } else {
        None
    }
}

/// The size that `e` has in `cells`, if it has one.
pub open spec fn size_of(cells: Cells, e: Entity) -> Option<MySize> {
    if cells.contains_key((e, ComponentType::MySize)) {
        match cells[(e, ComponentType::MySize)] {
            Component::MySize(s) => Some(s),
            _ => None,
        }
    } else {
        None
    }
}

/// The colour that `e` has in `cells`, if it has one.
pub open spec fn color_of(cells: Cells, e: Entity) -> Option<MyColor> {
    if cells.contains_key((e, ComponentType::MyColor)) {
        match cells[(e, ComponentType::MyColor)] {
            Component::MyColor(c) => Some(c),
            _ => None,
        }
    } else {
        None
    }
}

/// Whether `e` holds in `cells` a component of every type in `types`.
pub open spec fn holds_all(cells: Cells, e: Entity, types: Set<ComponentType>) -> bool {
    forall|t: ComponentType| types.contains(t) ==> cells.contains_key((e, t))
}

/// Whether `e` holds a component of any type in `cells`.
pub open spec fn holds_any(cells: Cells, e: Entity) -> bool {
    exists|t: ComponentType| cells.contains_key((e, t))
}

/// Whether every entity that holds a component in `cells` is one of the
/// first `count` entities.
pub open spec fn within(cells: Cells, count: nat) -> bool {
    forall|e: Entity, t: ComponentType| #[trigger] cells.contains_key((e, t)) ==> e.id < count
}

/// What a component store holds.
pub struct StoreState {
    /// The component types that may be stored.
    pub registered: Set<ComponentType>,
    /// The component that each entity holds of each type.
    pub cells: Cells,
    /// The global slots.
    pub globals: Map<u64, Global>,
    /// The entities and types whose cell was written or cleared since the
    /// membership of systems was last brought up to date.
    pub changes: Set<(Entity, ComponentType)>,
}

impl StoreState {
    /// A store that holds nothing.
    pub open spec fn empty() -> StoreState {
        StoreState {
            registered: Set::empty(),
            cells: Map::empty(),
            globals: Map::empty(),
            changes: Set::empty(),
        }
    }

    /// Every cell holds a value of its own type, and that type is registered.
    pub open spec fn wf(self) -> bool {
        forall|e: Entity, t: ComponentType| #[trigger]
            self.cells.contains_key((e, t)) ==> {
                &&& self.cells[(e, t)].spec_kind() == t
                &&& self.registered.contains(t)
            }
    }

    /// Whether `e` holds a component of type `t`.
    pub open spec fn has(self, e: Entity, t: ComponentType) -> bool {
        self.cells.contains_key((e, t))
    }

    /// The component of type `t` that `e` holds, if it holds one.
    pub open spec fn get(self, e: Entity, t: ComponentType) -> Option<Component> {
        if self.cells.contains_key((e, t)) {
            Some(self.cells[(e, t)])
        } else {
            None
        }
    }

    /// The store after `t` was declared as storable.
    pub open spec fn register(self, t: ComponentType) -> StoreState {
        StoreState { registered: self.registered.insert(t), ..self }
    }

    /// The store after `e` was given `c`, in place of any component of the
    /// same type that it held.
    pub open spec fn add(self, e: Entity, c: Component) -> StoreState {
        StoreState {
            cells: self.cells.insert((e, c.spec_kind()), c),
            changes: self.changes.insert((e, c.spec_kind())),
            ..self
        }
    }

    /// The store after `e` lost its component of type `t`, if it had one.
    pub open spec fn remove(self, e: Entity, t: ComponentType) -> StoreState {
        StoreState {
            cells: self.cells.remove((e, t)),
            changes: self.changes.insert((e, t)),
            ..self
        }
    }

    /// The store after `g` was put into the global slot `key`.
    pub open spec fn add_global(self, key: u64, g: Global) -> StoreState {
        StoreState { globals: self.globals.insert(key, g), ..self }
    }

    /// What the global slot `key` holds, if anything.
    pub open spec fn get_global(self, key: u64) -> Option<Global> {
        if self.globals.contains_key(key) {
            Some(self.globals[key])
        } else {
            None
        }
    }

    /// The store after the noted changes were looked at.
    pub open spec fn clear_changes(self) -> StoreState {
        StoreState { changes: Set::empty(), ..self }
    }

    /// Whether this store can have come from `before` by adding and removing
    /// components: the registered types and the global slots are the same,
    /// and every cell that appeared or disappeared is among the changes.
    pub open spec fn follows(self, before: StoreState) -> bool {
        &&& self.registered == before.registered
        &&& self.globals == before.globals
        &&& before.changes.subset_of(self.changes)
        &&& forall|e: Entity, t: ComponentType|
            before.has(e, t) != self.has(e, t) ==> #[trigger] self.changes.contains((e, t))
    }
}

/// Whether `changes` names `e` together with one of `types`.
pub open spec fn touched(
    changes: Set<(Entity, ComponentType)>,
    e: Entity,
    types: Set<ComponentType>,
) -> bool {
    exists|t: ComponentType| #[trigger] types.contains(t) && changes.contains((e, t))
}

/// Where a store follows another and an entity holds all of `types` in one
/// of them but not in the other, the changes name the entity with one of
/// those types.
pub proof fn lemma_follows_touched(
    before: StoreState,
    after: StoreState,
    e: Entity,
    types: Set<ComponentType>,
)
    requires
        after.follows(before),
        holds_all(before.cells, e, types) != holds_all(after.cells, e, types),
    ensures
        touched(after.changes, e, types),
{
    if holds_all(before.cells, e, types) {
        let t = choose|t: ComponentType| types.contains(t) && !after.cells.contains_key((e, t));
        assert(before.has(e, t) != after.has(e, t));
        assert(types.contains(t) && after.changes.contains((e, t)));
    } else {
        let t = choose|t: ComponentType| types.contains(t) && !before.cells.contains_key((e, t));
        assert(before.has(e, t) != after.has(e, t));
        assert(types.contains(t) && after.changes.contains((e, t)));
    }
}

/// Adding a component leads to a store that follows the one before.
pub proof fn lemma_follows_add(s: StoreState, e: Entity, c: Component)
    ensures
        s.add(e, c).follows(s),
{
}

/// Removing a component leads to a store that follows the one before.
pub proof fn lemma_follows_remove(s: StoreState, e: Entity, t: ComponentType)
    ensures
        s.remove(e, t).follows(s),
{
}

/// A store that follows one that follows a third follows the third.
pub proof fn lemma_follows_trans(a: StoreState, b: StoreState, c: StoreState)
    requires
        b.follows(a),
        c.follows(b),
    ensures
        c.follows(a),
{
    assert forall|e: Entity, t: ComponentType| a.has(e, t) != c.has(e, t) implies #[trigger]
        c.changes.contains((e, t)) by {
        if a.has(e, t) != b.has(e, t) {
            assert(b.changes.contains((e, t)));
        }
    }
}

/// A global slot gives back what was put into it, and no operation on
/// entities, components or registered types changes any global slot.
pub proof fn lemma_global_slot_isolation(
    s: StoreState,
    key: u64,
    g: Global,
    e: Entity,
    c: Component,
    t: ComponentType,
)
    ensures
        s.add_global(key, g).get_global(key) == Some(g),
        s.add_global(key, g).add(e, c).get_global(key) == Some(g),
        s.add_global(key, g).remove(e, t).get_global(key) == Some(g),
        s.add_global(key, g).register(t).get_global(key) == Some(g),
        s.add_global(key, g).clear_changes().get_global(key) == Some(g),
        s.add_global(key, g).cells == s.cells,
        s.add_global(key, g).registered == s.registered,
        forall|other: u64| other != key ==> s.add_global(key, g).get_global(other) == s.get_global(other),
{
}

/// A store that follows another has the same global slots.
pub proof fn lemma_follows_keeps_globals(before: StoreState, after: StoreState, key: u64)
    requires
        after.follows(before),
    ensures
        after.get_global(key) == before.get_global(key),
{
}

/// The component store.
pub struct ComponentManager {
    registered: Vec<bool>,
    columns: Vec<HashMap<u64, Component>>,
    globals: HashMap<u64, Global>,
    changes: Vec<(Entity, ComponentType)>,
}

impl View for ComponentManager {
    type V = StoreState;

    closed spec fn view(&self) -> StoreState {
        StoreState {
            registered: Set::new(|t: ComponentType| self.registered@[t.spec_index() as int]),
            cells: Map::new(
                |k: (Entity, ComponentType)|
                    self.columns@[k.1.spec_index() as int]@.contains_key(k.0.id),
                |k: (Entity, ComponentType)| self.columns@[k.1.spec_index() as int]@[k.0.id],
            ),
            globals: self.globals@,
            changes: Set::new(|p: (Entity, ComponentType)| self.changes@.contains(p)),
        }
    }
}

impl ComponentManager {
    /// Each component type has its container.
    pub closed spec fn inv(&self) -> bool {
        &&& self.registered@.len() == TYPE_COUNT
        &&& self.columns@.len() == TYPE_COUNT
    }

    /// The store is consistent.
    pub open spec fn wf(&self) -> bool {
        &&& self.inv()
        &&& self@.wf()
    }

    /// A store with no registered type, no component and no global.
    pub fn new() -> (cm: Self)
        ensures
            cm.wf(),
            cm@ == StoreState::empty(),
    {
        let mut registered: Vec<bool> = Vec::new();
        let mut columns: Vec<HashMap<u64, Component>> = Vec::new();
        let mut i: usize = 0;
        while i < TYPE_COUNT
            invariant
                i <= TYPE_COUNT,
                registered@.len() == i,
                columns@.len() == i,
                forall|j: int| 0 <= j < i ==> !registered@[j],
                forall|j: int| 0 <= j < i ==> columns@[j]@ == Map::<u64, Component>::empty(),
            decreases TYPE_COUNT - i,
        {
            registered.push(false);
            columns.push(HashMap::new());
            i = i + 1;
        }
        let cm = ComponentManager {
            registered,
            columns,
            globals: HashMap::new(),
            changes: Vec::new(),
        };
        assert(cm@.registered =~= Set::empty());
        assert(cm@.cells =~= Map::empty());
        assert(cm@.changes =~= Set::empty());
        cm
    }

    /// Declares `t` as storable. Declaring a type again changes nothing.
    pub fn register(&mut self, t: ComponentType)
        requires
            old(self).wf(),
        ensures
            final(self).wf(),
            final(self)@ == old(self)@.register(t),
    {
        self.registered.set(t.index(), true);
        assert(self@.registered =~= old(self)@.registered.insert(t));
        assert(self@.cells =~= old(self)@.cells);
        assert(self@.changes =~= old(self)@.changes);
    }

    /// Whether `t` was declared as storable.
    pub fn is_registered(&self, t: ComponentType) -> (b: bool)
        requires
            self.wf(),
        ensures
            b == self@.registered.contains(t),
    {
        self.registered[t.index()]
    }

    /// Whether `e` holds a component of type `t`. No entity holds a component
    /// of a type that was not registered.
    pub fn has(&self, e: Entity, t: ComponentType) -> (b: bool)
        requires
            self.wf(),
        ensures
            b == self@.has(e, t),
    {
        self.columns[t.index()].contains_key(&e.id)
    }

    /// The component of type `t` that `e` holds, if it holds one.
    pub fn get(&self, e: Entity, t: ComponentType) -> (r: Option<Component>)
        requires
            self.wf(),
            self@.registered.contains(t),
        ensures
            r == self@.get(e, t),
    {
        match self.columns[t.index()].get(&e.id) {
            Some(c) => Some(*c),
            None => None,
        }
    }

    /// The position of `e`, if it has one.
    pub fn get_coords(&self, e: Entity) -> (r: Option<Coords>)
        requires
            self.wf(),
            self@.registered.contains(ComponentType::Coords),
        ensures
            r == coords_of(self@.cells, e),
            r is Some <==> self@.has(e, ComponentType::Coords),
    {
        match self.get(e, ComponentType::Coords) {
            Some(Component::Coords(c)) => Some(c),
            _ => None,
        }
    }

    /// The velocity of `e`, if it has one.
    pub fn get_velocity(&self, e: Entity) -> (r: Option<Velocity>)
        requires
            self.wf(),
            self@.registered.contains(ComponentType::Velocity),
        ensures
            r == velocity_of(self@.cells, e),
            r is Some <==> self@.has(e, ComponentType::Velocity),
    {
        match self.get(e, ComponentType::Velocity) {
            Some(Component::Velocity(v)) => Some(v),
            _ => None,
        }
    }

    /// The weight of `e`, if it has one.
    pub fn get_weight(&self, e: Entity) -> (r: Option<Weight>)
        requires
            self.wf(),
            self@.registered.contains(ComponentType::Weight),
        ensures
            r == weight_of(self@.cells, e),
            r is Some <==> self@.has(e, ComponentType::Weight),
    {
        match self.get(e, ComponentType::Weight) {
            Some(Component::Weight(w)) => Some(w),
            _ => None,
        }
    }

    /// The remaining ticks of `e`, if it counts them.
    pub fn get_ttl(&self, e: Entity) -> (r: Option<TTL>)
        requires
            self.wf(),
            self@.registered.contains(ComponentType::TTL),
        ensures
            r == ttl_of(self@.cells, e),
            r is Some <==> self@.has(e, ComponentType::TTL),
    {
        match self.get(e, ComponentType::TTL) {
            Some(Component::TTL(t)) => Some(t),
            _ => None,
        }
    }

    /// The size of `e`, if it has one.
    pub fn get_size(&self, e: Entity) -> (r: Option<MySize>)
        requires
            self.wf(),
            self@.registered.contains(ComponentType::MySize),
        ensures
            r == size_of(self@.cells, e),
            r is Some <==> self@.has(e, ComponentType::MySize),
    {
        match self.get(e, ComponentType::MySize) {
            Some(Component::MySize(s)) => Some(s),
            _ => None,
        }
    }

    /// The colour of `e`, if it has one.
    pub fn get_color(&self, e: Entity) -> (r: Option<MyColor>)
        requires
            self.wf(),
            self@.registered.contains(ComponentType::MyColor),
        ensures
            r == color_of(self@.cells, e),
            r is Some <==> self@.has(e, ComponentType::MyColor),
    {
        match self.get(e, ComponentType::MyColor) {
            Some(Component::MyColor(c)) => Some(c),
            _ => None,
        }
    }

    /// Write access to the component of type `t` that `e` holds, if it
    /// holds one. What the caller leaves there is what the store holds
    /// afterwards; the store stays consistent as long as that is a value of
    /// type `t`. No change is noted, since `e` holds the same types as before.
    pub fn get_mut(&mut self, e: Entity, t: ComponentType) -> (r: Option<&mut Component>)
        requires
            old(self).wf(),
            old(self)@.registered.contains(t),
        ensures
            final(self).inv(),
            final(self)@.registered =~= old(self)@.registered,
            final(self)@.globals == old(self)@.globals,
            final(self)@.changes =~= old(self)@.changes,
            match r {
                Some(c) => {
                    &&& old(self)@.has(e, t)
                    &&& *c == old(self)@.cells[(e, t)]
                    &&& final(self)@.cells =~= old(self)@.cells.insert((e, t), *final(c))
                },
                None => !old(self)@.has(e, t) && final(self)@.cells =~= old(self)@.cells,
            },
    {
        let idx = t.index();
        match self.columns[idx].entry(e.id) {
            Entry::Occupied(o) => Some(o.into_mut()),
            Entry::Vacant(_) => None,
        }
    }

    /// Gives `e` the component `c`, in place of any component of the same
    /// type that it holds.
    pub fn add(&mut self, e: Entity, c: Component)
        requires
            old(self).wf(),
            old(self)@.registered.contains(c.spec_kind()),
        ensures
            final(self).wf(),
            final(self)@ == old(self)@.add(e, c),
    {
        let t = c.kind();
        self.columns[t.index()].insert(e.id, c);
        self.changes.push((e, t));
        assert(self@.registered =~= old(self)@.registered);
        assert(self@.cells =~= old(self)@.add(e, c).cells);
        assert(self@.changes =~= old(self)@.add(e, c).changes) by {
            assert forall|p: (Entity, ComponentType)|
                self@.changes.contains(p) <==> old(self)@.add(e, c).changes.contains(p) by {
                if old(self).changes@.contains(p) {
                    let j = choose|j: int| 0 <= j < old(self).changes@.len() && old(self).changes@[j] == p;
                    assert(self.changes@[j] == p);
                }
                if p == (e, t) {
                    assert(self.changes@[self.changes@.len() - 1] == p);
                }
            }
        }
    }

    /// Takes the component of type `t` from `e`, if it holds one.
    pub fn remove(&mut self, e: Entity, t: ComponentType)
        requires
            old(self).wf(),
            old(self)@.registered.contains(t),
        ensures
            final(self).wf(),
            final(self)@ == old(self)@.remove(e, t),
    {
        self.columns[t.index()].remove(&e.id);
        self.changes.push((e, t));
        assert(self@.registered =~= old(self)@.registered);
        assert(self@.cells =~= old(self)@.remove(e, t).cells);
        assert(self@.changes =~= old(self)@.remove(e, t).changes) by {
            assert forall|p: (Entity, ComponentType)|
                self@.changes.contains(p) <==> old(self)@.remove(e, t).changes.contains(p) by {
                if old(self).changes@.contains(p) {
                    let j = choose|j: int| 0 <= j < old(self).changes@.len() && old(self).changes@[j] == p;
                    assert(self.changes@[j] == p);
                }
                if p == (e, t) {
                    assert(self.changes@[self.changes@.len() - 1] == p);
                }
            }
        }
    }

    /// Hands out the changes noted so far and starts a new list.
    pub fn take_changes(&mut self) -> (taken: Vec<(Entity, ComponentType)>)
        requires
            old(self).wf(),
        ensures
            final(self).wf(),
            final(self)@ == old(self)@.clear_changes(),
            forall|p: (Entity, ComponentType)| taken@.contains(p) <==> old(self)@.changes.contains(p),
    {
        let mut taken: Vec<(Entity, ComponentType)> = Vec::new();
        std::mem::swap(&mut taken, &mut self.changes);
        assert(self@.registered =~= old(self)@.registered);
        assert(self@.cells =~= old(self)@.cells);
        assert(self@.changes =~= Set::empty());
        taken
    }

    /// Puts `g` into the global slot `key`, in place of what the slot held.
    pub fn add_global(&mut self, key: u64, g: Global)
        requires
            old(self).wf(),
        ensures
            final(self).wf(),
            final(self)@ == old(self)@.add_global(key, g),
    {
        self.globals.insert(key, g);
        assert(self@.registered =~= old(self)@.registered);
        assert(self@.cells =~= old(self)@.cells);
        assert(self@.changes =~= old(self)@.changes);
    }

    /// What the global slot `key` holds, if anything.
    pub fn get_global(&self, key: u64) -> (r: Option<Global>)
        requires
            self.wf(),
        ensures
            r == self@.get_global(key),
    {
        match self.globals.get(&key) {
            Some(g) => Some(*g),
            None => None,
        }
    }
}

} // verus!
