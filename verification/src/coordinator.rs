//! The tick engine: it owns the entities, the component store and the
//! systems, and drives one tick at a time.

use vstd::prelude::*;
use crate::entity::{
    ascending, count_after_allocation, lemma_ascending_unique, next_entity, Entity,
    EntityRegistry,
};
use crate::component::{type_set, Component, ComponentType, Global};
use crate::store::{
    holds_all, holds_any, lemma_follows_add, lemma_follows_remove, lemma_follows_touched,
    lemma_follows_trans, touched, within, Cells, ComponentManager, StoreState,
};
use crate::command::{all_within, Command, CommandBuffer, DrawCmd, Target};
use crate::input::{InputView, TickInput};
use crate::system::{same_behaviour, System};

verus! {

/// The cells after the first `n` of `systems` took their step, one after the
/// other, starting from `cells`.
pub open spec fn cells_after<S: System>(
    systems: Seq<S>,
    cells: Cells,
    input: InputView,
    n: int,
) -> Cells
    decreases n,
{
    if n <= 0 {
        cells
    } else {
        systems[n - 1].step(
            systems[n - 1].members(),
            cells_after(systems, cells, input, n - 1),
            input,
        )
    }
}

/// The operations that each of `systems` records when they take their steps
/// one after the other, starting from `cells`.
pub open spec fn emitted<S: System>(systems: Seq<S>, cells: Cells, input: InputView) -> Seq<
    Seq<Command>,
> {
    Seq::new(
        systems.len(),
        |i: int|
            systems[i].emits(
                systems[i].members(),
                cells_after(systems, cells, input, i),
                input,
            ),
    )
}

/// Whether the member set of the system at position `i` is right about `e`
/// where `count` entities were created: `e` is a member exactly if it is one
/// of them and holds a component of every required type.
pub open spec fn settled<S: System>(
    systems: Seq<S>,
    cells: Cells,
    count: nat,
    i: int,
    e: Entity,
) -> bool {
    systems[i].members().contains(e) <==> (e.id < count && holds_all(
        cells,
        e,
        systems[i].required(),
    ))
}

/// Whether the changes from position `from` on name `e` with one of `types`.
pub open spec fn pending(
    changes: Seq<(Entity, ComponentType)>,
    from: int,
    e: Entity,
    types: Set<ComponentType>,
) -> bool {
    exists|m: int|
        from <= m < changes.len() && (#[trigger] changes[m]).0 == e && types.contains(changes[m].1)
}

/// Whether every one of `systems` has its members in ascending order.
pub open spec fn all_ordered<S: System>(systems: Seq<S>) -> bool {
    forall|i: int| 0 <= i < systems.len() ==> ascending((#[trigger] systems[i]).members())
}

/// Whether every member set is right about every entity.
pub open spec fn all_settled<S: System>(systems: Seq<S>, cells: Cells, count: nat) -> bool {
    forall|i: int, e: Entity|
        0 <= i < systems.len() ==> #[trigger] settled(systems, cells, count, i, e)
}

/// Whether a member set is wrong about an entity only where `changes` names
/// that entity with a type that the system requires.
pub open spec fn all_settled_but<S: System>(
    systems: Seq<S>,
    cells: Cells,
    count: nat,
    changes: Set<(Entity, ComponentType)>,
) -> bool {
    forall|i: int, e: Entity|
        0 <= i < systems.len() ==> (#[trigger] settled(systems, cells, count, i, e)) || touched(
            changes,
            e,
            systems[i].required(),
        )
}

/// Whether `changes` names every cell of an entity that is none of the
/// first `count`.
pub open spec fn newcomers_noted(
    cells: Cells,
    changes: Set<(Entity, ComponentType)>,
    count: nat,
) -> bool {
    forall|e: Entity, t: ComponentType| #[trigger]
        cells.contains_key((e, t)) && e.id >= count ==> changes.contains((e, t))
}

/// Whether every member of every system is one of the first `count`
/// entities.
pub open spec fn members_created<S: System>(systems: Seq<S>, count: nat) -> bool {
    forall|i: int, e: Entity|
        0 <= i < systems.len() && (#[trigger] systems[i].members().contains(e)) ==> e.id < count
}

/// Whether each of `systems` touches only types in `registered`.
pub open spec fn all_registered<S: System>(
    systems: Seq<S>,
    registered: Set<ComponentType>,
) -> bool {
    forall|i: int| 0 <= i < systems.len() ==> (#[trigger] systems[i]).touches().subset_of(registered)
}

/// Whether `after` has as many systems as `before`, each the same as it
/// was but for its members.
pub open spec fn same_interests<S: System>(after: Seq<S>, before: Seq<S>) -> bool {
    &&& after.len() == before.len()
    &&& forall|i: int| 0 <= i < before.len() ==> same_behaviour(#[trigger] after[i], before[i])
}

/// Whether `after` has as many systems as `before`, each with the members
/// that it had.
pub open spec fn same_member_sets<S: System>(
    after: Seq<S>,
    before: Seq<S>,
) -> bool {
    &&& after.len() == before.len()
    &&& forall|i: int| 0 <= i < before.len() ==> (#[trigger] after[i]).members() == before[i].members()
}

/// What the command phase has reached: the cells, the number of entities
/// created, the entity that the buffer at hand created last, and what is to
/// be drawn.
pub struct Outcome {
    pub cells: Cells,
    pub count: nat,
    pub created: Option<Entity>,
    pub frame: Seq<DrawCmd>,
}

/// The entity that `target` stands for where `count` entities were created,
/// if it stands for one: an entity that was created, or the one that the
/// buffer at hand created last.
pub open spec fn resolve(target: Target, created: Option<Entity>, count: nat) -> Option<Entity> {
    match target {
        Target::Existing(e) => if e.id < count {
            Some(e)
        } else {
            None
        },
        Target::Created => created,
    }
}

/// The state of the command phase after one more operation. An operation on
/// an entity that was never created does nothing, and so does one on the
/// created entity where the buffer created none.
pub open spec fn run_command(o: Outcome, c: Command) -> Outcome {
    match c {
        Command::CreateEntity => Outcome {
            count: count_after_allocation(o.count),
            created: next_entity(o.count),
            ..o
        },
        Command::AttachComponent(target, comp) => match resolve(target, o.created, o.count) {
            Some(e) => Outcome { cells: o.cells.insert((e, comp.spec_kind()), comp), ..o },
            None => o,
        },
        Command::RemoveComponent(target, t) => match resolve(target, o.created, o.count) {
            Some(e) => Outcome { cells: o.cells.remove((e, t)), ..o },
            None => o,
        },
        Command::Draw(d) => Outcome { frame: o.frame.push(d), ..o },
    }
}

/// The state of the command phase after the operations of one buffer, in
/// their order.
pub open spec fn run_commands(o: Outcome, cmds: Seq<Command>) -> Outcome
    decreases cmds.len(),
{
    if cmds.len() == 0 {
        o
    } else {
        run_command(run_commands(o, cmds.drop_last()), cmds.last())
    }
}

/// Carrying out `a` and then `b` is carrying out the two in a row.
pub proof fn lemma_run_commands_concat(o: Outcome, a: Seq<Command>, b: Seq<Command>)
    ensures
        run_commands(o, a + b) == run_commands(run_commands(o, a), b),
    decreases b.len(),
{
    if b.len() == 0 {
        assert(a + b =~= a);
    } else {
        assert((a + b).drop_last() =~= a + b.drop_last());
        assert((a + b).last() == b.last());
        lemma_run_commands_concat(o, a, b.drop_last());
    }
}

/// The state of the command phase after the buffers, in their order. Each
/// buffer starts without a created entity.
pub open spec fn run_buffers(o: Outcome, bufs: Seq<Seq<Command>>) -> Outcome
    decreases bufs.len(),
{
    if bufs.len() == 0 {
        o
    } else {
        run_commands(Outcome { created: None, ..run_buffers(o, bufs.drop_last()) }, bufs.last())
    }
}

/// The state in which a command phase starts.
pub open spec fn outset(cells: Cells, count: nat) -> Outcome {
    Outcome { cells, count, created: None, frame: Seq::empty() }
}

/// What each buffer holds.
pub open spec fn buffer_views(bufs: Seq<CommandBuffer>) -> Seq<Seq<Command>> {
    Seq::new(bufs.len(), |i: int| bufs[i]@)
}

/// What one tick leads to: every system takes its step, then the recorded
/// operations are carried out buffer by buffer.
pub open spec fn tick_outcome<S: System>(
    systems: Seq<S>,
    cells: Cells,
    count: nat,
    input: InputView,
) -> Outcome {
    run_buffers(
        outset(cells_after(systems, cells, input, systems.len() as int), count),
        emitted(systems, cells, input),
    )
}

/// Whether `t` occurs in `types`.
pub fn contains_type(types: &Vec<ComponentType>, t: ComponentType) -> (b: bool)
    ensures
        b == types@.contains(t),
{
    let mut i: usize = 0;
    while i < types.len()
        invariant
            i <= types.len(),
            forall|m: int| 0 <= m < i ==> types@[m] != t,
        decreases types.len() - i,
    {
        if types[i] == t {
            return true;
        }
        i = i + 1;
    }
    false
}

/// Whether `e` holds a component of every type in `types`.
pub fn holds_required(store: &ComponentManager, types: &Vec<ComponentType>, e: Entity) -> (b:
    bool)
    requires
        store.wf(),
    ensures
        b == holds_all(store@.cells, e, type_set(types@)),
{
    let mut i: usize = 0;
    while i < types.len()
        invariant
            store.wf(),
            i <= types.len(),
            forall|m: int| 0 <= m < i ==> store@.cells.contains_key((e, #[trigger] types@[m])),
        decreases types.len() - i,
    {
        if !store.has(e, types[i]) {
            assert(type_set(types@).contains(types@[i as int]));
            return false;
        }
        i = i + 1;
    }
    true
}

/// The tick engine.
pub struct Coordinator<S: System> {
    registry: EntityRegistry,
    store: ComponentManager,
    systems: Vec<S>,
}

impl<S: System> Coordinator<S> {
    /// The systems in the order in which they were registered.
    pub closed spec fn systems(&self) -> Seq<S> {
        self.systems@
    }

    /// What the component store holds.
    pub closed spec fn store(&self) -> StoreState {
        self.store@
    }

    /// How many entities were created so far.
    pub closed spec fn entity_count(&self) -> nat {
        self.registry.count()
    }

    /// Whether entity `e` is a member of the system at position `i`.
    pub open spec fn is_member(&self, i: int, e: Entity) -> bool {
        self.systems()[i].members().contains(e)
    }

    /// Whether `e` was created and holds a component of every type that the
    /// system at position `i` requires.
    pub open spec fn qualifies(&self, i: int, e: Entity) -> bool {
        e.id < self.entity_count() && holds_all(
            self.store().cells,
            e,
            self.systems()[i].required(),
        )
    }

    /// The store and every system are consistent in themselves.
    pub closed spec fn parts_wf(&self) -> bool {
        &&& self.store.wf()
        &&& forall|i: int| 0 <= i < self.systems@.len() ==> (#[trigger] self.systems@[i]).wf()
    }

    /// Every system has its members in ascending order.
    pub open spec fn ordered(&self) -> bool {
        all_ordered(self.systems())
    }

    /// The state between ticks: only created entities hold components, no
    /// change waits to be looked at, and every system has exactly those
    /// created entities as members that hold a component of each type it
    /// requires.
    pub open spec fn wf(&self) -> bool {
        &&& self.parts_wf()
        &&& self.ordered()
        &&& self.store().wf()
        &&& within(self.store().cells, self.entity_count())
        &&& self.store().changes == Set::<(Entity, ComponentType)>::empty()
        &&& all_settled(self.systems(), self.store().cells, self.entity_count())
    }

    /// The state within a tick: only created entities hold components, and
    /// a member set may be wrong about an entity, but only where the store
    /// has noted a change of that entity in a type that the system requires.
    pub open spec fn mid_tick(&self) -> bool {
        &&& self.parts_wf()
        &&& self.ordered()
        &&& self.store().wf()
        &&& within(self.store().cells, self.entity_count())
        &&& all_settled_but(
            self.systems(),
            self.store().cells,
            self.entity_count(),
            self.store().changes,
        )
    }

    /// Every system may touch only registered component types.
    pub open spec fn configured(&self) -> bool {
        all_registered(self.systems(), self.store().registered)
    }

    /// The systems are as many as in `before`, and each is the same as it
    /// was but for its members.
    pub open spec fn same_systems(&self, before: Coordinator<S>) -> bool {
        same_interests(self.systems(), before.systems())
    }

    /// Every system has the members that it had in `before`.
    pub open spec fn same_members(&self, before: Coordinator<S>) -> bool {
        same_member_sets(self.systems(), before.systems())
    }

    /// Whether this is a state that one tick on `input` leads to from
    /// `before`: between ticks again, with the same systems, registered types
    /// and global slots, and with the cells and the number of entities that
    /// the tick's outcome names.
    pub open spec fn ticked_from(&self, before: Coordinator<S>, input: InputView) -> bool {
        &&& self.wf()
        &&& self.same_systems(before)
        &&& self.store().registered == before.store().registered
        &&& self.store().globals == before.store().globals
        &&& self.store().cells == tick_outcome(
            before.systems(),
            before.store().cells,
            before.entity_count(),
            input,
        ).cells
        &&& self.entity_count() == tick_outcome(
            before.systems(),
            before.store().cells,
            before.entity_count(),
            input,
        ).count
    }

    /// Between ticks, an entity is a member of a system exactly if it holds
    /// a component of every type that the system requires.
    pub proof fn lemma_membership(&self, i: int, e: Entity)
        requires
            self.wf(),
            0 <= i < self.systems().len(),
        ensures
            self.is_member(i, e) <==> self.qualifies(i, e),
    {
        assert(settled(self.systems(), self.store().cells, self.entity_count(), i, e));
    }

    /// A tick is a function of the state and the input: two engines with the
    /// same systems, cells and number of entities end a tick on the same
    /// input with the same cells, the same number of entities, and the same
    /// members in every system.
    pub proof fn lemma_tick_deterministic(
        a: Coordinator<S>,
        b: Coordinator<S>,
        after_a: Coordinator<S>,
        after_b: Coordinator<S>,
        input: InputView,
    )
        requires
            a.systems() == b.systems(),
            a.store().cells == b.store().cells,
            a.entity_count() == b.entity_count(),
            after_a.ticked_from(a, input),
            after_b.ticked_from(b, input),
        ensures
            after_a.store().cells == after_b.store().cells,
            after_a.entity_count() == after_b.entity_count(),
            forall|i: int|
                0 <= i < a.systems().len() ==> (#[trigger] after_a.systems()[i]).members()
                    == after_b.systems()[i].members(),
    {
        assert forall|i: int| 0 <= i < a.systems().len() implies (
        #[trigger] after_a.systems()[i]).members() == after_b.systems()[i].members() by {
            let ma = after_a.systems()[i].members();
            let mb = after_b.systems()[i].members();
            assert(after_a.systems()[i].required() == a.systems()[i].required());
            assert(after_b.systems()[i].required() == b.systems()[i].required());
            assert forall|e: Entity| ma.contains(e) <==> mb.contains(e) by {
                assert(settled(
                    after_a.systems(),
                    after_a.store().cells,
                    after_a.entity_count(),
                    i,
                    e,
                ));
                assert(settled(
                    after_b.systems(),
                    after_b.store().cells,
                    after_b.entity_count(),
                    i,
                    e,
                ));
            }
            assert(ascending(ma));
            assert(ascending(mb));
            lemma_ascending_unique(ma, mb);
        }
    }

    /// An engine without entities, components, globals and systems.
    pub fn new() -> (c: Self)
        ensures
            c.wf(),
            c.store() == StoreState::empty(),
            c.entity_count() == 0,
            c.systems().len() == 0,
    {
        Coordinator {
            registry: EntityRegistry::new(),
            store: ComponentManager::new(),
            systems: Vec::new(),
        }
    }

    /// The number of entities created so far.
    pub fn entities_created(&self) -> (n: u64)
        ensures
            n == self.entity_count(),
    {
        self.registry.allocated()
    }

    /// The number of registered systems.
    pub fn system_count(&self) -> (n: usize)
        ensures
            n == self.systems().len(),
    {
        self.systems.len()
    }

    /// Creates an entity. It holds no component, and is a member of the
    /// systems that require none.
    pub fn get_entity(&mut self) -> (e: Entity)
        requires
            old(self).wf(),
            old(self).entity_count() < u64::MAX,
        ensures
            final(self).wf(),
            e.id == old(self).entity_count(),
            final(self).entity_count() == old(self).entity_count() + 1,
            final(self).store() == old(self).store(),
            final(self).same_systems(*old(self)),
            !holds_any(final(self).store().cells, e),
    {
        let from = self.registry.allocated();
        let e = self.registry.allocate();
        proof {
            assert forall|i: int, x: Entity| 0 <= i < self.systems@.len() implies (
            #[trigger] settled(self.systems@, self.store@.cells, from as nat, i, x)) || touched(
                self.store@.changes,
                x,
                self.systems@[i].required(),
            ) by {
                assert(settled(old(self).systems@, old(self).store@.cells, from as nat, i, x));
            }
        }
        let ghost mid = *self;
        self.take_in(from);
        proof {
            assert forall|i: int, x: Entity| 0 <= i < self.systems@.len() implies #[trigger] settled(
                self.systems@,
                self.store@.cells,
                self.registry.count(),
                i,
                x,
            ) by {
                let req = self.systems@[i].required();
                assert(settled(self.systems@, self.store@.cells, self.registry.count(), i, x)
                    || touched(self.store@.changes, x, req));
            }
            assert forall|i: int| 0 <= i < old(self).systems@.len() implies same_behaviour(
                #[trigger] self.systems@[i],
                old(self).systems@[i],
            ) by {
                assert(same_behaviour(self.systems@[i], mid.systems@[i]));
            }
            if holds_any(self.store@.cells, e) {
                let t = choose|t: ComponentType| self.store@.cells.contains_key((e, t));
                assert(self.store@.cells.contains_key((e, t)));
            }
        }
        e
    }

    /// Declares the component type `t` as storable. Declaring a type again
    /// changes nothing, and no member set changes, since no entity can hold a
    /// component of a type before it is declared.
    pub fn register_component(&mut self, t: ComponentType)
        requires
            old(self).wf(),
        ensures
            final(self).wf(),
            final(self).store() == old(self).store().register(t),
            final(self).entity_count() == old(self).entity_count(),
            final(self).systems() == old(self).systems(),
    {
        self.store.register(t);
        assert forall|i: int, e: Entity| 0 <= i < self.systems@.len() implies #[trigger] settled(
            self.systems@,
            self.store@.cells,
            self.registry.count(),
            i,
            e,
        ) by {
            assert(settled(
                old(self).systems@,
                old(self).store@.cells,
                old(self).registry.count(),
                i,
                e,
            ));
        }
    }

    /// Whether the component type `t` was declared as storable.
    pub fn is_registered(&self, t: ComponentType) -> (b: bool)
        requires
            self.wf(),
        ensures
            b == self.store().registered.contains(t),
    {
        self.store.is_registered(t)
    }

    /// Whether every system may touch only registered component types.
    pub fn is_configured(&self) -> (b: bool)
        requires
            self.wf(),
        ensures
            b == self.configured(),
    {
        let mut i: usize = 0;
        while i < self.systems.len()
            invariant
                self.wf(),
                i <= self.systems@.len(),
                forall|m: int|
                    0 <= m < i ==> (#[trigger] self.systems@[m]).touches().subset_of(
                        self.store@.registered,
                    ),
            decreases self.systems@.len() - i,
        {
            let types = self.systems[i].get_touched_types();
            let mut j: usize = 0;
            while j < types.len()
                invariant
                    self.wf(),
                    i < self.systems@.len(),
                    j <= types@.len(),
                    forall|t: ComponentType|
                        types@.contains(t) <==> self.systems@[i as int].touches().contains(t),
                    forall|m: int|
                        0 <= m < j ==> self.store@.registered.contains(#[trigger] types@[m]),
                decreases types@.len() - j,
            {
                if !self.store.is_registered(types[j]) {
                    assert(types@.contains(types@[j as int]));
                    assert(!self.systems@[i as int].touches().subset_of(self.store@.registered));
                    return false;
                }
                j = j + 1;
            }
            assert forall|t: ComponentType|
                self.systems@[i as int].touches().contains(t) implies self.store@.registered.contains(
                t,
            ) by {
                assert(types@.contains(t));
                let m = choose|m: int| 0 <= m < types@.len() && types@[m] == t;
                assert(self.store@.registered.contains(types@[m]));
            }
            i = i + 1;
        }
        true
    }

    /// Adds a system behind those already there. Its members become the
    /// entities that were created and hold a component of every type it
    /// requires.
    pub fn register_system(&mut self, sys: S)
        requires
            old(self).wf(),
            sys.wf(),
            sys.members().len() == 0,
        ensures
            final(self).wf(),
            final(self).store() == old(self).store(),
            final(self).entity_count() == old(self).entity_count(),
            final(self).systems().len() == old(self).systems().len() + 1,
            forall|i: int|
                0 <= i < old(self).systems().len() ==> final(self).systems()[i] == old(
                    self,
                ).systems()[i],
            same_behaviour(final(self).systems().last(), sys),
    {
        let mut sys = sys;
        let ghost fresh = sys;
        let ghost cells = self.store@.cells;
        let count = self.registry.allocated();
        let mut id: u64 = 0;
        while id < count
            invariant
                self.wf(),
                *self == *old(self),
                cells == self.store@.cells,
                count == self.registry.count(),
                sys.wf(),
                same_behaviour(sys, fresh),
                ascending(sys.members()),
                id <= count,
                forall|e: Entity|
                    e.id < id ==> (sys.members().contains(e) <==> holds_all(
                        cells,
                        e,
                        sys.required(),
                    )),
                forall|e: Entity| e.id >= id ==> !sys.members().contains(e),
            decreases count - id,
        {
            let e = Entity { id };
            let types = sys.get_component_types();
            let q = holds_required(&self.store, types, e);
            assert(type_set(types@) =~= sys.required());
            if q {
                sys.add(e);
            }
            id = id + 1;
        }
        self.systems.push(sys);
        proof {
            let n = old(self).systems@.len() as int;
            assert forall|i: int, e: Entity| 0 <= i < self.systems@.len() implies #[trigger] settled(
                self.systems@,
                self.store@.cells,
                self.registry.count(),
                i,
                e,
            ) by {
                if i < n {
                    assert(settled(
                        old(self).systems@,
                        old(self).store@.cells,
                        old(self).registry.count(),
                        i,
                        e,
                    ));
                }
            }
        }
    }

    /// Whether `e` is a member of the system at position `i`.
    pub fn has_member(&self, i: usize, e: Entity) -> (b: bool)
        requires
            self.wf(),
            i < self.systems().len(),
        ensures
            b == self.is_member(i as int, e),
            b == self.qualifies(i as int, e),
    {
        assert(settled(self.systems(), self.store().cells, self.entity_count(), i as int, e));
        self.systems[i].has_member(e)
    }

    /// Whether `e` holds a component of type `t`.
    pub fn has_component(&self, e: Entity, t: ComponentType) -> (b: bool)
        requires
            self.wf(),
        ensures
            b == self.store().has(e, t),
    {
        self.store.has(e, t)
    }

    /// The component of type `t` that `e` holds, if it holds one.
    pub fn get_component(&self, e: Entity, t: ComponentType) -> (r: Option<Component>)
        requires
            self.wf(),
            self.store().registered.contains(t),
        ensures
            r == self.store().get(e, t),
    {
        self.store.get(e, t)
    }

    /// Gives the created entity `e` the component `c`, in place of any
    /// component of the same type that it holds, and brings the member sets
    /// up to date.
    pub fn add_component(&mut self, e: Entity, c: Component)
        requires
            old(self).wf(),
            e.id < old(self).entity_count(),
            old(self).store().registered.contains(c.spec_kind()),
        ensures
            final(self).wf(),
            final(self).store() == old(self).store().add(e, c).clear_changes(),
            final(self).entity_count() == old(self).entity_count(),
            final(self).same_systems(*old(self)),
    {
        self.store.add(e, c);
        let ghost mid = *self;
        proof {
            lemma_follows_add(old(self).store@, e, c);
            old(self).lemma_wf_is_mid_tick();
            self.lemma_lagging(*old(self), self.registry.count());
        }
        self.reconcile();
        proof {
            Self::lemma_same_systems_trans(*self, mid, *old(self));
        }
    }

    /// Takes the component of type `t` from the created entity `e`, if it
    /// holds one, and brings the member sets up to date.
    pub fn remove_component(&mut self, e: Entity, t: ComponentType)
        requires
            old(self).wf(),
            e.id < old(self).entity_count(),
            old(self).store().registered.contains(t),
        ensures
            final(self).wf(),
            final(self).store() == old(self).store().remove(e, t).clear_changes(),
            final(self).entity_count() == old(self).entity_count(),
            final(self).same_systems(*old(self)),
    {
        self.store.remove(e, t);
        let ghost mid = *self;
        proof {
            lemma_follows_remove(old(self).store@, e, t);
            old(self).lemma_wf_is_mid_tick();
            self.lemma_lagging(*old(self), self.registry.count());
        }
        self.reconcile();
        proof {
            Self::lemma_same_systems_trans(*self, mid, *old(self));
        }
    }

    /// Puts `g` into the global slot `key`. Entities, components and member
    /// sets stay as they are.
    pub fn add_global(&mut self, key: u64, g: Global)
        requires
            old(self).wf(),
        ensures
            final(self).wf(),
            final(self).store() == old(self).store().add_global(key, g),
            final(self).entity_count() == old(self).entity_count(),
            final(self).systems() == old(self).systems(),
    {
        self.store.add_global(key, g);
        assert forall|i: int, e: Entity| 0 <= i < self.systems@.len() implies #[trigger] settled(
            self.systems@,
            self.store@.cells,
            self.registry.count(),
            i,
            e,
        ) by {
            assert(settled(
                old(self).systems@,
                old(self).store@.cells,
                old(self).registry.count(),
                i,
                e,
            ));
        }
    }

    /// What the global slot `key` holds, if anything.
    pub fn get_global(&self, key: u64) -> (r: Option<Global>)
        requires
            self.wf(),
        ensures
            r == self.store().get_global(key),
    {
        self.store.get_global(key)
    }

    /// A state between ticks is a state within a tick in which nothing has
    /// changed yet.
    proof fn lemma_wf_is_mid_tick(&self)
        requires
            self.wf(),
        ensures
            self.mid_tick(),
            newcomers_noted(self.store().cells, self.store().changes, self.entity_count()),
    {
        assert forall|i: int, e: Entity| 0 <= i < self.systems().len() implies (#[trigger] settled(
            self.systems(),
            self.store().cells,
            self.entity_count(),
            i,
            e,
        )) || touched(self.store().changes, e, self.systems()[i].required()) by {}
    }

    /// Being the same systems but for the members carries over from one
    /// state to the next.
    proof fn lemma_same_systems_trans(c: Coordinator<S>, b: Coordinator<S>, a: Coordinator<S>)
        requires
            c.same_systems(b),
            b.same_systems(a),
        ensures
            c.same_systems(a),
    {
        assert forall|i: int| 0 <= i < a.systems().len() implies same_behaviour(
            #[trigger] c.systems()[i],
            a.systems()[i],
        ) by {
            assert(same_behaviour(c.systems()[i], b.systems()[i]));
            assert(same_behaviour(b.systems()[i], a.systems()[i]));
        }
    }

    /// Where the store has moved on from that of `before` and the member
    /// sets have not, the member sets are still wrong only where the store
    /// has noted a change, and the store has noted every cell of an entity
    /// that is none of the first `from`.
    proof fn lemma_lagging(&self, before: Coordinator<S>, from: nat)
        requires
            all_ordered(before.systems()),
            all_settled_but(
                before.systems(),
                before.store().cells,
                from,
                before.store().changes,
            ),
            newcomers_noted(before.store().cells, before.store().changes, from),
            self.store().follows(before.store()),
            self.same_members(before),
            self.same_systems(before),
        ensures
            all_ordered(self.systems()),
            all_settled_but(self.systems(), self.store().cells, from, self.store().changes),
            newcomers_noted(self.store().cells, self.store().changes, from),
    {
        assert forall|i: int| 0 <= i < self.systems().len() implies ascending(
            (#[trigger] self.systems()[i]).members(),
        ) by {
            assert(ascending(before.systems()[i].members()));
        }
        assert forall|i: int, e: Entity| 0 <= i < self.systems().len() implies (#[trigger] settled(
            self.systems(),
            self.store().cells,
            from,
            i,
            e,
        )) || touched(self.store().changes, e, self.systems()[i].required()) by {
            let req = self.systems()[i].required();
            assert(self.systems()[i].members() == before.systems()[i].members());
            assert(same_behaviour(self.systems()[i], before.systems()[i]));
            assert(req == before.systems()[i].required());
            assert(settled(before.systems(), before.store().cells, from, i, e) || touched(
                before.store().changes,
                e,
                req,
            ));
            if touched(before.store().changes, e, req) {
                let t = choose|t: ComponentType| #[trigger]
                    req.contains(t) && before.store().changes.contains((e, t));
                assert(req.contains(t) && self.store().changes.contains((e, t)));
            } else if holds_all(before.store().cells, e, req) != holds_all(
                self.store().cells,
                e,
                req,
            ) {
                lemma_follows_touched(before.store(), self.store(), e, req);
            }
        }
        assert forall|e: Entity, t: ComponentType| #[trigger]
            self.store().cells.contains_key((e, t)) && e.id >= from implies self.store().changes.contains(
            (e, t),
        ) by {
            if before.store().cells.contains_key((e, t)) {
                assert(before.store().changes.contains((e, t)));
            } else {
                assert(before.store().has(e, t) != self.store().has(e, t));
            }
        }
    }

    /// Takes the entities from the `from`-th on into the systems that
    /// require no component type.
    fn take_in(&mut self, from: u64)
        requires
            old(self).parts_wf(),
            old(self).ordered(),
            old(self).store().wf(),
            from <= old(self).entity_count(),
            within(old(self).store().cells, old(self).entity_count()),
            all_settled_but(
                old(self).systems(),
                old(self).store().cells,
                from as nat,
                old(self).store().changes,
            ),
            newcomers_noted(old(self).store().cells, old(self).store().changes, from as nat),
        ensures
            final(self).mid_tick(),
            final(self).store() == old(self).store(),
            final(self).entity_count() == old(self).entity_count(),
            final(self).same_systems(*old(self)),
    {
        let count = self.registry.allocated();
        let n = self.systems.len();
        let ghost cells = self.store@.cells;
        let ghost changes = self.store@.changes;
        let mut id: u64 = from;
        while id < count
            invariant
                self.parts_wf(),
                self.ordered(),
                self.store@ == old(self).store@,
                self.registry == old(self).registry,
                self.same_systems(*old(self)),
                cells == self.store@.cells,
                changes == self.store@.changes,
                count == self.registry.count(),
                n == self.systems@.len(),
                from <= id <= count,
                newcomers_noted(cells, changes, from as nat),
                all_settled_but(self.systems@, cells, id as nat, changes),
            decreases count - id,
        {
            let e0 = Entity { id };
            let mut i: usize = 0;
            while i < n
                invariant
                    self.parts_wf(),
                    self.ordered(),
                    self.store@ == old(self).store@,
                    self.registry == old(self).registry,
                    self.same_systems(*old(self)),
                    cells == self.store@.cells,
                    changes == self.store@.changes,
                    count == self.registry.count(),
                    n == self.systems@.len(),
                    from <= id < count,
                    e0.id == id,
                    i <= n,
                    newcomers_noted(cells, changes, from as nat),
                    forall|j: int, e: Entity|
                        0 <= j < i ==> (#[trigger] settled(
                            self.systems@,
                            cells,
                            (id + 1) as nat,
                            j,
                            e,
                        )) || touched(changes, e, self.systems@[j].required()),
                    forall|j: int, e: Entity|
                        i <= j < n ==> (#[trigger] settled(self.systems@, cells, id as nat, j, e))
                            || touched(changes, e, self.systems@[j].required()),
                decreases n - i,
            {
                let ghost prev = self.systems@;
                let ghost req = prev[i as int].required();
                let types = self.systems[i].get_component_types();
                let open = types.len() == 0;
                proof {
                    assert(type_set(types@) =~= req);
                    assert(ascending(prev[i as int].members()));
                    if !open {
                        assert(types@.contains(types@[0]));
                        assert(req.contains(types@[0]));
                    }
                }
                let ghost first = if open {
                    ComponentType::Coords
                } else {
                    types@[0]
                };
                if open {
                    self.systems[i].add(e0);
                }
                proof {
                    assert forall|j: int| 0 <= j < n implies ascending(
                        (#[trigger] self.systems@[j]).members(),
                    ) by {
                        assert(ascending(prev[j].members()));
                    }
                    assert forall|j: int| 0 <= j < n implies same_behaviour(
                        #[trigger] self.systems@[j],
                        old(self).systems@[j],
                    ) by {
                        assert(same_behaviour(prev[j], old(self).systems@[j]));
                    }
                    assert forall|j: int, e: Entity| 0 <= j < i + 1 implies (#[trigger] settled(
                        self.systems@,
                        cells,
                        (id + 1) as nat,
                        j,
                        e,
                    )) || touched(changes, e, self.systems@[j].required()) by {
                        if j == i {
                            assert(settled(prev, cells, id as nat, j, e) || touched(
                                changes,
                                e,
                                req,
                            ));
                            if !touched(changes, e, req) {
                                if e.id == id {
                                    assert(e == e0);
                                    if !open {
                                        if holds_all(cells, e, req) {
                                            assert(cells.contains_key((e, first)));
                                            assert(req.contains(first) && changes.contains(
                                                (e, first),
                                            ));
                                        }
                                    }
                                }
                            }
                        } else {
                            assert(self.systems@[j] == prev[j]);
                            assert(settled(prev, cells, (id + 1) as nat, j, e) || touched(
                                changes,
                                e,
                                prev[j].required(),
                            ));
                        }
                    }
                    assert forall|j: int, e: Entity| i + 1 <= j < n implies (#[trigger] settled(
                        self.systems@,
                        cells,
                        id as nat,
                        j,
                        e,
                    )) || touched(changes, e, self.systems@[j].required()) by {
                        assert(self.systems@[j] == prev[j]);
                        assert(settled(prev, cells, id as nat, j, e) || touched(
                            changes,
                            e,
                            prev[j].required(),
                        ));
                    }
                }
                i = i + 1;
            }
            assert(all_settled_but(self.systems@, cells, (id + 1) as nat, changes));
            id = id + 1;
        }
    }

    /// Looks at every change that the store has noted and puts the member
    /// sets right: for each change, the systems that require the changed
    /// type take the entity in if it qualifies, and drop it if not.
    fn reconcile(&mut self)
        requires
            old(self).mid_tick(),
        ensures
            final(self).wf(),
            final(self).store() == old(self).store().clear_changes(),
            final(self).entity_count() == old(self).entity_count(),
            final(self).same_systems(*old(self)),
    {
        let changes = self.store.take_changes();
        let ghost chs = changes@;
        let ghost cells = self.store@.cells;
        let count = self.registry.allocated();
        let n = self.systems.len();
        proof {
            assert forall|i: int, e: Entity| 0 <= i < n implies (#[trigger] settled(
                self.systems@,
                cells,
                count as nat,
                i,
                e,
            )) || pending(chs, 0, e, self.systems@[i].required()) by {
                let req = self.systems@[i].required();
                assert(settled(
                    old(self).systems(),
                    old(self).store().cells,
                    count as nat,
                    i,
                    e,
                ) || touched(old(self).store().changes, e, req));
                if touched(old(self).store().changes, e, req) {
                    let t = choose|t: ComponentType| #[trigger]
                        req.contains(t) && old(self).store().changes.contains((e, t));
                    assert(chs.contains((e, t)));
                    let m = choose|m: int| 0 <= m < chs.len() && chs[m] == (e, t);
                    assert(chs[m].0 == e && req.contains(chs[m].1));
                }
            }
        }
        let mut k: usize = 0;
        while k < changes.len()
            invariant
                self.parts_wf(),
                self.ordered(),
                self.store@ == old(self).store@.clear_changes(),
                self.registry == old(self).registry,
                self.same_systems(*old(self)),
                chs == changes@,
                cells == self.store@.cells,
                count == self.registry.count(),
                n == self.systems@.len(),
                k <= chs.len(),
                forall|i: int, e: Entity|
                    0 <= i < n ==> (#[trigger] settled(self.systems@, cells, count as nat, i, e))
                        || pending(chs, k as int, e, self.systems@[i].required()),
            decreases chs.len() - k,
        {
            let e0 = changes[k].0;
            let t0 = changes[k].1;
            let mut i: usize = 0;
            while i < n
                invariant
                    self.parts_wf(),
                    self.ordered(),
                    self.store@ == old(self).store@.clear_changes(),
                    self.registry == old(self).registry,
                    self.same_systems(*old(self)),
                    chs == changes@,
                    cells == self.store@.cells,
                    count == self.registry.count(),
                    n == self.systems@.len(),
                    k < chs.len(),
                    chs[k as int] == (e0, t0),
                    i <= n,
                    forall|j: int, e: Entity|
                        0 <= j < n ==> (#[trigger] settled(
                            self.systems@,
                            cells,
                            count as nat,
                            j,
                            e,
                        )) || pending(
                            chs,
                            if j < i {
                                k + 1
                            } else {
                                k as int
                            },
                            e,
                            self.systems@[j].required(),
                        ),
                decreases n - i,
            {
                let ghost prev = self.systems@;
                let ghost req = prev[i as int].required();
                let types = self.systems[i].get_component_types();
                let relevant = contains_type(types, t0);
                let q = relevant && e0.id < count && holds_required(&self.store, types, e0);
                assert(type_set(types@) =~= req);
                assert(ascending(prev[i as int].members()));
                if relevant {
                    if q {
                        self.systems[i].add(e0);
                    } else {
                        self.systems[i].remove(e0);
                    }
                }
                proof {
                    assert forall|j: int| 0 <= j < n implies ascending(
                        (#[trigger] self.systems@[j]).members(),
                    ) by {
                        assert(ascending(prev[j].members()));
                    }
                    assert forall|j: int| 0 <= j < n implies same_behaviour(
                        #[trigger] self.systems@[j],
                        old(self).systems@[j],
                    ) by {
                        assert(same_behaviour(prev[j], old(self).systems@[j]));
                    }
                    assert forall|j: int, e: Entity| 0 <= j < n implies (#[trigger] settled(
                        self.systems@,
                        cells,
                        count as nat,
                        j,
                        e,
                    )) || pending(
                        chs,
                        if j < i + 1 {
                            k + 1
                        } else {
                            k as int
                        },
                        e,
                        self.systems@[j].required(),
                    ) by {
                        let from = if j < i {
                            k + 1
                        } else {
                            k as int
                        };
                        assert(settled(prev, cells, count as nat, j, e) || pending(
                            chs,
                            from,
                            e,
                            prev[j].required(),
                        ));
                        if j == i {
                            if relevant && e == e0 {
                                assert(settled(self.systems@, cells, count as nat, j, e));
                            } else if settled(prev, cells, count as nat, j, e) {
                                assert(settled(self.systems@, cells, count as nat, j, e));
                            } else {
                                let m = choose|m: int|
                                    k <= m < chs.len() && (#[trigger] chs[m]).0 == e
                                        && req.contains(chs[m].1);
                                assert(m != k);
                                assert(k + 1 <= m < chs.len() && chs[m].0 == e && req.contains(
                                    chs[m].1,
                                ));
                            }
                        } else {
                            assert(self.systems@[j] == prev[j]);
                        }
                    }
                }
                i = i + 1;
            }
            k = k + 1;
        }
    }

    /// The execution phase: every system takes its step, in the order of
    /// registration, and hands back what it wants done afterwards. No entity
    /// is created and no member set changes before the command phase, so no
    /// system has a member that is yet to be created.
    pub fn apply_all(&mut self, input: &TickInput) -> (bufs: Vec<CommandBuffer>)
        requires
            old(self).wf(),
            old(self).configured(),
            input@.wf(),
        ensures
            final(self).mid_tick(),
            final(self).configured(),
            final(self).entity_count() == old(self).entity_count(),
            final(self).same_systems(*old(self)),
            final(self).same_members(*old(self)),
            members_created(final(self).systems(), final(self).entity_count()),
            final(self).store().follows(old(self).store()),
            final(self).store().cells == cells_after(
                old(self).systems(),
                old(self).store().cells,
                input@,
                old(self).systems().len() as int,
            ),
            buffer_views(bufs@) == emitted(old(self).systems(), old(self).store().cells, input@),
            forall|i: int|
                0 <= i < bufs@.len() ==> all_within(
                    (#[trigger] bufs@[i])@,
                    final(self).store().registered,
                ),
    {
        let mut bufs: Vec<CommandBuffer> = Vec::new();
        let n = self.systems.len();
        let mut i: usize = 0;
        proof {
            assert forall|j: int, e: Entity|
                0 <= j < n && (#[trigger] self.systems@[j].members().contains(e)) implies e.id
                < self.registry.count() by {
                assert(settled(self.systems@, self.store@.cells, self.registry.count(), j, e));
            }
        }
        while i < n
            invariant
                self.parts_wf(),
                self.store@.wf(),
                old(self).wf(),
                old(self).configured(),
                input@.wf(),
                n == self.systems@.len(),
                n == old(self).systems@.len(),
                i <= n,
                self.registry == old(self).registry,
                self.same_systems(*old(self)),
                self.same_members(*old(self)),
                members_created(old(self).systems@, self.registry.count()),
                within(self.store@.cells, self.registry.count()),
                forall|j: int| i <= j < n ==> self.systems@[j] == old(self).systems@[j],
                self.store@.follows(old(self).store@),
                self.store@.cells == cells_after(
                    old(self).systems@,
                    old(self).store@.cells,
                    input@,
                    i as int,
                ),
                bufs@.len() == i,
                forall|j: int|
                    0 <= j < i ==> (#[trigger] bufs@[j])@ == old(self).systems@[j].emits(
                        old(self).systems@[j].members(),
                        cells_after(old(self).systems@, old(self).store@.cells, input@, j),
                        input@,
                    ),
                forall|j: int|
                    0 <= j < i ==> all_within((#[trigger] bufs@[j])@, old(self).store@.registered),
            decreases n - i,
        {
            let ghost mid = self.store@;
            let ghost prev = self.systems@;
            assert(old(self).systems()[i as int].touches().subset_of(old(self).store().registered));
            let buf = self.systems[i].apply(&mut self.store, input);
            proof {
                lemma_follows_trans(old(self).store@, mid, self.store@);
                assert forall|j: int| 0 <= j < n implies {
                    &&& same_behaviour(#[trigger] self.systems@[j], old(self).systems@[j])
                    &&& self.systems@[j].members() == old(self).systems@[j].members()
                } by {
                    assert(same_behaviour(prev[j], old(self).systems@[j]));
                    assert(prev[j].members() == old(self).systems@[j].members());
                }
                assert forall|m: int| 0 <= m < buf@.len() implies (#[trigger] buf@[m]).within(
                    old(self).store@.registered,
                ) by {
                    assert(buf@[m].within(old(self).systems@[i as int].touches()));
                }
                assert forall|e: Entity, t: ComponentType| #[trigger]
                    self.store@.cells.contains_key((e, t)) implies e.id < self.registry.count() by {
                    if holds_any(mid.cells, e) {
                        let u = choose|u: ComponentType| mid.cells.contains_key((e, u));
                        assert(mid.cells.contains_key((e, u)));
                    } else {
                        assert(old(self).systems@[i as int].members().contains(e));
                    }
                }
            }
            bufs.push(buf);
            i = i + 1;
        }
        proof {
            assert(buffer_views(bufs@) =~= emitted(
                old(self).systems(),
                old(self).store().cells,
                input@,
            ));
            old(self).lemma_wf_is_mid_tick();
            self.lemma_lagging(*old(self), self.registry.count());
            assert forall|j: int, e: Entity|
                0 <= j < n && (#[trigger] self.systems@[j].members().contains(e)) implies e.id
                < self.registry.count() by {
                assert(old(self).systems@[j].members().contains(e));
            }
        }
        bufs
    }

    /// The command phase: carries out the recorded operations, buffer by
    /// buffer and in each buffer from first to last, then brings the member
    /// sets up to date. What was asked to be drawn is handed back in order.
    /// An operation on an entity that was never created does nothing, and
    /// creating an entity does nothing once the identifiers have run out.
    pub fn apply_commands(&mut self, bufs: &Vec<CommandBuffer>) -> (frame: Vec<DrawCmd>)
        requires
            old(self).mid_tick(),
            forall|i: int|
                0 <= i < bufs@.len() ==> all_within(
                    (#[trigger] bufs@[i])@,
                    old(self).store().registered,
                ),
        ensures
            final(self).wf(),
            final(self).same_systems(*old(self)),
            final(self).store().registered == old(self).store().registered,
            final(self).store().globals == old(self).store().globals,
            final(self).store().cells == run_buffers(
                outset(old(self).store().cells, old(self).entity_count()),
                buffer_views(bufs@),
            ).cells,
            final(self).entity_count() == run_buffers(
                outset(old(self).store().cells, old(self).entity_count()),
                buffer_views(bufs@),
            ).count,
            frame@ == run_buffers(
                outset(old(self).store().cells, old(self).entity_count()),
                buffer_views(bufs@),
            ).frame,
    {
        let ghost views = buffer_views(bufs@);
        let ghost begin = outset(old(self).store().cells, old(self).entity_count());
        let from = self.registry.allocated();
        let mut frame: Vec<DrawCmd> = Vec::new();
        let mut b: usize = 0;
        while b < bufs.len()
            invariant
                self.store.wf(),
                self.systems == old(self).systems,
                self.store@.follows(old(self).store@),
                within(self.store@.cells, self.registry.count()),
                from <= self.registry.count(),
                views == buffer_views(bufs@),
                begin == outset(old(self).store().cells, old(self).entity_count()),
                b <= bufs@.len(),
                self.store@.cells == run_buffers(begin, views.take(b as int)).cells,
                self.registry.count() == run_buffers(begin, views.take(b as int)).count,
                frame@ == run_buffers(begin, views.take(b as int)).frame,
                forall|i: int|
                    0 <= i < bufs@.len() ==> all_within(
                        (#[trigger] bufs@[i])@,
                        old(self).store().registered,
                    ),
            decreases bufs@.len() - b,
        {
            let buf = &bufs[b];
            let mut created: Option<Entity> = None;
            let ghost base = Outcome { created: None, ..run_buffers(begin, views.take(b as int)) };
            let mut j: usize = 0;
            assert(all_within(bufs@[b as int]@, old(self).store().registered));
            while j < buf.len()
                invariant
                    self.store.wf(),
                    self.systems == old(self).systems,
                    self.store@.follows(old(self).store@),
                    within(self.store@.cells, self.registry.count()),
                    from <= self.registry.count(),
                    created matches Some(x) ==> x.id < self.registry.count(),
                    j <= buf@.len(),
                    all_within(buf@, old(self).store().registered),
                    self.store@.cells == run_commands(base, buf@.take(j as int)).cells,
                    self.registry.count() == run_commands(base, buf@.take(j as int)).count,
                    created == run_commands(base, buf@.take(j as int)).created,
                    frame@ == run_commands(base, buf@.take(j as int)).frame,
                decreases buf@.len() - j,
            {
                let c = buf.get(j);
                let ghost mid = self.store@;
                proof {
                    assert(buf@.take(j + 1).drop_last() =~= buf@.take(j as int));
                    assert(buf@.take(j + 1).last() == c);
                    assert(buf@[j as int].within(old(self).store().registered));
                }
                match c {
                    Command::CreateEntity => {
                        created = self.registry.try_allocate();
                    },
                    Command::AttachComponent(target, comp) => {
                        let on = match target {
                            Target::Existing(e) => if e.id < self.registry.allocated() {
                                Some(e)
                            } else {
                                None
                            },
                            Target::Created => created,
                        };
                        match on {
                            Some(e) => {
                                self.store.add(e, comp);
                                proof {
                                    lemma_follows_add(mid, e, comp);
                                    lemma_follows_trans(old(self).store@, mid, self.store@);
                                }
                            },
                            None => {},
                        }
                    },
                    Command::RemoveComponent(target, t) => {
                        let on = match target {
                            Target::Existing(e) => if e.id < self.registry.allocated() {
                                Some(e)
                            } else {
                                None
                            },
                            Target::Created => created,
                        };
                        match on {
                            Some(e) => {
                                self.store.remove(e, t);
                                proof {
                                    lemma_follows_remove(mid, e, t);
                                    lemma_follows_trans(old(self).store@, mid, self.store@);
                                }
                            },
                            None => {},
                        }
                    },
                    Command::Draw(d) => {
                        frame.push(d);
                    },
                }
                j = j + 1;
            }
            proof {
                assert(buf@.take(buf@.len() as int) =~= buf@);
                assert(views.take(b + 1).drop_last() =~= views.take(b as int));
                assert(views.take(b + 1).last() == buf@);
            }
            b = b + 1;
        }
        proof {
            assert(views.take(bufs@.len() as int) =~= views);
            assert(newcomers_noted(
                old(self).store().cells,
                old(self).store().changes,
                from as nat,
            ));
            self.lemma_lagging(*old(self), from as nat);
        }
        let ghost mid = *self;
        self.take_in(from);
        let ghost late = *self;
        self.reconcile();
        proof {
            Self::lemma_same_systems_trans(late, mid, *old(self));
            Self::lemma_same_systems_trans(*self, late, *old(self));
        }
        frame
    }

    /// One tick: the execution phase, then the command phase. The result is
    /// a function of the state before and of the input.
    pub fn run_tick(&mut self, input: &TickInput) -> (frame: Vec<DrawCmd>)
        requires
            old(self).wf(),
            old(self).configured(),
            input@.wf(),
        ensures
            final(self).ticked_from(*old(self), input@),
            final(self).configured(),
            frame@ == tick_outcome(
                old(self).systems(),
                old(self).store().cells,
                old(self).entity_count(),
                input@,
            ).frame,
    {
        let bufs = self.apply_all(input);
        let ghost mid = *self;
        let frame = self.apply_commands(&bufs);
        proof {
            Self::lemma_same_systems_trans(*self, mid, *old(self));
            assert forall|i: int| 0 <= i < self.systems().len() implies (
            #[trigger] self.systems()[i]).touches().subset_of(self.store().registered) by {
                assert(same_behaviour(self.systems()[i], old(self).systems()[i]));
                assert(old(self).systems()[i].touches().subset_of(old(self).store().registered));
            }
        }
        frame
    }
}

} // verus!
