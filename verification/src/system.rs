//! What every system offers to the engine.

use vstd::prelude::*;
use crate::entity::{ascending, Entity};
use crate::component::ComponentType;
use crate::store::{holds_any, Cells, ComponentManager};
use crate::command::{all_within, Command, CommandBuffer};
use crate::input::{InputView, TickInput};

verus! {

/// A behaviour that runs once per tick. It names the component types an
/// entity must hold to be one of its members, is told which entities are its
/// members, and takes one step per tick over the component store.
pub trait System: Sized {
    /// The system's own state is consistent.
    spec fn wf(&self) -> bool;

    /// The component types that an entity must hold to be a member.
    spec fn required(&self) -> Set<ComponentType>;

    /// The members, lowest identifier first.
    spec fn members(&self) -> Seq<Entity>;

    /// The component types that a step may read, write or name in an
    /// operation it records. They have to be registered before a step.
    spec fn touches(&self) -> Set<ComponentType>;

    /// The cells of the store after a step over `members` that started from
    /// `cells`.
    spec fn step(&self, members: Seq<Entity>, cells: Cells, input: InputView) -> Cells;

    /// The operations that a step over `members` from `cells` records.
    spec fn emits(&self, members: Seq<Entity>, cells: Cells, input: InputView) -> Seq<Command>;

    /// Takes note that `e` is a member now.
    fn add(&mut self, e: Entity)
        requires
            old(self).wf(),
        ensures
            final(self).wf(),
            final(self).required() == old(self).required(),
            final(self).touches() == old(self).touches(),
            forall|members: Seq<Entity>, cells: Cells, input: InputView| #[trigger]
                final(self).step(members, cells, input) == old(self).step(members, cells, input),
            forall|members: Seq<Entity>, cells: Cells, input: InputView| #[trigger]
                final(self).emits(members, cells, input) == old(self).emits(members, cells, input),
            ascending(old(self).members()) ==> ascending(final(self).members()),
            forall|x: Entity|
                final(self).members().contains(x) <==> (old(self).members().contains(x) || x == e),
    ;

    /// Takes note that `e` is no member any more.
    fn remove(&mut self, e: Entity)
        requires
            old(self).wf(),
        ensures
            final(self).wf(),
            final(self).required() == old(self).required(),
            final(self).touches() == old(self).touches(),
            forall|members: Seq<Entity>, cells: Cells, input: InputView| #[trigger]
                final(self).step(members, cells, input) == old(self).step(members, cells, input),
            forall|members: Seq<Entity>, cells: Cells, input: InputView| #[trigger]
                final(self).emits(members, cells, input) == old(self).emits(members, cells, input),
            ascending(old(self).members()) ==> ascending(final(self).members()),
            forall|x: Entity|
                final(self).members().contains(x) <==> (old(self).members().contains(x) && x != e),
    ;

    /// The component types that an entity must hold to be a member. Where
    /// there is none, every entity is a member.
    fn get_component_types(&self) -> (types: &Vec<ComponentType>)
        requires
            self.wf(),
        ensures
            forall|t: ComponentType| types@.contains(t) <==> self.required().contains(t),
    ;

    /// The component types that a step may touch.
    fn get_touched_types(&self) -> (types: &Vec<ComponentType>)
        requires
            self.wf(),
        ensures
            forall|t: ComponentType| types@.contains(t) <==> self.touches().contains(t),
    ;

    /// Whether `e` is a member.
    fn has_member(&self, e: Entity) -> (b: bool)
        requires
            self.wf(),
        ensures
            b == self.members().contains(e),
    ;

    /// Takes one step: reads and writes components, and records the
    /// operations that have to wait until every system has had its turn.
    /// The members stay as they are, and so do the registered types and the
    /// global slots. A step gives components only to entities that hold one
    /// already and to members.
    fn apply(&mut self, cm: &mut ComponentManager, input: &TickInput) -> (buf: CommandBuffer)
        requires
            old(self).wf(),
            old(cm).wf(),
            old(self).touches().subset_of(old(cm)@.registered),
            input@.wf(),
        ensures
            forall|e: Entity, t: ComponentType| #[trigger]
                final(cm)@.cells.contains_key((e, t)) ==> holds_any(old(cm)@.cells, e) || old(
                    self,
                ).members().contains(e),
            final(self).wf(),
            final(cm).wf(),
            final(self).required() == old(self).required(),
            final(self).touches() == old(self).touches(),
            forall|members: Seq<Entity>, cells: Cells, input: InputView| #[trigger]
                final(self).step(members, cells, input) == old(self).step(members, cells, input),
            forall|members: Seq<Entity>, cells: Cells, input: InputView| #[trigger]
                final(self).emits(members, cells, input) == old(self).emits(members, cells, input),
            final(self).members() == old(self).members(),
            final(cm)@.follows(old(cm)@),
            final(cm)@.cells == old(self).step(old(self).members(), old(cm)@.cells, input@),
            buf@ == old(self).emits(old(self).members(), old(cm)@.cells, input@),
            all_within(buf@, old(self).touches()),
    ;
}

/// Whether `a` and `b` are the same system but for their members: they
/// require and touch the same component types, and a step of either over
/// the same members, cells and input gives the same cells and records the
/// same operations.
pub open spec fn same_behaviour<S: System>(a: S, b: S) -> bool {
    &&& a.required() == b.required()
    &&& a.touches() == b.touches()
    &&& forall|members: Seq<Entity>, cells: Cells, input: InputView| #[trigger]
        a.step(members, cells, input) == b.step(members, cells, input)
    &&& forall|members: Seq<Entity>, cells: Cells, input: InputView| #[trigger]
        a.emits(members, cells, input) == b.emits(members, cells, input)
}

} // verus!
