//! Velocity integration: every tick, each entity with a position and a
//! velocity moves by its velocity.

use vstd::prelude::*;
use crate::entity::{lemma_take_next, Entity, EntitySet};
use crate::component::{
    lemma_seq_set_1, lemma_seq_set_2, type_set, Component, ComponentType, Coords, Velocity,
};
use crate::store::{
    coords_of, lemma_follows_add, lemma_follows_trans, velocity_of, Cells, ComponentManager,
};
use crate::command::{Command, CommandBuffer};
use crate::input::{InputView, TickInput};
use crate::system::System;

verus! {

/// The 32-bit signed number that `n` wraps around to. It is `n` itself where
/// `n` is in range, and is meant for sums of two numbers in range.
pub open spec fn wrap(n: int) -> i32 {
    if n > i32::MAX {
        (n - 0x1_0000_0000) as i32
    } else if n < i32::MIN {
        (n + 0x1_0000_0000) as i32
    } else {
        n as i32
    }
}

/// The sum of `a` and `b`, wrapped around at the ends of the range.
pub fn wrapping_sum(a: i32, b: i32) -> (r: i32)
    ensures
        r == wrap(a + b),
{
    let sum: i64 = a as i64 + b as i64;
    if sum > i32::MAX as i64 {
        (sum - 0x1_0000_0000) as i32
    } else if sum < i32::MIN as i64 {
        (sum + 0x1_0000_0000) as i32
    } else {
        sum as i32
    }
}

/// The position `c` after one tick at velocity `v`.
pub open spec fn integrate(c: Coords, v: Velocity) -> Coords {
    Coords { x: wrap(c.x + v.vx), y: wrap(c.y + v.vy) }
}

/// Whether `e` moves: it is a member and has a position and a velocity.
pub open spec fn moves(cells: Cells, members: Seq<Entity>, e: Entity) -> bool {
    members.contains(e) && coords_of(cells, e) is Some && velocity_of(cells, e) is Some
}

/// The cells after `members` moved: each member with a position and a
/// velocity has the position that the two give; every other cell is as
/// before.
pub open spec fn integrate_cells(cells: Cells, members: Seq<Entity>) -> Cells {
    Map::new(
        |k: (Entity, ComponentType)| cells.contains_key(k),
        |k: (Entity, ComponentType)|
            if k.1 == ComponentType::Coords && moves(cells, members, k.0) {
                Component::Coords(
                    integrate(coords_of(cells, k.0).unwrap(), velocity_of(cells, k.0).unwrap()),
                )
            } else {
                cells[k]
            },
    )
}

/// The cells after `n` ticks in which nothing but velocity integration
/// ran over `members`.
pub open spec fn integrate_times(cells: Cells, members: Seq<Entity>, n: nat) -> Cells
    decreases n,
{
    if n == 0 {
        cells
    } else {
        integrate_cells(integrate_times(cells, members, (n - 1) as nat), members)
    }
}

/// An entity at rest stays where it is: with a velocity of zero, its
/// position after any number of integration ticks is its position before,
/// and its velocity is still zero.
pub proof fn lemma_rest_stays_put(
    cells: Cells,
    members: Seq<Entity>,
    e: Entity,
    c: Coords,
    n: nat,
)
    requires
        coords_of(cells, e) == Some(c),
        velocity_of(cells, e) == Some(Velocity { vx: 0, vy: 0 }),
    ensures
        coords_of(integrate_times(cells, members, n), e) == Some(c),
        velocity_of(integrate_times(cells, members, n), e) == Some(Velocity { vx: 0, vy: 0 }),
    decreases n,
{
    if n > 0 {
        lemma_rest_stays_put(cells, members, e, c, (n - 1) as nat);
        let prior = integrate_times(cells, members, (n - 1) as nat);
        let after = integrate_cells(prior, members);
        assert(after.contains_key((e, ComponentType::Coords)));
        assert(after.contains_key((e, ComponentType::Velocity)));
        assert(integrate(c, Velocity { vx: 0, vy: 0 }) == c);
    }
}

/// The system that moves entities by their velocity.
pub struct IntegrateVelocity {
    entities: EntitySet,
    component_types: Vec<ComponentType>,
    touched_types: Vec<ComponentType>,
}

impl IntegrateVelocity {
    /// A system without members. It requires a position; the velocity is
    /// looked for entity by entity.
    pub fn new() -> (s: IntegrateVelocity)
        ensures
            s.wf(),
            s.members() == Seq::<Entity>::empty(),
            s.required() == set![ComponentType::Coords],
            s.touches() == set![ComponentType::Coords, ComponentType::Velocity],
    {
        let component_types = vec![ComponentType::Coords];
        let touched_types = vec![ComponentType::Coords, ComponentType::Velocity];
        let s = IntegrateVelocity { entities: EntitySet::new(), component_types, touched_types };
        proof {
            assert(s.component_types@ =~= seq![ComponentType::Coords]);
            assert(s.touched_types@ =~= seq![ComponentType::Coords, ComponentType::Velocity]);
            lemma_seq_set_1(s.component_types@, ComponentType::Coords);
            lemma_seq_set_2(s.touched_types@, ComponentType::Coords, ComponentType::Velocity);
        }
        s
    }

    /// Where a position gets to in one tick at a velocity.
    pub fn advance(c: Coords, v: Velocity) -> (r: Coords)
        ensures
            r == integrate(c, v),
    {
        Coords { x: wrapping_sum(c.x, v.vx), y: wrapping_sum(c.y, v.vy) }
    }
}

impl System for IntegrateVelocity {
    closed spec fn wf(&self) -> bool {
        &&& self.entities.wf()
        &&& self.component_types@ == seq![ComponentType::Coords]
        &&& self.touched_types@ == seq![ComponentType::Coords, ComponentType::Velocity]
    }

    closed spec fn required(&self) -> Set<ComponentType> {
        type_set(self.component_types@)
    }

    closed spec fn members(&self) -> Seq<Entity> {
        self.entities@
    }

    closed spec fn touches(&self) -> Set<ComponentType> {
        type_set(self.touched_types@)
    }

    open spec fn step(&self, members: Seq<Entity>, cells: Cells, input: InputView) -> Cells {
        integrate_cells(cells, members)
    }

    open spec fn emits(&self, members: Seq<Entity>, cells: Cells, input: InputView) -> Seq<
        Command,
    > {
        Seq::empty()
    }

    fn add(&mut self, e: Entity) {
        self.entities.insert(e);
    }

    fn remove(&mut self, e: Entity) {
        self.entities.remove(e);
    }

    fn get_component_types(&self) -> (types: &Vec<ComponentType>) {
        &self.component_types
    }

    fn get_touched_types(&self) -> (types: &Vec<ComponentType>) {
        &self.touched_types
    }

    fn has_member(&self, e: Entity) -> (b: bool) {
        self.entities.has(e)
    }

    fn apply(&mut self, cm: &mut ComponentManager, input: &TickInput) -> (buf: CommandBuffer) {
        let ghost before = cm@;
        proof {
            lemma_seq_set_2(self.touched_types@, ComponentType::Coords, ComponentType::Velocity);
        }
        let n = self.entities.len();
        let mut i: usize = 0;
        assert(cm@.cells =~= integrate_cells(before.cells, self.entities@.take(0)));
        while i < n
            invariant
                self.wf(),
                cm.wf(),
                before.wf(),
                n == self.entities@.len(),
                i <= n,
                cm@.registered.contains(ComponentType::Coords),
                cm@.registered.contains(ComponentType::Velocity),
                cm@.follows(before),
                cm@.cells == integrate_cells(before.cells, self.entities@.take(i as int)),
            decreases n - i,
        {
            let e = self.entities.get(i);
            let ghost mid = cm@;
            proof {
                lemma_take_next(self.entities@, i as int);
            }
            match cm.get_velocity(e) {
                Some(v) => {
                    match cm.get_coords(e) {
                        Some(c) => {
                            cm.add(e, Component::Coords(IntegrateVelocity::advance(c, v)));
                            proof {
                                lemma_follows_add(mid, e, Component::Coords(integrate(c, v)));
                                lemma_follows_trans(before, mid, cm@);
                            }
                        },
                        None => {},
                    }
                },
                None => {},
            }
            assert(cm@.cells =~= integrate_cells(before.cells, self.entities@.take(i + 1)));
            i = i + 1;
        }
        assert(self.entities@.take(n as int) =~= self.entities@);
        CommandBuffer::new()
    }
}

} // verus!
