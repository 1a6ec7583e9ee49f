//! Gravity: every tick, each entity with a weight gains vertical velocity.

use vstd::prelude::*;
use crate::entity::{lemma_take_next, Entity, EntitySet};
use crate::component::{
    lemma_seq_set_1, lemma_seq_set_2, type_set, Component, ComponentType, Velocity, Weight,
};
use crate::store::{
    lemma_follows_add, lemma_follows_trans, velocity_of, weight_of, Cells, ComponentManager,
};
use crate::command::{Command, CommandBuffer};
use crate::input::{InputView, TickInput};
use crate::system::System;

verus! {

/// The velocity `v` after gravity pulled with weight `w` for one tick: the
/// vertical part grows by the weight and stops at the ends of its range.
pub open spec fn accrue(v: Velocity, w: Weight) -> Velocity {
    Velocity {
        vx: v.vx,
        vy: if v.vy + w.w > i32::MAX {
            i32::MAX
        } else if v.vy + w.w < i32::MIN {
            i32::MIN
        } else {
            (v.vy + w.w) as i32
        },
    }
}

/// The velocity of `e`, taken as zero where it has none.
pub open spec fn velocity_or_rest(cells: Cells, e: Entity) -> Velocity {
    match velocity_of(cells, e) {
        Some(v) => v,
        None => Velocity { vx: 0, vy: 0 },
    }
}

/// Whether gravity acts on `e`: it is a member and has a weight.
pub open spec fn falls(cells: Cells, members: Seq<Entity>, e: Entity) -> bool {
    members.contains(e) && weight_of(cells, e) is Some
}

/// The cells after gravity acted on `members`: each member with a weight has
/// the velocity that its old velocity and its weight give; every other cell
/// is as before.
pub open spec fn gravity_cells(cells: Cells, members: Seq<Entity>) -> Cells {
    Map::new(
        |k: (Entity, ComponentType)|
            cells.contains_key(k) || (k.1 == ComponentType::Velocity && falls(cells, members, k.0)),
        |k: (Entity, ComponentType)|
            if k.1 == ComponentType::Velocity && falls(cells, members, k.0) {
                Component::Velocity(
                    accrue(velocity_or_rest(cells, k.0), weight_of(cells, k.0).unwrap()),
                )
            } else {
                cells[k]
            },
    )
}

/// The velocity `v` after gravity pulled with weight `w` for `n` ticks.
pub open spec fn accrue_times(v: Velocity, w: Weight, n: nat) -> Velocity
    decreases n,
{
    if n == 0 {
        v
    } else {
        accrue(accrue_times(v, w, (n - 1) as nat), w)
    }
}

/// Gravity adds up: an entity that starts at rest has, after `n` ticks, a
/// vertical velocity of `n` times its weight and no velocity sideways, as
/// long as that product is in range.
pub proof fn lemma_gravity_accrual(w: Weight, n: nat)
    requires
        i32::MIN <= n * w.w <= i32::MAX,
    ensures
        accrue_times(Velocity { vx: 0, vy: 0 }, w, n) == (Velocity { vx: 0, vy: (n * w.w) as i32 }),
    decreases n,
{
    if n > 0 {
        let m = (n - 1) as nat;
        assert(i32::MIN <= m * w.w <= i32::MAX && m * w.w + w.w == n * w.w) by (nonlinear_arith)
            requires
                n > 0,
                m == n - 1,
                i32::MIN <= n * w.w <= i32::MAX,
                i32::MIN <= w.w <= i32::MAX,
        ;
        lemma_gravity_accrual(w, m);
    } else {
        assert(n * w.w == 0) by (nonlinear_arith)
            requires
                n == 0,
        ;
    }
}

/// The system that lets entities fall.
pub struct Gravity {
    entities: EntitySet,
    component_types: Vec<ComponentType>,
    touched_types: Vec<ComponentType>,
}

impl Gravity {
    /// A gravity system without members. It requires a weight.
    pub fn new() -> (g: Gravity)
        ensures
            g.wf(),
            g.members() == Seq::<Entity>::empty(),
            g.required() == set![ComponentType::Weight],
            g.touches() == set![ComponentType::Weight, ComponentType::Velocity],
    {
        let component_types = vec![ComponentType::Weight];
        let touched_types = vec![ComponentType::Weight, ComponentType::Velocity];
        let g = Gravity { entities: EntitySet::new(), component_types, touched_types };
        proof {
            assert(g.component_types@ =~= seq![ComponentType::Weight]);
            assert(g.touched_types@ =~= seq![ComponentType::Weight, ComponentType::Velocity]);
            lemma_seq_set_1(g.component_types@, ComponentType::Weight);
            lemma_seq_set_2(g.touched_types@, ComponentType::Weight, ComponentType::Velocity);
        }
        g
    }

    /// What gravity makes of one velocity and one weight.
    pub fn pull(v: Velocity, w: Weight) -> (r: Velocity)
        ensures
            r == accrue(v, w),
    {
        let sum: i64 = v.vy as i64 + w.w as i64;
        let vy: i32 = if sum > i32::MAX as i64 {
            i32::MAX
        } else if sum < i32::MIN as i64 {
            i32::MIN
        } else {
            sum as i32
        };
        Velocity { vx: v.vx, vy }
    }
}

impl System for Gravity {
    closed spec fn wf(&self) -> bool {
        &&& self.entities.wf()
        &&& self.component_types@ == seq![ComponentType::Weight]
        &&& self.touched_types@ == seq![ComponentType::Weight, ComponentType::Velocity]
    }

    closed spec fn required(&self) -> Set<ComponentType> {
        type_set(self.component_types@)
    }

    closed spec fn members(&self) -> Seq<Entity> {
        self.entities@
    }

    closed spec fn touches(&self) -> Set<ComponentType> {
        type_set(self.touched_types@)
    }

    open spec fn step(&self, members: Seq<Entity>, cells: Cells, input: InputView) -> Cells {
        gravity_cells(cells, members)
    }

    open spec fn emits(&self, members: Seq<Entity>, cells: Cells, input: InputView) -> Seq<
        Command,
    > {
        Seq::empty()
    }

    fn add(&mut self, e: Entity) {
        self.entities.insert(e);
    }

    fn remove(&mut self, e: Entity) {
        self.entities.remove(e);
    }

    fn get_component_types(&self) -> (types: &Vec<ComponentType>) {
        &self.component_types
    }

    fn get_touched_types(&self) -> (types: &Vec<ComponentType>) {
        proof {
            lemma_seq_set_2(self.touched_types@, ComponentType::Weight, ComponentType::Velocity);
        }
        &self.touched_types
    }

    fn has_member(&self, e: Entity) -> (b: bool) {
        self.entities.has(e)
    }

    fn apply(&mut self, cm: &mut ComponentManager, input: &TickInput) -> (buf: CommandBuffer) {
        let ghost before = cm@;
        let n = self.entities.len();
        let mut i: usize = 0;
        assert(cm@.cells =~= gravity_cells(before.cells, self.entities@.take(0)));
        while i < n
            invariant
                self.wf(),
                cm.wf(),
                before.wf(),
                n == self.entities@.len(),
                i <= n,
                cm@.registered.contains(ComponentType::Weight),
                cm@.registered.contains(ComponentType::Velocity),
                cm@.follows(before),
                cm@.cells == gravity_cells(before.cells, self.entities@.take(i as int)),
            decreases n - i,
        {
            let e = self.entities.get(i);
            let ghost mid = cm@;
            proof {
                lemma_take_next(self.entities@, i as int);
            }
            match cm.get_weight(e) {
                Some(w) => {
                    let v = match cm.get_velocity(e) {
                        Some(v) => v,
                        None => Velocity { vx: 0, vy: 0 },
                    };
                    cm.add(e, Component::Velocity(Gravity::pull(v, w)));
                    proof {
                        lemma_follows_add(mid, e, Component::Velocity(accrue(v, w)));
                        lemma_follows_trans(before, mid, cm@);
                    }
                },
                None => {},
            }
            assert(cm@.cells =~= gravity_cells(before.cells, self.entities@.take(i + 1)));
            i = i + 1;
        }
        assert(self.entities@.take(n as int) =~= self.entities@);
        CommandBuffer::new()
    }
}

} // verus!
