//! Mouse input: the entities that are marked for the pointer follow it, and
//! a click makes a new entity where the pointer is.

use vstd::prelude::*;
use crate::entity::{lemma_take_next, Entity, EntitySet};
use crate::component::{
    lemma_seq_set_2, lemma_type_set_index, type_set, Component, ComponentType, Coords, MyColor,
    MySize, Rgba, TTL,
};
use crate::store::{lemma_follows_add, lemma_follows_trans, Cells, ComponentManager};
use crate::command::{Command, CommandBuffer, Target};
use crate::input::{InputView, TickInput};
use crate::system::System;

verus! {

/// Where the pointer is.
pub open spec fn pointer(input: InputView) -> Coords {
    Coords { x: input.mouse_x, y: input.mouse_y }
}

/// The cells after `members` followed the pointer: each member has the
/// pointer's position; every other cell is as before.
pub open spec fn pointer_cells(cells: Cells, members: Seq<Entity>, input: InputView) -> Cells {
    Map::new(
        |k: (Entity, ComponentType)|
            cells.contains_key(k) || (k.1 == ComponentType::Coords && members.contains(k.0)),
        |k: (Entity, ComponentType)|
            if k.1 == ComponentType::Coords && members.contains(k.0) {
                Component::Coords(pointer(input))
            } else {
                cells[k]
            },
    )
}

/// Where every member has a position already, following the pointer gives
/// no entity a component of a type that it did not hold: the cells are of
/// the same entities and types as before.
pub proof fn lemma_pointer_keeps_domain(cells: Cells, members: Seq<Entity>, input: InputView)
    requires
        forall|e: Entity| members.contains(e) ==> cells.contains_key((e, ComponentType::Coords)),
    ensures
        pointer_cells(cells, members, input).dom() == cells.dom(),
{
    assert(pointer_cells(cells, members, input).dom() =~= cells.dom());
}

/// The operations that make the entity of a click at `at`: it has a size, a
/// colour, and forty ticks to live.
pub open spec fn spawn_commands(at: Coords) -> Seq<Command> {
    seq![
        Command::CreateEntity,
        Command::AttachComponent(Target::Created, Component::Coords(at)),
        Command::AttachComponent(Target::Created, Component::MySize(MySize { s: 3 })),
        Command::AttachComponent(Target::Created, Component::TTL(TTL { ttl: 40 })),
        Command::AttachComponent(
            Target::Created,
            Component::MyColor(MyColor { c: Rgba::indian_red() }),
        ),
    ]
}

/// The system that follows the pointer.
pub struct MouseInput {
    entities: EntitySet,
    component_types: Vec<ComponentType>,
    touched_types: Vec<ComponentType>,
}

impl MouseInput {
    /// A system without members. It requires a position and the mark of
    /// the pointer.
    pub fn new() -> (s: MouseInput)
        ensures
            s.wf(),
            s.members() == Seq::<Entity>::empty(),
            s.required() == set![ComponentType::Coords, ComponentType::MouseControlled],
            s.touches() == type_set(Self::touched_list()),
    {
        let component_types = vec![ComponentType::Coords, ComponentType::MouseControlled];
        let touched_types = vec![
            ComponentType::Coords,
            ComponentType::MouseControlled,
            ComponentType::MySize,
            ComponentType::TTL,
            ComponentType::MyColor,
        ];
        let s = MouseInput { entities: EntitySet::new(), component_types, touched_types };
        proof {
            assert(s.component_types@ =~= seq![
                ComponentType::Coords,
                ComponentType::MouseControlled,
            ]);
            assert(s.touched_types@ =~= Self::touched_list());
            lemma_seq_set_2(
                s.component_types@,
                ComponentType::Coords,
                ComponentType::MouseControlled,
            );
        }
        s
    }

    /// The component types that a step may touch.
    pub open spec fn touched_list() -> Seq<ComponentType> {
        seq![
            ComponentType::Coords,
            ComponentType::MouseControlled,
            ComponentType::MySize,
            ComponentType::TTL,
            ComponentType::MyColor,
        ]
    }

    /// The operations that make the entity of a click at `at`.
    pub fn spawn(at: Coords) -> (buf: CommandBuffer)
        ensures
            buf@ == spawn_commands(at),
    {
        let mut buf = CommandBuffer::new();
        buf.push(Command::CreateEntity);
        buf.push(Command::AttachComponent(Target::Created, Component::Coords(at)));
        buf.push(Command::AttachComponent(Target::Created, Component::MySize(MySize { s: 3 })));
        buf.push(Command::AttachComponent(Target::Created, Component::TTL(TTL { ttl: 40 })));
        buf.push(
            Command::AttachComponent(
                Target::Created,
                Component::MyColor(MyColor { c: Rgba::indian_red() }),
            ),
        );
        assert(buf@ =~= spawn_commands(at));
        buf
    }
}

impl System for MouseInput {
    closed spec fn wf(&self) -> bool {
        &&& self.entities.wf()
        &&& self.component_types@ == seq![ComponentType::Coords, ComponentType::MouseControlled]
        &&& self.touched_types@ == Self::touched_list()
    }

    closed spec fn required(&self) -> Set<ComponentType> {
        type_set(self.component_types@)
    }

    closed spec fn members(&self) -> Seq<Entity> {
        self.entities@
    }

    closed spec fn touches(&self) -> Set<ComponentType> {
        type_set(self.touched_types@)
    }

    open spec fn step(&self, members: Seq<Entity>, cells: Cells, input: InputView) -> Cells {
        pointer_cells(cells, members, input)
    }

    open spec fn emits(&self, members: Seq<Entity>, cells: Cells, input: InputView) -> Seq<
        Command,
    > {
        if input.mouse_pressed {
            spawn_commands(pointer(input))
        } else {
            Seq::empty()
        }
    }

    fn add(&mut self, e: Entity) {
        self.entities.insert(e);
    }

    fn remove(&mut self, e: Entity) {
        self.entities.remove(e);
    }

    fn get_component_types(&self) -> (types: &Vec<ComponentType>) {
        &self.component_types
    }

    fn get_touched_types(&self) -> (types: &Vec<ComponentType>) {
        &self.touched_types
    }

    fn has_member(&self, e: Entity) -> (b: bool) {
        self.entities.has(e)
    }

    fn apply(&mut self, cm: &mut ComponentManager, input: &TickInput) -> (buf: CommandBuffer) {
        let ghost before = cm@;
        proof {
            let l = Self::touched_list();
            lemma_type_set_index(l, 0);
            lemma_type_set_index(l, 1);
            lemma_type_set_index(l, 2);
            lemma_type_set_index(l, 3);
            lemma_type_set_index(l, 4);
        }
        let at = Coords { x: input.mouse_x, y: input.mouse_y };
        let n = self.entities.len();
        let mut i: usize = 0;
        assert(cm@.cells =~= pointer_cells(before.cells, self.entities@.take(0), input@));
        while i < n
            invariant
                self.wf(),
                cm.wf(),
                before.wf(),
                n == self.entities@.len(),
                i <= n,
                at == pointer(input@),
                cm@.registered.contains(ComponentType::Coords),
                cm@.follows(before),
                cm@.cells == pointer_cells(before.cells, self.entities@.take(i as int), input@),
            decreases n - i,
        {
            let e = self.entities.get(i);
            let ghost mid = cm@;
            proof {
                lemma_take_next(self.entities@, i as int);
            }
            cm.add(e, Component::Coords(at));
            proof {
                lemma_follows_add(mid, e, Component::Coords(at));
                lemma_follows_trans(before, mid, cm@);
            }
            assert(cm@.cells =~= pointer_cells(before.cells, self.entities@.take(i + 1), input@));
            i = i + 1;
        }
        assert(self.entities@.take(n as int) =~= self.entities@);
        if input.mouse_pressed {
            MouseInput::spawn(at)
        } else {
            CommandBuffer::new()
        }
    }
}

} // verus!
