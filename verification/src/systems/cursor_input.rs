//! Cursor input: the arrow keys move the entities that are marked for them.

use vstd::prelude::*;
use crate::entity::{lemma_take_next, Entity, EntitySet};
use crate::component::{lemma_seq_set_2, type_set, Component, ComponentType, Coords};
use crate::store::{coords_of, lemma_follows_add, lemma_follows_trans, Cells, ComponentManager};
use crate::command::{Command, CommandBuffer};
use crate::input::{InputView, TickInput};
use crate::system::System;
use crate::systems::velocity::{wrap, wrapping_sum};

verus! {

/// How far the held keys move an entity in one tick, to the right and
/// downwards. Keys that pull in opposite directions cancel.
pub open spec fn key_step(input: InputView) -> (int, int) {
    (
        (if input.key_right {
            1int
        } else {
            0int
        }) - (if input.key_left {
            1int
        } else {
            0int
        }),
        (if input.key_down {
            1int
        } else {
            0int
        }) - (if input.key_up {
            1int
        } else {
            0int
        }),
    )
}

/// The position `c` after the held keys moved it.
pub open spec fn nudge(c: Coords, input: InputView) -> Coords {
    Coords { x: wrap(c.x + key_step(input).0), y: wrap(c.y + key_step(input).1) }
}

/// The cells after the keys moved `members`: each member with a position
/// has the nudged position; every other cell is as before.
pub open spec fn cursor_cells(cells: Cells, members: Seq<Entity>, input: InputView) -> Cells {
    Map::new(
        |k: (Entity, ComponentType)| cells.contains_key(k),
        |k: (Entity, ComponentType)|
            if k.1 == ComponentType::Coords && members.contains(k.0) && coords_of(cells, k.0)
                is Some {
                Component::Coords(nudge(coords_of(cells, k.0).unwrap(), input))
            } else {
                cells[k]
            },
    )
}

/// The system that moves entities with the arrow keys.
pub struct CursorInput {
    entities: EntitySet,
    component_types: Vec<ComponentType>,
    touched_types: Vec<ComponentType>,
}

impl CursorInput {
    /// A system without members. It requires a position and the mark of
    /// the arrow keys.
    pub fn new() -> (s: CursorInput)
        ensures
            s.wf(),
            s.members() == Seq::<Entity>::empty(),
            s.required() == set![ComponentType::Coords, ComponentType::CursorControlled],
            s.touches() == set![ComponentType::Coords, ComponentType::CursorControlled],
    {
        let component_types = vec![ComponentType::Coords, ComponentType::CursorControlled];
        let touched_types = vec![ComponentType::Coords, ComponentType::CursorControlled];
        let s = CursorInput { entities: EntitySet::new(), component_types, touched_types };
        proof {
            assert(s.component_types@ =~= seq![
                ComponentType::Coords,
                ComponentType::CursorControlled,
            ]);
            assert(s.touched_types@ =~= seq![
                ComponentType::Coords,
                ComponentType::CursorControlled,
            ]);
            lemma_seq_set_2(
                s.component_types@,
                ComponentType::Coords,
                ComponentType::CursorControlled,
            );
        }
        s
    }
}

impl System for CursorInput {
    closed spec fn wf(&self) -> bool {
        &&& self.entities.wf()
        &&& self.component_types@ == seq![ComponentType::Coords, ComponentType::CursorControlled]
        &&& self.touched_types@ == seq![ComponentType::Coords, ComponentType::CursorControlled]
    }

    closed spec fn required(&self) -> Set<ComponentType> {
        type_set(self.component_types@)
    }

    closed spec fn members(&self) -> Seq<Entity> {
        self.entities@
    }

    closed spec fn touches(&self) -> Set<ComponentType> {
        type_set(self.touched_types@)
    }

    open spec fn step(&self, members: Seq<Entity>, cells: Cells, input: InputView) -> Cells {
        cursor_cells(cells, members, input)
    }

    open spec fn emits(&self, members: Seq<Entity>, cells: Cells, input: InputView) -> Seq<
        Command,
    > {
        Seq::empty()
    }

    fn add(&mut self, e: Entity) {
        self.entities.insert(e);
    }

    fn remove(&mut self, e: Entity) {
        self.entities.remove(e);
    }

    fn get_component_types(&self) -> (types: &Vec<ComponentType>) {
        &self.component_types
    }

    fn get_touched_types(&self) -> (types: &Vec<ComponentType>) {
        &self.touched_types
    }

    fn has_member(&self, e: Entity) -> (b: bool) {
        self.entities.has(e)
    }

    fn apply(&mut self, cm: &mut ComponentManager, input: &TickInput) -> (buf: CommandBuffer) {
        let ghost before = cm@;
        proof {
            lemma_seq_set_2(
                self.touched_types@,
                ComponentType::Coords,
                ComponentType::CursorControlled,
            );
        }
        let mut inc_x: i32 = 0;
        let mut inc_y: i32 = 0;
        if input.key_right {
            inc_x = inc_x + 1;
        }
        if input.key_left {
            inc_x = inc_x - 1;
        }
        if input.key_up {
            inc_y = inc_y - 1;
        }
        if input.key_down {
            inc_y = inc_y + 1;
        }
        let n = self.entities.len();
        let mut i: usize = 0;
        assert(cm@.cells =~= cursor_cells(before.cells, self.entities@.take(0), input@));
        while i < n
            invariant
                self.wf(),
                cm.wf(),
                before.wf(),
                n == self.entities@.len(),
                i <= n,
                inc_x == key_step(input@).0,
                inc_y == key_step(input@).1,
                cm@.registered.contains(ComponentType::Coords),
                cm@.follows(before),
                cm@.cells == cursor_cells(before.cells, self.entities@.take(i as int), input@),
            decreases n - i,
        {
            let e = self.entities.get(i);
            let ghost mid = cm@;
            proof {
                lemma_take_next(self.entities@, i as int);
            }
            match cm.get_coords(e) {
                Some(c) => {
                    let moved = Coords {
                        x: wrapping_sum(c.x, inc_x),
                        y: wrapping_sum(c.y, inc_y),
                    };
                    cm.add(e, Component::Coords(moved));
                    proof {
                        lemma_follows_add(mid, e, Component::Coords(moved));
                        lemma_follows_trans(before, mid, cm@);
                    }
                },
                None => {},
            }
            assert(cm@.cells =~= cursor_cells(before.cells, self.entities@.take(i + 1), input@));
            i = i + 1;
        }
        assert(self.entities@.take(n as int) =~= self.entities@);
        CommandBuffer::new()
    }
}

} // verus!
