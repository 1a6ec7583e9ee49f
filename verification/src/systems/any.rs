//! One type for all the systems that come with the engine, so that an
//! engine can hold any mix of them.

use vstd::prelude::*;
use crate::entity::Entity;
use crate::component::ComponentType;
use crate::store::{Cells, ComponentManager};
use crate::command::{Command, CommandBuffer};
use crate::input::{InputView, TickInput};
use crate::system::System;
use crate::systems::cursor_input::CursorInput;
use crate::systems::gravity::Gravity;
use crate::systems::mouse_input::MouseInput;
use crate::systems::reaper::Reaper;
use crate::systems::renderer::Renderer;
use crate::systems::velocity::IntegrateVelocity;

verus! {

/// Any one of the systems that come with the engine. It behaves as the
/// system that it holds.
pub enum AnySystem {
    Renderer(Renderer),
    MouseInput(MouseInput),
    CursorInput(CursorInput),
    IntegrateVelocity(IntegrateVelocity),
    Gravity(Gravity),
    Reaper(Reaper),
}

impl System for AnySystem {
    open spec fn wf(&self) -> bool {
        match self {
            AnySystem::Renderer(s) => s.wf(),
            AnySystem::MouseInput(s) => s.wf(),
            AnySystem::CursorInput(s) => s.wf(),
            AnySystem::IntegrateVelocity(s) => s.wf(),
            AnySystem::Gravity(s) => s.wf(),
            AnySystem::Reaper(s) => s.wf(),
        }
    }

    open spec fn required(&self) -> Set<ComponentType> {
        match self {
            AnySystem::Renderer(s) => s.required(),
            AnySystem::MouseInput(s) => s.required(),
            AnySystem::CursorInput(s) => s.required(),
            AnySystem::IntegrateVelocity(s) => s.required(),
            AnySystem::Gravity(s) => s.required(),
            AnySystem::Reaper(s) => s.required(),
        }
    }

    open spec fn members(&self) -> Seq<Entity> {
        match self {
            AnySystem::Renderer(s) => s.members(),
            AnySystem::MouseInput(s) => s.members(),
            AnySystem::CursorInput(s) => s.members(),
            AnySystem::IntegrateVelocity(s) => s.members(),
            AnySystem::Gravity(s) => s.members(),
            AnySystem::Reaper(s) => s.members(),
        }
    }

    open spec fn touches(&self) -> Set<ComponentType> {
        match self {
            AnySystem::Renderer(s) => s.touches(),
            AnySystem::MouseInput(s) => s.touches(),
            AnySystem::CursorInput(s) => s.touches(),
            AnySystem::IntegrateVelocity(s) => s.touches(),
            AnySystem::Gravity(s) => s.touches(),
            AnySystem::Reaper(s) => s.touches(),
        }
    }

    open spec fn step(&self, members: Seq<Entity>, cells: Cells, input: InputView) -> Cells {
        match self {
            AnySystem::Renderer(s) => s.step(members, cells, input),
            AnySystem::MouseInput(s) => s.step(members, cells, input),
            AnySystem::CursorInput(s) => s.step(members, cells, input),
            AnySystem::IntegrateVelocity(s) => s.step(members, cells, input),
            AnySystem::Gravity(s) => s.step(members, cells, input),
            AnySystem::Reaper(s) => s.step(members, cells, input),
        }
    }

    open spec fn emits(&self, members: Seq<Entity>, cells: Cells, input: InputView) -> Seq<
        Command,
    > {
        match self {
            AnySystem::Renderer(s) => s.emits(members, cells, input),
            AnySystem::MouseInput(s) => s.emits(members, cells, input),
            AnySystem::CursorInput(s) => s.emits(members, cells, input),
            AnySystem::IntegrateVelocity(s) => s.emits(members, cells, input),
            AnySystem::Gravity(s) => s.emits(members, cells, input),
            AnySystem::Reaper(s) => s.emits(members, cells, input),
        }
    }

    fn add(&mut self, e: Entity) {
        match self {
            AnySystem::Renderer(s) => s.add(e),
            AnySystem::MouseInput(s) => s.add(e),
            AnySystem::CursorInput(s) => s.add(e),
            AnySystem::IntegrateVelocity(s) => s.add(e),
            AnySystem::Gravity(s) => s.add(e),
            AnySystem::Reaper(s) => s.add(e),
        }
    }

    fn remove(&mut self, e: Entity) {
        match self {
            AnySystem::Renderer(s) => s.remove(e),
            AnySystem::MouseInput(s) => s.remove(e),
            AnySystem::CursorInput(s) => s.remove(e),
            AnySystem::IntegrateVelocity(s) => s.remove(e),
            AnySystem::Gravity(s) => s.remove(e),
            AnySystem::Reaper(s) => s.remove(e),
        }
    }

    fn get_component_types(&self) -> (types: &Vec<ComponentType>) {
        match self {
            AnySystem::Renderer(s) => s.get_component_types(),
            AnySystem::MouseInput(s) => s.get_component_types(),
            AnySystem::CursorInput(s) => s.get_component_types(),
            AnySystem::IntegrateVelocity(s) => s.get_component_types(),
            AnySystem::Gravity(s) => s.get_component_types(),
            AnySystem::Reaper(s) => s.get_component_types(),
        }
    }

    fn get_touched_types(&self) -> (types: &Vec<ComponentType>) {
        match self {
            AnySystem::Renderer(s) => s.get_touched_types(),
            AnySystem::MouseInput(s) => s.get_touched_types(),
            AnySystem::CursorInput(s) => s.get_touched_types(),
            AnySystem::IntegrateVelocity(s) => s.get_touched_types(),
            AnySystem::Gravity(s) => s.get_touched_types(),
            AnySystem::Reaper(s) => s.get_touched_types(),
        }
    }

    fn has_member(&self, e: Entity) -> (b: bool) {
        match self {
            AnySystem::Renderer(s) => s.has_member(e),
            AnySystem::MouseInput(s) => s.has_member(e),
            AnySystem::CursorInput(s) => s.has_member(e),
            AnySystem::IntegrateVelocity(s) => s.has_member(e),
            AnySystem::Gravity(s) => s.has_member(e),
            AnySystem::Reaper(s) => s.has_member(e),
        }
    }

    fn apply(&mut self, cm: &mut ComponentManager, input: &TickInput) -> (buf: CommandBuffer) {
        match self {
            AnySystem::Renderer(s) => s.apply(cm, input),
            AnySystem::MouseInput(s) => s.apply(cm, input),
            AnySystem::CursorInput(s) => s.apply(cm, input),
            AnySystem::IntegrateVelocity(s) => s.apply(cm, input),
            AnySystem::Gravity(s) => s.apply(cm, input),
            AnySystem::Reaper(s) => s.apply(cm, input),
        }
    }
}

} // verus!
