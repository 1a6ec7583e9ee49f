//! Deferred operations: what a system asks the engine to do once every
//! system has had its turn.

use vstd::prelude::*;
use crate::entity::Entity;
use crate::component::{Component, ComponentType, Rgba};

verus! {

/// A rectangle on the screen, in pixels.
#[derive(Clone, Copy, Debug, PartialEq, Eq, Structural)]
pub struct Rect {
    pub x: i32,
    pub y: i32,
    pub width: i32,
    pub height: i32,
}

/// One thing to put on the screen.
#[derive(Clone, Copy, Debug, PartialEq, Eq, Structural)]
pub enum DrawCmd {
    /// Fill the whole screen with one colour.
    Clear(Rgba),
    /// A straight line from (`x1`, `y1`) to (`x2`, `y2`).
    Line { x1: i32, y1: i32, x2: i32, y2: i32, color: Rgba },
    /// The caption of the entity panel.
    Label { bounds: Rect },
    /// The button of the entity panel.
    Button { bounds: Rect },
    /// The list of the entity panel.
    ListView { bounds: Rect },
    /// A filled circle.
    Circle { x: i32, y: i32, radius: i32, color: Rgba },
}

/// The entity that a deferred operation works on.
#[derive(Clone, Copy, Debug, PartialEq, Eq, Structural)]
pub enum Target {
    /// An entity that existed when the operation was recorded.
    Existing(Entity),
    /// The entity that the latest `CreateEntity` of the same buffer made.
    Created,
}

/// One deferred operation. It holds by value all it needs.
#[derive(Clone, Copy, Debug, PartialEq, Eq, Structural)]
pub enum Command {
    CreateEntity,
    AttachComponent(Target, Component),
    RemoveComponent(Target, ComponentType),
    Draw(DrawCmd),
}

impl Command {
    /// Whether the operation names no component type outside `types`.
    pub open spec fn within(self, types: Set<ComponentType>) -> bool {
        match self {
            Command::AttachComponent(_, c) => types.contains(c.spec_kind()),
            Command::RemoveComponent(_, t) => types.contains(t),
            _ => true,
        }
    }
}

/// Whether no operation in `cmds` names a component type outside `types`.
pub open spec fn all_within(cmds: Seq<Command>, types: Set<ComponentType>) -> bool {
    forall|i: int| 0 <= i < cmds.len() ==> (#[trigger] cmds[i]).within(types)
}

/// The deferred operations that one system recorded during one tick, in the
/// order in which they are to be carried out.
pub struct CommandBuffer {
    commands: Vec<Command>,
}

impl View for CommandBuffer {
    type V = Seq<Command>;

    closed spec fn view(&self) -> Seq<Command> {
        self.commands@
    }
}

impl CommandBuffer {
    /// A buffer that asks for nothing.
    pub fn new() -> (b: Self)
        ensures
            b@ == Seq::<Command>::empty(),
    {
        CommandBuffer { commands: Vec::new() }
    }

    /// Records `c` behind what is recorded already.
    pub fn push(&mut self, c: Command)
        ensures
            final(self)@ == old(self)@.push(c),
    {
        self.commands.push(c);
    }

    /// The number of recorded operations.
    pub fn len(&self) -> (n: usize)
        ensures
            n == self@.len(),
    {
        self.commands.len()
    }

    /// Whether nothing is recorded.
    pub fn is_empty(&self) -> (b: bool)
        ensures
            b == (self@.len() == 0),
    {
        self.commands.len() == 0
    }

    /// The operation at position `i`.
    pub fn get(&self, i: usize) -> (c: Command)
        requires
            i < self@.len(),
        ensures
            c == self@[i as int],
    {
        self.commands[i]
    }
}

} // verus!
