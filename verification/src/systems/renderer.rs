//! The renderer: it turns the entities that have a position into what is to
//! be drawn this tick. It changes no component.

use vstd::prelude::*;
use crate::entity::{Entity, EntitySet};
use crate::component::{
    lemma_type_set_index, type_set, ComponentType, Rgba, Screen,
};
use crate::store::{color_of, coords_of, size_of, Cells, ComponentManager};
use crate::command::{Command, CommandBuffer, DrawCmd, Rect};
use crate::input::{InputView, TickInput};
use crate::system::System;

verus! {

/// The radius of an entity that has no size of its own.
pub const DEFAULT_RADIUS: i32 = 10;

/// The radius that `e` is drawn with.
pub open spec fn radius_of(cells: Cells, e: Entity) -> i32 {
    match size_of(cells, e) {
        Some(size) => size.s,
        None => DEFAULT_RADIUS,
    }
}

/// The colour that `e` is drawn with.
pub open spec fn tint_of(cells: Cells, e: Entity) -> Rgba {
    match color_of(cells, e) {
        Some(color) => color.c,
        None => Rgba::cyan(),
    }
}

/// The circle that stands for `e`, which has a position.
pub open spec fn circle_of(cells: Cells, e: Entity) -> DrawCmd {
    DrawCmd::Circle {
        x: coords_of(cells, e).unwrap().x,
        y: coords_of(cells, e).unwrap().y,
        radius: radius_of(cells, e),
        color: tint_of(cells, e),
    }
}

/// One circle for each of `members` that has a position, in their order.
pub open spec fn circles(cells: Cells, members: Seq<Entity>) -> Seq<Command>
    decreases members.len(),
{
    if members.len() == 0 {
        Seq::empty()
    } else if coords_of(cells, members.last()) is Some {
        circles(cells, members.drop_last()).push(Command::Draw(circle_of(cells, members.last())))
    } else {
        circles(cells, members.drop_last())
    }
}

/// The entity panel with its upper left corner at (`gui_x`, `gui_y`): a
/// line, a caption, a button and a list.
pub open spec fn panel(gui_x: i32, gui_y: i32) -> Seq<Command> {
    seq![
        Command::Draw(
            DrawCmd::Line { x1: 30, y1: 30, x2: 130, y2: 130, color: Rgba::deep_sky_blue() },
        ),
        Command::Draw(
            DrawCmd::Label {
                bounds: Rect {
                    x: (gui_x + 5) as i32,
                    y: (gui_y + 5) as i32,
                    width: 100,
                    height: 30,
                },
            },
        ),
        Command::Draw(
            DrawCmd::Button {
                bounds: Rect {
                    x: (gui_x + 5) as i32,
                    y: (gui_y + 35) as i32,
                    width: 100,
                    height: 30,
                },
            },
        ),
        Command::Draw(
            DrawCmd::ListView {
                bounds: Rect {
                    x: (gui_x + 5) as i32,
                    y: (gui_y + 70) as i32,
                    width: 100,
                    height: 200,
                },
            },
        ),
    ]
}

/// What one tick draws: the background, the entity panel to the right of
/// the drawing area, and the entities.
pub open spec fn frame_commands(screen: Screen, cells: Cells, members: Seq<Entity>) -> Seq<
    Command,
> {
    seq![Command::Draw(DrawCmd::Clear(Rgba::dark_gray()))] + panel(screen.width, 0) + circles(
        cells,
        members,
    )
}

/// What the renderer keeps for after the frame: one marker.
pub open spec fn marker() -> Seq<DrawCmd> {
    seq![DrawCmd::Circle { x: 50, y: 150, radius: 30, color: Rgba::deep_pink() }]
}

/// The system that draws.
pub struct Renderer {
    entities: EntitySet,
    component_types: Vec<ComponentType>,
    touched_types: Vec<ComponentType>,
    screen: Screen,
    draw_cmds: Vec<DrawCmd>,
}

impl Renderer {
    /// The drawing area.
    pub closed spec fn screen(&self) -> Screen {
        self.screen
    }

    /// What the renderer keeps for after the frame.
    pub closed spec fn buffered(&self) -> Seq<DrawCmd> {
        self.draw_cmds@
    }

    /// The component types that a step may touch.
    pub open spec fn touched_list() -> Seq<ComponentType> {
        seq![ComponentType::Coords, ComponentType::MySize, ComponentType::MyColor]
    }

    /// A renderer without members for a drawing area that fits. It requires
    /// no component type, so every entity is to be its member; position,
    /// size and colour are looked for entity by entity.
    pub fn new(screen: Screen) -> (s: Renderer)
        requires
            screen.fits(),
        ensures
            s.wf(),
            s.screen() == screen,
            s.buffered() == Seq::<DrawCmd>::empty(),
            s.members() == Seq::<Entity>::empty(),
            s.required() == Set::<ComponentType>::empty(),
            s.touches() == type_set(Self::touched_list()),
    {
        let component_types: Vec<ComponentType> = Vec::new();
        let touched_types = vec![
            ComponentType::Coords,
            ComponentType::MySize,
            ComponentType::MyColor,
        ];
        let s = Renderer {
            entities: EntitySet::new(),
            component_types,
            touched_types,
            screen,
            draw_cmds: Renderer::empty_cmds(),
        };
        proof {
            assert(s.touched_types@ =~= Self::touched_list());
            assert(type_set(s.component_types@) =~= Set::<ComponentType>::empty());
        }
        s
    }

    /// Hands out what the renderer kept for after the frame, and keeps
    /// nothing.
    pub fn draw_buffered_cmds(&mut self) -> (cmds: Vec<DrawCmd>)
        requires
            old(self).wf(),
        ensures
            final(self).wf(),
            cmds@ == old(self).buffered(),
            final(self).buffered() == Seq::<DrawCmd>::empty(),
            final(self).screen() == old(self).screen(),
            final(self).members() == old(self).members(),
            final(self).required() == old(self).required(),
            final(self).touches() == old(self).touches(),
    {
        let mut cmds = Renderer::empty_cmds();
        std::mem::swap(&mut cmds, &mut self.draw_cmds);
        cmds
    }

    fn empty_cmds() -> (cmds: Vec<DrawCmd>)
        ensures
            cmds@ == Seq::<DrawCmd>::empty(),
    {
        Vec::new()
    }

    /// Adds the entity panel with its upper left corner at (`gui_x`,
    /// `gui_y`) to what is drawn.
    pub fn draw_gui(&self, d: &mut CommandBuffer, gui_x: i32, gui_y: i32)
        requires
            i32::MIN <= gui_x + 5 <= i32::MAX,
            i32::MIN <= gui_y + 5,
            gui_y + 70 <= i32::MAX,
        ensures
            final(d)@ == old(d)@ + panel(gui_x, gui_y),
    {
        d.push(
            Command::Draw(
                DrawCmd::Line { x1: 30, y1: 30, x2: 130, y2: 130, color: Rgba::deep_sky_blue() },
            ),
        );
        d.push(
            Command::Draw(
                DrawCmd::Label {
                    bounds: Rect { x: gui_x + 5, y: gui_y + 5, width: 100, height: 30 },
                },
            ),
        );
        d.push(
            Command::Draw(
                DrawCmd::Button {
                    bounds: Rect { x: gui_x + 5, y: gui_y + 35, width: 100, height: 30 },
                },
            ),
        );
        d.push(
            Command::Draw(
                DrawCmd::ListView {
                    bounds: Rect { x: gui_x + 5, y: gui_y + 70, width: 100, height: 200 },
                },
            ),
        );
        assert(d@ =~= old(d)@ + panel(gui_x, gui_y));
    }
}

impl System for Renderer {
    closed spec fn wf(&self) -> bool {
        &&& self.entities.wf()
        &&& self.component_types@ == Seq::<ComponentType>::empty()
        &&& self.touched_types@ == Self::touched_list()
        &&& self.screen.fits()
    }

    closed spec fn required(&self) -> Set<ComponentType> {
        type_set(self.component_types@)
    }

    closed spec fn members(&self) -> Seq<Entity> {
        self.entities@
    }

    closed spec fn touches(&self) -> Set<ComponentType> {
        type_set(self.touched_types@)
    }

    open spec fn step(&self, members: Seq<Entity>, cells: Cells, input: InputView) -> Cells {
        cells
    }

    open spec fn emits(&self, members: Seq<Entity>, cells: Cells, input: InputView) -> Seq<
        Command,
    > {
        frame_commands(self.screen(), cells, members)
    }

    fn add(&mut self, e: Entity) {
        self.entities.insert(e);
    }

    fn remove(&mut self, e: Entity) {
        self.entities.remove(e);
    }

    fn get_component_types(&self) -> (types: &Vec<ComponentType>) {
        &self.component_types
    }

    fn get_touched_types(&self) -> (types: &Vec<ComponentType>) {
        &self.touched_types
    }

    fn has_member(&self, e: Entity) -> (b: bool) {
        self.entities.has(e)
    }

    fn apply(&mut self, cm: &mut ComponentManager, input: &TickInput) -> (buf: CommandBuffer)
        ensures
            final(self).buffered() == marker(),
            final(self).screen() == old(self).screen(),
    {
        proof {
            let l = Self::touched_list();
            lemma_type_set_index(l, 0);
            lemma_type_set_index(l, 1);
            lemma_type_set_index(l, 2);
        }
        let mut d = CommandBuffer::new();
        d.push(Command::Draw(DrawCmd::Clear(Rgba::dark_gray())));
        let gui_x = self.screen.width;
        let gui_y: i32 = 0;
        self.draw_gui(&mut d, gui_x, gui_y);
        let ghost head = d@;
        let n = self.entities.len();
        let mut i: usize = 0;
        assert(self.entities@.take(0) =~= Seq::<Entity>::empty());
        assert(d@ =~= head + circles(cm@.cells, self.entities@.take(0)));
        while i < n
            invariant
                self.wf(),
                cm.wf(),
                *cm == *old(cm),
                n == self.entities@.len(),
                i <= n,
                cm@.registered.contains(ComponentType::Coords),
                cm@.registered.contains(ComponentType::MySize),
                cm@.registered.contains(ComponentType::MyColor),
                d@ == head + circles(cm@.cells, self.entities@.take(i as int)),
                forall|m: int| 0 <= m < d@.len() ==> (#[trigger] d@[m]) is Draw,
            decreases n - i,
        {
            let e = self.entities.get(i);
            proof {
                assert(self.entities@.take(i + 1).drop_last() =~= self.entities@.take(i as int));
                assert(self.entities@.take(i + 1).last() == e);
            }
            match cm.get_coords(e) {
                Some(c) => {
                    let radius = match cm.get_size(e) {
                        Some(size) => size.s,
                        None => DEFAULT_RADIUS,
                    };
                    let color = match cm.get_color(e) {
                        Some(color) => color.c,
                        None => Rgba::cyan(),
                    };
                    d.push(Command::Draw(DrawCmd::Circle { x: c.x, y: c.y, radius, color }));
                },
                None => {},
            }
            assert(d@ =~= head + circles(cm@.cells, self.entities@.take(i + 1)));
            i = i + 1;
        }
        assert(self.entities@.take(n as int) =~= self.entities@);
        self.draw_cmds = vec![
            DrawCmd::Circle { x: 50, y: 150, radius: 30, color: Rgba::deep_pink() },
        ];
        assert(self.draw_cmds@ =~= marker());
        d
    }
}

} // verus!
