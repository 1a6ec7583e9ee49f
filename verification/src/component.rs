//! The component types that entities can carry, and the tags that name them.

use vstd::prelude::*;

verus! {

/// A position on the screen, in pixels.
#[derive(Clone, Copy, Debug, PartialEq, Eq, Structural)]
pub struct Coords {
    pub x: i32,
    pub y: i32,
}

/// The radius an entity is drawn with, in pixels.
#[derive(Clone, Copy, Debug, PartialEq, Eq, Structural)]
pub struct MySize {
    pub s: i32,
}

/// A colour as red, green, blue and opacity.
#[derive(Clone, Copy, Debug, PartialEq, Eq, Structural)]
pub struct Rgba {
    pub r: u8,
    pub g: u8,
    pub b: u8,
    pub a: u8,
}

impl Rgba {
    /// The background of the drawing area.
    pub open spec fn spec_dark_gray() -> Rgba {
        Rgba { r: 169, g: 169, b: 169, a: 255 }
    }

    /// The background of the drawing area.
    #[verifier::when_used_as_spec(spec_dark_gray)]
    pub fn dark_gray() -> (c: Rgba)
        ensures
            c == Self::spec_dark_gray(),
    {
        Rgba { r: 169, g: 169, b: 169, a: 255 }
    }

    /// The line of the entity panel.
    pub open spec fn spec_deep_sky_blue() -> Rgba {
        Rgba { r: 0, g: 191, b: 255, a: 255 }
    }

    /// The line of the entity panel.
    #[verifier::when_used_as_spec(spec_deep_sky_blue)]
    pub fn deep_sky_blue() -> (c: Rgba)
        ensures
            c == Self::spec_deep_sky_blue(),
    {
        Rgba { r: 0, g: 191, b: 255, a: 255 }
    }

    /// The colour of an entity that has none of its own.
    pub open spec fn spec_cyan() -> Rgba {
        Rgba { r: 0, g: 255, b: 255, a: 255 }
    }

    /// The colour of an entity that has none of its own.
    #[verifier::when_used_as_spec(spec_cyan)]
    pub fn cyan() -> (c: Rgba)
        ensures
            c == Self::spec_cyan(),
    {
        Rgba { r: 0, g: 255, b: 255, a: 255 }
    }

    /// The colour of the marker that is drawn after the entities.
    pub open spec fn spec_deep_pink() -> Rgba {
        Rgba { r: 255, g: 20, b: 147, a: 255 }
    }

    /// The colour of the marker that is drawn after the entities.
    #[verifier::when_used_as_spec(spec_deep_pink)]
    pub fn deep_pink() -> (c: Rgba)
        ensures
            c == Self::spec_deep_pink(),
    {
        Rgba { r: 255, g: 20, b: 147, a: 255 }
    }

    /// The colour of the particles of a burst.
    pub open spec fn spec_blue_violet() -> Rgba {
        Rgba { r: 138, g: 43, b: 226, a: 255 }
    }

    /// The colour of the particles of a burst.
    #[verifier::when_used_as_spec(spec_blue_violet)]
    pub fn blue_violet() -> (c: Rgba)
        ensures
            c == Self::spec_blue_violet(),
    {
        Rgba { r: 138, g: 43, b: 226, a: 255 }
    }

    /// The colour of an entity that a click made.
    pub open spec fn spec_indian_red() -> Rgba {
        Rgba { r: 205, g: 92, b: 92, a: 255 }
    }

    /// The colour of an entity that a click made.
    #[verifier::when_used_as_spec(spec_indian_red)]
    pub fn indian_red() -> (c: Rgba)
        ensures
            c == Self::spec_indian_red(),
    {
        Rgba { r: 205, g: 92, b: 92, a: 255 }
    }
}

/// The colour an entity is drawn with.
#[derive(Clone, Copy, Debug, PartialEq, Eq, Structural)]
pub struct MyColor {
    pub c: Rgba,
}

/// A displacement per tick, in whole pixels.
#[derive(Clone, Copy, Debug, PartialEq, Eq, Structural)]
pub struct Velocity {
    pub vx: i32,
    pub vy: i32,
}

/// The ticks an entity has left before it expires.
#[derive(Clone, Copy, Debug, PartialEq, Eq, Structural)]
pub struct TTL {
    pub ttl: i32,
}

/// What gravity adds to an entity's vertical velocity each tick. A negative
/// weight makes the entity rise.
#[derive(Clone, Copy, Debug, PartialEq, Eq, Structural)]
pub struct Weight {
    pub w: i32,
}

/// Marks an entity that follows the pointer.
#[derive(Clone, Copy, Debug, PartialEq, Eq, Structural)]
pub struct MouseControlled {}

/// Marks an entity that the arrow keys move.
#[derive(Clone, Copy, Debug, PartialEq, Eq, Structural)]
pub struct CursorControlled {}

/// The tag of a component type.
#[derive(Clone, Copy, Debug, PartialEq, Eq, Structural, Hash)]
pub enum ComponentType {
    Coords,
    MySize,
    MyColor,
    Velocity,
    TTL,
    Weight,
    MouseControlled,
    CursorControlled,
}

/// How many component types there are.
pub const TYPE_COUNT: usize = 8;

impl ComponentType {
    /// The position of the tag among all tags.
    pub open spec fn spec_index(self) -> usize {
        match self {
            ComponentType::Coords => 0,
            ComponentType::MySize => 1,
            ComponentType::MyColor => 2,
            ComponentType::Velocity => 3,
            ComponentType::TTL => 4,
            ComponentType::Weight => 5,
            ComponentType::MouseControlled => 6,
            ComponentType::CursorControlled => 7,
        }
    }

    /// The position of the tag among all tags.
    #[verifier::when_used_as_spec(spec_index)]
    pub fn index(self) -> (i: usize)
        ensures
            i == self.spec_index(),
            i < TYPE_COUNT,
    {
        match self {
            ComponentType::Coords => 0,
            ComponentType::MySize => 1,
            ComponentType::MyColor => 2,
            ComponentType::Velocity => 3,
            ComponentType::TTL => 4,
            ComponentType::Weight => 5,
            ComponentType::MouseControlled => 6,
            ComponentType::CursorControlled => 7,
        }
    }

    /// The tag at position `i`.
    pub open spec fn spec_from_index(i: int) -> ComponentType {
        if i == 0 {
            ComponentType::Coords
        } else if i == 1 {
            ComponentType::MySize
        } else if i == 2 {
            ComponentType::MyColor
        } else if i == 3 {
            ComponentType::Velocity
        } else if i == 4 {
            ComponentType::TTL
        } else if i == 5 {
            ComponentType::Weight
        } else if i == 6 {
            ComponentType::MouseControlled
        } else {
            ComponentType::CursorControlled
        }
    }

    /// The tag at position `i`.
    pub fn from_index(i: usize) -> (t: ComponentType)
        requires
            i < TYPE_COUNT,
        ensures
            t == Self::spec_from_index(i as int),
            t.spec_index() == i,
    {
        if i == 0 {
            ComponentType::Coords
        } else if i == 1 {
            ComponentType::MySize
        } else if i == 2 {
            ComponentType::MyColor
        } else if i == 3 {
            ComponentType::Velocity
        } else if i == 4 {
            ComponentType::TTL
        } else if i == 5 {
            ComponentType::Weight
        } else if i == 6 {
            ComponentType::MouseControlled
        } else {
            ComponentType::CursorControlled
        }
    }
}

/// The types that occur in `types`.
pub open spec fn type_set(types: Seq<ComponentType>) -> Set<ComponentType> {
    Set::new(|t: ComponentType| types.contains(t))
}

/// A sequence of one type holds that type and no other.
pub proof fn lemma_seq_set_1(types: Seq<ComponentType>, a: ComponentType)
    requires
        types == seq![a],
    ensures
        type_set(types) == set![a],
{
    assert(types[0] == a);
    assert(type_set(types) =~= set![a]);
}

/// A sequence of two types holds those two and no other.
pub proof fn lemma_seq_set_2(types: Seq<ComponentType>, a: ComponentType, b: ComponentType)
    requires
        types == seq![a, b],
    ensures
        type_set(types) == set![a, b],
{
    assert(types[0] == a);
    assert(types[1] == b);
    assert(type_set(types) =~= set![a, b]);
}

/// A type that occurs in a sequence is in the set of its types.
pub proof fn lemma_type_set_index(types: Seq<ComponentType>, i: int)
    requires
        0 <= i < types.len(),
    ensures
        type_set(types).contains(types[i]),
{
}

/// A component value of any of the types.
#[derive(Clone, Copy, Debug, PartialEq, Eq, Structural)]
pub enum Component {
    Coords(Coords),
    MySize(MySize),
    MyColor(MyColor),
    Velocity(Velocity),
    TTL(TTL),
    Weight(Weight),
    MouseControlled(MouseControlled),
    CursorControlled(CursorControlled),
}

impl Component {
    /// The tag of the type that the value belongs to.
    pub open spec fn spec_kind(self) -> ComponentType {
        match self {
            Component::Coords(_) => ComponentType::Coords,
            Component::MySize(_) => ComponentType::MySize,
            Component::MyColor(_) => ComponentType::MyColor,
            Component::Velocity(_) => ComponentType::Velocity,
            Component::TTL(_) => ComponentType::TTL,
            Component::Weight(_) => ComponentType::Weight,
            Component::MouseControlled(_) => ComponentType::MouseControlled,
            Component::CursorControlled(_) => ComponentType::CursorControlled,
        }
    }

    /// The tag of the type that the value belongs to.
    #[verifier::when_used_as_spec(spec_kind)]
    pub fn kind(self) -> (t: ComponentType)
        ensures
            t == self.spec_kind(),
    {
        match self {
            Component::Coords(_) => ComponentType::Coords,
            Component::MySize(_) => ComponentType::MySize,
            Component::MyColor(_) => ComponentType::MyColor,
            Component::Velocity(_) => ComponentType::Velocity,
            Component::TTL(_) => ComponentType::TTL,
            Component::Weight(_) => ComponentType::Weight,
            Component::MouseControlled(_) => ComponentType::MouseControlled,
            Component::CursorControlled(_) => ComponentType::CursorControlled,
        }
    }
}

/// The drawing area, in pixels.
#[derive(Clone, Copy, Debug, PartialEq, Eq, Structural)]
pub struct Screen {
    pub width: i32,
    pub height: i32,
}

/// The width of the entity panel that stands to the right of the drawing
/// area, in pixels.
pub const PANEL_WIDTH: i32 = 240;

impl Screen {
    /// Whether the window that holds the area and the panel has a width
    /// that can be written down.
    pub open spec fn fits(self) -> bool {
        self.width + PANEL_WIDTH <= i32::MAX
    }

    /// A drawing area of the given size, if such an area fits.
    pub fn new(width: i32, height: i32) -> (r: Option<Screen>)
        ensures
            r == (if (Screen { width, height }).fits() {
                Some(Screen { width, height })
            } else {
                None
            }),
    {
        if width <= i32::MAX - PANEL_WIDTH {
            Some(Screen { width, height })
        } else {
            None
        }
    }

    /// The width of the window that holds the drawing area and the panel.
    pub fn window_width(&self) -> (w: i32)
        requires
            self.fits(),
        ensures
            w == self.width + PANEL_WIDTH,
    {
        self.width + PANEL_WIDTH
    }
}

/// A value that belongs to no entity and is kept under a key of its own.
#[derive(Clone, Copy, Debug, PartialEq, Eq, Structural)]
pub enum Global {
    Screen(Screen),
    Value(Component),
}

} // verus!
