//! The systems that come with the engine.

pub mod any;
pub mod cursor_input;
pub mod gravity;
pub mod mouse_input;
pub mod reaper;
pub mod renderer;
pub mod velocity;

pub use crate::systems::any::AnySystem;
pub use crate::systems::cursor_input::CursorInput;
pub use crate::systems::gravity::Gravity;
pub use crate::systems::mouse_input::MouseInput;
pub use crate::systems::reaper::Reaper;
pub use crate::systems::renderer::Renderer;
pub use crate::systems::velocity::IntegrateVelocity;
