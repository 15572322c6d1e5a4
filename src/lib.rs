//! Spatial-interaction core of a 2D simulation: rectangle hitboxes, layer tags,
//! a per-frame broad-phase collision pass and a pointer-driven drag-and-drop engine.

pub mod collisions;
pub mod draggable;
pub mod frame;
pub mod geometry;
pub mod hitbox;
pub mod layer;
pub mod mouse;
pub mod world;

pub use collisions::{emit_collision_events, CollisionEvent, EmitsCollisions};
pub use draggable::{
    end_drag, initiate_drag, resolve_drop, update_drag, DragShadow, Draggable, DropBlocker,
    DropEvent, DropPreview, DropResolution, HoverShadow, SHADOW_Z,
};
pub use frame::{run_frame, FrameInput};
pub use geometry::{Point, Position, Rect, WorldRect};
pub use hitbox::Hitbox;
pub use layer::{InLayers, Layer, LayerSet};
pub use mouse::{mouse_coords_system, MouseCoords};
pub use world::{Object, ObjectId, World};
