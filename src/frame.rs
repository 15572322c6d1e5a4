//! One frame of the simulation, in its fixed order.
use vstd::prelude::*;
use crate::collisions::{after_collision_pass, emit_collision_events};
use crate::draggable::{
    after_initiate, after_update_drag, end_drag, end_drag_upto, initiate_drag, update_drag,
};
use crate::geometry::Point;
use crate::mouse::{mouse_coords_system, MouseCoords};
use crate::world::{World, WorldView};

verus! {

/// What the input devices reported this frame.
#[derive(Clone, Copy, Debug, PartialEq, Eq, Structural)]
pub struct FrameInput {
    /// The pointer's world position, when a camera and a window exist and the
    /// cursor is inside the window.
    pub pointer: Option<Point>,
    /// The primary button went down this frame.
    pub just_pressed: bool,
    /// The primary button went up this frame.
    pub just_released: bool,
}

/// The world after one frame with pointer `m`: pick-up and hover detection, shadow
/// tracking, the collision pass, then drop resolution.
pub open spec fn after_frame(w: WorldView, m: Point, input: FrameInput) -> WorldView {
    let a = after_update_drag(after_initiate(w, m, input.just_pressed), m);
    let b = after_collision_pass(a);
    end_drag_upto(b, input.just_released, b.objects.len() as int)
}

/// Runs one frame: the pointer tracker updates, then pick-up and hover detection,
/// shadow tracking, the collision pass and drop resolution, in that order.
pub fn run_frame(world: &mut World, mouse: &mut MouseCoords, input: FrameInput)
    requires
        old(world)@.wf(),
    ensures
        *final(mouse) == match input.pointer {
            Some(p) => MouseCoords(p),
            None => *old(mouse),
        },
        final(world)@ == after_frame(old(world)@, final(mouse).0, input),
        final(world)@.wf(),
{
    mouse_coords_system(mouse, input.pointer);
    let m = mouse.0;
    initiate_drag(world, m, input.just_pressed);
    update_drag(world, m);
    emit_collision_events(world);
    end_drag(world, input.just_released);
}

} // verus!
