//! The pointer's last known world position.
use vstd::prelude::*;
use crate::geometry::Point;

verus! {

/// The pointer's world position, as last seen.
#[derive(Clone, Copy, Debug, PartialEq, Eq, Structural)]
pub struct MouseCoords(pub Point);

impl MouseCoords {
    pub fn new(p: Point) -> (r: MouseCoords)
        ensures
            r.0 == p,
    {
        MouseCoords(p)
    }
}

impl<'a> From<&'a MouseCoords> for Point {
    fn from(mouse_coords: &'a MouseCoords) -> (r: Point)
        ensures
            r == mouse_coords.0,
    {
        mouse_coords.0
    }
}

impl<'a> vstd::std_specs::convert::FromSpecImpl<&'a MouseCoords> for Point {
    open spec fn obeys_from_spec() -> bool {
        true
    }

    open spec fn from_spec(mouse_coords: &'a MouseCoords) -> Point {
        mouse_coords.0
    }
}

/// Stores the pointer's world position when one could be observed this frame
/// (a camera and a window exist and the cursor is inside the window); otherwise
/// keeps the last known position.
pub fn mouse_coords_system(mouse_coords: &mut MouseCoords, observed: Option<Point>)
    ensures
        *final(mouse_coords) == match observed {
            Some(p) => MouseCoords(p),
            None => *old(mouse_coords),
        },
{
    if let Some(p) = observed {
        mouse_coords.0 = p;
    }
}

} // verus!
