//! Rectangle hitboxes in an object's local frame.
use vstd::prelude::*;
use crate::geometry::{max_i, min_i, Point, Position, Rect, WorldRect};

verus! {

/// A rectangle in an object's local frame, with the origin at the object's position.
#[derive(Clone, Copy, Debug, PartialEq, Eq, Structural)]
pub struct Hitbox {
    pub rect: Rect,
}

impl Hitbox {
    pub open spec fn wf(self) -> bool {
        self.rect.wf()
    }

    /// The local rectangle translated by `p`.
    pub open spec fn world_rect_at(self, p: Position) -> WorldRect {
        WorldRect {
            min_x: (p.x + self.rect.min.x) as i64,
            min_y: (p.y + self.rect.min.y) as i64,
            max_x: (p.x + self.rect.max.x) as i64,
            max_y: (p.y + self.rect.max.y) as i64,
        }
    }

    pub open spec fn intersects_at(self, other: Hitbox, p: Position, other_p: Position) -> bool {
        self.world_rect_at(p).overlaps(other.world_rect_at(other_p))
    }

    pub open spec fn contains_entirely_at(
        self,
        other: Hitbox,
        p: Position,
        other_p: Position,
    ) -> bool {
        self.world_rect_at(p).encloses(other.world_rect_at(other_p))
    }

    /// A hitbox over a well-formed rectangle; a malformed one is refused at construction.
    pub fn new(rect: Rect) -> (r: Hitbox)
        requires
            rect.wf(),
        ensures
            r.rect == rect,
            r.wf(),
    {
        Hitbox { rect }
    }

    /// A hitbox with its minimum corner at the origin, spanning `size`.
    pub fn new_offsetless(size: Point) -> (r: Hitbox)
        ensures
            r.wf(),
            r.rect.min.x == min_i(0, size.x as int),
            r.rect.min.y == min_i(0, size.y as int),
            r.rect.max.x == max_i(0, size.x as int),
            r.rect.max.y == max_i(0, size.y as int),
    {
        Hitbox { rect: Rect::new(0, 0, size.x, size.y) }
    }

    /// A hitbox of the given size centred on the origin. An odd extent leaves
    /// the extra unit on the maximum side.
    pub fn new_centered(size: Point) -> (r: Hitbox)
        requires
            size.x >= 0,
            size.y >= 0,
        ensures
            r.wf(),
            r.rect.min.x == -(size.x / 2),
            r.rect.min.y == -(size.y / 2),
            r.rect.max.x == size.x - size.x / 2,
            r.rect.max.y == size.y - size.y / 2,
            r.rect.max.x - r.rect.min.x == size.x,
            r.rect.max.y - r.rect.min.y == size.y,
    {
        let half_x = size.x / 2;
        let half_y = size.y / 2;
        Hitbox {
            rect: Rect {
                min: Point { x: -half_x, y: -half_y },
                max: Point { x: size.x - half_x, y: size.y - half_y },
            },
        }
    }

    /// The hitbox's rectangle in world coordinates for an object at `position`.
    pub fn world_rect(&self, position: &Position) -> (r: WorldRect)
        ensures
            r == self.world_rect_at(*position),
    {
        WorldRect {
            min_x: position.x as i64 + self.rect.min.x as i64,
            min_y: position.y as i64 + self.rect.min.y as i64,
            max_x: position.x as i64 + self.rect.max.x as i64,
            max_y: position.y as i64 + self.rect.max.y as i64,
        }
    }

    /// Whether the two world rectangles share interior; touching edges do not count.
    pub fn intersects(&self, other: &Hitbox, position: &Position, other_position: &Position) -> (r:
        bool)
        ensures
            r == self.intersects_at(*other, *position, *other_position),
    {
        let a = self.world_rect(position);
        let b = other.world_rect(other_position);
        a.intersects(&b)
    }

    /// Whether `other`'s world rectangle lies within this one, boundary included.
    pub fn contains_entirely(
        &self,
        other: &Hitbox,
        position: &Position,
        other_position: &Position,
    ) -> (r: bool)
        ensures
            r == self.contains_entirely_at(*other, *position, *other_position),
    {
        let a = self.world_rect(position);
        let b = other.world_rect(other_position);
        a.contains_rect(&b)
    }

    /// The minimum corner of the local rectangle.
    pub fn offset(&self) -> (r: Point)
        ensures
            r == self.rect.min,
    {
        self.rect.min
    }
}

/// Intersection does not depend on which hitbox asks.
pub proof fn lemma_intersects_symmetric(a: Hitbox, b: Hitbox, pa: Position, pb: Position)
    ensures
        a.intersects_at(b, pa, pb) == b.intersects_at(a, pb, pa),
{
}

/// A hitbox at a position contains itself at the same position.
pub proof fn lemma_contains_entirely_reflexive(a: Hitbox, p: Position)
    ensures
        a.contains_entirely_at(a, p, p),
{
}

/// For rectangles of positive area, containment implies intersection.
pub proof fn lemma_containment_implies_intersection(
    a: Hitbox,
    b: Hitbox,
    pa: Position,
    pb: Position,
)
    requires
        a.rect.has_positive_area(),
        b.rect.has_positive_area(),
        a.contains_entirely_at(b, pa, pb),
    ensures
        a.intersects_at(b, pa, pb),
{
}

/// Rectangles whose world boundaries meet along an edge (one's maximum equals the
/// other's minimum on some axis) do not intersect.
pub proof fn lemma_touching_edges_do_not_intersect(
    a: Hitbox,
    b: Hitbox,
    pa: Position,
    pb: Position,
)
    requires
        ({
            let ra = a.world_rect_at(pa);
            let rb = b.world_rect_at(pb);
            ||| ra.max_x == rb.min_x
            ||| rb.max_x == ra.min_x
            ||| ra.max_y == rb.min_y
            ||| rb.max_y == ra.min_y
        }),
    ensures
        !a.intersects_at(b, pa, pb),
{
}

} // verus!
