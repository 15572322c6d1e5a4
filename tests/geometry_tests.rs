use hitbox::{Hitbox, InLayers, Layer, LayerSet, MouseCoords, Point, Position, Rect, WorldRect};

fn at(x: i32, y: i32) -> Position {
    Position::new(x, y, 0)
}

#[test]
fn rect_new_orders_corners() {
    let r = Rect::new(10, -3, -4, 7);
    assert_eq!(r.min, Point::new(-4, -3));
    assert_eq!(r.max, Point::new(10, 7));
}

#[test]
fn world_rect_translates_local_rect() {
    let h = Hitbox::new(Rect::new(-5, -5, 5, 5));
    let w = h.world_rect(&Position::new(10, 20, 3));
    assert_eq!(w, WorldRect { min_x: 5, min_y: 15, max_x: 15, max_y: 25 });
}

#[test]
fn world_rect_does_not_overflow_at_extremes() {
    let h = Hitbox::new(Rect::new(0, 0, i32::MAX, i32::MAX));
    let w = h.world_rect(&at(i32::MAX, i32::MIN));
    assert_eq!(w.max_x, 2 * i32::MAX as i64);
    assert_eq!(w.min_y, i32::MIN as i64);
}

#[test]
fn new_centered_splits_size_around_origin() {
    let h = Hitbox::new_centered(Point::new(10, 7));
    assert_eq!(h.rect.min, Point::new(-5, -3));
    assert_eq!(h.rect.max, Point::new(5, 4));
}

#[test]
fn new_offsetless_starts_at_origin() {
    let h = Hitbox::new_offsetless(Point::new(8, 6));
    assert_eq!(h.rect, Rect::new(0, 0, 8, 6));
    assert_eq!(h.offset(), Point::new(0, 0));
    let n = Hitbox::new_offsetless(Point::new(-8, 6));
    assert_eq!(n.offset(), Point::new(-8, 0));
}

#[test]
fn intersects_is_symmetric() {
    let a = Hitbox::new(Rect::new(0, 0, 10, 10));
    let b = Hitbox::new(Rect::new(-3, -3, 3, 3));
    for (pa, pb) in [(at(0, 0), at(5, 5)), (at(0, 0), at(20, 0)), (at(-7, 2), at(0, 0))] {
        assert_eq!(a.intersects(&b, &pa, &pb), b.intersects(&a, &pb, &pa));
    }
    assert!(a.intersects(&b, &at(0, 0), &at(5, 5)));
    assert!(!a.intersects(&b, &at(0, 0), &at(20, 0)));
}

#[test]
fn shared_edge_is_not_intersection() {
    let a = Hitbox::new(Rect::new(0, 0, 10, 10));
    let b = Hitbox::new(Rect::new(10, 0, 20, 10));
    assert!(!a.intersects(&b, &at(0, 0), &at(0, 0)));
    assert!(!b.intersects(&a, &at(0, 0), &at(0, 0)));
    let c = Hitbox::new(Rect::new(10, 10, 20, 20));
    assert!(!a.intersects(&c, &at(0, 0), &at(0, 0)));
}

#[test]
fn contains_entirely_is_reflexive() {
    let a = Hitbox::new(Rect::new(-4, 1, 9, 3));
    let p = at(17, -2);
    assert!(a.contains_entirely(&a, &p, &p));
}

#[test]
fn containment_is_inclusive_and_implies_intersection() {
    let big = Hitbox::new(Rect::new(-100, -100, 100, 100));
    let small = Hitbox::new(Rect::new(-5, -5, 5, 5));
    assert!(big.contains_entirely(&small, &at(0, 0), &at(95, 95)));
    assert!(big.intersects(&small, &at(0, 0), &at(95, 95)));
    assert!(!big.contains_entirely(&small, &at(0, 0), &at(96, 0)));
    assert!(!small.contains_entirely(&big, &at(0, 0), &at(0, 0)));
}

#[test]
fn degenerate_rect_never_intersects() {
    let line = Hitbox::new(Rect::new(0, 0, 0, 10));
    let big = Hitbox::new(Rect::new(-10, -10, 10, 10));
    assert!(!line.intersects(&big, &at(0, 0), &at(0, 0)));
    assert!(big.contains_entirely(&line, &at(0, 0), &at(0, 0)));
}

#[test]
fn world_rect_point_containment_is_inclusive() {
    let w = WorldRect { min_x: 0, min_y: 0, max_x: 10, max_y: 10 };
    assert!(w.contains(Point::new(10, 0)));
    assert!(!w.contains(Point::new(11, 0)));
}

#[test]
fn layer_sets() {
    let child = InLayers::new_single(Layer::Child);
    assert!(child.contains(Layer::Child));
    assert!(!child.contains(Layer::Tool));
    let both = InLayers::new(LayerSet::only(Layer::Child).with(Layer::Tool));
    assert!(both.intersects(&child));
    assert!(child.intersects(&both));
    assert!(!child.intersects_layer_set(LayerSet::only(Layer::Garden)));
    assert!(!InLayers::new_empty().intersects(&InLayers::new_all()));
    assert!(InLayers::new_all().intersects(&child));
    assert!(LayerSet::empty().is_disjoint(&LayerSet::all()));
    assert!(LayerSet::all().contains(Layer::Parent));
}

#[test]
fn mouse_coords_keep_last_known_position() {
    let mut m = MouseCoords::new(Point::new(3, 4));
    hitbox::mouse_coords_system(&mut m, None);
    assert_eq!(m, MouseCoords(Point::new(3, 4)));
    hitbox::mouse_coords_system(&mut m, Some(Point::new(-1, 9)));
    assert_eq!(m.0, Point::new(-1, 9));
}

#[test]
fn mouse_coords_convert_to_point() {
    let m = MouseCoords::new(Point::new(7, -2));
    let p: Point = (&m).into();
    assert_eq!(p, Point::new(7, -2));
}
