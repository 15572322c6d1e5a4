use hitbox::{
    emit_collision_events, end_drag, initiate_drag, resolve_drop, run_frame, update_drag,
    DropEvent, DropPreview, FrameInput, Hitbox, Layer, LayerSet, MouseCoords, ObjectId, Point,
    Position, Rect, World,
};

fn boxed(world: &mut World, x: i32, y: i32, half: i32, layer: Layer) -> ObjectId {
    let id = world.spawn(Position::new(x, y, 0));
    world.set_hitbox(id, Hitbox::new(Rect::new(-half, -half, half, half)));
    world.set_layers(id, LayerSet::only(layer));
    id
}

fn frame(world: &mut World, mouse: &mut MouseCoords, x: i32, y: i32, pressed: bool, released: bool) {
    let input = FrameInput { pointer: Some(Point::new(x, y)), just_pressed: pressed, just_released: released };
    run_frame(world, mouse, input);
}

/// X (a child, hitbox 10x10 at the origin) must be dropped inside a garden zone Y
/// (hitbox 200x200 at the origin). Returns the world, X and Y.
fn zone_setup() -> (World, ObjectId, ObjectId) {
    let mut world = World::new();
    let x = boxed(&mut world, 0, 0, 5, Layer::Child);
    let y = boxed(&mut world, 0, 0, 100, Layer::Garden);
    world.make_draggable(x, Some(LayerSet::only(Layer::Garden)), None, vec![], false);
    (world, x, y)
}

fn drag_to(world: &mut World, x: i32, y: i32) {
    let mut mouse = MouseCoords::new(Point::new(0, 0));
    frame(world, &mut mouse, 0, 0, true, false);
    frame(world, &mut mouse, x, y, false, false);
    frame(world, &mut mouse, x, y, false, true);
}

fn drag_shadow_of(world: &World, id: ObjectId) -> Option<ObjectId> {
    world.object(id).unwrap().draggable.as_ref().unwrap().drag_shadow
}

fn hover_shadow_of(world: &World, id: ObjectId) -> Option<ObjectId> {
    world.object(id).unwrap().draggable.as_ref().unwrap().hover_shadow
}

#[test]
fn drop_outside_zone_cancels() {
    let (mut world, x, _y) = zone_setup();
    drag_to(&mut world, 200, 200);
    assert_eq!(world.object(x).unwrap().position, Position::new(0, 0, 0));
    assert!(world.drop_events().is_empty());
    assert_eq!(drag_shadow_of(&world, x), None);
}

#[test]
fn drop_inside_zone_commits() {
    let (mut world, x, y) = zone_setup();
    world.set_position(x, Position::new(0, 0, 7));
    drag_to(&mut world, 10, 10);
    assert_eq!(world.object(x).unwrap().position, Position::new(10, 10, 7));
    assert_eq!(
        world.drop_events().clone(),
        vec![DropEvent { dropped_entity: x, dropped_on_entity: Some(y) }]
    );
    assert_eq!(drag_shadow_of(&world, x), None);
}

#[test]
fn drag_shadow_is_destroyed_after_release() {
    let (mut world, x, _y) = zone_setup();
    let mut mouse = MouseCoords::new(Point::new(0, 0));
    frame(&mut world, &mut mouse, 0, 0, true, false);
    let shadow = drag_shadow_of(&world, x).unwrap();
    assert!(world.object(shadow).unwrap().drag_shadow.is_some());
    assert_eq!(world.object(shadow).unwrap().drag_shadow.unwrap().original_entity, x);
    frame(&mut world, &mut mouse, 10, 10, false, true);
    assert!(!world.is_alive(shadow));
}

#[test]
fn live_preview_follows_legality() {
    let (mut world, x, _y) = zone_setup();
    let mut mouse = MouseCoords::new(Point::new(0, 0));
    frame(&mut world, &mut mouse, 0, 0, true, false);
    let shadow = drag_shadow_of(&world, x).unwrap();
    assert_eq!(world.object(shadow).unwrap().drag_shadow.unwrap().preview, DropPreview::Legal);
    frame(&mut world, &mut mouse, 300, 0, false, false);
    assert_eq!(world.object(shadow).unwrap().drag_shadow.unwrap().preview, DropPreview::Illegal);
    assert_eq!(world.object(shadow).unwrap().position, Position::new(300, 0, hitbox::SHADOW_Z));
    assert_eq!(world.object(x).unwrap().position, Position::new(0, 0, 0));
}

fn blocker_setup(allow_blocker: bool) -> (World, ObjectId, ObjectId) {
    let mut world = World::new();
    let x = boxed(&mut world, 0, 0, 5, Layer::Child);
    let _zone = boxed(&mut world, 0, 0, 100, Layer::Garden);
    let z = boxed(&mut world, 40, 40, 20, Layer::Child);
    world.set_drop_blocker(z, true);
    let allowed = if allow_blocker { vec![z] } else { vec![] };
    world.make_draggable(x, Some(LayerSet::only(Layer::Garden)), None, allowed, false);
    (world, x, z)
}

#[test]
fn blocker_sharing_a_layer_cancels_drop() {
    let (mut world, x, _z) = blocker_setup(false);
    drag_to(&mut world, 30, 30);
    assert_eq!(world.object(x).unwrap().position, Position::new(0, 0, 0));
    assert!(world.drop_events().is_empty());
}

#[test]
fn allow_list_overrides_blocker() {
    let (mut world, x, z) = blocker_setup(true);
    drag_to(&mut world, 30, 30);
    assert_eq!(world.object(x).unwrap().position, Position::new(30, 30, 0));
    assert_eq!(
        world.drop_events().clone(),
        vec![DropEvent { dropped_entity: x, dropped_on_entity: Some(z) }]
    );
}

#[test]
fn blocker_on_other_layer_does_not_block() {
    let mut world = World::new();
    let x = boxed(&mut world, 0, 0, 5, Layer::Child);
    let zone = boxed(&mut world, 0, 0, 100, Layer::Garden);
    let z = boxed(&mut world, 40, 40, 20, Layer::Tool);
    world.set_drop_blocker(z, true);
    world.make_draggable(x, Some(LayerSet::only(Layer::Garden)), None, vec![], false);
    drag_to(&mut world, 30, 30);
    assert_eq!(
        world.drop_events().clone(),
        vec![DropEvent { dropped_entity: x, dropped_on_entity: Some(zone) }]
    );
}

#[test]
fn intersection_rule_picks_nearest_target() {
    let mut world = World::new();
    let tool = boxed(&mut world, 0, 0, 5, Layer::Tool);
    let far = boxed(&mut world, 112, 100, 10, Layer::Child);
    let near = boxed(&mut world, 104, 100, 10, Layer::Child);
    world.make_draggable(tool, None, Some(LayerSet::only(Layer::Child)), vec![], false);
    drag_to(&mut world, 100, 100);
    assert!(world.is_alive(far));
    assert_eq!(
        world.drop_events().clone(),
        vec![DropEvent { dropped_entity: tool, dropped_on_entity: Some(near) }]
    );
}

#[test]
fn equally_near_targets_resolve_to_the_first() {
    let mut world = World::new();
    let tool = boxed(&mut world, 0, 0, 5, Layer::Tool);
    let first = boxed(&mut world, 104, 100, 10, Layer::Child);
    let _second = boxed(&mut world, 96, 100, 10, Layer::Child);
    world.make_draggable(tool, None, Some(LayerSet::only(Layer::Child)), vec![], false);
    drag_to(&mut world, 100, 100);
    assert_eq!(
        world.drop_events().clone(),
        vec![DropEvent { dropped_entity: tool, dropped_on_entity: Some(first) }]
    );
}

#[test]
fn intersection_rule_unmet_cancels() {
    let mut world = World::new();
    let tool = boxed(&mut world, 0, 0, 5, Layer::Tool);
    let _child = boxed(&mut world, 115, 100, 10, Layer::Child);
    world.make_draggable(tool, None, Some(LayerSet::only(Layer::Child)), vec![], false);
    drag_to(&mut world, 100, 100);
    assert!(world.drop_events().is_empty());
    assert_eq!(world.object(tool).unwrap().position, Position::new(0, 0, 0));
}

#[test]
fn no_rules_commits_without_target() {
    let mut world = World::new();
    let x = boxed(&mut world, 0, 0, 5, Layer::Child);
    world.make_draggable(x, None, None, vec![], false);
    drag_to(&mut world, -50, 20);
    assert_eq!(world.object(x).unwrap().position, Position::new(-50, 20, 0));
    assert_eq!(
        world.drop_events().clone(),
        vec![DropEvent { dropped_entity: x, dropped_on_entity: None }]
    );
}

#[test]
fn hover_and_drag_are_exclusive() {
    let (mut world, x, _y) = zone_setup();
    let mut mouse = MouseCoords::new(Point::new(0, 0));
    frame(&mut world, &mut mouse, 1, 1, false, false);
    let hover = hover_shadow_of(&world, x).unwrap();
    assert_eq!(drag_shadow_of(&world, x), None);
    assert!(!world.object(x).unwrap().visible);
    assert_eq!(world.object(hover).unwrap().hover_shadow.unwrap().original_entity, x);
    assert_eq!(world.object(hover).unwrap().position, Position::new(0, 0, hitbox::SHADOW_Z));
    frame(&mut world, &mut mouse, 1, 1, true, false);
    assert!(drag_shadow_of(&world, x).is_some());
    assert_eq!(hover_shadow_of(&world, x), None);
    assert!(!world.is_alive(hover));
    assert!(world.object(x).unwrap().visible);
}

#[test]
fn hover_ends_when_pointer_leaves() {
    let (mut world, x, _y) = zone_setup();
    let mut mouse = MouseCoords::new(Point::new(0, 0));
    frame(&mut world, &mut mouse, 5, 5, false, false);
    let hover = hover_shadow_of(&world, x).unwrap();
    frame(&mut world, &mut mouse, 5, 5, false, false);
    assert_eq!(hover_shadow_of(&world, x), Some(hover));
    frame(&mut world, &mut mouse, 6, 5, false, false);
    assert_eq!(hover_shadow_of(&world, x), None);
    assert!(!world.is_alive(hover));
    assert!(world.object(x).unwrap().visible);
}

#[test]
fn only_first_object_under_pointer_is_picked_up() {
    let mut world = World::new();
    let a = boxed(&mut world, 0, 0, 5, Layer::Child);
    let b = boxed(&mut world, 2, 2, 5, Layer::Child);
    world.make_draggable(a, None, None, vec![], false);
    world.make_draggable(b, None, None, vec![], false);
    let mut mouse = MouseCoords::new(Point::new(0, 0));
    frame(&mut world, &mut mouse, 1, 1, true, false);
    assert!(drag_shadow_of(&world, a).is_some());
    assert_eq!(drag_shadow_of(&world, b), None);
    assert_eq!(hover_shadow_of(&world, b), None);
}

#[test]
fn lost_pointer_keeps_last_position() {
    let (mut world, x, _y) = zone_setup();
    let mut mouse = MouseCoords::new(Point::new(0, 0));
    frame(&mut world, &mut mouse, 0, 0, true, false);
    frame(&mut world, &mut mouse, 20, 20, false, false);
    run_frame(&mut world, &mut mouse, FrameInput { pointer: None, just_pressed: false, just_released: true });
    assert_eq!(mouse.0, Point::new(20, 20));
    assert_eq!(world.object(x).unwrap().position, Position::new(20, 20, 0));
}

#[test]
fn shadow_of_despawned_original_is_destroyed() {
    let (mut world, x, _y) = zone_setup();
    let mut mouse = MouseCoords::new(Point::new(0, 0));
    frame(&mut world, &mut mouse, 0, 0, true, false);
    let shadow = drag_shadow_of(&world, x).unwrap();
    world.despawn(x);
    frame(&mut world, &mut mouse, 10, 10, false, true);
    assert!(!world.is_alive(shadow));
    assert!(world.drop_events().is_empty());
}

#[test]
fn stale_overlap_is_skipped() {
    let (mut world, x, y) = zone_setup();
    initiate_drag(&mut world, Point::new(0, 0), true);
    let shadow = drag_shadow_of(&world, x).unwrap();
    update_drag(&mut world, Point::new(10, 10));
    emit_collision_events(&mut world);
    assert_eq!(world.overlapping(shadow), vec![y]);
    assert_eq!(resolve_drop(&world, shadow.0).target, Some(y));
    world.despawn(y);
    assert!(!resolve_drop(&world, shadow.0).legal);
    end_drag(&mut world, true);
    assert!(world.drop_events().is_empty());
    assert_eq!(world.object(x).unwrap().position, Position::new(0, 0, 0));
}

#[test]
fn collision_pass_fills_trackers_and_events() {
    let mut world = World::new();
    let a = boxed(&mut world, 0, 0, 5, Layer::Child);
    let b = boxed(&mut world, 6, 0, 5, Layer::Tool);
    let c = boxed(&mut world, 10, 0, 5, Layer::Garden);
    let _d = boxed(&mut world, 100, 0, 5, Layer::Garden);
    world.set_emits_collisions(a);
    world.set_emits_collisions(b);
    emit_collision_events(&mut world);
    assert_eq!(world.overlapping(a), vec![b]);
    assert_eq!(world.overlapping(b), vec![a, c]);
    assert_eq!(world.overlapping(c), vec![]);
    let pairs: Vec<(usize, usize)> =
        world.collision_events().iter().map(|e| (e.collider.0, e.collidee.0)).collect();
    assert_eq!(pairs, vec![(a.0, b.0), (b.0, a.0), (b.0, c.0)]);
}

#[test]
fn overlapping_is_idempotent() {
    let mut world = World::new();
    let a = boxed(&mut world, 0, 0, 5, Layer::Child);
    let _b = boxed(&mut world, 3, 3, 5, Layer::Child);
    world.set_emits_collisions(a);
    emit_collision_events(&mut world);
    let first = world.overlapping(a);
    let second = world.overlapping(a);
    assert_eq!(first, second);
    assert_eq!(first.len(), 1);
}

#[test]
fn collision_pass_replaces_previous_tracker() {
    let mut world = World::new();
    let a = boxed(&mut world, 0, 0, 5, Layer::Child);
    let b = boxed(&mut world, 3, 3, 5, Layer::Child);
    world.set_emits_collisions(a);
    emit_collision_events(&mut world);
    assert_eq!(world.overlapping(a), vec![b]);
    world.set_position(b, Position::new(50, 50, 0));
    emit_collision_events(&mut world);
    assert_eq!(world.overlapping(a), vec![]);
    world.clear_events();
    assert!(world.collision_events().is_empty());
}
