//! The drag-and-drop engine.
use vstd::prelude::*;
use crate::collisions::EmitsCollisions;
use crate::geometry::{Point, Position};
use crate::layer::LayerSet;
use crate::world::{slot_ok, view_slot, DraggableView, Object, ObjectId, ObjectView, World, WorldView};

verus! {

/// Makes an object draggable, and holds the rules that decide where it may be dropped.
///
/// A drop is legal when the drag shadow overlaps an object of
/// `special_allowed_entities`; otherwise when no overlapping drop blocker shares a
/// layer with the dragged object, and each of the two layer rules that is set is met.
#[derive(Debug)]
pub struct Draggable {
    /// The drag shadow while a drag is in progress.
    pub drag_shadow: Option<ObjectId>,
    /// If set, the shadow must lie entirely inside a single hitbox with one of these layers.
    pub must_be_contained_in: Option<LayerSet>,
    /// If set, the shadow must intersect a hitbox with one of these layers.
    pub must_intersect_with: Option<LayerSet>,
    /// Overlapping any of these objects allows the drop, whatever the other rules say.
    pub special_allowed_entities: Vec<ObjectId>,
    /// Whether the drag shadow is drawn opaque.
    pub drag_opaque: bool,
    /// The hover preview while the pointer rests on the object.
    pub hover_shadow: Option<ObjectId>,
}

/// How a drag shadow should currently be tinted.
#[derive(Clone, Copy, Debug, PartialEq, Eq, Structural)]
pub enum DropPreview {
    /// Not evaluated yet.
    Pending,
    /// Releasing now would drop the object.
    Legal,
    /// Releasing now would cancel the drag.
    Illegal,
}

/// Marks an object as the drag shadow of `original_entity`.
#[derive(Clone, Copy, Debug, PartialEq, Eq, Structural)]
pub struct DragShadow {
    pub offset: Point,
    pub original_entity: ObjectId,
    pub preview: DropPreview,
}

/// Marks an object as the hover preview of `original_entity`.
#[derive(Clone, Copy, Debug, PartialEq, Eq, Structural)]
pub struct HoverShadow {
    pub original_entity: ObjectId,
}

/// Blocks drops of objects that share a layer with it when it overlaps their drag shadow.
#[derive(Clone, Copy, Debug, PartialEq, Eq, Structural)]
pub struct DropBlocker;

/// A completed, legal drop. `dropped_on_entity` is the resolved target, absent
/// when no rule named one.
#[derive(Clone, Copy, Debug, PartialEq, Eq, Structural)]
pub struct DropEvent {
    pub dropped_entity: ObjectId,
    pub dropped_on_entity: Option<ObjectId>,
}


/// How a release would end: whether the drop is legal, and the target it resolved to.
#[derive(Clone, Copy, Debug, PartialEq, Eq, Structural)]
pub struct DropResolution {
    pub legal: bool,
    pub target: Option<ObjectId>,
}

/// Slot `k` holds a drag shadow.
pub open spec fn is_drag_shadow(w: WorldView, k: int) -> bool {
    0 <= k < w.objects.len() && w.objects[k] is Some && w.objects[k].unwrap().drag_shadow is Some
}

/// The object that the drag shadow in slot `k` stands for.
pub open spec fn shadow_original(w: WorldView, k: int) -> ObjectId {
    w.objects[k].unwrap().drag_shadow.unwrap().original_entity
}

/// The drag shadow in slot `k` belongs to a live draggable object with a hitbox and
/// layers, which refers back to it.
pub open spec fn owns_shadow(w: WorldView, k: int) -> bool {
    let o = shadow_original(w, k);
    &&& o.0 != k
    &&& w.alive(o)
    &&& w.obj(o).hitbox is Some
    &&& w.obj(o).layers is Some
    &&& w.obj(o).draggable is Some
    &&& w.obj(o).draggable.unwrap().drag_shadow == Some(ObjectId(k as usize))
}

/// The drag shadow's collision tracker, or nothing.
pub open spec fn shadow_tracker(w: WorldView, k: int) -> Seq<ObjectId> {
    match w.objects[k].unwrap().tracker {
        Some(t) => t,
        None => Seq::empty(),
    }
}

/// Overlapping `c` allows the drop outright.
pub open spec fn allows(w: WorldView, k: int, c: ObjectId) -> bool {
    w.alive(c) && w.obj(shadow_original(w, k)).draggable.unwrap().allowed.contains(c)
}

/// `c` is a live object, other than the dragged one and not a drag shadow, with a
/// hitbox and layers: a candidate for the layer rules.
pub open spec fn is_candidate(w: WorldView, k: int, c: ObjectId) -> bool {
    &&& w.alive(c)
    &&& c != shadow_original(w, k)
    &&& w.obj(c).drag_shadow is None
    &&& w.obj(c).hitbox is Some
    &&& w.obj(c).layers is Some
}

/// `c` is a drop blocker sharing a layer with the dragged object.
pub open spec fn blocks(w: WorldView, k: int, c: ObjectId) -> bool {
    &&& is_candidate(w, k, c)
    &&& w.obj(c).drop_blocker
    &&& w.obj(c).layers.unwrap().layers.meets(w.obj(shadow_original(w, k)).layers.unwrap().layers)
}

/// `c` meets the containment rule: it has a required layer and its world rectangle
/// holds the dragged hitbox at the shadow's position.
pub open spec fn contains_shadow(w: WorldView, k: int, c: ObjectId) -> bool {
    let d = w.obj(shadow_original(w, k));
    &&& is_candidate(w, k, c)
    &&& d.draggable.unwrap().must_be_contained_in is Some
    &&& w.obj(c).layers.unwrap().layers.meets(d.draggable.unwrap().must_be_contained_in.unwrap())
    &&& w.obj(c).hitbox.unwrap().contains_entirely_at(
        d.hitbox.unwrap(),
        w.obj(c).position,
        w.objects[k].unwrap().position,
    )
}

/// `c` meets the intersection rule: it has a required layer and its world rectangle
/// intersects the dragged hitbox at the shadow's position.
pub open spec fn touches_shadow(w: WorldView, k: int, c: ObjectId) -> bool {
    let d = w.obj(shadow_original(w, k));
    &&& is_candidate(w, k, c)
    &&& d.draggable.unwrap().must_intersect_with is Some
    &&& w.obj(c).layers.unwrap().layers.meets(d.draggable.unwrap().must_intersect_with.unwrap())
    &&& w.obj(c).hitbox.unwrap().intersects_at(
        d.hitbox.unwrap(),
        w.obj(c).position,
        w.objects[k].unwrap().position,
    )
}

/// `c` is a possible target under one of the layer rules.
pub open spec fn qualifies(w: WorldView, k: int, c: ObjectId) -> bool {
    contains_shadow(w, k, c) || touches_shadow(w, k, c)
}

/// The squared distance between two positions.
pub open spec fn dist2(a: Position, b: Position) -> int {
    (a.x - b.x) * (a.x - b.x) + (a.y - b.y) * (a.y - b.y) + (a.z - b.z) * (a.z - b.z)
}

/// How far `c` is from the drag shadow in slot `k`, squared.
pub open spec fn shadow_dist(w: WorldView, k: int, c: ObjectId) -> int {
    dist2(w.objects[k].unwrap().position, w.obj(c).position)
}

/// Among the first `n` tracker entries: the index of the first allow-listed one.
pub open spec fn first_allowed_upto(w: WorldView, k: int, n: int) -> Option<int>
    decreases n,
{
    if n <= 0 {
        None
    } else {
        let prev = first_allowed_upto(w, k, n - 1);
        if prev is Some {
            prev
        } else if allows(w, k, shadow_tracker(w, k)[n - 1]) {
            Some(n - 1)
        } else {
            None
        }
    }
}

/// Among the first `n` tracker entries: the index of the qualifying one nearest to the
/// shadow, the earliest of equally near ones.
pub open spec fn nearest_upto(w: WorldView, k: int, n: int) -> Option<int>
    decreases n,
{
    if n <= 0 {
        None
    } else {
        let prev = nearest_upto(w, k, n - 1);
        let c = shadow_tracker(w, k)[n - 1];
        if qualifies(w, k, c) && (prev is None || shadow_dist(w, k, c) < shadow_dist(
            w,
            k,
            shadow_tracker(w, k)[prev.unwrap()],
        )) {
            Some(n - 1)
        } else {
            prev
        }
    }
}

pub open spec fn blocked_upto(w: WorldView, k: int, n: int) -> bool {
    exists|t: int| 0 <= t < n && #[trigger] blocks(w, k, shadow_tracker(w, k)[t])
}

pub open spec fn contained_upto(w: WorldView, k: int, n: int) -> bool {
    exists|t: int| 0 <= t < n && #[trigger] contains_shadow(w, k, shadow_tracker(w, k)[t])
}

pub open spec fn touched_upto(w: WorldView, k: int, n: int) -> bool {
    exists|t: int| 0 <= t < n && #[trigger] touches_shadow(w, k, shadow_tracker(w, k)[t])
}

/// How a release of the drag shadow in slot `k` resolves against its tracker:
/// an allow-listed overlap makes the drop legal with that target; otherwise it is
/// legal when nothing blocks it and each rule that is set is met by some overlap,
/// and the target is the nearest qualifying overlap.
pub open spec fn drop_outcome(w: WorldView, k: int) -> DropResolution {
    let tr = shadow_tracker(w, k);
    let n = tr.len() as int;
    let d = w.obj(shadow_original(w, k)).draggable.unwrap();
    let special = first_allowed_upto(w, k, n);
    let nearest = nearest_upto(w, k, n);
    if special is Some {
        DropResolution { legal: true, target: Some(tr[special.unwrap()]) }
    } else {
        DropResolution {
            legal: !blocked_upto(w, k, n) && (d.must_be_contained_in is None || contained_upto(
                w,
                k,
                n,
            )) && (d.must_intersect_with is None || touched_upto(w, k, n)),
            target: match nearest {
                Some(t) => Some(tr[t]),
                None => None,
            },
        }
    }
}

/// The squared distance between two positions.
fn distance_squared(a: &Position, b: &Position) -> (r: i128)
    ensures
        r == dist2(*a, *b),
{
    let dx = a.x as i64 - b.x as i64;
    let dy = a.y as i64 - b.y as i64;
    let dz = a.z as i64 - b.z as i64;
    proof {
        assert(dx * dx <= 0x1_0000_0000_0000_0000) by (nonlinear_arith)
            requires
                -0x1_0000_0000 <= dx <= 0x1_0000_0000,
        ;
        assert(dy * dy <= 0x1_0000_0000_0000_0000) by (nonlinear_arith)
            requires
                -0x1_0000_0000 <= dy <= 0x1_0000_0000,
        ;
        assert(dz * dz <= 0x1_0000_0000_0000_0000) by (nonlinear_arith)
            requires
                -0x1_0000_0000 <= dz <= 0x1_0000_0000,
        ;
        assert(dx * dx >= 0) by (nonlinear_arith);
        assert(dy * dy >= 0) by (nonlinear_arith);
        assert(dz * dz >= 0) by (nonlinear_arith);
    }
    (dx as i128) * (dx as i128) + (dy as i128) * (dy as i128) + (dz as i128) * (dz as i128)
}

/// Whether `id` is among `ids`.
fn contains_id(ids: &Vec<ObjectId>, id: ObjectId) -> (r: bool)
    ensures
        r == ids@.contains(id),
{
    let mut t: usize = 0;
    while t < ids.len()
        invariant
            t <= ids@.len(),
            forall|u: int| 0 <= u < t ==> ids@[u] != id,
        decreases ids@.len() - t,
    {
        if ids[t] == id {
            return true;
        }
        t = t + 1;
    }
    false
}


/// How releasing the drag shadow in slot `k` would resolve in the current world.
/// Tracker entries that no longer name a live object are skipped.
pub fn resolve_drop(world: &World, k: usize) -> (r: DropResolution)
    requires
        is_drag_shadow(world@, k as int),
        owns_shadow(world@, k as int),
    ensures
        r == drop_outcome(world@, k as int),
{
    let ghost w = world@;
    let shadow = world.object(ObjectId(k)).unwrap();
    let original_id = shadow.drag_shadow.unwrap().original_entity;
    let original = world.object(original_id).unwrap();
    let draggable = original.draggable.as_ref().unwrap();
    let dragged_hitbox = original.hitbox.unwrap();
    let dragged_layers = original.layers.unwrap();
    let empty: Vec<ObjectId> = Vec::new();
    let tracker: &Vec<ObjectId> = match &shadow.collisions {
        Some(c) => &c.colliding_with,
        None => &empty,
    };
    let ghost tr = shadow_tracker(w, k as int);
    assert(tracker@ == tr);
    let ghost dv = w.obj(original_id).draggable.unwrap();
    assert(draggable@ == dv);
    let mut special: Option<usize> = None;
    let mut nearest: Option<usize> = None;
    let mut nearest_dist: i128 = 0;
    let mut blocked = false;
    let mut contained = false;
    let mut touched = false;
    let n = tracker.len();
    let mut t: usize = 0;
    while t < n
        invariant
            n == tr.len(),
            tracker@ == tr,
            tr == shadow_tracker(w, k as int),
            t <= n,
            w == world@,
            is_drag_shadow(w, k as int),
            owns_shadow(w, k as int),
            original_id == shadow_original(w, k as int),
            shadow@ == w.objects[k as int].unwrap(),
            draggable@ == w.obj(original_id).draggable.unwrap(),
            Some(dragged_hitbox) == w.obj(original_id).hitbox,
            Some(dragged_layers) == w.obj(original_id).layers,
            match special {
                Some(u) => first_allowed_upto(w, k as int, t as int) == Some(u as int) && u < t,
                None => first_allowed_upto(w, k as int, t as int) is None,
            },
            match nearest {
                Some(u) => nearest_upto(w, k as int, t as int) == Some(u as int) && u < t
                    && nearest_dist == shadow_dist(w, k as int, tr[u as int]),
                None => nearest_upto(w, k as int, t as int) is None,
            },
            blocked == blocked_upto(w, k as int, t as int),
            contained == contained_upto(w, k as int, t as int),
            touched == touched_upto(w, k as int, t as int),
        decreases n - t,
    {
        let c = tracker[t];
        let ghost was_blocked = blocked;
        let ghost was_contained = contained;
        let ghost was_touched = touched;
        let mut q = false;
        match world.object(c) {
            Some(obj) => {
                if special.is_none() && contains_id(&draggable.special_allowed_entities, c) {
                    special = Some(t);
                }
                if c != original_id && obj.drag_shadow.is_none() {
                    match (obj.hitbox, obj.layers) {
                        (Some(hb), Some(ly)) => {
                            if obj.drop_blocker.is_some() && ly.intersects(&dragged_layers) {
                                blocked = true;
                            }
                            match draggable.must_be_contained_in {
                                Some(mc) => {
                                    if ly.intersects_layer_set(mc) && hb.contains_entirely(
                                        &dragged_hitbox,
                                        &obj.position,
                                        &shadow.position,
                                    ) {
                                        contained = true;
                                        q = true;
                                    }
                                },
                                None => {},
                            }
                            match draggable.must_intersect_with {
                                Some(mi) => {
                                    if ly.intersects_layer_set(mi) && hb.intersects(
                                        &dragged_hitbox,
                                        &obj.position,
                                        &shadow.position,
                                    ) {
                                        touched = true;
                                        q = true;
                                    }
                                },
                                None => {},
                            }
                            if q {
                                let dd = distance_squared(&shadow.position, &obj.position);
                                if nearest.is_none() || dd < nearest_dist {
                                    nearest = Some(t);
                                    nearest_dist = dd;
                                }
                            }
                        },
                        _ => {},
                    }
                }
            },
            None => {},
        }
        proof {
            let ti = t as int;
            assert(tr[ti] == c);
            assert(shadow_tracker(w, k as int)[ti] == c);
            assert(first_allowed_upto(w, k as int, ti + 1) == if first_allowed_upto(w, k as int, ti) is Some {
                first_allowed_upto(w, k as int, ti)
            } else if allows(w, k as int, c) {
                Some(ti)
            } else {
                None
            });
            assert(q == qualifies(w, k as int, c));
            if blocks(w, k as int, c) {
                assert(blocks(w, k as int, shadow_tracker(w, k as int)[ti]));
                assert(blocked_upto(w, k as int, ti + 1));
            } else {
                assert(blocked == was_blocked);
                assert forall|u: int| 0 <= u < ti + 1 && #[trigger] blocks(w, k as int, tr[u]) implies u < ti by {}
            }
            if contains_shadow(w, k as int, c) {
                assert(contains_shadow(w, k as int, shadow_tracker(w, k as int)[ti]));
                assert(contained_upto(w, k as int, ti + 1));
            } else {
                assert(contained == was_contained);
                assert forall|u: int| 0 <= u < ti + 1 && #[trigger] contains_shadow(w, k as int, tr[u]) implies u < ti by {}
            }
            if touches_shadow(w, k as int, c) {
                assert(touches_shadow(w, k as int, shadow_tracker(w, k as int)[ti]));
                assert(touched_upto(w, k as int, ti + 1));
            } else {
                assert(touched == was_touched);
                assert forall|u: int| 0 <= u < ti + 1 && #[trigger] touches_shadow(w, k as int, tr[u]) implies u < ti by {}
            }
        }
        t = t + 1;
    }
    match special {
        Some(u) => DropResolution { legal: true, target: Some(tracker[u]) },
        None => {
            let legal = !blocked && (draggable.must_be_contained_in.is_none() || contained) && (
            draggable.must_intersect_with.is_none() || touched);
            let target = match nearest {
                Some(u) => Some(tracker[u]),
                None => None,
            };
            DropResolution { legal, target }
        },
    }
}


/// The depth at which drag and hover shadows are drawn.
pub const SHADOW_Z: i32 = 5;

/// The objects with a draggable object's reference to the drag shadow in slot `k`
/// cleared, if it holds one.
pub open spec fn release_shadow_ref(w: WorldView, o: ObjectId, k: int) -> Seq<Option<ObjectView>> {
    if w.alive(o) && w.obj(o).draggable is Some && w.obj(o).draggable.unwrap().drag_shadow == Some(
        ObjectId(k as usize),
    ) {
        w.objects.update(
            o.0 as int,
            Some(
                ObjectView {
                    draggable: Some(DraggableView { drag_shadow: None, ..w.obj(o).draggable.unwrap() }),
                    ..w.obj(o)
                },
            ),
        )
    } else {
        w.objects
    }
}

pub open spec fn preview_of(legal: bool) -> DropPreview {
    if legal {
        DropPreview::Legal
    } else {
        DropPreview::Illegal
    }
}

/// The world after the drag shadow in slot `k` (if any) is handled. A shadow whose
/// original is gone is destroyed. Otherwise, with the button just released, a legal
/// drop moves the original to the shadow's x and y (keeping its depth), ends the drag
/// and sends a notification, and an illegal one just ends the drag; with the button
/// held, the shadow's preview shows whether a drop would now be legal.
pub open spec fn end_drag_step(w: WorldView, released: bool, k: int) -> WorldView {
    if !is_drag_shadow(w, k) {
        w
    } else {
        let o = shadow_original(w, k);
        let s = w.objects[k].unwrap();
        if !owns_shadow(w, k) {
            WorldView { objects: release_shadow_ref(w, o, k).update(k, None), ..w }
        } else {
            let r = drop_outcome(w, k);
            let ov = w.obj(o);
            if released && r.legal {
                WorldView {
                    objects: w.objects.update(
                        o.0 as int,
                        Some(
                            ObjectView {
                                position: Position {
                                    x: s.position.x,
                                    y: s.position.y,
                                    z: ov.position.z,
                                },
                                draggable: Some(
                                    DraggableView { drag_shadow: None, ..ov.draggable.unwrap() },
                                ),
                                ..ov
                            },
                        ),
                    ).update(k, None),
                    drop_events: w.drop_events.push(
                        DropEvent { dropped_entity: o, dropped_on_entity: r.target },
                    ),
                    ..w
                }
            } else if released {
                WorldView { objects: release_shadow_ref(w, o, k).update(k, None), ..w }
            } else {
                WorldView {
                    objects: w.objects.update(
                        k,
                        Some(
                            ObjectView {
                                drag_shadow: Some(
                                    DragShadow { preview: preview_of(r.legal), ..s.drag_shadow.unwrap() },
                                ),
                                ..s
                            },
                        ),
                    ),
                    ..w
                }
            }
        }
    }
}

/// The world after the drag shadows among the first `n` slots are handled, in slot order.
pub open spec fn end_drag_upto(w: WorldView, released: bool, n: int) -> WorldView
    decreases n,
{
    if n <= 0 {
        w
    } else {
        end_drag_step(end_drag_upto(w, released, n - 1), released, n - 1)
    }
}

/// Clears the reference of object `o` to the drag shadow in slot `k`, if it holds one.
fn release_ref(world: &mut World, o: ObjectId, k: usize)
    requires
        old(world)@.wf(),
    ensures
        final(world)@.objects == release_shadow_ref(old(world)@, o, k as int),
        final(world)@.collision_events == old(world)@.collision_events,
        final(world)@.drop_events == old(world)@.drop_events,
        final(world)@.wf(),
{
    if world.is_alive(o) {
        let mut obj = world.take_slot(o.0).unwrap();
        let holds = match &obj.draggable {
            Some(d) => match d.drag_shadow {
                Some(s) => s.0 == k,
                None => false,
            },
            None => false,
        };
        if holds {
            let mut d = obj.draggable.take().unwrap();
            d.drag_shadow = None;
            obj.draggable = Some(d);
        }
        proof {
            assert(slot_ok(view_slot(Some(obj))));
        }
        world.put_slot(o.0, Some(obj));
    }
}

/// Handles the drag shadow in slot `k`, if there is one.
fn end_drag_one(world: &mut World, released: bool, k: usize)
    requires
        old(world)@.wf(),
        k < old(world)@.objects.len(),
    ensures
        final(world)@ == end_drag_step(old(world)@, released, k as int),
        final(world)@.wf(),
{
    let ghost w = world@;
    let shadow = match world.object(ObjectId(k)) {
        Some(obj) => match obj.drag_shadow {
            Some(ds) => ds,
            None => { return; },
        },
        None => { return; },
    };
    let o = shadow.original_entity;
    let owned = o.0 != k && match world.object(o) {
        Some(obj) => obj.hitbox.is_some() && obj.layers.is_some() && match &obj.draggable {
            Some(d) => match d.drag_shadow {
                Some(s) => s.0 == k,
                None => false,
            },
            None => false,
        },
        None => false,
    };
    if !owned {
        release_ref(world, o, k);
        world.put_slot(k, None);
        proof {
            assert(world@.objects =~= release_shadow_ref(w, o, k as int).update(k as int, None));
        }
        return;
    }
    let r = resolve_drop(world, k);
    if released && r.legal {
        let shadow_position = world.object(ObjectId(k)).unwrap().position;
        let mut obj = world.take_slot(o.0).unwrap();
        obj.position = Position { x: shadow_position.x, y: shadow_position.y, z: obj.position.z };
        let mut d = obj.draggable.take().unwrap();
        d.drag_shadow = None;
        obj.draggable = Some(d);
        proof {
            assert(slot_ok(view_slot(Some(obj))));
        }
        world.put_slot(o.0, Some(obj));
        world.send_drop_event(DropEvent { dropped_entity: o, dropped_on_entity: r.target });
        world.put_slot(k, None);
        proof {
            assert(world@.objects =~= end_drag_step(w, released, k as int).objects);
            assert(world@.drop_events =~= end_drag_step(w, released, k as int).drop_events);
        }
    } else if released {
        release_ref(world, o, k);
        world.put_slot(k, None);
        proof {
            assert(world@.objects =~= release_shadow_ref(w, o, k as int).update(k as int, None));
        }
    } else {
        let mut obj = world.take_slot(k).unwrap();
        obj.drag_shadow = Some(
            DragShadow {
                preview: if r.legal {
                    DropPreview::Legal
                } else {
                    DropPreview::Illegal
                },
                ..shadow
            },
        );
        proof {
            assert(slot_ok(view_slot(Some(obj))));
        }
        world.put_slot(k, Some(obj));
        proof {
            assert(world@.objects =~= end_drag_step(w, released, k as int).objects);
        }
    }
}

/// Resolves every drag shadow, in slot order: on a release each drop commits or
/// cancels; while the button is held each shadow's preview is refreshed. Shadows whose
/// original has gone are destroyed.
pub fn end_drag(world: &mut World, released: bool)
    requires
        old(world)@.wf(),
    ensures
        final(world)@ == end_drag_upto(old(world)@, released, old(world)@.objects.len() as int),
        final(world)@.objects.len() == old(world)@.objects.len(),
        final(world)@.wf(),
{
    let ghost w0 = world@;
    let n = world.slots.len();
    let mut i: usize = 0;
    while i < n
        invariant
            i <= n,
            n == w0.objects.len(),
            world@.objects.len() == n,
            world@ == end_drag_upto(w0, released, i as int),
            world@.wf(),
        decreases n - i,
    {
        end_drag_one(world, released, i);
        i = i + 1;
    }
}


/// Slot `k` holds an object that can be picked up: a live draggable object with a
/// hitbox that is not itself a shadow.
pub open spec fn selectable(w: WorldView, k: int) -> bool {
    &&& 0 <= k < w.objects.len()
    &&& w.objects[k] is Some
    &&& w.objects[k].unwrap().draggable is Some
    &&& w.objects[k].unwrap().hitbox is Some
    &&& w.objects[k].unwrap().drag_shadow is None
    &&& w.objects[k].unwrap().hover_shadow is None
}

/// The pointer lies on the world rectangle of the selectable object in slot `k`.
pub open spec fn under_pointer(w: WorldView, k: int, m: Point) -> bool {
    &&& selectable(w, k)
    &&& w.objects[k].unwrap().hitbox.unwrap().world_rect_at(w.objects[k].unwrap().position).holds_point(m)
}

/// Among the first `n` slots: the first selectable object under the pointer.
pub open spec fn first_under_upto(w: WorldView, m: Point, n: int) -> Option<int>
    decreases n,
{
    if n <= 0 {
        None
    } else {
        let prev = first_under_upto(w, m, n - 1);
        if prev is Some {
            prev
        } else if under_pointer(w, n - 1, m) {
            Some(n - 1)
        } else {
            None
        }
    }
}

/// The one object that takes this frame's pointer interaction, if any.
pub open spec fn first_under(w: WorldView, m: Point) -> Option<int> {
    first_under_upto(w, m, w.objects.len() as int)
}

/// The draggable object in slot `k` is being dragged.
pub open spec fn dragging(w: WorldView, k: int) -> bool {
    w.objects[k].unwrap().draggable.unwrap().drag_shadow is Some
}

/// The object in slot `k` is picked up this frame.
pub open spec fn picks_up(w: WorldView, m: Point, pressed: bool, k: int) -> bool {
    first_under(w, m) == Some(k) && pressed && !dragging(w, k)
}

/// The object in slot `k` starts showing a hover preview this frame.
pub open spec fn starts_hover(w: WorldView, m: Point, pressed: bool, k: int) -> bool {
    &&& first_under(w, m) == Some(k)
    &&& !pressed
    &&& !dragging(w, k)
    &&& w.objects[k].unwrap().draggable.unwrap().hover_shadow is None
}

/// The hovered object in slot `k` loses its hover preview this frame: the pointer
/// went to no object or another one, or the object is picked up.
pub open spec fn drops_hover(w: WorldView, m: Point, pressed: bool, k: int) -> bool {
    &&& w.objects[k].unwrap().draggable.unwrap().hover_shadow is Some
    &&& (first_under(w, m) != Some(k) || picks_up(w, m, pressed, k))
}

/// Slot `k` holds a hover preview.
pub open spec fn is_hover_shadow(w: WorldView, k: int) -> bool {
    0 <= k < w.objects.len() && w.objects[k] is Some && w.objects[k].unwrap().hover_shadow is Some
}

/// The hover preview in slot `k` stays: its original is selectable, refers back to
/// it, and keeps its hover this frame.
pub open spec fn hover_stays(w: WorldView, m: Point, pressed: bool, k: int) -> bool {
    let o = w.objects[k].unwrap().hover_shadow.unwrap().original_entity.0 as int;
    &&& selectable(w, o)
    &&& w.objects[o].unwrap().draggable.unwrap().hover_shadow == Some(ObjectId(k as usize))
    &&& !drops_hover(w, m, pressed, o)
}

/// The new contents of slot `k` after pick-up and hover detection; `new_id` is the
/// slot a new shadow takes.
pub open spec fn initiate_slot(w: WorldView, m: Point, pressed: bool, k: int) -> Option<ObjectView> {
    let new_id = ObjectId(w.objects.len() as usize);
    let ov = w.objects[k].unwrap();
    let d = ov.draggable.unwrap();
    if is_hover_shadow(w, k) && !hover_stays(w, m, pressed, k) {
        None
    } else if !selectable(w, k) {
        w.objects[k]
    } else if picks_up(w, m, pressed, k) {
        Some(
            ObjectView {
                draggable: Some(
                    DraggableView { drag_shadow: Some(new_id), hover_shadow: None, ..d },
                ),
                visible: if d.hover_shadow is Some {
                    true
                } else {
                    ov.visible
                },
                ..ov
            },
        )
    } else if starts_hover(w, m, pressed, k) {
        Some(
            ObjectView {
                draggable: Some(DraggableView { hover_shadow: Some(new_id), ..d }),
                visible: false,
                ..ov
            },
        )
    } else if first_under(w, m) != Some(k) && d.hover_shadow is Some {
        Some(ObjectView { draggable: Some(DraggableView { hover_shadow: None, ..d }), visible: true, ..ov })
    } else {
        w.objects[k]
    }
}

/// A new drag shadow for the object in slot `f`: at its position, with copies of its
/// hitbox and layers and an empty collision tracker.
pub open spec fn new_drag_shadow(w: WorldView, f: int) -> ObjectView {
    let ov = w.objects[f].unwrap();
    ObjectView {
        position: ov.position,
        hitbox: ov.hitbox,
        layers: ov.layers,
        draggable: None,
        drop_blocker: false,
        tracker: Some(Seq::empty()),
        drag_shadow: Some(
            DragShadow {
                offset: Point { x: 0, y: 0 },
                original_entity: ObjectId(f as usize),
                preview: DropPreview::Pending,
            },
        ),
        hover_shadow: None,
        visible: true,
    }
}

/// A new hover preview for the object in slot `f`: at its position, drawn at shadow depth.
pub open spec fn new_hover_shadow(w: WorldView, f: int) -> ObjectView {
    let ov = w.objects[f].unwrap();
    ObjectView {
        position: Position { x: ov.position.x, y: ov.position.y, z: SHADOW_Z },
        hitbox: None,
        layers: None,
        draggable: None,
        drop_blocker: false,
        tracker: None,
        drag_shadow: None,
        hover_shadow: Some(HoverShadow { original_entity: ObjectId(f as usize) }),
        visible: true,
    }
}

/// The shadow spawned this frame, if any.
pub open spec fn spawned(w: WorldView, m: Point, pressed: bool) -> Seq<Option<ObjectView>> {
    match first_under(w, m) {
        Some(f) => if picks_up(w, m, pressed, f) {
            seq![Some(new_drag_shadow(w, f))]
        } else if starts_hover(w, m, pressed, f) {
            seq![Some(new_hover_shadow(w, f))]
        } else {
            Seq::empty()
        },
        None => Seq::empty(),
    }
}

/// The world after pick-up and hover detection for pointer `m`.
pub open spec fn after_initiate(w: WorldView, m: Point, pressed: bool) -> WorldView {
    WorldView {
        objects: Seq::new(w.objects.len(), |k: int| initiate_slot(w, m, pressed, k)) + spawned(
            w,
            m,
            pressed,
        ),
        ..w
    }
}

/// The first selectable object under the pointer.
fn first_under_pointer(world: &World, m: Point) -> (r: Option<usize>)
    ensures
        match r {
            Some(f) => first_under(world@, m) == Some(f as int),
            None => first_under(world@, m) is None,
        },
{
    let ghost w = world@;
    let n = world.slots.len();
    let mut k: usize = 0;
    while k < n
        invariant
            k <= n,
            n == w.objects.len(),
            w == world@,
            first_under_upto(w, m, k as int) is None,
        decreases n - k,
    {
        match world.object(ObjectId(k)) {
            Some(obj) => {
                if obj.drag_shadow.is_none() && obj.hover_shadow.is_none() && obj.draggable.is_some() {
                    match obj.hitbox {
                        Some(hb) => {
                            if hb.world_rect(&obj.position).contains(m) {
                                proof {
                                    assert(under_pointer(w, k as int, m));
                                    lemma_first_under_stays(w, m, k as int + 1, n as int);
                                }
                                return Some(k);
                            }
                        },
                        None => {},
                    }
                }
            },
            None => {},
        }
        assert(!under_pointer(w, k as int, m));
        k = k + 1;
    }
    None
}

proof fn lemma_first_under_stays(w: WorldView, m: Point, a: int, b: int)
    requires
        0 <= a <= b,
        first_under_upto(w, m, a) is Some,
    ensures
        first_under_upto(w, m, b) == first_under_upto(w, m, a),
    decreases b - a,
{
    if a < b {
        lemma_first_under_stays(w, m, a, b - 1);
    }
}


/// For each slot, whether it holds a hover preview that goes this frame.
fn stale_hovers(world: &World, m: Point, pressed: bool, first: Option<usize>) -> (r: Vec<bool>)
    requires
        match first {
            Some(f) => first_under(world@, m) == Some(f as int),
            None => first_under(world@, m) is None,
        },
    ensures
        r@.len() == world@.objects.len(),
        forall|k: int|
            0 <= k < r@.len() ==> #[trigger] r@[k] == (is_hover_shadow(world@, k) && !hover_stays(
                world@,
                m,
                pressed,
                k,
            )),
{
    let ghost w = world@;
    let n = world.slots.len();
    let mut r: Vec<bool> = Vec::new();
    let mut k: usize = 0;
    while k < n
        invariant
            k <= n,
            n == w.objects.len(),
            w == world@,
            match first {
                Some(f) => first_under(w, m) == Some(f as int),
                None => first_under(w, m) is None,
            },
            r@.len() == k,
            forall|j: int|
                0 <= j < k ==> #[trigger] r@[j] == (is_hover_shadow(w, j) && !hover_stays(
                    w,
                    m,
                    pressed,
                    j,
                )),
        decreases n - k,
    {
        let goes = match world.object(ObjectId(k)) {
            Some(obj) => match obj.hover_shadow {
                Some(hs) => {
                    let o = hs.original_entity;
                    let stays = match world.object(o) {
                        Some(orig) => {
                            if orig.hitbox.is_some() && orig.drag_shadow.is_none()
                                && orig.hover_shadow.is_none() {
                                match &orig.draggable {
                                    Some(d) => {
                                        let refers = match d.hover_shadow {
                                            Some(h) => h.0 == k,
                                            None => false,
                                        };
                                        let is_first = match first {
                                            Some(f) => f == o.0,
                                            None => false,
                                        };
                                        let picked = is_first && pressed && d.drag_shadow.is_none();
                                        refers && is_first && !picked
                                    },
                                    None => false,
                                }
                            } else {
                                false
                            }
                        },
                        None => false,
                    };
                    !stays
                },
                None => false,
            },
            None => false,
        };
        r.push(goes);
        k = k + 1;
    }
    r
}

/// Pick-up and hover detection for pointer `m`. Only the first selectable object under
/// the pointer, in slot order, takes the interaction: with the button just pressed it
/// is picked up (a drag shadow is spawned and its hover preview destroyed); otherwise
/// it gets a hover preview, and the original is hidden meanwhile. Every other object
/// loses its hover preview. Hover previews whose original is gone are destroyed.
pub fn initiate_drag(world: &mut World, m: Point, pressed: bool)
    requires
        old(world)@.wf(),
    ensures
        final(world)@ == after_initiate(old(world)@, m, pressed),
        final(world)@.wf(),
{
    let ghost w0 = world@;
    let first = first_under_pointer(world, m);
    let goes = stale_hovers(world, m, pressed, first);
    let n = world.slots.len();
    let new_id = ObjectId(n);
    let spawn: Option<Object> = match first {
        Some(f) => {
            proof {
                lemma_first_under_is_under(w0, m, n as int);
            }
            let orig = world.object(ObjectId(f)).unwrap();
            let d = orig.draggable.as_ref().unwrap();
            if pressed && d.drag_shadow.is_none() {
                Some(
                    Object {
                        position: orig.position,
                        hitbox: orig.hitbox,
                        layers: orig.layers,
                        draggable: None,
                        drop_blocker: None,
                        collisions: Some(EmitsCollisions::new()),
                        drag_shadow: Some(
                            DragShadow {
                                offset: Point { x: 0, y: 0 },
                                original_entity: ObjectId(f),
                                preview: DropPreview::Pending,
                            },
                        ),
                        hover_shadow: None,
                        visible: true,
                    },
                )
            } else if !pressed && d.drag_shadow.is_none() && d.hover_shadow.is_none() {
                Some(
                    Object {
                        position: Position { x: orig.position.x, y: orig.position.y, z: SHADOW_Z },
                        hitbox: None,
                        layers: None,
                        draggable: None,
                        drop_blocker: None,
                        collisions: None,
                        drag_shadow: None,
                        hover_shadow: Some(HoverShadow { original_entity: ObjectId(f) }),
                        visible: true,
                    },
                )
            } else {
                None
            }
        },
        None => None,
    };
    assert(spawned(w0, m, pressed) == match spawn {
        Some(sh) => seq![Some(sh@)],
        None => Seq::<Option<ObjectView>>::empty(),
    });
    let mut k: usize = 0;
    while k < n
        invariant
            k <= n,
            n == w0.objects.len(),
            new_id == ObjectId(n),
            world@.objects.len() == n,
            world@.collision_events == w0.collision_events,
            world@.drop_events == w0.drop_events,
            w0.wf(),
            spawn is Some ==> slot_ok(view_slot(spawn)),
            world@.wf(),
            match first {
                Some(f) => first_under(w0, m) == Some(f as int),
                None => first_under(w0, m) is None,
            },
            goes@.len() == n,
            forall|j: int|
                0 <= j < n ==> #[trigger] goes@[j] == (is_hover_shadow(w0, j) && !hover_stays(
                    w0,
                    m,
                    pressed,
                    j,
                )),
            forall|j: int| 0 <= j < k ==> #[trigger] world@.objects[j] == initiate_slot(w0, m, pressed, j),
            forall|j: int| k <= j < n ==> #[trigger] world@.objects[j] == w0.objects[j],
        decreases n - k,
    {
        assert(world@.objects[k as int] == w0.objects[k as int]);
        assert(slot_ok(w0.objects[k as int]));
        if goes[k] {
            world.put_slot(k, None);
        } else {
            let is_selectable = match world.object(ObjectId(k)) {
                Some(obj) => obj.draggable.is_some() && obj.hitbox.is_some() && obj.drag_shadow.is_none()
                    && obj.hover_shadow.is_none(),
                None => false,
            };
            if is_selectable {
                let mut obj = world.take_slot(k).unwrap();
                let mut d = obj.draggable.take().unwrap();
                let is_first = match first {
                    Some(f) => f == k,
                    None => false,
                };
                if is_first && pressed && d.drag_shadow.is_none() {
                    d.drag_shadow = Some(new_id);
                    if d.hover_shadow.is_some() {
                        d.hover_shadow = None;
                        obj.visible = true;
                    }
                } else if is_first && !pressed && d.drag_shadow.is_none() && d.hover_shadow.is_none() {
                    d.hover_shadow = Some(new_id);
                    obj.visible = false;
                } else if !is_first && d.hover_shadow.is_some() {
                    d.hover_shadow = None;
                    obj.visible = true;
                }
                obj.draggable = Some(d);
                proof {
                    assert(Some(obj@) == initiate_slot(w0, m, pressed, k as int));
                    assert(slot_ok(view_slot(Some(obj))));
                }
                world.put_slot(k, Some(obj));
            }
        }
        k = k + 1;
    }
    let ghost mid = world@;
    assert(mid.objects =~= Seq::new(n as nat, |j: int| initiate_slot(w0, m, pressed, j)));
    match spawn {
        Some(sh) => {
            world.push_slot(Some(sh));
        },
        None => {},
    }
    proof {
        assert(world@.objects =~= after_initiate(w0, m, pressed).objects);
    }
}

proof fn lemma_first_under_is_under(w: WorldView, m: Point, n: int)
    requires
        first_under_upto(w, m, n) is Some,
    ensures
        0 <= first_under_upto(w, m, n).unwrap() < n,
        under_pointer(w, first_under_upto(w, m, n).unwrap(), m),
    decreases n,
{
    if n > 0 && first_under_upto(w, m, n - 1) is Some {
        lemma_first_under_is_under(w, m, n - 1);
    }
}


/// `v` limited to the range of `i32`.
pub open spec fn clamp_i32(v: int) -> i32 {
    if v < i32::MIN {
        i32::MIN
    } else if v > i32::MAX {
        i32::MAX
    } else {
        v as i32
    }
}

/// `a + b`, saturating at the bounds of `i32`.
fn add_clamped(a: i32, b: i32) -> (r: i32)
    ensures
        r == clamp_i32(a + b),
{
    let v = a as i64 + b as i64;
    if v < i32::MIN as i64 {
        i32::MIN
    } else if v > i32::MAX as i64 {
        i32::MAX
    } else {
        v as i32
    }
}

/// Where a drag shadow goes for pointer `m`: the pointer plus the shadow's offset, at
/// shadow depth.
pub open spec fn tracked_position(ds: DragShadow, m: Point) -> Position {
    Position { x: clamp_i32(m.x + ds.offset.x), y: clamp_i32(m.y + ds.offset.y), z: SHADOW_Z }
}

/// The world after every drag shadow follows pointer `m`.
pub open spec fn after_update_drag(w: WorldView, m: Point) -> WorldView {
    WorldView {
        objects: Seq::new(
            w.objects.len(),
            |k: int|
                if is_drag_shadow(w, k) {
                    Some(
                        ObjectView {
                            position: tracked_position(w.objects[k].unwrap().drag_shadow.unwrap(), m),
                            ..w.objects[k].unwrap()
                        },
                    )
                } else {
                    w.objects[k]
                },
        ),
        ..w
    }
}

/// Moves every drag shadow to the pointer plus its offset.
pub fn update_drag(world: &mut World, m: Point)
    requires
        old(world)@.wf(),
    ensures
        final(world)@ == after_update_drag(old(world)@, m),
        final(world)@.wf(),
{
    let ghost w0 = world@;
    let n = world.slots.len();
    let mut k: usize = 0;
    while k < n
        invariant
            k <= n,
            n == w0.objects.len(),
            world@.objects.len() == n,
            world@.collision_events == w0.collision_events,
            world@.drop_events == w0.drop_events,
            world@.wf(),
            forall|j: int| 0 <= j < k ==> #[trigger] world@.objects[j] == after_update_drag(w0, m).objects[j],
            forall|j: int| k <= j < n ==> #[trigger] world@.objects[j] == w0.objects[j],
        decreases n - k,
    {
        assert(world@.objects[k as int] == w0.objects[k as int]);
        let offset = match world.object(ObjectId(k)) {
            Some(obj) => match obj.drag_shadow {
                Some(ds) => Some(ds.offset),
                None => None,
            },
            None => None,
        };
        match offset {
            Some(off) => {
                let mut obj = world.take_slot(k).unwrap();
                obj.position = Position { x: add_clamped(m.x, off.x), y: add_clamped(m.y, off.y), z: SHADOW_Z };
                proof {
                    assert(slot_ok(view_slot(Some(obj))));
                }
                world.put_slot(k, Some(obj));
            },
            None => {},
        }
        k = k + 1;
    }
    proof {
        assert(world@.objects =~= after_update_drag(w0, m).objects);
    }
}


/// The target that the layer rules resolve to is the earliest of the nearest
/// qualifying overlaps: no qualifying overlap is nearer, and every earlier
/// qualifying one is farther. With no qualifying overlap there is no target.
pub proof fn lemma_nearest_is_first_minimum(w: WorldView, k: int, n: int)
    requires
        0 <= n <= shadow_tracker(w, k).len(),
    ensures
        match nearest_upto(w, k, n) {
            None => forall|t: int|
                0 <= t < n ==> !#[trigger] qualifies(w, k, shadow_tracker(w, k)[t]),
            Some(u) => {
                &&& 0 <= u < n
                &&& qualifies(w, k, shadow_tracker(w, k)[u])
                &&& forall|t: int|
                    0 <= t < n && #[trigger] qualifies(w, k, shadow_tracker(w, k)[t]) ==> shadow_dist(
                        w,
                        k,
                        shadow_tracker(w, k)[u],
                    ) <= shadow_dist(w, k, shadow_tracker(w, k)[t])
                &&& forall|t: int|
                    0 <= t < u && #[trigger] qualifies(w, k, shadow_tracker(w, k)[t]) ==> shadow_dist(
                        w,
                        k,
                        shadow_tracker(w, k)[u],
                    ) < shadow_dist(w, k, shadow_tracker(w, k)[t])
            },
        },
    decreases n,
{
    if n > 0 {
        lemma_nearest_is_first_minimum(w, k, n - 1);
    }
}

} // verus!
