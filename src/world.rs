//! The object registry: positions and components of every object, in creation order.
use vstd::prelude::*;
use crate::collisions::{CollisionEvent, EmitsCollisions};
use crate::draggable::{Draggable, DragShadow, DropBlocker, DropEvent, HoverShadow};
use crate::geometry::Position;
use crate::hitbox::Hitbox;
use crate::layer::{InLayers, LayerSet};

verus! {

/// Identifies an object: the index of its slot. Slots are never reused, so an
/// identifier never names two objects.
#[derive(Clone, Copy, Debug, PartialEq, Eq, Structural, Hash)]
pub struct ObjectId(pub usize);

/// An object and the components attached to it.
#[derive(Debug)]
pub struct Object {
    pub position: Position,
    pub hitbox: Option<Hitbox>,
    pub layers: Option<InLayers>,
    pub draggable: Option<Draggable>,
    pub drop_blocker: Option<DropBlocker>,
    pub collisions: Option<EmitsCollisions>,
    pub drag_shadow: Option<DragShadow>,
    pub hover_shadow: Option<HoverShadow>,
    pub visible: bool,
}

pub struct DraggableView {
    pub drag_shadow: Option<ObjectId>,
    pub must_be_contained_in: Option<LayerSet>,
    pub must_intersect_with: Option<LayerSet>,
    pub allowed: Seq<ObjectId>,
    pub drag_opaque: bool,
    pub hover_shadow: Option<ObjectId>,
}

impl View for Draggable {
    type V = DraggableView;

    open spec fn view(&self) -> DraggableView {
        DraggableView {
            drag_shadow: self.drag_shadow,
            must_be_contained_in: self.must_be_contained_in,
            must_intersect_with: self.must_intersect_with,
            allowed: self.special_allowed_entities@,
            drag_opaque: self.drag_opaque,
            hover_shadow: self.hover_shadow,
        }
    }
}

pub struct ObjectView {
    pub position: Position,
    pub hitbox: Option<Hitbox>,
    pub layers: Option<InLayers>,
    pub draggable: Option<DraggableView>,
    pub drop_blocker: bool,
    /// The collision tracker's contents, for an object that emits collisions.
    pub tracker: Option<Seq<ObjectId>>,
    pub drag_shadow: Option<DragShadow>,
    pub hover_shadow: Option<HoverShadow>,
    pub visible: bool,
}

impl View for Object {
    type V = ObjectView;

    open spec fn view(&self) -> ObjectView {
        ObjectView {
            position: self.position,
            hitbox: self.hitbox,
            layers: self.layers,
            draggable: match self.draggable {
                Some(d) => Some(d@),
                None => None,
            },
            drop_blocker: self.drop_blocker is Some,
            tracker: match self.collisions {
                Some(c) => Some(c.colliding_with@),
                None => None,
            },
            drag_shadow: self.drag_shadow,
            hover_shadow: self.hover_shadow,
            visible: self.visible,
        }
    }
}

pub open spec fn view_slot(s: Option<Object>) -> Option<ObjectView> {
    match s {
        Some(o) => Some(o@),
        None => None,
    }
}

/// A draggable object is idle, hovered or dragged: never hovered and dragged at once.
pub open spec fn slot_ok(s: Option<ObjectView>) -> bool {
    s is Some && s.unwrap().draggable is Some ==> !(s.unwrap().draggable.unwrap().drag_shadow is Some
        && s.unwrap().draggable.unwrap().hover_shadow is Some)
}

pub struct WorldView {
    pub objects: Seq<Option<ObjectView>>,
    pub collision_events: Seq<CollisionEvent>,
    pub drop_events: Seq<DropEvent>,
}

impl WorldView {
    pub open spec fn alive(self, id: ObjectId) -> bool {
        id.0 < self.objects.len() && self.objects[id.0 as int] is Some
    }

    pub open spec fn obj(self, id: ObjectId) -> ObjectView {
        self.objects[id.0 as int].unwrap()
    }

    /// No draggable object has a hover preview and a drag shadow at once.
    pub open spec fn wf(self) -> bool {
        forall|k: int| 0 <= k < self.objects.len() ==> slot_ok(#[trigger] self.objects[k])
    }

    /// What `overlapping` reports: the tracker's contents, or nothing.
    pub open spec fn overlapping(self, id: ObjectId) -> Seq<ObjectId> {
        if self.alive(id) && self.obj(id).tracker is Some {
            self.obj(id).tracker.unwrap()
        } else {
            Seq::empty()
        }
    }
}

/// Every object of the simulation, and the notifications not yet taken.
pub struct World {
    pub slots: Vec<Option<Object>>,
    pub collision_events: Vec<CollisionEvent>,
    pub drop_events: Vec<DropEvent>,
}

impl View for World {
    type V = WorldView;

    open spec fn view(&self) -> WorldView {
        WorldView {
            objects: Seq::new(self.slots@.len(), |k: int| view_slot(self.slots@[k])),
            collision_events: self.collision_events@,
            drop_events: self.drop_events@,
        }
    }
}

/// Calling `overlapping` twice with no collision pass in between gives the same answer:
/// what it reports is a function of the world's state alone.
pub proof fn lemma_overlapping_idempotent(
    w: WorldView,
    id: ObjectId,
    first: Seq<ObjectId>,
    second: Seq<ObjectId>,
)
    requires
        first == w.overlapping(id),
        second == w.overlapping(id),
    ensures
        first == second,
{
}

/// A well-formed world never has an object with both a hover preview and a drag shadow.
pub proof fn lemma_hover_and_drag_exclusive(w: WorldView, id: ObjectId)
    requires
        w.wf(),
        w.alive(id),
        w.obj(id).draggable is Some,
    ensures
        !(w.obj(id).draggable.unwrap().hover_shadow is Some
            && w.obj(id).draggable.unwrap().drag_shadow is Some),
{
    assert(slot_ok(w.objects[id.0 as int]));
}

impl World {
    pub fn new() -> (r: World)
        ensures
            r@.objects.len() == 0,
            r@.collision_events.len() == 0,
            r@.drop_events.len() == 0,
            r@.wf(),
    {
        World { slots: Vec::new(), collision_events: Vec::new(), drop_events: Vec::new() }
    }

    /// Adds a bare, visible object at `position` and returns its identifier.
    pub fn spawn(&mut self, position: Position) -> (id: ObjectId)
        requires
            old(self)@.wf(),
        ensures
            id.0 == old(self)@.objects.len(),
            final(self)@.objects == old(self)@.objects.push(
                Some(
                    ObjectView {
                        position,
                        hitbox: None,
                        layers: None,
                        draggable: None,
                        drop_blocker: false,
                        tracker: None,
                        drag_shadow: None,
                        hover_shadow: None,
                        visible: true,
                    },
                ),
            ),
            final(self)@.collision_events == old(self)@.collision_events,
            final(self)@.drop_events == old(self)@.drop_events,
            final(self)@.wf(),
    {
        let id = ObjectId(self.slots.len());
        let o = Object {
            position,
            hitbox: None,
            layers: None,
            draggable: None,
            drop_blocker: None,
            collisions: None,
            drag_shadow: None,
            hover_shadow: None,
            visible: true,
        };
        self.slots.push(Some(o));
        proof {
            assert(self@.objects =~= old(self)@.objects.push(Some(o@)));
        }
        id
    }
}


impl World {
    /// Empties slot `k` and hands back what it held.
    pub(crate) fn take_slot(&mut self, k: usize) -> (r: Option<Object>)
        requires
            k < old(self)@.objects.len(),
        ensures
            r == old(self).slots@[k as int],
            view_slot(r) == old(self)@.objects[k as int],
            old(self)@.wf() ==> slot_ok(view_slot(r)),
            final(self).slots@ == old(self).slots@.update(k as int, None),
            final(self)@.objects == old(self)@.objects.update(k as int, None),
            old(self)@.wf() ==> final(self)@.wf(),
            final(self).collision_events == old(self).collision_events,
            final(self).drop_events == old(self).drop_events,
    {
        let mut r: Option<Object> = None;
        std::mem::swap(&mut r, &mut self.slots[k]);
        proof {
            assert(self@.objects =~= old(self)@.objects.update(k as int, None));
            if old(self)@.wf() {
                assert(slot_ok(old(self)@.objects[k as int]));
            }
        }
        r
    }

    /// Stores `s` in slot `k`.
    pub(crate) fn put_slot(&mut self, k: usize, s: Option<Object>)
        requires
            k < old(self)@.objects.len(),
        ensures
            final(self).slots@ == old(self).slots@.update(k as int, s),
            final(self)@.objects == old(self)@.objects.update(k as int, view_slot(s)),
            old(self)@.wf() && slot_ok(view_slot(s)) ==> final(self)@.wf(),
            final(self).collision_events == old(self).collision_events,
            final(self).drop_events == old(self).drop_events,
    {
        self.slots.set(k, s);
        proof {
            assert(self@.objects =~= old(self)@.objects.update(k as int, view_slot(s)));
        }
    }

    /// Adds a slot holding `s` at the end.
    pub(crate) fn push_slot(&mut self, s: Option<Object>)
        ensures
            final(self)@.objects == old(self)@.objects.push(view_slot(s)),
            old(self)@.wf() && slot_ok(view_slot(s)) ==> final(self)@.wf(),
            final(self).collision_events == old(self).collision_events,
            final(self).drop_events == old(self).drop_events,
    {
        self.slots.push(s);
        proof {
            assert(self@.objects =~= old(self)@.objects.push(view_slot(s)));
        }
    }

    /// Appends a drop notification.
    pub(crate) fn send_drop_event(&mut self, e: DropEvent)
        ensures
            final(self).slots == old(self).slots,
            final(self).collision_events == old(self).collision_events,
            final(self).drop_events@ == old(self).drop_events@.push(e),
    {
        self.drop_events.push(e);
    }

    /// Whether `id` names a live object.
    pub fn is_alive(&self, id: ObjectId) -> (r: bool)
        ensures
            r == self@.alive(id),
    {
        id.0 < self.slots.len() && self.slots[id.0].is_some()
    }

    /// The live object named `id`.
    pub fn object(&self, id: ObjectId) -> (r: Option<&Object>)
        ensures
            r is Some <==> self@.alive(id),
            r is Some ==> r.unwrap()@ == self@.obj(id),
    {
        if id.0 < self.slots.len() {
            self.slots[id.0].as_ref()
        } else {
            None
        }
    }

    /// Removes the object named `id`, if it is live. Its identifier is never reused.
    pub fn despawn(&mut self, id: ObjectId)
        requires
            old(self)@.wf(),
        ensures
            final(self)@.objects == if old(self)@.alive(id) {
                old(self)@.objects.update(id.0 as int, None)
            } else {
                old(self)@.objects
            },
            final(self)@.collision_events == old(self)@.collision_events,
            final(self)@.drop_events == old(self)@.drop_events,
            final(self)@.wf(),
    {
        if self.is_alive(id) {
            self.put_slot(id.0, None);
        }
    }
}


impl World {
    /// Attaches or replaces the object's hitbox; a malformed rectangle is refused.
    pub fn set_hitbox(&mut self, id: ObjectId, hitbox: Hitbox)
        requires
            old(self)@.wf(),
            hitbox.wf(),
        ensures
            final(self)@.objects == if old(self)@.alive(id) {
                old(self)@.objects.update(
                    id.0 as int,
                    Some(ObjectView { hitbox: Some(hitbox), ..old(self)@.obj(id) }),
                )
            } else {
                old(self)@.objects
            },
            final(self)@.collision_events == old(self)@.collision_events,
            final(self)@.drop_events == old(self)@.drop_events,
            final(self)@.wf(),
    {
        if self.is_alive(id) {
            let mut o = self.take_slot(id.0).unwrap();
            o.hitbox = Some(hitbox);
            proof {
                assert(slot_ok(view_slot(Some(o))));
            }
            self.put_slot(id.0, Some(o));
        }
    }

    /// Attaches or replaces the object's layer set.
    pub fn set_layers(&mut self, id: ObjectId, layers: LayerSet)
        requires
            old(self)@.wf(),
        ensures
            final(self)@.objects == if old(self)@.alive(id) {
                old(self)@.objects.update(
                    id.0 as int,
                    Some(ObjectView { layers: Some(InLayers { layers }), ..old(self)@.obj(id) }),
                )
            } else {
                old(self)@.objects
            },
            final(self)@.collision_events == old(self)@.collision_events,
            final(self)@.drop_events == old(self)@.drop_events,
            final(self)@.wf(),
    {
        if self.is_alive(id) {
            let mut o = self.take_slot(id.0).unwrap();
            o.layers = Some(InLayers { layers });
            proof {
                assert(slot_ok(view_slot(Some(o))));
            }
            self.put_slot(id.0, Some(o));
        }
    }

    /// Moves the object.
    pub fn set_position(&mut self, id: ObjectId, position: Position)
        requires
            old(self)@.wf(),
        ensures
            final(self)@.objects == if old(self)@.alive(id) {
                old(self)@.objects.update(
                    id.0 as int,
                    Some(ObjectView { position, ..old(self)@.obj(id) }),
                )
            } else {
                old(self)@.objects
            },
            final(self)@.collision_events == old(self)@.collision_events,
            final(self)@.drop_events == old(self)@.drop_events,
            final(self)@.wf(),
    {
        if self.is_alive(id) {
            let mut o = self.take_slot(id.0).unwrap();
            o.position = position;
            proof {
                assert(slot_ok(view_slot(Some(o))));
            }
            self.put_slot(id.0, Some(o));
        }
    }

    /// Marks or unmarks the object as a drop blocker.
    pub fn set_drop_blocker(&mut self, id: ObjectId, blocks_drops: bool)
        requires
            old(self)@.wf(),
        ensures
            final(self)@.objects == if old(self)@.alive(id) {
                old(self)@.objects.update(
                    id.0 as int,
                    Some(ObjectView { drop_blocker: blocks_drops, ..old(self)@.obj(id) }),
                )
            } else {
                old(self)@.objects
            },
            final(self)@.collision_events == old(self)@.collision_events,
            final(self)@.drop_events == old(self)@.drop_events,
            final(self)@.wf(),
    {
        if self.is_alive(id) {
            let mut o = self.take_slot(id.0).unwrap();
            o.drop_blocker = if blocks_drops { Some(DropBlocker) } else { None };
            proof {
                assert(slot_ok(view_slot(Some(o))));
            }
            self.put_slot(id.0, Some(o));
        }
    }

    /// Opts the object into collision reporting, with an empty tracker until the next pass.
    pub fn set_emits_collisions(&mut self, id: ObjectId)
        requires
            old(self)@.wf(),
        ensures
            final(self)@.objects == if old(self)@.alive(id) {
                old(self)@.objects.update(
                    id.0 as int,
                    Some(ObjectView { tracker: Some(Seq::empty()), ..old(self)@.obj(id) }),
                )
            } else {
                old(self)@.objects
            },
            final(self)@.collision_events == old(self)@.collision_events,
            final(self)@.drop_events == old(self)@.drop_events,
            final(self)@.wf(),
    {
        if self.is_alive(id) {
            let mut o = self.take_slot(id.0).unwrap();
            o.collisions = Some(EmitsCollisions::new());
            proof {
                assert(slot_ok(view_slot(Some(o))));
            }
            self.put_slot(id.0, Some(o));
        }
    }

    /// Makes the object draggable under the given drop rules, with no shadow and
    /// a translucent drag shadow, and marks or unmarks it as a drop blocker.
    pub fn make_draggable(
        &mut self,
        id: ObjectId,
        must_be_contained_in: Option<LayerSet>,
        must_intersect_with: Option<LayerSet>,
        special_allowed_entities: Vec<ObjectId>,
        blocks_drops: bool,
    )
        requires
            old(self)@.wf(),
        ensures
            final(self)@.objects == if old(self)@.alive(id) {
                old(self)@.objects.update(
                    id.0 as int,
                    Some(
                        ObjectView {
                            draggable: Some(
                                DraggableView {
                                    drag_shadow: None,
                                    must_be_contained_in,
                                    must_intersect_with,
                                    allowed: special_allowed_entities@,
                                    drag_opaque: false,
                                    hover_shadow: None,
                                },
                            ),
                            drop_blocker: blocks_drops,
                            ..old(self)@.obj(id)
                        },
                    ),
                )
            } else {
                old(self)@.objects
            },
            final(self)@.collision_events == old(self)@.collision_events,
            final(self)@.drop_events == old(self)@.drop_events,
            final(self)@.wf(),
    {
        if self.is_alive(id) {
            let mut o = self.take_slot(id.0).unwrap();
            o.draggable = Some(
                Draggable {
                    drag_shadow: None,
                    must_be_contained_in,
                    must_intersect_with,
                    special_allowed_entities,
                    drag_opaque: false,
                    hover_shadow: None,
                },
            );
            o.drop_blocker = if blocks_drops { Some(DropBlocker) } else { None };
            proof {
                assert(slot_ok(view_slot(Some(o))));
            }
            self.put_slot(id.0, Some(o));
        }
    }

    /// Sets whether the object's drag shadow is drawn opaque; no effect on an
    /// object that is not draggable.
    pub fn set_drag_opaque(&mut self, id: ObjectId, opaque: bool)
        requires
            old(self)@.wf(),
        ensures
            final(self)@.objects == if old(self)@.alive(id) && old(self)@.obj(id).draggable is Some {
                old(self)@.objects.update(
                    id.0 as int,
                    Some(
                        ObjectView {
                            draggable: Some(
                                DraggableView {
                                    drag_opaque: opaque,
                                    ..old(self)@.obj(id).draggable.unwrap()
                                },
                            ),
                            ..old(self)@.obj(id)
                        },
                    ),
                )
            } else {
                old(self)@.objects
            },
            final(self)@.collision_events == old(self)@.collision_events,
            final(self)@.drop_events == old(self)@.drop_events,
            final(self)@.wf(),
    {
        if self.is_alive(id) {
            let mut o = self.take_slot(id.0).unwrap();
            if o.draggable.is_some() {
                let mut d = o.draggable.take().unwrap();
                d.drag_opaque = opaque;
                o.draggable = Some(d);
            }
            proof {
                assert(slot_ok(view_slot(Some(o))));
            }
            self.put_slot(id.0, Some(o));
        }
    }
}


impl World {
    /// The objects that the last collision pass found overlapping `id`; empty for
    /// an object that does not report collisions or is not live.
    pub fn overlapping(&self, id: ObjectId) -> (r: Vec<ObjectId>)
        ensures
            r@ == self@.overlapping(id),
    {
        let mut r: Vec<ObjectId> = Vec::new();
        if id.0 < self.slots.len() {
            assert(self@.objects[id.0 as int] == view_slot(self.slots@[id.0 as int]));
            match &self.slots[id.0] {
                Some(o) => {
                    match &o.collisions {
                        Some(c) => {
                            let mut t: usize = 0;
                            while t < c.colliding_with.len()
                                invariant
                                    t <= c.colliding_with@.len(),
                                    r@ == c.colliding_with@.subrange(0, t as int),
                                decreases c.colliding_with@.len() - t,
                            {
                                r.push(c.colliding_with[t]);
                                proof {
                                    assert(r@ =~= c.colliding_with@.subrange(0, t + 1));
                                }
                                t = t + 1;
                            }
                            proof {
                                assert(r@ =~= c.colliding_with@);
                            }
                        },
                        None => {},
                    }
                },
                None => {},
            }
        }
        r
    }

    /// The drop notifications sent and not yet cleared, oldest first.
    pub fn drop_events(&self) -> (r: &Vec<DropEvent>)
        ensures
            r@ == self@.drop_events,
    {
        &self.drop_events
    }

    /// The collision notifications sent and not yet cleared, oldest first.
    pub fn collision_events(&self) -> (r: &Vec<CollisionEvent>)
        ensures
            r@ == self@.collision_events,
    {
        &self.collision_events
    }

    /// Forgets every notification sent so far, once all listeners have read them.
    pub fn clear_events(&mut self)
        requires
            old(self)@.wf(),
        ensures
            final(self)@.objects == old(self)@.objects,
            final(self)@.collision_events.len() == 0,
            final(self)@.drop_events.len() == 0,
            final(self)@.wf(),
    {
        self.collision_events.clear();
        self.drop_events.clear();
    }
}

} // verus!
