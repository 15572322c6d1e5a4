//! The per-frame broad-phase collision pass.
use vstd::prelude::*;
use crate::world::{slot_ok, view_slot, ObjectId, ObjectView, World, WorldView};

verus! {

/// Opts an object into collision reporting. `colliding_with` is refilled every
/// frame with the objects whose hitboxes overlap this object's hitbox.
#[derive(Debug)]
pub struct EmitsCollisions {
    pub colliding_with: Vec<ObjectId>,
}

impl EmitsCollisions {
    pub fn new() -> (r: EmitsCollisions)
        ensures
            r.colliding_with@ == Seq::<ObjectId>::empty(),
    {
        EmitsCollisions { colliding_with: Vec::new() }
    }
}

/// One overlapping pair found by the collision pass, reported by `collider`.
#[derive(Clone, Copy, Debug, PartialEq, Eq, Structural)]
pub struct CollisionEvent {
    pub collider: ObjectId,
    pub collidee: ObjectId,
}


/// Object `i` takes part in the pass as a reporter: it is live, has a hitbox and
/// has opted into collision reporting.
pub open spec fn emits(w: WorldView, i: int) -> bool {
    &&& 0 <= i < w.objects.len()
    &&& w.objects[i] is Some
    &&& w.objects[i].unwrap().hitbox is Some
    &&& w.objects[i].unwrap().tracker is Some
}

/// Object `j` is another live hitbox-bearing object whose world rectangle
/// intersects that of object `i`.
pub open spec fn hits(w: WorldView, i: int, j: int) -> bool {
    &&& j != i
    &&& 0 <= j < w.objects.len()
    &&& w.objects[j] is Some
    &&& w.objects[j].unwrap().hitbox is Some
    &&& w.objects[i].unwrap().hitbox.unwrap().intersects_at(
        w.objects[j].unwrap().hitbox.unwrap(),
        w.objects[i].unwrap().position,
        w.objects[j].unwrap().position,
    )
}

/// The objects among the first `n` slots that object `i` overlaps, in slot order.
pub open spec fn overlaps_upto(w: WorldView, i: int, n: int) -> Seq<ObjectId>
    decreases n,
{
    if n <= 0 {
        Seq::empty()
    } else {
        overlaps_upto(w, i, n - 1) + if hits(w, i, n - 1) {
            seq![ObjectId((n - 1) as usize)]
        } else {
            Seq::empty()
        }
    }
}

/// Every object that object `i` overlaps, in slot order.
pub open spec fn overlaps_of(w: WorldView, i: int) -> Seq<ObjectId> {
    overlaps_upto(w, i, w.objects.len() as int)
}

/// The notifications object `i` sends: one per object it overlaps.
pub open spec fn pair_events(w: WorldView, i: int) -> Seq<CollisionEvent> {
    overlaps_of(w, i).map_values(|j: ObjectId| CollisionEvent { collider: ObjectId(i as usize), collidee: j })
}

/// The notifications of the reporters among the first `n` slots, in slot order.
pub open spec fn events_upto(w: WorldView, n: int) -> Seq<CollisionEvent>
    decreases n,
{
    if n <= 0 {
        Seq::empty()
    } else {
        events_upto(w, n - 1) + if emits(w, n - 1) {
            pair_events(w, n - 1)
        } else {
            Seq::empty()
        }
    }
}

/// The world after a collision pass: each reporter's tracker holds exactly the
/// objects it overlaps, and one notification per overlapping pair is appended.
pub open spec fn after_collision_pass(w: WorldView) -> WorldView {
    WorldView {
        objects: Seq::new(
            w.objects.len(),
            |k: int|
                if emits(w, k) {
                    Some(ObjectView { tracker: Some(overlaps_of(w, k)), ..w.objects[k].unwrap() })
                } else {
                    w.objects[k]
                },
        ),
        collision_events: w.collision_events + events_upto(w, w.objects.len() as int),
        drop_events: w.drop_events,
    }
}

/// The two worlds have the same live objects at the same places with the same hitboxes.
pub open spec fn same_geometry(a: WorldView, b: WorldView) -> bool {
    &&& a.objects.len() == b.objects.len()
    &&& forall|k: int|
        0 <= k < a.objects.len() ==> (#[trigger] a.objects[k] is Some) == (b.objects[k] is Some)
    &&& forall|k: int|
        0 <= k < a.objects.len() && #[trigger] a.objects[k] is Some ==> a.objects[k].unwrap().position
            == b.objects[k].unwrap().position && a.objects[k].unwrap().hitbox
            == b.objects[k].unwrap().hitbox
}

proof fn lemma_overlaps_same_geometry(a: WorldView, b: WorldView, i: int, n: int)
    requires
        same_geometry(a, b),
        0 <= i < a.objects.len(),
        a.objects[i] is Some,
    ensures
        overlaps_upto(a, i, n) == overlaps_upto(b, i, n),
    decreases n,
{
    if n > 0 {
        lemma_overlaps_same_geometry(a, b, i, n - 1);
        if 0 <= n - 1 < a.objects.len() {
            assert(a.objects[n - 1] is Some == b.objects[n - 1] is Some);
        }
        assert(hits(a, i, n - 1) == hits(b, i, n - 1));
    }
}

/// The objects that object `i` overlaps, in slot order.
fn overlaps_for(world: &World, i: usize) -> (r: Vec<ObjectId>)
    requires
        emits(world@, i as int),
    ensures
        r@ == overlaps_of(world@, i as int),
{
    let ghost w = world@;
    let n = world.slots.len();
    let (hitbox, position) = match &world.slots[i] {
        Some(o) => (o.hitbox.unwrap(), o.position),
        None => { return Vec::new(); },
    };
    assert(w.objects[i as int] == crate::world::view_slot(world.slots@[i as int]));
    let mut r: Vec<ObjectId> = Vec::new();
    let mut j: usize = 0;
    while j < n
        invariant
            n == world.slots@.len(),
            w == world@,
            j <= n,
            emits(w, i as int),
            hitbox == w.objects[i as int].unwrap().hitbox.unwrap(),
            position == w.objects[i as int].unwrap().position,
            r@ == overlaps_upto(w, i as int, j as int),
        decreases n - j,
    {
        assert(w.objects[j as int] == crate::world::view_slot(world.slots@[j as int]));
        if j != i {
            match &world.slots[j] {
                Some(other) => {
                    match other.hitbox {
                        Some(other_hitbox) => {
                            if hitbox.intersects(&other_hitbox, &position, &other.position) {
                                r.push(ObjectId(j));
                            }
                        },
                        None => {},
                    }
                },
                None => {},
            }
        }
        proof {
            let s = overlaps_upto(w, i as int, j as int);
            if hits(w, i as int, j as int) {
                assert(r@ =~= s + seq![ObjectId(j)]);
            } else {
                assert(r@ =~= s + Seq::<ObjectId>::empty());
            }
        }
        j = j + 1;
    }
    r
}

/// Recomputes every reporter's tracker from scratch and sends one notification
/// per overlapping pair. All hitbox-bearing objects are candidates, whatever
/// their layers; a pair of reporters is reported once from each side.
pub fn emit_collision_events(world: &mut World)
    requires
        old(world)@.wf(),
    ensures
        final(world)@ == after_collision_pass(old(world)@),
        final(world)@.wf(),
{
    let ghost w0 = world@;
    let ghost target = after_collision_pass(w0);
    let n = world.slots.len();
    let mut i: usize = 0;
    while i < n
        invariant
            n == world.slots@.len(),
            n == w0.objects.len(),
            target == after_collision_pass(w0),
            i <= n,
            world@.wf(),
            forall|k: int| 0 <= k < i ==> #[trigger] world@.objects[k] == target.objects[k],
            forall|k: int| i <= k < n ==> #[trigger] world@.objects[k] == w0.objects[k],
            world@.collision_events == w0.collision_events + events_upto(w0, i as int),
            world@.drop_events == w0.drop_events,
        decreases n - i,
    {
        proof {
            assert(world@.objects[i as int] == w0.objects[i as int]);
            assert(world@.objects[i as int] == crate::world::view_slot(world.slots@[i as int]));
            assert forall|k: int| 0 <= k < n && #[trigger] world@.objects[k] is Some implies world@.objects[k].unwrap().position
                == w0.objects[k].unwrap().position && world@.objects[k].unwrap().hitbox
                == w0.objects[k].unwrap().hitbox by {
                if k < i {
                    assert(world@.objects[k] == target.objects[k]);
                } else {
                    assert(world@.objects[k] == w0.objects[k]);
                }
            }
            assert forall|k: int| 0 <= k < n implies (#[trigger] world@.objects[k] is Some) == (w0.objects[k] is Some) by {
                if k < i {
                    assert(world@.objects[k] == target.objects[k]);
                } else {
                    assert(world@.objects[k] == w0.objects[k]);
                }
            }
        }
        let reporting = match &world.slots[i] {
            Some(o) => o.hitbox.is_some() && o.collisions.is_some(),
            None => false,
        };
        if reporting {
            let found = overlaps_for(world, i);
            proof {
                assert(same_geometry(world@, w0));
                lemma_overlaps_same_geometry(world@, w0, i as int, n as int);
            }
            let ghost before = world@.collision_events;
            let ghost slots_before = world.slots@;
            let mut t: usize = 0;
            while t < found.len()
                invariant
                    t <= found@.len(),
                    found@ == overlaps_of(w0, i as int),
                    world.slots@ == slots_before,
                    world@.drop_events == w0.drop_events,
                    world@.collision_events == before + pair_events(w0, i as int).subrange(0, t as int),
                decreases found@.len() - t,
            {
                world.collision_events.push(CollisionEvent { collider: ObjectId(i), collidee: found[t] });
                proof {
                    assert(world@.collision_events =~= before + pair_events(w0, i as int).subrange(0, t + 1));
                }
                t = t + 1;
            }
            let mut o = world.take_slot(i).unwrap();
            o.collisions = Some(EmitsCollisions { colliding_with: found });
            proof {
                assert(emits(w0, i as int));
                assert(Some(o@) == target.objects[i as int]);
                assert(slot_ok(view_slot(Some(o))));
            }
            world.put_slot(i, Some(o));
        } else {
            proof {
                assert(!emits(w0, i as int));
                assert(world@.objects[i as int] == target.objects[i as int]);
                assert(events_upto(w0, i + 1) =~= events_upto(w0, i as int));
            }
        }
        proof {
            if reporting {
                assert(events_upto(w0, i + 1) == events_upto(w0, i as int) + pair_events(w0, i as int));
                assert(pair_events(w0, i as int).subrange(0, pair_events(w0, i as int).len() as int) =~= pair_events(w0, i as int));
                assert(world@.collision_events =~= w0.collision_events + events_upto(w0, i + 1));
            }
        }
        i = i + 1;
    }
    proof {
        assert(world@.objects =~= target.objects);
    }
}

} // verus!
