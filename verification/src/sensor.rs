//! Ground contact, derived from the physics layer's overlap events.
//!
//! The physics layer only reports that two bodies started or stopped
//! overlapping. A thin sensor below a body keeps the set of bodies it
//! overlaps, and the body stands on the ground while that set is not empty.
use std::collections::HashMap;
use std::collections::HashSet;
use vstd::prelude::*;

verus! {

broadcast use vstd::std_specs::hash::group_hash_axioms;

/// How the physics layer treats a body.
#[derive(Copy, Clone, Debug, PartialEq, Eq, Hash, Structural)]
pub enum RigidBody {
    /// Moved by forces and collisions.
    Dynamic,
    /// Never moves.
    Static,
    /// Detects overlap, and is no obstacle: never counts as ground.
    Sensor,
}

/// An overlap event between two bodies, each named by the entity that
/// carries its rigid body.
#[derive(Copy, Clone, Debug, PartialEq, Eq, Hash, Structural)]
pub enum CollisionEvent {
    /// The two bodies started to overlap.
    Started(u64, u64),
    /// The two bodies no longer overlap.
    Stopped(u64, u64),
}

/// The shape of a body's main collision volume, as far as a sensor's
/// placement depends on it.
#[derive(Copy, Clone, Debug, PartialEq, Eq, Hash, Structural)]
pub enum BodyShape {
    /// A box: the sensor hangs below its lower face.
    Cuboid,
    /// A ball: the sensor hangs below its lowest point.
    Sphere,
    /// Any other shape: it gets no sensor.
    Other,
}

/// Whether an entity stands on something.
#[derive(Copy, Clone, Debug, PartialEq, Eq, Hash, Structural)]
pub struct GroundDetection {
    pub on_ground: bool,
}

/// The sensor of one entity: which entity it reports to, and the bodies it
/// overlaps at the moment.
pub struct GroundSensor {
    pub ground_detection_entity: u64,
    pub intersecting_ground_entities: HashSet<u64>,
}

/// A sensor in the world, with the entity that carries it.
pub struct SensorEntity {
    pub entity: u64,
    pub sensor: GroundSensor,
}

/// A write of the ground flag of `entity`.
#[derive(Copy, Clone, Debug, PartialEq, Eq, Hash, Structural)]
pub struct GroundUpdate {
    pub entity: u64,
    pub detection: GroundDetection,
}

/// The overlap set of the sensor `sensor` after one event.
///
/// A start adds the other body, unless that body is itself a sensor. A stop
/// removes it, whatever its kind. Events of other sensors change nothing.
pub open spec fn after_event(
    overlaps: Set<u64>,
    sensor: u64,
    event: CollisionEvent,
    bodies: Map<u64, RigidBody>,
) -> Set<u64> {
    match event {
        CollisionEvent::Started(a, b) => if a == sensor && bodies.contains_key(b) && bodies[b]
            != RigidBody::Sensor {
            overlaps.insert(b)
        } else {
            overlaps
        },
        CollisionEvent::Stopped(a, b) => if a == sensor {
            overlaps.remove(b)
        } else {
            overlaps
        },
    }
}

/// The overlap set of the sensor `sensor` after the events, taken in order.
pub open spec fn after_events(
    overlaps: Set<u64>,
    sensor: u64,
    events: Seq<CollisionEvent>,
    bodies: Map<u64, RigidBody>,
) -> Set<u64>
    decreases events.len(),
{
    if events.len() == 0 {
        overlaps
    } else {
        after_event(
            after_events(overlaps, sensor, events.drop_last(), bodies),
            sensor,
            events.last(),
            bodies,
        )
    }
}

/// Both bodies of every start event have a rigid body on record.
pub open spec fn events_resolve(events: Seq<CollisionEvent>, bodies: Map<u64, RigidBody>) -> bool {
    forall|i: int|
        0 <= i < events.len() ==> match #[trigger] events[i] {
            CollisionEvent::Started(a, b) => bodies.contains_key(a) && bodies.contains_key(b),
            CollisionEvent::Stopped(_, _) => true,
        }
}

/// Whether the events can be applied: the physics layer owes a rigid body
/// for each side of a collision, and a start event that names a body
/// without one, on either side, shows that the world is corrupt.
pub fn collisions_resolve(events: &Vec<CollisionEvent>, bodies: &HashMap<u64, RigidBody>) -> (ok:
    bool)
    ensures
        ok == events_resolve(events@, bodies@),
{
    let mut n: usize = 0;
    while n < events.len()
        invariant
            n <= events.len(),
            events_resolve(events@.take(n as int), bodies@),
        decreases events.len() - n,
    {
        match events[n] {
            CollisionEvent::Started(a, b) => {
                if !bodies.contains_key(&a) || !bodies.contains_key(&b) {
                    assert(!events_resolve(events@, bodies@)) by {
                        assert(events@[n as int] == events[n as int]);
                    }
                    return false;
                }
            },
            CollisionEvent::Stopped(_, _) => {},
        }
        proof {
            let longer = events@.take(n as int + 1);
            assert forall|i: int| 0 <= i < longer.len() implies match #[trigger] longer[i] {
                CollisionEvent::Started(a, b) => bodies@.contains_key(a) && bodies@.contains_key(b),
                CollisionEvent::Stopped(_, _) => true,
            } by {
                if i < n {
                    assert(longer[i] == events@.take(n as int)[i]);
                }
            }
        }
        n = n + 1;
    }
    assert(events@.take(n as int) == events@);
    true
}

impl GroundSensor {
    /// A sensor for `entity` that overlaps nothing yet.
    pub fn new(entity: u64) -> (sensor: GroundSensor)
        ensures
            sensor.ground_detection_entity == entity,
            sensor.intersecting_ground_entities@ == Set::<u64>::empty(),
    {
        GroundSensor {
            ground_detection_entity: entity,
            intersecting_ground_entities: HashSet::new(),
        }
    }

    /// The bodies that the sensor overlaps.
    pub open spec fn overlaps(&self) -> Set<u64> {
        self.intersecting_ground_entities@
    }

    /// Whether the sensor overlaps anything that counts as ground.
    pub fn on_ground(&self) -> (grounded: bool)
        ensures
            grounded == !self.overlaps().is_empty(),
            grounded == exists|body: u64| self.overlaps().contains(body),
    {
        proof {
            let set = self.overlaps();
            if !set.is_empty() {
                assert(exists|body: u64| set.contains(body)) by {
                    if forall|body: u64| !set.contains(body) {
                        assert(set =~= Set::<u64>::empty());
                    }
                }
            }
        }
        !self.intersecting_ground_entities.is_empty()
    }

    /// Applies the frame's events to the sensor that `entity` carries, and
    /// says whether its owner stands on the ground afterwards.
    pub fn track(
        &mut self,
        entity: u64,
        collisions: &Vec<CollisionEvent>,
        rigid_bodies: &HashMap<u64, RigidBody>,
    ) -> (detection: GroundDetection)
        requires
            events_resolve(collisions@, rigid_bodies@),
        ensures
            final(self).ground_detection_entity == old(self).ground_detection_entity,
            final(self).overlaps() == after_events(
                old(self).overlaps(),
                entity,
                collisions@,
                rigid_bodies@,
            ),
            detection.on_ground == !final(self).overlaps().is_empty(),
    {
        let mut n: usize = 0;
        while n < collisions.len()
            invariant
                n <= collisions.len(),
                events_resolve(collisions@, rigid_bodies@),
                self.ground_detection_entity == old(self).ground_detection_entity,
                self.overlaps() == after_events(
                    old(self).overlaps(),
                    entity,
                    collisions@.take(n as int),
                    rigid_bodies@,
                ),
            decreases collisions.len() - n,
        {
            proof {
                let longer = collisions@.take(n as int + 1);
                assert(longer.drop_last() == collisions@.take(n as int));
                assert(longer.last() == collisions[n as int]);
            }
            match collisions[n] {
                CollisionEvent::Started(a, b) => {
                    assert(rigid_bodies@.contains_key(b));
                    let kind = rigid_bodies.get(&b);
                    match kind {
                        Some(RigidBody::Sensor) => {},
                        Some(_) => {
                            if a == entity {
                                self.intersecting_ground_entities.insert(b);
                            }
                        },
                        None => {},
                    }
                },
                CollisionEvent::Stopped(a, b) => {
                    if a == entity {
                        self.intersecting_ground_entities.remove(&b);
                    }
                },
            }
            n = n + 1;
        }
        assert(collisions@.take(n as int) == collisions@);
        GroundDetection { on_ground: self.on_ground() }
    }
}

/// The sensor that an entity gets when it first needs ground detection:
/// one that reports to the entity and overlaps nothing. Only a box or a
/// ball gets one.
pub fn spawn_ground_sensor(entity: u64, shape: BodyShape) -> (spawned: Option<GroundSensor>)
    ensures
        spawned is Some <==> shape != BodyShape::Other,
        spawned is Some ==> spawned->0.ground_detection_entity == entity
            && spawned->0.overlaps() == Set::<u64>::empty(),
{
    match shape {
        BodyShape::Cuboid => Some(GroundSensor::new(entity)),
        BodyShape::Sphere => Some(GroundSensor::new(entity)),
        BodyShape::Other => None,
    }
}

/// `after` is the sensor `before` once the events are applied to it.
pub open spec fn follows_events(
    before: SensorEntity,
    after: SensorEntity,
    events: Seq<CollisionEvent>,
    bodies: Map<u64, RigidBody>,
) -> bool {
    &&& after.entity == before.entity
    &&& after.sensor.ground_detection_entity == before.sensor.ground_detection_entity
    &&& after.sensor.overlaps() == after_events(
        before.sensor.overlaps(),
        before.entity,
        events,
        bodies,
    )
}

/// Applies the events to the sensor at index `i`, and gives the ground flag
/// of its owner.
fn track_at(
    ground_sensors: &mut Vec<SensorEntity>,
    i: usize,
    collisions: &Vec<CollisionEvent>,
    rigid_bodies: &HashMap<u64, RigidBody>,
) -> (update: GroundUpdate)
    requires
        i < old(ground_sensors).len(),
        events_resolve(collisions@, rigid_bodies@),
    ensures
        final(ground_sensors).len() == old(ground_sensors).len(),
        forall|k: int|
            0 <= k < old(ground_sensors).len() && k != i ==> #[trigger] final(ground_sensors)[k]
                == old(ground_sensors)[k],
        follows_events(
            old(ground_sensors)[i as int],
            final(ground_sensors)[i as int],
            collisions@,
            rigid_bodies@,
        ),
        update.entity == final(ground_sensors)[i as int].sensor.ground_detection_entity,
        update.detection.on_ground == !final(ground_sensors)[i as int].sensor.overlaps().is_empty(),
{
    let entry = &mut ground_sensors[i];
    let detection = entry.sensor.track(entry.entity, collisions, rigid_bodies);
    GroundUpdate { entity: entry.sensor.ground_detection_entity, detection }
}

/// Drains the frame's overlap events into every sensor, and gives the
/// ground flag of each sensor's owner, in the order of the sensors: an
/// owner stands on the ground while its sensor overlaps anything.
///
/// The events must resolve ([`collisions_resolve`] tells): a start event
/// that names a body without a rigid body, on either side, is no input to
/// this function.
pub fn ground_detection(
    ground_sensors: &mut Vec<SensorEntity>,
    collisions: &Vec<CollisionEvent>,
    rigid_bodies: &HashMap<u64, RigidBody>,
) -> (updates: Vec<GroundUpdate>)
    requires
        events_resolve(collisions@, rigid_bodies@),
    ensures
        final(ground_sensors).len() == old(ground_sensors).len(),
        updates.len() == old(ground_sensors).len(),
        forall|k: int|
            #![trigger updates[k]]
            #![trigger final(ground_sensors)[k]]
            0 <= k < updates.len() ==> {
                &&& follows_events(
                    old(ground_sensors)[k],
                    final(ground_sensors)[k],
                    collisions@,
                    rigid_bodies@,
                )
                &&& updates[k].entity == final(ground_sensors)[k].sensor.ground_detection_entity
                &&& updates[k].detection.on_ground == !final(
                    ground_sensors
                )[k].sensor.overlaps().is_empty()
            },
{
    let mut updates: Vec<GroundUpdate> = Vec::new();
    let mut i: usize = 0;
    while i < ground_sensors.len()
        invariant
            i <= ground_sensors.len(),
            ground_sensors.len() == old(ground_sensors).len(),
            updates.len() == i,
            events_resolve(collisions@, rigid_bodies@),
            forall|k: int|
                i <= k < ground_sensors.len() ==> #[trigger] ground_sensors[k] == old(
                    ground_sensors
                )[k],
            forall|k: int|
                #![trigger updates[k]]
                #![trigger ground_sensors[k]]
                0 <= k < i ==> {
                    &&& follows_events(
                        old(ground_sensors)[k],
                        ground_sensors[k],
                        collisions@,
                        rigid_bodies@,
                    )
                    &&& updates[k].entity == ground_sensors[k].sensor.ground_detection_entity
                    &&& updates[k].detection.on_ground
                        == !ground_sensors[k].sensor.overlaps().is_empty()
                },
        decreases ground_sensors.len() - i,
    {
        let ghost updates_before = updates@;
        let ghost sensors_before = ground_sensors@;
        let update = track_at(ground_sensors, i, collisions, rigid_bodies);
        updates.push(update);
        proof {
            assert forall|k: int| 0 <= k < i implies updates[k] == updates_before[k]
                && ground_sensors[k] == sensors_before[k] by {}
        }
        i = i + 1;
    }
    updates
}

/// A body that is tagged as a sensor never enters an overlap set: if it is
/// not in the set before the events, it is not in it after them.
pub proof fn lemma_sensor_bodies_stay_out(
    overlaps: Set<u64>,
    sensor: u64,
    events: Seq<CollisionEvent>,
    bodies: Map<u64, RigidBody>,
    body: u64,
)
    requires
        bodies.contains_key(body),
        bodies[body] == RigidBody::Sensor,
        !overlaps.contains(body),
    ensures
        !after_events(overlaps, sensor, events, bodies).contains(body),
    decreases events.len(),
{
    if events.len() > 0 {
        lemma_sensor_bodies_stay_out(overlaps, sensor, events.drop_last(), bodies, body);
    }
}

/// A set that holds no body tagged as a sensor holds none after the events
/// either. The set of a new sensor is empty, so it never comes to hold one.
pub proof fn lemma_overlaps_hold_no_sensor(
    overlaps: Set<u64>,
    sensor: u64,
    events: Seq<CollisionEvent>,
    bodies: Map<u64, RigidBody>,
)
    requires
        forall|body: u64|
            overlaps.contains(body) ==> !(bodies.contains_key(body) && bodies[body]
                == RigidBody::Sensor),
    ensures
        forall|body: u64|
            after_events(overlaps, sensor, events, bodies).contains(body) ==> !(
            bodies.contains_key(body) && bodies[body] == RigidBody::Sensor),
    decreases events.len(),
{
    if events.len() > 0 {
        lemma_overlaps_hold_no_sensor(overlaps, sensor, events.drop_last(), bodies);
    }
}

/// Whatever is in the overlap set after the events was in it before, or
/// was named by a start event of this sensor.
pub proof fn lemma_overlaps_come_from_starts(
    overlaps: Set<u64>,
    sensor: u64,
    events: Seq<CollisionEvent>,
    bodies: Map<u64, RigidBody>,
    body: u64,
)
    requires
        after_events(overlaps, sensor, events, bodies).contains(body),
    ensures
        overlaps.contains(body) || exists|i: int|
            0 <= i < events.len() && #[trigger] events[i] == CollisionEvent::Started(sensor, body),
    decreases events.len(),
{
    if events.len() > 0 {
        let earlier = events.drop_last();
        if after_events(overlaps, sensor, earlier, bodies).contains(body) {
            lemma_overlaps_come_from_starts(overlaps, sensor, earlier, bodies, body);
            if !overlaps.contains(body) {
                let i = choose|i: int|
                    0 <= i < earlier.len() && #[trigger] earlier[i] == CollisionEvent::Started(
                        sensor,
                        body,
                    );
                assert(events[i] == earlier[i]);
            }
        } else {
            assert(events[events.len() - 1] == CollisionEvent::Started(sensor, body));
        }
    }
}

/// A second contact holds the ground: when a sensor that overlaps nothing
/// meets `a`, then `b`, and then leaves `a`, it still overlaps `b`, and
/// only `b`; once it leaves `b` too it overlaps nothing.
pub proof fn lemma_second_contact_holds_ground(
    sensor: u64,
    a: u64,
    b: u64,
    bodies: Map<u64, RigidBody>,
)
    requires
        a != b,
        bodies.contains_key(a) && bodies[a] != RigidBody::Sensor,
        bodies.contains_key(b) && bodies[b] != RigidBody::Sensor,
    ensures
        after_events(
            Set::empty(),
            sensor,
            seq![
                CollisionEvent::Started(sensor, a),
                CollisionEvent::Started(sensor, b),
                CollisionEvent::Stopped(sensor, a),
            ],
            bodies,
        ) == set![b],
        after_events(set![b], sensor, seq![CollisionEvent::Stopped(sensor, b)], bodies)
            == Set::<u64>::empty(),
{
    let none = Seq::<CollisionEvent>::empty();
    let one = seq![CollisionEvent::Started(sensor, a)];
    let two = seq![CollisionEvent::Started(sensor, a), CollisionEvent::Started(sensor, b)];
    let three = seq![
        CollisionEvent::Started(sensor, a),
        CollisionEvent::Started(sensor, b),
        CollisionEvent::Stopped(sensor, a),
    ];
    assert(one.drop_last() == none);
    assert(two.drop_last() == one);
    assert(three.drop_last() == two);
    let empty = Set::<u64>::empty();
    assert(after_events(empty, sensor, none, bodies) == empty);
    assert(after_events(empty, sensor, one, bodies) == empty.insert(a));
    assert(after_events(empty, sensor, two, bodies) == empty.insert(a).insert(b));
    assert(after_events(empty, sensor, three, bodies) == empty.insert(a).insert(b).remove(a));
    assert(empty.insert(a).insert(b).remove(a) =~= set![b]);
    let last = seq![CollisionEvent::Stopped(sensor, b)];
    assert(last.drop_last() == none);
    assert(after_events(set![b], sensor, none, bodies) == set![b]);
    assert(set![b].remove(b) =~= empty);
}

} // verus!
