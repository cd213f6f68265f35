use std::collections::{HashMap, HashSet};
use tane_mahuta::sensor::{
    collisions_resolve, ground_detection, spawn_ground_sensor, BodyShape, CollisionEvent,
    GroundDetection, GroundSensor, GroundUpdate, RigidBody, SensorEntity,
};

const SENSOR: u64 = 1;
const OWNER: u64 = 2;
const A: u64 = 10;
const B: u64 = 11;
const OTHER_SENSOR: u64 = 12;

fn bodies() -> HashMap<u64, RigidBody> {
    let mut bodies = HashMap::new();
    bodies.insert(SENSOR, RigidBody::Sensor);
    bodies.insert(OWNER, RigidBody::Dynamic);
    bodies.insert(A, RigidBody::Static);
    bodies.insert(B, RigidBody::Dynamic);
    bodies.insert(OTHER_SENSOR, RigidBody::Sensor);
    bodies
}

fn set(items: &[u64]) -> HashSet<u64> {
    items.iter().copied().collect()
}

#[test]
fn a_new_sensor_overlaps_nothing() {
    let sensor = GroundSensor::new(OWNER);
    assert_eq!(sensor.ground_detection_entity, OWNER);
    assert!(sensor.intersecting_ground_entities.is_empty());
    assert!(!sensor.on_ground());
}

#[test]
fn only_boxes_and_balls_get_a_sensor() {
    let spawned = spawn_ground_sensor(OWNER, BodyShape::Cuboid).unwrap();
    assert_eq!(spawned.ground_detection_entity, OWNER);
    assert!(spawned.intersecting_ground_entities.is_empty());
    let spawned = spawn_ground_sensor(7, BodyShape::Sphere).unwrap();
    assert_eq!(spawned.ground_detection_entity, 7);
    assert!(spawned.intersecting_ground_entities.is_empty());
    assert!(spawn_ground_sensor(OWNER, BodyShape::Other).is_none());
}

#[test]
fn ground_is_held_until_the_last_contact_stops() {
    let bodies = bodies();
    let mut sensor = GroundSensor::new(OWNER);

    let d = sensor.track(SENSOR, &vec![CollisionEvent::Started(SENSOR, A)], &bodies);
    assert!(d.on_ground);
    assert_eq!(sensor.intersecting_ground_entities, set(&[A]));

    let d = sensor.track(SENSOR, &vec![CollisionEvent::Started(SENSOR, B)], &bodies);
    assert!(d.on_ground);
    assert_eq!(sensor.intersecting_ground_entities, set(&[A, B]));

    let d = sensor.track(SENSOR, &vec![CollisionEvent::Stopped(SENSOR, A)], &bodies);
    assert!(d.on_ground);
    assert_eq!(sensor.intersecting_ground_entities, set(&[B]));

    let d = sensor.track(SENSOR, &vec![CollisionEvent::Stopped(SENSOR, B)], &bodies);
    assert!(!d.on_ground);
    assert!(sensor.intersecting_ground_entities.is_empty());
    assert_eq!(sensor.ground_detection_entity, OWNER);
}

#[test]
fn events_of_one_frame_apply_in_order() {
    let bodies = bodies();
    let mut sensor = GroundSensor::new(OWNER);
    let events = vec![
        CollisionEvent::Started(SENSOR, A),
        CollisionEvent::Started(SENSOR, B),
        CollisionEvent::Stopped(SENSOR, A),
    ];
    let d = sensor.track(SENSOR, &events, &bodies);
    assert_eq!(d, GroundDetection { on_ground: true });
    assert_eq!(sensor.intersecting_ground_entities, set(&[B]));

    let mut sensor = GroundSensor::new(OWNER);
    let events = vec![CollisionEvent::Stopped(SENSOR, A), CollisionEvent::Started(SENSOR, A)];
    assert!(sensor.track(SENSOR, &events, &bodies).on_ground);
    let events = vec![CollisionEvent::Started(SENSOR, A), CollisionEvent::Stopped(SENSOR, A)];
    assert!(!sensor.track(SENSOR, &events, &bodies).on_ground);
}

#[test]
fn a_sensor_is_no_ground_for_a_sensor() {
    let bodies = bodies();
    let mut sensor = GroundSensor::new(OWNER);
    let d = sensor.track(SENSOR, &vec![CollisionEvent::Started(SENSOR, OTHER_SENSOR)], &bodies);
    assert!(!d.on_ground);
    assert!(sensor.intersecting_ground_entities.is_empty());

    let events = vec![
        CollisionEvent::Started(SENSOR, OTHER_SENSOR),
        CollisionEvent::Started(SENSOR, A),
        CollisionEvent::Started(SENSOR, OTHER_SENSOR),
    ];
    assert!(sensor.track(SENSOR, &events, &bodies).on_ground);
    assert_eq!(sensor.intersecting_ground_entities, set(&[A]));
}

#[test]
fn a_start_that_repeats_counts_once() {
    let bodies = bodies();
    let mut sensor = GroundSensor::new(OWNER);
    let events = vec![
        CollisionEvent::Started(SENSOR, A),
        CollisionEvent::Started(SENSOR, A),
        CollisionEvent::Stopped(SENSOR, A),
    ];
    assert!(!sensor.track(SENSOR, &events, &bodies).on_ground);
    assert!(sensor.intersecting_ground_entities.is_empty());
}

#[test]
fn events_of_other_sensors_change_nothing() {
    let bodies = bodies();
    let mut sensor = GroundSensor::new(OWNER);
    sensor.track(SENSOR, &vec![CollisionEvent::Started(SENSOR, A)], &bodies);
    let events = vec![
        CollisionEvent::Started(OTHER_SENSOR, B),
        CollisionEvent::Stopped(OTHER_SENSOR, A),
        CollisionEvent::Started(A, SENSOR),
        CollisionEvent::Stopped(A, SENSOR),
    ];
    assert!(sensor.track(SENSOR, &events, &bodies).on_ground);
    assert_eq!(sensor.intersecting_ground_entities, set(&[A]));
}

#[test]
fn a_stop_removes_whatever_the_kind() {
    let bodies = bodies();
    let mut sensor = GroundSensor {
        ground_detection_entity: OWNER,
        intersecting_ground_entities: set(&[OTHER_SENSOR, 999]),
    };
    let events =
        vec![CollisionEvent::Stopped(SENSOR, OTHER_SENSOR), CollisionEvent::Stopped(SENSOR, 999)];
    assert!(!sensor.track(SENSOR, &events, &bodies).on_ground);
    assert!(sensor.intersecting_ground_entities.is_empty());
}

#[test]
fn a_start_without_a_rigid_body_does_not_resolve() {
    let bodies = bodies();
    assert!(collisions_resolve(&vec![], &bodies));
    assert!(collisions_resolve(
        &vec![CollisionEvent::Started(SENSOR, A), CollisionEvent::Stopped(SENSOR, 999)],
        &bodies
    ));
    assert!(!collisions_resolve(&vec![CollisionEvent::Started(999, A)], &bodies));
    assert!(!collisions_resolve(&vec![CollisionEvent::Started(999, 998)], &bodies));
    assert!(collisions_resolve(&vec![CollisionEvent::Stopped(999, 998)], &bodies));
    assert!(!collisions_resolve(&vec![CollisionEvent::Started(SENSOR, 999)], &bodies));
    assert!(!collisions_resolve(
        &vec![CollisionEvent::Started(SENSOR, A), CollisionEvent::Started(OTHER_SENSOR, 999)],
        &bodies
    ));
}

#[test]
fn every_sensor_sees_every_event() {
    let bodies = bodies();
    let mut sensors = vec![
        SensorEntity { entity: SENSOR, sensor: GroundSensor::new(OWNER) },
        SensorEntity { entity: OTHER_SENSOR, sensor: GroundSensor::new(B) },
        SensorEntity { entity: 50, sensor: GroundSensor::new(51) },
    ];
    let events = vec![
        CollisionEvent::Started(SENSOR, A),
        CollisionEvent::Started(OTHER_SENSOR, A),
        CollisionEvent::Started(OTHER_SENSOR, OWNER),
        CollisionEvent::Stopped(OTHER_SENSOR, A),
    ];
    let updates = ground_detection(&mut sensors, &events, &bodies);
    assert_eq!(
        updates,
        vec![
            GroundUpdate { entity: OWNER, detection: GroundDetection { on_ground: true } },
            GroundUpdate { entity: B, detection: GroundDetection { on_ground: true } },
            GroundUpdate { entity: 51, detection: GroundDetection { on_ground: false } },
        ]
    );
    assert_eq!(sensors.len(), 3);
    assert_eq!(sensors[0].entity, SENSOR);
    assert_eq!(sensors[0].sensor.intersecting_ground_entities, set(&[A]));
    assert_eq!(sensors[1].sensor.intersecting_ground_entities, set(&[OWNER]));
    assert!(sensors[2].sensor.intersecting_ground_entities.is_empty());

    let updates = ground_detection(&mut sensors, &vec![CollisionEvent::Stopped(SENSOR, A)], &bodies);
    assert_eq!(updates[0], GroundUpdate { entity: OWNER, detection: GroundDetection { on_ground: false } });
    assert_eq!(updates[1], GroundUpdate { entity: B, detection: GroundDetection { on_ground: true } });
}

#[test]
fn no_sensors_no_updates() {
    let bodies = bodies();
    let mut sensors: Vec<SensorEntity> = Vec::new();
    let updates = ground_detection(&mut sensors, &vec![CollisionEvent::Started(SENSOR, A)], &bodies);
    assert!(updates.is_empty());
}
