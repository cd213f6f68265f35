use tane_mahuta::bug::{
    place_bug, spawn_bugs, BugSpawnTimer, Climber, POPULATION_CAP, SPAWN_INTERVAL_NANOS,
};

#[test]
fn cap_and_interval() {
    assert_eq!(POPULATION_CAP, 5);
    assert_eq!(SPAWN_INTERVAL_NANOS, 2_000_000_000);
    let timer = BugSpawnTimer::new();
    assert_eq!(timer.0.duration_nanos(), 2_000_000_000);
    assert_eq!(timer.0.elapsed_nanos(), 0);
}

#[test]
fn a_new_climber_climbs_nothing() {
    let climber = Climber::new();
    assert!(!climber.climbing);
    assert!(climber.intersecting_climbables.is_empty());
}

#[test]
fn nothing_is_spawned_above_the_cap() {
    let spawners = vec![7, 8, 9];
    for population in [6, 7, 100, usize::MAX] {
        let mut timer = BugSpawnTimer::new();
        assert_eq!(spawn_bugs(&mut timer, SPAWN_INTERVAL_NANOS, population, &spawners), None);
        assert!(timer.0.just_finished());
    }
}

#[test]
fn one_bug_is_spawned_below_the_cap() {
    let spawners = vec![7, 8, 9];
    for population in [0, 4, 5] {
        let mut timer = BugSpawnTimer::new();
        let place = spawn_bugs(&mut timer, SPAWN_INTERVAL_NANOS, population, &spawners);
        assert!(spawners.contains(&place.unwrap()));
    }
}

#[test]
fn nothing_is_spawned_before_the_timer_fires() {
    let spawners = vec![7, 8, 9];
    let mut timer = BugSpawnTimer::new();
    assert_eq!(spawn_bugs(&mut timer, 1_999_999_999, 0, &spawners), None);
    assert_eq!(timer.0.elapsed_nanos(), 1_999_999_999);
    assert!(spawn_bugs(&mut timer, 1, 0, &spawners).is_some());
    assert_eq!(timer.0.elapsed_nanos(), 0);
    assert_eq!(spawn_bugs(&mut timer, 1, 0, &spawners), None);
}

#[test]
fn nothing_is_spawned_without_a_spawn_point() {
    let mut timer = BugSpawnTimer::new();
    assert_eq!(spawn_bugs(&mut timer, SPAWN_INTERVAL_NANOS, 0, &Vec::new()), None);
}

#[test]
fn the_only_spawn_point_is_taken() {
    let mut timer = BugSpawnTimer::new();
    assert_eq!(spawn_bugs(&mut timer, SPAWN_INTERVAL_NANOS, 4, &vec![42]), Some(42));
}

#[test]
fn every_spawn_point_gets_its_turn() {
    let spawners = vec![7, 8, 9];
    let mut timer = BugSpawnTimer::new();
    let mut seen = [0usize; 3];
    for _ in 0..600 {
        let place = spawn_bugs(&mut timer, SPAWN_INTERVAL_NANOS, 0, &spawners).unwrap();
        let at = spawners.iter().position(|s| *s == place).unwrap();
        seen[at] += 1;
    }
    assert!(seen.iter().all(|n| *n > 0), "{:?}", seen);
}

#[test]
fn the_place_follows_the_draw() {
    assert_eq!(place_bug(true, 4, &vec![8]), Some(8));
    assert_eq!(place_bug(true, 5, &vec![8, 9]), Some(8));
    assert_eq!(place_bug(true, 6, &vec![8]), None);
    assert_eq!(place_bug(false, 4, &vec![8]), None);
    assert_eq!(place_bug(true, 4, &vec![]), None);
}
