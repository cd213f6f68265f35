use std::collections::HashMap;
use tane_mahuta::level::{
    group_walls, pause_physics_during_load, physics_clock_for, spawn_wall_collision, tile_tags,
    LevelColliders, LevelEvent, LevelGrid, PhysicsClock, TileTags, WallTile, BOARD, FOREST_FLOOR,
    TREE,
};
use tane_mahuta::state::PauseState;
use tane_mahuta::walls::{GridCoords, Rect};

fn wall(x: i32, y: i32, parent: u64) -> WallTile {
    WallTile { coords: GridCoords { x, y }, parent }
}

#[test]
fn tile_codes_and_their_tags() {
    assert_eq!(tile_tags(1), TileTags { wall: true, climbable: false });
    assert_eq!(tile_tags(2), TileTags { wall: true, climbable: true });
    assert_eq!(tile_tags(3), TileTags { wall: true, climbable: true });
    assert_eq!(tile_tags(FOREST_FLOOR), TileTags { wall: true, climbable: false });
    assert_eq!(tile_tags(BOARD), tile_tags(TREE));
}

#[test]
fn unknown_tile_codes_carry_no_tag() {
    for code in [0, 4, -1, 100, i32::MAX, i32::MIN] {
        assert_eq!(tile_tags(code), TileTags { wall: false, climbable: false });
    }
}

#[test]
fn walls_go_to_the_level_of_their_layer() {
    let mut parents = HashMap::new();
    parents.insert(10, 100);
    parents.insert(11, 100);
    parents.insert(20, 200);
    parents.insert(30, 300);
    let tiles = vec![wall(0, 0, 10), wall(1, 0, 20), wall(2, 0, 11), wall(3, 0, 99), wall(4, 0, 10)];
    let groups = group_walls(&tiles, &parents);
    assert_eq!(groups.len(), 2);
    assert_eq!(
        groups[&100],
        vec![GridCoords { x: 0, y: 0 }, GridCoords { x: 2, y: 0 }, GridCoords { x: 4, y: 0 }]
    );
    assert_eq!(groups[&200], vec![GridCoords { x: 1, y: 0 }]);
    assert!(!groups.contains_key(&300));
    assert!(!groups.contains_key(&99));
    assert!(!groups.contains_key(&10));
}

#[test]
fn no_tiles_no_groups() {
    let mut parents = HashMap::new();
    parents.insert(10, 100);
    assert!(group_walls(&Vec::new(), &parents).is_empty());
    assert!(group_walls(&vec![wall(0, 0, 10)], &HashMap::new()).is_empty());
}

#[test]
fn colliders_never_span_two_levels() {
    let mut parents = HashMap::new();
    parents.insert(10, 100);
    parents.insert(20, 200);
    // the same two cells in both levels, and a third cell in the second
    let tiles = vec![
        wall(0, 0, 10),
        wall(1, 0, 10),
        wall(0, 0, 20),
        wall(1, 0, 20),
        wall(2, 0, 20),
        wall(0, 1, 77),
    ];
    let levels = vec![
        LevelGrid { level: 100, width: 4, height: 2 },
        LevelGrid { level: 200, width: 4, height: 2 },
        LevelGrid { level: 300, width: 4, height: 2 },
    ];
    let spawned = spawn_wall_collision(&tiles, &parents, &levels);
    assert_eq!(
        spawned,
        vec![
            LevelColliders {
                level: 100,
                rects: vec![Rect { left: 0, right: 1, top: 0, bottom: 0 }]
            },
            LevelColliders {
                level: 200,
                rects: vec![Rect { left: 0, right: 2, top: 0, bottom: 0 }]
            },
            LevelColliders { level: 300, rects: vec![] },
        ]
    );
}

#[test]
fn no_wall_tiles_no_colliders() {
    let parents = HashMap::new();
    let levels = vec![LevelGrid { level: 1, width: 3, height: 3 }];
    let spawned = spawn_wall_collision(&Vec::new(), &parents, &levels);
    assert_eq!(spawned, vec![LevelColliders { level: 1, rects: vec![] }]);
    assert_eq!(spawn_wall_collision(&Vec::new(), &parents, &Vec::new()), vec![]);
}

#[test]
fn physics_stands_still_while_a_level_loads() {
    assert_eq!(
        pause_physics_during_load(&vec![LevelEvent::SpawnTriggered], PhysicsClock::Running),
        PhysicsClock::Frozen
    );
    assert_eq!(
        pause_physics_during_load(&vec![LevelEvent::SpawnTriggered, LevelEvent::Spawned], PhysicsClock::Running),
        PhysicsClock::Frozen
    );
    assert_eq!(
        pause_physics_during_load(&vec![LevelEvent::SpawnTriggered, LevelEvent::Spawned, LevelEvent::Transformed], PhysicsClock::Running),
        PhysicsClock::Running
    );
    assert_eq!(
        pause_physics_during_load(&vec![LevelEvent::Transformed, LevelEvent::SpawnTriggered], PhysicsClock::Running),
        PhysicsClock::Frozen
    );
    assert_eq!(pause_physics_during_load(&vec![], PhysicsClock::Frozen), PhysicsClock::Frozen);
    assert_eq!(
        pause_physics_during_load(&vec![LevelEvent::Spawned, LevelEvent::Despawned], PhysicsClock::Running),
        PhysicsClock::Running
    );
}

#[test]
fn physics_stands_still_while_paused() {
    assert_eq!(physics_clock_for(PauseState::Paused), PhysicsClock::Frozen);
    assert_eq!(physics_clock_for(PauseState::UnPaused), PhysicsClock::Running);
}
