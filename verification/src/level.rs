//! Bringing a level's tiles into the world: which tags a tile code carries,
//! which level a wall tile belongs to, and the colliders of every level.
use crate::state::PauseState;
use crate::walls::{
    covered, is_aggregation, is_plate, is_wall_rect, pairwise_disjoint, wall_cells,
    wall_rectangles, GridCoords, Rect,
};
use std::collections::HashMap;
use vstd::prelude::*;

verus! {

broadcast use vstd::std_specs::hash::group_hash_axioms;

/// The tags that the tile of one grid cell carries.
#[derive(Copy, Clone, Debug, PartialEq, Eq, Hash, Structural)]
pub struct TileTags {
    /// The tile is solid.
    pub wall: bool,
    /// The tile can be climbed.
    pub climbable: bool,
}

/// The tile code of the forest floor: solid.
pub const FOREST_FLOOR: i32 = 1;

/// The tile code of a board: solid, and can be climbed.
pub const BOARD: i32 = 2;

/// The tile code of a tree: solid, and can be climbed.
pub const TREE: i32 = 3;

/// The tags of each tile code. A code that is not in the table has none.
pub open spec fn tags_of(code: int) -> TileTags {
    if code == 1 {
        TileTags { wall: true, climbable: false }
    } else if code == 2 || code == 3 {
        TileTags { wall: true, climbable: true }
    } else {
        TileTags { wall: false, climbable: false }
    }
}

/// The tags for the tile with the given code. An unknown code gives a tile
/// with no tag, which takes no part in anything.
pub fn tile_tags(code: i32) -> (tags: TileTags)
    ensures
        tags == tags_of(code as int),
{
    if code == FOREST_FLOOR {
        TileTags { wall: true, climbable: false }
    } else if code == BOARD || code == TREE {
        TileTags { wall: true, climbable: true }
    } else {
        TileTags { wall: false, climbable: false }
    }
}

/// A wall tile as the world holds it: its cell, and the layer it hangs on.
#[derive(Copy, Clone, Debug, PartialEq, Eq, Hash, Structural)]
pub struct WallTile {
    pub coords: GridCoords,
    /// The layer that owns the tile. The level is the layer's own parent.
    pub parent: u64,
}

/// A level and the size of its grid, in tiles.
#[derive(Copy, Clone, Debug, PartialEq, Eq, Hash, Structural)]
pub struct LevelGrid {
    pub level: u64,
    pub width: i32,
    pub height: i32,
}

/// The collision rectangles of one level. Each becomes a static collider
/// that hangs on the level, and so goes when the level goes.
#[derive(Debug, PartialEq, Eq)]
pub struct LevelColliders {
    pub level: u64,
    pub rects: Vec<Rect>,
}

/// The tile belongs to `level`: its layer is known, and hangs on that level.
pub open spec fn belongs_to(tile: WallTile, parents: Map<u64, u64>, level: u64) -> bool {
    parents.contains_key(tile.parent) && parents[tile.parent] == level
}

/// The cells of the wall tiles that belong to `level`, in the order of
/// `tiles`. A tile whose layer is unknown belongs to no level.
pub open spec fn level_walls(tiles: Seq<WallTile>, parents: Map<u64, u64>, level: u64) -> Seq<
    GridCoords,
>
    decreases tiles.len(),
{
    if tiles.len() == 0 {
        Seq::empty()
    } else {
        let below = level_walls(tiles.drop_last(), parents, level);
        if belongs_to(tiles.last(), parents, level) {
            below.push(tiles.last().coords)
        } else {
            below
        }
    }
}

/// The wall tiles, grouped by the level they belong to, in one pass over
/// them. A level has an entry exactly if a tile belongs to it, and the
/// entry holds the cells of its tiles in the order of `tiles`. `parents`
/// gives the level of each layer; a tile whose layer is unknown is dropped.
pub fn group_walls(tiles: &Vec<WallTile>, parents: &HashMap<u64, u64>) -> (groups: HashMap<
    u64,
    Vec<GridCoords>,
>)
    ensures
        forall|level: u64| #[trigger]
            groups@.contains_key(level) <==> level_walls(tiles@, parents@, level).len() > 0,
        forall|level: u64| #[trigger]
            groups@.contains_key(level) ==> groups@[level]@ == level_walls(
                tiles@,
                parents@,
                level,
            ),
{
    let mut groups: HashMap<u64, Vec<GridCoords>> = HashMap::new();
    let mut n: usize = 0;
    while n < tiles.len()
        invariant
            n <= tiles.len(),
            forall|level: u64| #[trigger]
                groups@.contains_key(level) <==> level_walls(
                    tiles@.take(n as int),
                    parents@,
                    level,
                ).len() > 0,
            forall|level: u64| #[trigger]
                groups@.contains_key(level) ==> groups@[level]@ == level_walls(
                    tiles@.take(n as int),
                    parents@,
                    level,
                ),
        decreases tiles.len() - n,
    {
        let tile = tiles[n];
        let ghost before = groups@;
        proof {
            let longer = tiles@.take(n as int + 1);
            assert(longer.drop_last() == tiles@.take(n as int));
            assert(longer.last() == tile);
        }
        match parents.get(&tile.parent) {
            Some(owner) => {
                let level = *owner;
                let mut walls = match groups.remove(&level) {
                    Some(walls) => walls,
                    None => Vec::new(),
                };
                walls.push(tile.coords);
                groups.insert(level, walls);
                proof {
                    assert forall|other: u64| #[trigger]
                        groups@.contains_key(other) <==> level_walls(
                            tiles@.take(n as int + 1),
                            parents@,
                            other,
                        ).len() > 0 by {
                        assert(before.contains_key(other) <==> level_walls(
                            tiles@.take(n as int),
                            parents@,
                            other,
                        ).len() > 0);
                    }
                    assert forall|other: u64| #[trigger] groups@.contains_key(other) implies groups@[other]@
                        == level_walls(tiles@.take(n as int + 1), parents@, other) by {
                        assert(before.contains_key(other) <==> level_walls(
                            tiles@.take(n as int),
                            parents@,
                            other,
                        ).len() > 0);
                    }
                }
            },
            None => {
                proof {
                    assert forall|other: u64| #[trigger]
                        groups@.contains_key(other) <==> level_walls(
                            tiles@.take(n as int + 1),
                            parents@,
                            other,
                        ).len() > 0 by {}
                }
            },
        }
        n = n + 1;
    }
    assert(tiles@.take(n as int) == tiles@);
    groups
}

/// Where there is no wall cell there is no rectangle: the empty list is the
/// aggregation of the empty set.
pub proof fn lemma_no_walls_no_rectangles(cells: Set<(int, int)>)
    requires
        forall|c: (int, int)| !cells.contains(c),
    ensures
        is_aggregation(Seq::<Rect>::empty(), cells),
        forall|x: int, y: int| cells.contains((x, y)) <==> covered(Seq::<Rect>::empty(), x, y),
        pairwise_disjoint(Seq::<Rect>::empty()),
{
    let none = Seq::<Rect>::empty();
    assert forall|rect: Rect| #[trigger] none.contains(rect) <==> is_wall_rect(cells, rect) by {
        if is_wall_rect(cells, rect) {
            assert(is_plate(cells, rect.top as int, rect.left as int, rect.right as int));
            assert(cells.contains((rect.left as int, rect.top as int)));
        }
    }
}

/// `colliders` is what the wall tiles give for the level `grid`: the
/// aggregation of the level's own wall cells, which covers them exactly and
/// without overlap.
pub open spec fn colliders_of(
    colliders: LevelColliders,
    tiles: Seq<WallTile>,
    parents: Map<u64, u64>,
    grid: LevelGrid,
) -> bool {
    let cells = wall_cells(
        level_walls(tiles, parents, grid.level),
        grid.width as int,
        grid.height as int,
    );
    &&& colliders.level == grid.level
    &&& is_aggregation(colliders.rects@, cells)
    &&& forall|x: int, y: int| cells.contains((x, y)) <==> covered(colliders.rects@, x, y)
    &&& pairwise_disjoint(colliders.rects@)
}

/// The wall colliders of every level, one entry for each level of `levels`
/// and in their order.
///
/// A wall tile counts for the level on which its layer hangs; a tile whose
/// layer is not in `parents` is dropped. No rectangle spans two levels, and a
/// level without wall tiles gets no rectangle.
pub fn spawn_wall_collision(
    tiles: &Vec<WallTile>,
    parents: &HashMap<u64, u64>,
    levels: &Vec<LevelGrid>,
) -> (spawned: Vec<LevelColliders>)
    ensures
        spawned.len() == levels.len(),
        forall|k: int|
            0 <= k < spawned.len() ==> colliders_of(
                #[trigger] spawned[k],
                tiles@,
                parents@,
                levels[k],
            ),
{
    let groups = group_walls(tiles, parents);
    let mut spawned: Vec<LevelColliders> = Vec::new();
    let mut k: usize = 0;
    while k < levels.len()
        invariant
            k <= levels.len(),
            spawned.len() == k,
            forall|level: u64| #[trigger]
                groups@.contains_key(level) <==> level_walls(tiles@, parents@, level).len() > 0,
            forall|level: u64| #[trigger]
                groups@.contains_key(level) ==> groups@[level]@ == level_walls(
                    tiles@,
                    parents@,
                    level,
                ),
            forall|i: int|
                0 <= i < k ==> colliders_of(#[trigger] spawned[i], tiles@, parents@, levels[i]),
        decreases levels.len() - k,
    {
        let grid = levels[k];
        let rects = match groups.get(&grid.level) {
            Some(walls) => wall_rectangles(walls, grid.width, grid.height),
            None => {
                proof {
                    let walls = level_walls(tiles@, parents@, grid.level);
                    assert(walls.len() == 0);
                    lemma_no_walls_no_rectangles(
                        wall_cells(walls, grid.width as int, grid.height as int),
                    );
                }
                Vec::new()
            },
        };
        let ghost before = spawned@;
        spawned.push(LevelColliders { level: grid.level, rects });
        proof {
            assert forall|i: int| 0 <= i < k + 1 implies colliders_of(
                #[trigger] spawned[i],
                tiles@,
                parents@,
                levels[i],
            ) by {
                if i < k {
                    assert(spawned[i] == before[i]);
                }
            }
        }
        k = k + 1;
    }
    spawned
}

/// What the level loader reports of a level.
#[derive(Copy, Clone, Debug, PartialEq, Eq, Hash, Structural)]
pub enum LevelEvent {
    /// The level is about to be spawned.
    SpawnTriggered,
    /// The level's entities exist.
    Spawned,
    /// The level's entities are in place.
    Transformed,
    /// The level is gone.
    Despawned,
}

/// Whether simulated time runs. While it is frozen the physics layer moves
/// nothing; the frame loop itself goes on.
#[derive(Copy, Clone, Debug, PartialEq, Eq, Hash, Structural)]
pub enum PhysicsClock {
    /// Time scale 0.
    Frozen,
    /// Time scale 1.
    Running,
}

/// The clock after one event: it freezes when a spawn is triggered and
/// runs again once the level is in place.
pub open spec fn clock_after_event(clock: PhysicsClock, event: LevelEvent) -> PhysicsClock {
    match event {
        LevelEvent::SpawnTriggered => PhysicsClock::Frozen,
        LevelEvent::Transformed => PhysicsClock::Running,
        _ => clock,
    }
}

/// The clock after the events, taken in order.
pub open spec fn clock_after(clock: PhysicsClock, events: Seq<LevelEvent>) -> PhysicsClock
    decreases events.len(),
{
    if events.len() == 0 {
        clock
    } else {
        clock_after_event(clock_after(clock, events.drop_last()), events.last())
    }
}

/// Keeps simulated time frozen while a level loads: the clock as the
/// frame's level events leave it.
pub fn pause_physics_during_load(events: &Vec<LevelEvent>, clock: PhysicsClock) -> (now: PhysicsClock)
    ensures
        now == clock_after(clock, events@),
{
    let mut now = clock;
    let mut n: usize = 0;
    while n < events.len()
        invariant
            n <= events.len(),
            now == clock_after(clock, events@.take(n as int)),
        decreases events.len() - n,
    {
        proof {
            let longer = events@.take(n as int + 1);
            assert(longer.drop_last() == events@.take(n as int));
            assert(longer.last() == events[n as int]);
        }
        match events[n] {
            LevelEvent::SpawnTriggered => {
                now = PhysicsClock::Frozen;
            },
            LevelEvent::Transformed => {
                now = PhysicsClock::Running;
            },
            _ => {},
        }
        n = n + 1;
    }
    assert(events@.take(n as int) == events@);
    now
}

/// The clock that goes with a pause state: simulated time stands still
/// while the game is paused.
pub fn physics_clock_for(pause: PauseState) -> (clock: PhysicsClock)
    ensures
        clock == match pause {
            PauseState::Paused => PhysicsClock::Frozen,
            PauseState::UnPaused => PhysicsClock::Running,
        },
{
    match pause {
        PauseState::Paused => PhysicsClock::Frozen,
        PauseState::UnPaused => PhysicsClock::Running,
    }
}

} // verus!
