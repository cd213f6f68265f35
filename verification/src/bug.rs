//! Bugs: where and when a new one comes into the level.
use crate::timer::FrameTimer;
use rand::seq::IteratorRandom;
use std::collections::HashSet;
use vstd::prelude::*;

verus! {

/// The population above which no bug is spawned.
pub const POPULATION_CAP: usize = 5;

/// The time from one spawn attempt to the next: 2 seconds.
pub const SPAWN_INTERVAL_NANOS: u64 = 2_000_000_000;

/// The timer that paces the spawning of bugs.
pub struct BugSpawnTimer(pub FrameTimer);

/// What a creature that climbs keeps track of: whether it climbs, and the
/// climbable volumes it overlaps at the moment.
pub struct Climber {
    pub climbing: bool,
    pub intersecting_climbables: HashSet<u64>,
}

impl BugSpawnTimer {
    /// A spawn timer at its start.
    pub fn new() -> (timer: BugSpawnTimer)
        ensures
            timer.0.wf(),
            timer.0.duration() == SPAWN_INTERVAL_NANOS,
            timer.0.elapsed() == 0,
            !timer.0.finished(),
    {
        BugSpawnTimer(FrameTimer::with_duration(SPAWN_INTERVAL_NANOS))
    }
}

impl Climber {
    /// A climber that does not climb and overlaps nothing.
    pub fn new() -> (climber: Climber)
        ensures
            !climber.climbing,
            climber.intersecting_climbables@ == Set::<u64>::empty(),
    {
        Climber { climbing: false, intersecting_climbables: HashSet::new() }
    }
}

/// Draws one spawn point at random, with `IteratorRandom::choose_multiple`
/// of the `rand` crate and the thread's own generator.
///
/// Claimed of it: where there is a spawn point it hands back exactly one,
/// where there is none it hands back nothing, and what it hands back is
/// among the spawn points given. Which one it is is up to chance, and
/// nothing is said of that.
#[verifier::external_body]
fn choose_spawner(spawners: &Vec<u64>) -> (chosen: Vec<u64>)
    ensures
        chosen@.len() == if spawners@.len() == 0 {
            0int
        } else {
            1int
        },
        forall|i: int| 0 <= i < chosen@.len() ==> spawners@.contains(#[trigger] chosen@[i]),
{
    let mut rng = rand::thread_rng();
    spawners.iter().copied().choose_multiple(&mut rng, 1)
}

/// Whether a spawn is due: the timer fired, and the population does not
/// exceed the cap.
pub open spec fn spawn_due(fired: bool, population: usize) -> bool {
    fired && population <= POPULATION_CAP
}

/// Where the new bug goes, once the draw among the spawn points is made:
/// to the spawn point drawn, if a spawn is due and a spawn point was drawn.
/// Above the cap nothing is spawned in this cycle, and nothing is queued.
pub fn place_bug(fired: bool, population: usize, chosen: &Vec<u64>) -> (place: Option<u64>)
    ensures
        place == if spawn_due(fired, population) && chosen@.len() > 0 {
            Some(chosen@[0])
        } else {
            None
        },
{
    if fired && population <= POPULATION_CAP && chosen.len() > 0 {
        Some(chosen[0])
    } else {
        None
    }
}

/// Advances the spawn timer by one frame and, when it fires, spawns at
/// most one bug: the result is the spawn point at which the new bug goes.
///
/// A bug is spawned exactly when the timer fires, the population does not
/// exceed the cap and there is a spawn point; it goes to one of the spawn
/// points, drawn at random.
pub fn spawn_bugs(
    timer: &mut BugSpawnTimer,
    delta_nanos: u64,
    population: usize,
    spawners: &Vec<u64>,
) -> (place: Option<u64>)
    requires
        old(timer).0.wf(),
    ensures
        final(timer).0 == old(timer).0.ticked(delta_nanos),
        final(timer).0.wf(),
        place is Some <==> spawn_due(old(timer).0.fires(delta_nanos), population)
            && spawners@.len() > 0,
        place is Some ==> spawners@.contains(place->0),
{
    let fired = timer.0.tick(delta_nanos);
    if fired && population <= POPULATION_CAP {
        let chosen = choose_spawner(spawners);
        place_bug(fired, population, &chosen)
    } else {
        None
    }
}

} // verus!
