//! The kiwi: how input moves it, how long a peck lasts, and which frame of
//! its sprite sheet shows.
use crate::timer::FrameTimer;
use vstd::prelude::*;

verus! {

/// The horizontal speed of a walking kiwi.
pub const KIWI_SPEED: i32 = 60;

/// How long a peck lasts: 1.5 seconds.
pub const PECK_DWELL_NANOS: u64 = 1_500_000_000;

/// How long one frame of an animation shows: 0.1 seconds.
pub const FRAME_NANOS: u64 = 100_000_000;

/// The frame that shows while the kiwi stands idle.
pub const IDLE_FRAME: usize = 0;

/// The first of the three frames of the peck.
pub const PECK_FRAMES_START: usize = 3;

/// The first of the four frames of the walk.
pub const WALK_FRAMES_START: usize = 6;

/// What the player can ask of the kiwi.
#[derive(Copy, Clone, Debug, PartialEq, Eq, Hash, Structural)]
pub enum KiwiAction {
    Up,
    Down,
    Left,
    Right,
    Peck,
}

/// Which actions are held down in this frame.
#[derive(Copy, Clone, Debug, PartialEq, Eq, Hash, Structural)]
pub struct ActionState {
    pub up: bool,
    pub down: bool,
    pub left: bool,
    pub right: bool,
    pub peck: bool,
}

/// What the kiwi is busy with, apart from walking.
#[derive(Copy, Clone, Debug, PartialEq, Eq, Hash, Structural)]
pub enum KiwiPeckState {
    Pecking,
    Idle,
}

/// The direction of the kiwi's horizontal velocity.
#[derive(Copy, Clone, Debug, PartialEq, Eq, Hash, Structural)]
pub enum Heading {
    Left,
    Right,
    Still,
}

/// What the kiwi's sprite shows: a frame of the sheet, mirrored or not.
#[derive(Copy, Clone, Debug, PartialEq, Eq, Hash, Structural)]
pub struct KiwiSprite {
    pub index: usize,
    /// Set while the kiwi faces left.
    pub flip_x: bool,
}

/// What one pass of the movement system leaves behind.
#[derive(Copy, Clone, Debug, PartialEq, Eq, Hash, Structural)]
pub struct Motion {
    pub peck_state: KiwiPeckState,
    /// The horizontal velocity: `-KIWI_SPEED`, 0 or `KIWI_SPEED`.
    pub velocity_x: i32,
}

impl ActionState {
    /// No action is held down.
    pub fn released() -> (state: ActionState)
        ensures
            state == (ActionState {
                up: false,
                down: false,
                left: false,
                right: false,
                peck: false,
            }),
    {
        ActionState { up: false, down: false, left: false, right: false, peck: false }
    }

    /// Whether `action` is held down.
    pub open spec fn holds(self, action: KiwiAction) -> bool {
        match action {
            KiwiAction::Up => self.up,
            KiwiAction::Down => self.down,
            KiwiAction::Left => self.left,
            KiwiAction::Right => self.right,
            KiwiAction::Peck => self.peck,
        }
    }

    /// Whether `action` is held down.
    pub fn pressed(&self, action: KiwiAction) -> (held: bool)
        ensures
            held == self.holds(action),
    {
        match action {
            KiwiAction::Up => self.up,
            KiwiAction::Down => self.down,
            KiwiAction::Left => self.left,
            KiwiAction::Right => self.right,
            KiwiAction::Peck => self.peck,
        }
    }
}

/// The direction that the held keys ask for: 1 to the right, -1 to the
/// left, 0 where both or neither are held.
pub open spec fn steering(actions: ActionState) -> int {
    (if actions.right {
        1int
    } else {
        0int
    }) - (if actions.left {
        1int
    } else {
        0int
    })
}

/// The kiwi pecks after this pass: it did before, or peck is held.
pub open spec fn pecks(actions: ActionState, peck_state: KiwiPeckState) -> bool {
    peck_state == KiwiPeckState::Pecking || actions.peck
}

/// Turns the held keys into a velocity. A pecking kiwi stands still, and
/// peck takes effect in the pass in which it is pressed: the new state and
/// the zero velocity come out together, whatever else is held.
pub fn movement(actions: &ActionState, peck_state: KiwiPeckState) -> (motion: Motion)
    ensures
        motion.peck_state == if pecks(*actions, peck_state) {
            KiwiPeckState::Pecking
        } else {
            KiwiPeckState::Idle
        },
        motion.velocity_x == if pecks(*actions, peck_state) {
            0
        } else {
            KIWI_SPEED * steering(*actions)
        },
        actions.peck ==> motion.peck_state == KiwiPeckState::Pecking && motion.velocity_x == 0,
{
    let right: i32 = if actions.pressed(KiwiAction::Right) {
        1
    } else {
        0
    };
    let left: i32 = if actions.pressed(KiwiAction::Left) {
        1
    } else {
        0
    };
    let mut motion = Motion { peck_state, velocity_x: 0 };
    if peck_state != KiwiPeckState::Pecking {
        motion.velocity_x = (right - left) * KIWI_SPEED;
    }
    if actions.pressed(KiwiAction::Peck) {
        motion.peck_state = KiwiPeckState::Pecking;
        motion.velocity_x = 0;
    }
    motion
}

/// The timer that paces the animation.
pub fn animation_timer() -> (timer: FrameTimer)
    ensures
        timer.wf(),
        timer.duration() == FRAME_NANOS,
        timer.elapsed() == 0,
        !timer.finished(),
{
    FrameTimer::with_duration(FRAME_NANOS)
}

/// The time for which a kiwi has been pecking, in nanoseconds. Each kiwi
/// has its own, and it stands at 0 while the kiwi does not peck.
#[derive(Copy, Clone, Debug, PartialEq, Eq, Hash, Structural)]
pub struct PeckStateTimer {
    elapsed: u64,
}

impl PeckStateTimer {
    /// The time for which the peck has lasted.
    pub closed spec fn elapsed(self) -> nat {
        self.elapsed as nat
    }

    /// The peck has lasted less than its dwell.
    pub open spec fn wf(self) -> bool {
        self.elapsed() < PECK_DWELL_NANOS
    }

    /// The timer of a kiwi that does not peck.
    pub fn new() -> (timer: PeckStateTimer)
        ensures
            timer.wf(),
            timer.elapsed() == 0,
    {
        PeckStateTimer { elapsed: 0 }
    }

    /// The time for which the peck has lasted, in nanoseconds.
    pub fn elapsed_nanos(&self) -> (nanos: u64)
        ensures
            nanos == self.elapsed(),
    {
        self.elapsed
    }
}

/// Whether a pass of `delta` leaves the kiwi pecking: it pecks, and with
/// this pass the peck has still lasted less than its dwell.
pub open spec fn peck_goes_on(elapsed: nat, peck_state: KiwiPeckState, delta: u64) -> bool {
    peck_state == KiwiPeckState::Pecking && elapsed + delta < PECK_DWELL_NANOS
}

/// The time on the peck timer after a pass of `delta`: the time of the pass
/// is added while the peck goes on, and the timer stands at 0 otherwise.
pub open spec fn dwell_after(elapsed: nat, peck_state: KiwiPeckState, delta: u64) -> nat {
    if peck_goes_on(elapsed, peck_state, delta) {
        elapsed + delta as nat
    } else {
        0
    }
}

/// The peck state after a pass of `delta`.
pub open spec fn peck_after(elapsed: nat, peck_state: KiwiPeckState, delta: u64) -> KiwiPeckState {
    if peck_goes_on(elapsed, peck_state, delta) {
        KiwiPeckState::Pecking
    } else {
        KiwiPeckState::Idle
    }
}

/// The time of all the passes together.
pub open spec fn total(deltas: Seq<u64>) -> nat
    decreases deltas.len(),
{
    if deltas.len() == 0 {
        0
    } else {
        total(deltas.drop_last()) + deltas.last() as nat
    }
}

/// The time on the peck timer and the peck state after the passes, taken in
/// order, while nothing else touches either: peck is not pressed anew.
pub open spec fn after_passes(elapsed: nat, peck_state: KiwiPeckState, deltas: Seq<u64>) -> (
    nat,
    KiwiPeckState,
)
    decreases deltas.len(),
{
    if deltas.len() == 0 {
        (elapsed, peck_state)
    } else {
        let before = after_passes(elapsed, peck_state, deltas.drop_last());
        (
            dwell_after(before.0, before.1, deltas.last()),
            peck_after(before.0, before.1, deltas.last()),
        )
    }
}

/// The passes of a beginning take no longer than all the passes.
proof fn lemma_total_grows(deltas: Seq<u64>, k: int)
    requires
        0 <= k <= deltas.len(),
    ensures
        total(deltas.take(k)) <= total(deltas),
    decreases deltas.len(),
{
    if k == deltas.len() {
        assert(deltas.take(k) == deltas);
    } else {
        assert(deltas.drop_last().take(k) == deltas.take(k));
        lemma_total_grows(deltas.drop_last(), k);
    }
}

/// A peck that begins with the timer at 0 goes on for as long as the
/// passes together stay below the dwell, and the timer shows their sum.
proof fn lemma_peck_goes_on(deltas: Seq<u64>)
    requires
        total(deltas) < PECK_DWELL_NANOS,
    ensures
        after_passes(0, KiwiPeckState::Pecking, deltas) == (total(deltas), KiwiPeckState::Pecking),
    decreases deltas.len(),
{
    if deltas.len() > 0 {
        lemma_peck_goes_on(deltas.drop_last());
    }
}

/// A peck lasts exactly its dwell. Of a peck that begins with the timer at
/// 0, where the passes before the last one together stay below the dwell:
/// no pass before the last one ends it, and the last one ends it exactly
/// when the passes together reach the dwell. So the peck ends in the first
/// pass with which the time since its beginning reaches 1.5 seconds.
pub proof fn lemma_peck_lasts_its_dwell(deltas: Seq<u64>)
    requires
        deltas.len() > 0,
        total(deltas.drop_last()) < PECK_DWELL_NANOS,
    ensures
        forall|k: int|
            0 <= k < deltas.len() ==> #[trigger] after_passes(
                0,
                KiwiPeckState::Pecking,
                deltas.take(k),
            ) == (total(deltas.take(k)), KiwiPeckState::Pecking),
        after_passes(0, KiwiPeckState::Pecking, deltas) == if total(deltas) >= PECK_DWELL_NANOS {
            (0nat, KiwiPeckState::Idle)
        } else {
            (total(deltas), KiwiPeckState::Pecking)
        },
{
    let earlier = deltas.drop_last();
    assert forall|k: int| 0 <= k < deltas.len() implies #[trigger] after_passes(
        0,
        KiwiPeckState::Pecking,
        deltas.take(k),
    ) == (total(deltas.take(k)), KiwiPeckState::Pecking) by {
        assert(earlier.take(k) == deltas.take(k));
        lemma_total_grows(earlier, k);
        lemma_peck_goes_on(deltas.take(k));
    }
    lemma_peck_goes_on(earlier);
}

/// Advances the peck of one kiwi by one frame.
///
/// While the kiwi is idle its timer stands at 0, so that a peck begins at
/// 0. While it pecks the time of the frame is added, and once the peck has
/// lasted its dwell the kiwi is idle again, shows the idle frame, and the
/// timer is set back. Whether a key is held plays no part.
pub fn kiwi_peck_tracker(
    timer: &mut PeckStateTimer,
    delta_nanos: u64,
    peck_state: &mut KiwiPeckState,
    sprite: &mut KiwiSprite,
)
    requires
        old(timer).wf(),
    ensures
        final(timer).wf(),
        final(timer).elapsed() == dwell_after(old(timer).elapsed(), *old(peck_state), delta_nanos),
        *final(peck_state) == peck_after(old(timer).elapsed(), *old(peck_state), delta_nanos),
        *final(sprite) == if *old(peck_state) == KiwiPeckState::Pecking && !peck_goes_on(
            old(timer).elapsed(),
            *old(peck_state),
            delta_nanos,
        ) {
            KiwiSprite { index: IDLE_FRAME, flip_x: old(sprite).flip_x }
        } else {
            *old(sprite)
        },
        *old(peck_state) == KiwiPeckState::Idle ==> final(timer).elapsed() == 0 && *final(peck_state) == KiwiPeckState::Idle,
        *old(peck_state) == KiwiPeckState::Pecking && old(timer).elapsed() + delta_nanos
            < PECK_DWELL_NANOS ==> final(timer).elapsed() == old(timer).elapsed() + delta_nanos
            && *final(peck_state) == KiwiPeckState::Pecking,
        *old(peck_state) == KiwiPeckState::Pecking && old(timer).elapsed() + delta_nanos
            >= PECK_DWELL_NANOS ==> final(timer).elapsed() == 0 && *final(peck_state)
            == KiwiPeckState::Idle && final(sprite).index == IDLE_FRAME,
{
    if *peck_state == KiwiPeckState::Pecking {
        if delta_nanos >= PECK_DWELL_NANOS - timer.elapsed {
            timer.elapsed = 0;
            *peck_state = KiwiPeckState::Idle;
            sprite.index = IDLE_FRAME;
        } else {
            timer.elapsed = timer.elapsed + delta_nanos;
        }
    } else {
        timer.elapsed = 0;
    }
}

/// The frame that `step` places after `index` in the cycle of `length`
/// frames that starts at `first`. A frame outside the cycle is followed by
/// the first frame of the cycle.
pub open spec fn cycled(index: int, step: int, first: int, length: int) -> int {
    if first <= index < first + length {
        first + (index - first + step) % length
    } else {
        first
    }
}

/// The frame that follows `index`, where `step` is 1 when the animation
/// timer expired and 0 when it did not, so that a frame of a cycle holds
/// from one expiry to the next.
///
/// A pecking kiwi cycles through the three frames of the peck, counted by
/// the frame's number: a frame from outside the peck enters the cycle at
/// the place its number gives. A walking kiwi cycles through the four
/// frames of the walk, and enters it at its first frame. A kiwi that
/// neither pecks nor moves shows the idle frame.
pub open spec fn next_frame(
    index: int,
    step: int,
    peck_state: KiwiPeckState,
    heading: Heading,
) -> int {
    if peck_state == KiwiPeckState::Pecking {
        3 + (index + step) % 3
    } else if heading == Heading::Still {
        0
    } else {
        cycled(index, step, 6, 4)
    }
}

/// Between two expiries of the animation timer the frame holds: a frame
/// of the cycle that shows is followed by itself.
pub proof fn lemma_frame_holds(index: int, peck_state: KiwiPeckState, heading: Heading)
    requires
        peck_state == KiwiPeckState::Pecking ==> 3 <= index < 6,
        peck_state != KiwiPeckState::Pecking && heading != Heading::Still ==> 6 <= index < 10,
        peck_state != KiwiPeckState::Pecking && heading == Heading::Still ==> index == 0,
    ensures
        next_frame(index, 0, peck_state, heading) == index,
{
}

/// Whether this pass lets the animation timer run: it stands still for a
/// kiwi that neither pecks nor moves.
pub open spec fn animates(peck_state: KiwiPeckState, heading: Heading) -> bool {
    peck_state == KiwiPeckState::Pecking || heading != Heading::Still
}

/// The frame that `step` places after `index` in the cycle of `length`
/// frames that starts at `first`.
fn cycle(index: usize, step: u8, first: usize, length: usize) -> (frame: usize)
    requires
        step <= 1,
        0 < length <= 4,
        first <= 6,
    ensures
        frame == cycled(index as int, step as int, first as int, length as int),
{
    if index >= first && index - first < length {
        first + (index - first + step as usize) % length
    } else {
        first
    }
}

/// The frame of the peck that `step` places after `index`.
fn peck_frame(index: usize, step: u8) -> (frame: usize)
    requires
        step <= 1,
    ensures
        frame == 3 + (index + step) % 3,
{
    PECK_FRAMES_START + (index % 3 + step as usize) % 3
}

/// Picks the frame and the facing of the kiwi's sprite for this pass.
///
/// While the kiwi pecks or moves, the animation timer runs; each time it
/// expires the frame advances by one within its cycle, and the timer
/// starts over. A kiwi that moves right faces right, one that moves left
/// faces left, and one that does not move keeps the facing it had.
pub fn animate_kiwi(
    timer: &mut FrameTimer,
    delta_nanos: u64,
    heading: Heading,
    peck_state: KiwiPeckState,
    sprite: &mut KiwiSprite,
)
    requires
        old(timer).wf(),
    ensures
        final(timer).wf(),
        *final(timer) == if !animates(peck_state, heading) {
            *old(timer)
        } else if old(timer).fires(delta_nanos) {
            old(timer).ticked(delta_nanos).rewound()
        } else {
            old(timer).ticked(delta_nanos)
        },
        final(sprite).index == next_frame(
            old(sprite).index as int,
            if old(timer).fires(delta_nanos) {
                1
            } else {
                0
            },
            peck_state,
            heading,
        ),
        final(sprite).flip_x == if peck_state == KiwiPeckState::Pecking || heading
            == Heading::Still {
            old(sprite).flip_x
        } else {
            heading == Heading::Left
        },
{
    if peck_state == KiwiPeckState::Pecking {
        let step = advance(timer, delta_nanos);
        sprite.index = peck_frame(sprite.index, step);
    } else {
        match heading {
            Heading::Right => {
                sprite.flip_x = false;
                let step = advance(timer, delta_nanos);
                sprite.index = cycle(sprite.index, step, WALK_FRAMES_START, 4);
            },
            Heading::Left => {
                sprite.flip_x = true;
                let step = advance(timer, delta_nanos);
                sprite.index = cycle(sprite.index, step, WALK_FRAMES_START, 4);
            },
            Heading::Still => {
                sprite.index = IDLE_FRAME;
            },
        }
    }
}

/// Ticks the animation timer and starts it over when it expires. Gives the
/// number of frames to advance by: 1 on expiry, else 0.
fn advance(timer: &mut FrameTimer, delta_nanos: u64) -> (step: u8)
    requires
        old(timer).wf(),
    ensures
        final(timer).wf(),
        step == if old(timer).fires(delta_nanos) {
            1u8
        } else {
            0u8
        },
        *final(timer) == if old(timer).fires(delta_nanos) {
            old(timer).ticked(delta_nanos).rewound()
        } else {
            old(timer).ticked(delta_nanos)
        },
{
    if timer.tick(delta_nanos) {
        timer.reset();
        1
    } else {
        0
    }
}

} // verus!
