//! The states of the game, and which systems run in them.
//!
//! The current states change at one point of the frame only: a system asks
//! for a state, and the request is applied before the next batch of systems
//! runs. Until then every system sees the states as they were.
use vstd::prelude::*;

verus! {

/// The phase of the game as a whole. Exactly one is current at any time.
#[derive(Debug, Clone, Copy, PartialEq, Eq, Hash, Structural)]
pub enum GameState {
    MainMenu,
    Loading,
    GameIntro,
    GamePlaying,
}

/// Whether play is suspended. Independent of [`GameState`].
#[derive(Debug, Clone, Copy, PartialEq, Eq, Hash, Structural)]
pub enum PauseState {
    Paused,
    UnPaused,
}

/// A change of the game state: the exit hooks of `exited` run, then the
/// enter hooks of `entered`, each once.
#[derive(Debug, Clone, Copy, PartialEq, Eq, Hash, Structural)]
pub struct GameTransition {
    pub exited: GameState,
    pub entered: GameState,
}

/// A change of the pause state.
#[derive(Debug, Clone, Copy, PartialEq, Eq, Hash, Structural)]
pub struct PauseTransition {
    pub exited: PauseState,
    pub entered: PauseState,
}

/// The current states, and the states that were asked for and are not
/// applied yet.
#[derive(Debug, Clone, Copy, PartialEq, Eq, Hash, Structural)]
pub struct StateHolder {
    pub game: GameState,
    pub pause: PauseState,
    pub next_game: Option<GameState>,
    pub next_pause: Option<PauseState>,
}

/// The states in which a system runs. A system whose condition fails is
/// skipped for the whole frame.
#[derive(Debug, Clone, Copy, PartialEq, Eq, Hash, Structural)]
pub struct RunCondition {
    /// The game state that must be current, if any.
    pub in_game: Option<GameState>,
    /// The pause state that must be current, if any.
    pub in_pause: Option<PauseState>,
    /// The pause state that must not be current, if any.
    pub not_in_pause: Option<PauseState>,
}

impl StateHolder {
    /// The holder with `next` asked for as game state. The current states
    /// stay, and an earlier request that was not applied is replaced.
    pub open spec fn with_game_request(self, next: GameState) -> StateHolder {
        StateHolder { next_game: Some(next), ..self }
    }

    /// The holder with `next` asked for as pause state.
    pub open spec fn with_pause_request(self, next: PauseState) -> StateHolder {
        StateHolder { next_pause: Some(next), ..self }
    }

    /// The holder once the request for a game state is applied, if there
    /// is one.
    pub open spec fn with_game_applied(self) -> StateHolder {
        match self.next_game {
            Some(next) => StateHolder { game: next, next_game: None, ..self },
            None => self,
        }
    }

    /// The holder once the request for a pause state is applied, if there
    /// is one.
    pub open spec fn with_pause_applied(self) -> StateHolder {
        match self.next_pause {
            Some(next) => StateHolder { pause: next, next_pause: None, ..self },
            None => self,
        }
    }

    /// The hooks that applying the request for a game state fires. A
    /// request for the state that is already current fires none.
    pub open spec fn game_transition(self) -> Option<GameTransition> {
        match self.next_game {
            Some(next) => if next == self.game {
                None
            } else {
                Some(GameTransition { exited: self.game, entered: next })
            },
            None => None,
        }
    }

    /// The hooks that applying the request for a pause state fires.
    pub open spec fn pause_transition(self) -> Option<PauseTransition> {
        match self.next_pause {
            Some(next) => if next == self.pause {
                None
            } else {
                Some(PauseTransition { exited: self.pause, entered: next })
            },
            None => None,
        }
    }

    /// The holder of a game in the given states, with nothing asked for.
    pub fn new(game: GameState, pause: PauseState) -> (holder: StateHolder)
        ensures
            holder == (StateHolder { game, pause, next_game: None, next_pause: None }),
    {
        StateHolder { game, pause, next_game: None, next_pause: None }
    }

    /// Asks for a game state. Nothing changes until the request is applied.
    pub fn request_game_state(&mut self, next: GameState)
        ensures
            *final(self) == old(self).with_game_request(next),
            final(self).game == old(self).game,
            final(self).pause == old(self).pause,
    {
        self.next_game = Some(next);
    }

    /// Asks for a pause state. Nothing changes until the request is applied.
    pub fn request_pause_state(&mut self, next: PauseState)
        ensures
            *final(self) == old(self).with_pause_request(next),
            final(self).game == old(self).game,
            final(self).pause == old(self).pause,
    {
        self.next_pause = Some(next);
    }

    /// Applies the request for a game state, if there is one, and says
    /// which hooks to run. The state asked for is current afterwards and
    /// the request is gone. Asking for the current state changes nothing
    /// and fires no hook.
    pub fn apply_game_transition(&mut self) -> (fired: Option<GameTransition>)
        ensures
            *final(self) == old(self).with_game_applied(),
            fired == old(self).game_transition(),
            final(self).next_game is None,
            old(self).next_game is Some ==> final(self).game == old(self).next_game->0,
    {
        match self.next_game {
            Some(next) => {
                let exited = self.game;
                self.game = next;
                self.next_game = None;
                if next == exited {
                    None
                } else {
                    Some(GameTransition { exited, entered: next })
                }
            },
            None => None,
        }
    }

    /// Applies the request for a pause state, if there is one, and says
    /// which hooks to run.
    pub fn apply_pause_transition(&mut self) -> (fired: Option<PauseTransition>)
        ensures
            *final(self) == old(self).with_pause_applied(),
            fired == old(self).pause_transition(),
            final(self).next_pause is None,
            old(self).next_pause is Some ==> final(self).pause == old(self).next_pause->0,
    {
        match self.next_pause {
            Some(next) => {
                let exited = self.pause;
                self.pause = next;
                self.next_pause = None;
                if next == exited {
                    None
                } else {
                    Some(PauseTransition { exited, entered: next })
                }
            },
            None => None,
        }
    }
}

impl RunCondition {
    /// Whether a system with this condition runs while the states are
    /// `game` and `pause`.
    pub open spec fn admits(self, game: GameState, pause: PauseState) -> bool {
        &&& self.in_game is Some ==> self.in_game->0 == game
        &&& self.in_pause is Some ==> self.in_pause->0 == pause
        &&& self.not_in_pause is Some ==> self.not_in_pause->0 != pause
    }

    /// The condition that always holds.
    pub fn always() -> (condition: RunCondition)
        ensures
            condition == (RunCondition { in_game: None, in_pause: None, not_in_pause: None }),
    {
        RunCondition { in_game: None, in_pause: None, not_in_pause: None }
    }

    /// This condition, and the game state is `state`.
    pub fn run_in_state(self, state: GameState) -> (condition: RunCondition)
        ensures
            condition == (RunCondition { in_game: Some(state), ..self }),
    {
        RunCondition { in_game: Some(state), ..self }
    }

    /// This condition, and the pause state is `state`.
    pub fn run_in_pause_state(self, state: PauseState) -> (condition: RunCondition)
        ensures
            condition == (RunCondition { in_pause: Some(state), ..self }),
    {
        RunCondition { in_pause: Some(state), ..self }
    }

    /// This condition, and the pause state is not `state`.
    pub fn run_not_in_pause_state(self, state: PauseState) -> (condition: RunCondition)
        ensures
            condition == (RunCondition { not_in_pause: Some(state), ..self }),
    {
        RunCondition { not_in_pause: Some(state), ..self }
    }

    /// The condition of the systems of play: the game is being played and
    /// is not paused.
    pub fn gameplay() -> (condition: RunCondition)
        ensures
            condition == (RunCondition {
                in_game: Some(GameState::GamePlaying),
                in_pause: None,
                not_in_pause: Some(PauseState::Paused),
            }),
            forall|game: GameState, pause: PauseState|
                #[trigger] condition.admits(game, pause) <==> game == GameState::GamePlaying
                    && pause != PauseState::Paused,
    {
        RunCondition::always().run_in_state(GameState::GamePlaying).run_not_in_pause_state(
            PauseState::Paused,
        )
    }

    /// Whether a system with this condition runs in this frame. The states
    /// that count are the current ones: a state that was asked for and is
    /// not applied yet plays no part.
    pub fn should_run(&self, states: &StateHolder) -> (runs: bool)
        ensures
            runs == self.admits(states.game, states.pause),
    {
        let game_fits = match self.in_game {
            Some(state) => state == states.game,
            None => true,
        };
        let pause_fits = match self.in_pause {
            Some(state) => state == states.pause,
            None => true,
        };
        let pause_allowed = match self.not_in_pause {
            Some(state) => state != states.pause,
            None => true,
        };
        game_fits && pause_fits && pause_allowed
    }
}

/// A request leaves what runs as it is: whatever state is asked for, every
/// system that ran before the request still runs, and every system that
/// was skipped is still skipped, until the request is applied.
pub proof fn lemma_request_changes_no_gate(
    states: StateHolder,
    game: GameState,
    pause: PauseState,
    condition: RunCondition,
)
    ensures
        condition.admits(
            states.with_game_request(game).game,
            states.with_game_request(game).pause,
        ) == condition.admits(states.game, states.pause),
        condition.admits(
            states.with_pause_request(pause).game,
            states.with_pause_request(pause).pause,
        ) == condition.admits(states.game, states.pause),
{
}

/// Once a request is applied the state asked for is current, whatever was
/// current before, and nothing is left to apply.
pub proof fn lemma_applied_request_is_current(states: StateHolder, game: GameState)
    ensures
        states.with_game_request(game).with_game_applied().game == game,
        states.with_game_request(game).with_game_applied().next_game is None,
        states.with_game_request(game).with_game_applied().with_game_applied()
            == states.with_game_request(game).with_game_applied(),
{
}

/// Asking for the state that is current is no transition: applying the
/// request fires no hook and leaves the current states as they are.
pub proof fn lemma_same_state_fires_nothing(states: StateHolder)
    ensures
        states.with_game_request(states.game).game_transition() is None,
        states.with_game_request(states.game).with_game_applied().game == states.game,
        states.with_pause_request(states.pause).pause_transition() is None,
        states.with_pause_request(states.pause).with_pause_applied().pause == states.pause,
{
}

/// The state that follows `state` by itself: the intro follows loading
/// once loading is complete, and play follows the intro once the intro has
/// begun. Nothing follows play by itself, and nothing follows the main
/// menu.
pub fn automatic_successor(state: GameState) -> (next: Option<GameState>)
    ensures
        next == match state {
            GameState::Loading => Some(GameState::GameIntro),
            GameState::GameIntro => Some(GameState::GamePlaying),
            GameState::GamePlaying => None::<GameState>,
            GameState::MainMenu => None::<GameState>,
        },
{
    match state {
        GameState::Loading => Some(GameState::GameIntro),
        GameState::GameIntro => Some(GameState::GamePlaying),
        GameState::GamePlaying => None,
        GameState::MainMenu => None,
    }
}

/// The pause state to ask for, given what is held down: close ends a
/// pause, open starts one, and close goes first where both apply.
pub fn change_pause_state(current: PauseState, close_pressed: bool, open_pressed: bool) -> (next:
    Option<PauseState>)
    ensures
        next == if close_pressed && current == PauseState::Paused {
            Some(PauseState::UnPaused)
        } else if open_pressed && current == PauseState::UnPaused {
            Some(PauseState::Paused)
        } else {
            None
        },
{
    if close_pressed && current == PauseState::Paused {
        Some(PauseState::UnPaused)
    } else if open_pressed && current == PauseState::UnPaused {
        Some(PauseState::Paused)
    } else {
        None
    }
}

/// Whether the game is to end: exit is held down while the game is paused.
pub fn exit_game(current: PauseState, exit_pressed: bool) -> (exit: bool)
    ensures
        exit == (exit_pressed && current == PauseState::Paused),
{
    exit_pressed && current == PauseState::Paused
}

} // verus!
