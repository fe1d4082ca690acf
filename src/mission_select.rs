use vstd::prelude::*;

use crate::game_state::UiState;

verus! {

/// Events of the title screen.
#[derive(Clone, Copy, Debug, PartialEq, Eq, Structural)]
pub enum UiEvent {
    KeyPressed,
    Tick,
}

/// Where the title screen leads: stay on it, or start the level with the given index.
#[derive(Clone, Copy, Debug, PartialEq, Eq, Structural)]
pub enum Transition {
    Ui(UiState),
    Level(usize),
}

/// The title screen; it holds no state of its own.
#[derive(Debug)]
pub struct State {}

impl State {
    pub fn new() -> (r: State) {
        State {}
    }
}

/// Any key starts the first level; ticks keep the title screen.
pub fn next(_state: &mut State, event: UiEvent) -> (r: Transition)
    ensures
        r == match event {
            UiEvent::KeyPressed => Transition::Level(0),
            UiEvent::Tick => Transition::Ui(UiState::Unselected),
        },
{
    match event {
        UiEvent::KeyPressed => Transition::Level(0),
        UiEvent::Tick => Transition::Ui(UiState::Unselected),
    }
}

} // verus!
