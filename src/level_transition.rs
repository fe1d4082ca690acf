use vstd::prelude::*;

use crate::program::Team;

verus! {

/// Events of the screen shown between levels.
#[derive(Clone, Copy, Debug, PartialEq, Eq, Structural)]
pub enum UiEvent {
    KeyPressed,
    Tick,
}

/// The screen shown after a level: which level was played and who won it.
#[derive(Debug)]
pub struct State {
    pub level_index: usize,
    pub winning_team: Team,
}

impl State {
    pub fn new(level_index: usize, winning_team: Team) -> (r: State)
        ensures
            r.level_index == level_index,
            r.winning_team == winning_team,
    {
        State { level_index, winning_team }
    }
}

/// On a key press, the level to play next: the following one after a victory, the same
/// one after a defeat. Ticks change nothing.
pub fn next(state: &mut State, event: UiEvent) -> (r: Option<usize>)
    requires
        old(state).level_index < usize::MAX,
    ensures
        *final(state) == *old(state),
        r == match event {
            UiEvent::KeyPressed => match old(state).winning_team {
                Team::Player => Some((old(state).level_index + 1) as usize),
                Team::Enemy => Some(old(state).level_index),
            },
            UiEvent::Tick => None,
        },
{
    match event {
        UiEvent::KeyPressed => match state.winning_team {
            Team::Player => Some(state.level_index + 1),
            Team::Enemy => Some(state.level_index),
        },
        UiEvent::Tick => None,
    }
}

} // verus!
