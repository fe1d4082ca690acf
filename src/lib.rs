//! Rules of a turn-based tactics game on a grid. Units ("programs") drag a trail that is
//! also their hit points, attack with delayed damage, and take turns against a scripted
//! opponent. Drawing and input live outside this library: it takes translated events and
//! exposes what to show.

pub mod point;
pub mod program;
pub mod level;
pub mod map_view;
pub mod info_view;
pub mod ai;
pub mod player;
pub mod mission_select;
pub mod level_transition;
pub mod game_state;
pub mod player_turn;
pub mod data;
