use vstd::prelude::*;

use crate::ai::{AIState, ai_pass, ai_tick};
use crate::data::{level_rows, load_level, populated};
use crate::info_view::{ChoiceList, InfoView, PrimaryAction};
use crate::level::{Level, LevelView, victory};
use crate::map_view::{Help, MapView};
use crate::mission_select;
use crate::player::Player;
use crate::player_turn::{self, list_click, loaded, loads_program, next_setup_ui, next_ui};
use crate::point::Point;
use crate::program::{
    Ability,
    Program,
    ProgramView,
    StatusEffect,
    Team,
    decayed,
    fresh_turn_state,
};

verus! {

/// Where the player is in composing an action.
#[derive(Clone, Copy, Debug, PartialEq, Eq, Structural)]
pub enum UiState {
    Unselected,
    Selected,
    SelectTarget(Ability),
    Animating,
}

/// An input, already translated to the map's or the panel's coordinates.
#[derive(Clone, Copy, Debug, PartialEq, Eq, Structural)]
pub enum UiEvent {
    Quit,
    Tick,
    ClickMap(Point),
    ClickInfo(Point),
    EndTurn,
}

/// The phase of the game, with the interaction state inside a phase where one applies.
#[derive(Debug)]
pub enum GameState {
    Setup(UiState),
    PlayerTurn(UiState),
    AITurn(UiState),
    SetupTransition,
    AITurnTransition,
    PlayerTurnTransition,
    Quit,
    MissionSelect(mission_select::State),
}

/// Everything the phases act on.
pub struct ModelView {
    pub info: InfoView,
    pub map: MapView,
    pub player: Player,
    pub program_list: ChoiceList<Program>,
    pub level: Level,
}

/// Heads of the units that the next tick destroys, in level order.
pub open spec fn killed_positions(programs: Seq<ProgramView>) -> Seq<Point>
    decreases programs.len(),
{
    if programs.len() == 0 {
        Seq::empty()
    } else {
        let rest = killed_positions(programs.drop_last());
        if programs.last().dies_on_tick() {
            rest.push(programs.last().position)
        } else {
            rest
        }
    }
}

/// The units left after removing, for each position in turn, the units whose head is there.
pub open spec fn without_heads(programs: Seq<ProgramView>, positions: Seq<Point>) -> Seq<
    ProgramView,
>
    decreases positions.len(),
{
    if positions.len() == 0 {
        programs
    } else {
        crate::level::without_head_at(without_heads(programs, positions.drop_last()), positions.last())
    }
}

/// Whether any unit has a pending effect.
pub open spec fn any_pending(programs: Seq<ProgramView>) -> bool {
    exists|i: int| 0 <= i < programs.len() && (#[trigger] programs[i]).status_effects.len() > 0
}

/// The units after a tick: every unit ticks, then the destroyed ones are removed.
pub open spec fn ticked_programs(programs: Seq<ProgramView>) -> Seq<ProgramView> {
    without_heads(programs.map_values(|p: ProgramView| p.ticked()), killed_positions(programs))
}

/// Effects after one tick.
fn decay_effects(effects: &Vec<StatusEffect>) -> (r: Vec<StatusEffect>)
    ensures
        r@ == decayed(effects@),
{
    let mut out: Vec<StatusEffect> = Vec::new();
    let n = effects.len();
    let mut i: usize = 0;
    while i < n
        invariant
            0 <= i <= n,
            n == effects@.len(),
            out@ == decayed(effects@.take(i as int)),
        decreases n - i,
    {
        proof {
            assert(effects@.take(i + 1).drop_last() =~= effects@.take(i as int));
        }
        let StatusEffect::Damage(m) = effects[i];
        if m > 1 {
            out.push(StatusEffect::Damage(m - 1));
        }
        i = i + 1;
    }
    proof {
        assert(effects@.take(n as int) =~= effects@);
    }
    out
}

/// One tick of pending effects over every unit: each damage effect loses a point and costs
/// its unit a trail segment; units that had no segment left are removed once all have
/// ticked, and the highlight is dropped when that happens. Returns whether any unit had a
/// pending effect.
pub fn update_programs(level: &mut Level, map: &mut MapView) -> (modified: bool)
    ensures
        final(level)@.layout == old(level)@.layout,
        final(level)@.programs == ticked_programs(old(level)@.programs),
        modified == any_pending(old(level)@.programs),
        killed_positions(old(level)@.programs).len() > 0 ==> final(map).highlight is None
            && final(map).overlay@.len() == 0 && final(map).highlight_range == old(map).highlight_range
            && final(map).uplink == old(map).uplink && final(map).help == old(map).help,
        killed_positions(old(level)@.programs).len() == 0 ==> *final(map) == *old(map),
{
    let ghost orig = old(level)@.programs;
    let mut modified = false;
    let mut killed: Vec<Point> = Vec::new();
    let n = level.programs.len();
    let mut i: usize = 0;
    while i < n
        invariant
            0 <= i <= n,
            n == orig.len(),
            level.programs@.len() == n,
            level@.layout == old(level)@.layout,
            orig == old(level)@.programs,
            forall|k: int| 0 <= k < i ==> #[trigger] level.programs@[k]@ == orig[k].ticked(),
            forall|k: int| i <= k < n ==> #[trigger] level.programs@[k]@ == orig[k],
            killed@ == killed_positions(orig.take(i as int)),
            modified == exists|k: int| 0 <= k < i && (#[trigger] orig[k]).status_effects.len() > 0,
            killed@.len() > 0 ==> map.highlight is None && map.overlay@.len() == 0
                && map.highlight_range == old(map).highlight_range && map.uplink == old(map).uplink
                && map.help == old(map).help,
            killed@.len() == 0 ==> *map == *old(map),
        decreases n - i,
    {
        proof {
            assert(orig.take(i + 1).drop_last() =~= orig.take(i as int));
            assert(orig.take(i + 1).last() == orig[i as int]);
            assert(level.programs@[i as int]@ == orig[i as int]);
        }
        let position = level.programs[i].position;
        if level.programs[i].status_effects.len() > 0 {
            modified = true;
            let decayed_effects = decay_effects(&level.programs[i].status_effects);
            level.programs[i].status_effects = decayed_effects;
            let lived = level.programs[i].damage();
            if !lived {
                killed.push(position);
                map.clear_highlight();
            }
        }
        i = i + 1;
    }
    proof {
        assert(orig.take(n as int) =~= orig);
        assert(level@.programs =~= orig.map_values(|p: ProgramView| p.ticked()));
    }
    let ghost all_ticked = level@.programs;
    let m = killed.len();
    let mut j: usize = 0;
    while j < m
        invariant
            0 <= j <= m,
            m == killed@.len(),
            killed@ == killed_positions(orig),
            level@.layout == old(level)@.layout,
            level@.programs == without_heads(all_ticked, killed@.take(j as int)),
        decreases m - j,
    {
        proof {
            assert(killed@.take(j + 1).drop_last() =~= killed@.take(j as int));
        }
        level.remove_program_at(killed[j]);
        j = j + 1;
    }
    proof {
        assert(killed@.take(m as int) =~= killed@);
    }
    modified
}

/// Hands the turn to `team`: the panel shows that team, overlays and highlight are
/// cleared, and every unit's moves and ability use are reset.
pub fn begin_turn(team: Team, mv: &mut ModelView)
    ensures
        final(mv).info.team == team,
        final(mv).info.program is None,
        final(mv).info.ability_list.items().len() == 0,
        final(mv).map.highlight is None,
        final(mv).map.highlight_range is None,
        final(mv).map.overlay@.len() == 0,
        final(mv).level@.layout == old(mv).level@.layout,
        final(mv).level@.programs.len() == old(mv).level@.programs.len(),
        forall|i: int|
            0 <= i < old(mv).level@.programs.len() ==> #[trigger] final(mv).level@.programs[i]
                == old(mv).level@.programs[i].with_turn_state(fresh_turn_state()),
{
    mv.info.set_team(team);
    mv.info.clear();
    mv.map.clear_range();
    mv.map.clear_highlight();
    mv.map.update_highlight(&mv.level);
    mv.level.begin_turn();
}

/// A unit for the opening of a level: a fresh unit with the ability "Bitblast" (2 damage,
/// range 1), a trail cap of 4 and 3 moves a turn.
pub open spec fn opening_unit(team: Team, position: Point, name: Seq<char>) -> ProgramView {
    ProgramView {
        team,
        position,
        trail: Seq::empty(),
        name,
        abilities: seq![("Bitblast"@, Ability::Destroy { damage: 2, range: 1 })],
        max_tail: 4,
        max_moves: 3,
        turn_state: fresh_turn_state(),
        status_effects: Seq::empty(),
    }
}

fn hack(team: Team, position: Point, name: &str) -> (r: Program)
    ensures
        r@ == opening_unit(team, position, name@),
{
    let mut p = Program::new(team, position, name);
    p.abilities.push(("Bitblast".to_owned(), Ability::Destroy { damage: 2, range: 1 }));
    assert(p@.abilities =~= seq![("Bitblast"@, Ability::Destroy { damage: 2, range: 1 })]);
    p
}

/// The model after the turn is handed to `team` from a level `old`: the panel shows that
/// team and no unit, overlays and highlight are gone, and every unit's moves and ability
/// use are reset.
pub open spec fn handed_over(old: LevelView, mv: ModelView, team: Team) -> bool {
    &&& mv.info.team == team
    &&& mv.info.program is None
    &&& mv.map.highlight is None
    &&& mv.map.highlight_range is None
    &&& mv.map.overlay@.len() == 0
    &&& mv.level@.layout == old.layout
    &&& mv.level@.programs.len() == old.programs.len()
    &&& forall|i: int|
        0 <= i < old.programs.len() ==> #[trigger] mv.level@.programs[i] == old.programs[i].with_turn_state(
            fresh_turn_state(),
        )
}

/// The roster after the opening: the old entries, then "Hack 1" and "Hack 2".
pub open spec fn opening_roster(before: Seq<(String, Program)>, after: Seq<(String, Program)>) -> bool {
    &&& after.len() == before.len() + 2
    &&& forall|k: int| 0 <= k < before.len() ==> #[trigger] after[k] == before[k]
    &&& after[before.len() as int].0@ == "Hack 1"@
    &&& after[before.len() as int].1@ == opening_unit(Team::Player, Point { x: 0, y: 0 }, "Hack 1"@)
    &&& after[before.len() + 1int].0@ == "Hack 2"@
    &&& after[before.len() + 1int].1@ == opening_unit(Team::Player, Point { x: 0, y: 0 }, "Hack 2"@)
}

/// The level after `event` during setup: a unit is loaded when the click picks one.
pub open spec fn setup_level(
    ui: UiState,
    event: UiEvent,
    lv: LevelView,
    map: MapView,
    roster: ChoiceList<Program>,
) -> LevelView {
    if loads_program(ui, event, lv, map, roster) {
        loaded(
            lv,
            roster.items()[list_click(roster, event->ClickInfo_0)->0 - roster.top()].1@,
            map.uplink->0,
        )
    } else {
        lv
    }
}

impl GameState {
    /// The phase after `event`. A quit ends the game from any phase; the player's end of
    /// turn ends it too once a side has won, and otherwise hands over to the opponent.
    pub fn next(self, event: UiEvent, mv: &mut ModelView) -> (r: GameState)
        ensures
            event == UiEvent::Quit ==> r == GameState::Quit && final(mv).level@ == old(mv).level@,
            event != UiEvent::Quit ==> match self {
                GameState::Setup(ui) => if event == UiEvent::EndTurn {
                    r == GameState::PlayerTurnTransition && final(mv).level@ == old(mv).level@
                } else {
                    &&& r == GameState::Setup(next_setup_ui(ui, event, old(mv).level@, old(mv).map))
                    &&& final(mv).level@ == setup_level(
                        ui,
                        event,
                        old(mv).level@,
                        old(mv).map,
                        old(mv).program_list,
                    )
                },
                GameState::PlayerTurn(ui) => if event == UiEvent::EndTurn {
                    &&& r == if victory(old(mv).level@.programs) is Some {
                        GameState::Quit
                    } else {
                        GameState::AITurnTransition
                    }
                    &&& final(mv).level@ == old(mv).level@
                } else {
                    r == GameState::PlayerTurn(
                        next_ui(ui, event, old(mv).level@, old(mv).map, old(mv).info),
                    ) && final(mv).level@ == player_turn::next_level(
                        ui,
                        event,
                        old(mv).level@,
                        old(mv).map,
                    )
                },
                _ => r == self && final(mv).level@ == old(mv).level@,
            },
    {
        if event == UiEvent::Quit {
            return GameState::Quit;
        }
        match self {
            GameState::Setup(ui) => Self::next_setup_turn(ui, event, mv),
            GameState::PlayerTurn(ui) => match event {
                UiEvent::EndTurn => match mv.level.check_victory() {
                    Some(_) => GameState::Quit,
                    None => GameState::AITurnTransition,
                },
                _ => Self::next_player_turn(ui, event, mv),
            },
            s => s,
        }
    }

    /// A key press that means nothing on the map: on the title screen it starts the first
    /// level.
    pub fn key_pressed(self, mv: &mut ModelView) -> (r: GameState)
        ensures
            self is MissionSelect ==> r is SetupTransition && final(mv).level@ == populated(level_rows(0)),
            !(self is MissionSelect) ==> r == self,
    {
        match self {
            GameState::MissionSelect(ms) => Self::next_mission_turn(
                ms,
                mission_select::UiEvent::KeyPressed,
                mv,
            ),
            s => s,
        }
    }

    /// The phase after one tick of the clock.
    pub fn tick(self, mv: &mut ModelView) -> (r: GameState)
        ensures
            self == GameState::AITurnTransition ==> r == GameState::AITurn(UiState::Unselected)
                && handed_over(old(mv).level@, *final(mv), Team::Enemy),
            self == GameState::PlayerTurnTransition ==> if victory(old(mv).level@.programs) is Some {
                r == GameState::Quit && final(mv).level@ == old(mv).level@
            } else {
                r == GameState::PlayerTurn(UiState::Unselected) && handed_over(
                    old(mv).level@,
                    *final(mv),
                    Team::Player,
                )
            },
            self == GameState::AITurn(UiState::Animating) ==> final(mv).level@.layout
                == old(mv).level@.layout && final(mv).level@.programs == ticked_programs(
                old(mv).level@.programs,
            ) && r == if any_pending(old(mv).level@.programs) {
                GameState::AITurn(UiState::Animating)
            } else {
                GameState::AITurn(UiState::Unselected)
            },
            self matches GameState::AITurn(ui) && ui != UiState::Animating ==> {
                let (lv, st) = ai_pass(old(mv).level@, old(mv).level@.programs.len() as int);
                &&& final(mv).level@ == lv
                &&& r == match st {
                    AIState::Done => GameState::PlayerTurnTransition,
                    AIState::Plotting => GameState::AITurn(UiState::Unselected),
                    AIState::WaitingAnimation => GameState::AITurn(UiState::Animating),
                }
            },
            self matches GameState::PlayerTurn(ui) ==> r == GameState::PlayerTurn(
                next_ui(ui, UiEvent::Tick, old(mv).level@, old(mv).map, old(mv).info),
            ) && final(mv).level@.layout == old(mv).level@.layout && final(mv).level@.programs
                == ticked_programs(old(mv).level@.programs),
            self matches GameState::Setup(ui) ==> r == GameState::Setup(ui) && final(mv).level@ == old(
                mv,
            ).level@,
            self == GameState::SetupTransition ==> r == GameState::Setup(UiState::Unselected)
                && final(mv).level@.layout == old(mv).level@.layout && final(mv).level@.programs
                == old(mv).level@.programs.push(
                opening_unit(Team::Enemy, Point { x: 7, y: 10 }, "Hack"@),
            ).push(opening_unit(Team::Enemy, Point { x: 7, y: 9 }, "Hack"@)) && opening_roster(
                old(mv).program_list.items(),
                final(mv).program_list.items(),
            ) && final(mv).player.programs@.map_values(|p: Program| p@) == old(
                mv,
            ).player.programs@.map_values(|p: Program| p@).push(
                opening_unit(Team::Player, Point { x: 0, y: 0 }, "Hack 1"@),
            ).push(opening_unit(Team::Player, Point { x: 0, y: 0 }, "Hack 2"@))
                && final(mv).info.primary_action == PrimaryAction::LaunchIntrusion,
            self == GameState::Quit ==> r == GameState::Quit && final(mv).level@ == old(mv).level@,
            self is MissionSelect ==> r == self && final(mv).level@ == old(mv).level@,
    {
        match self {
            GameState::Setup(ui) => Self::next_setup_turn(ui, UiEvent::Tick, mv),
            GameState::PlayerTurn(ui) => Self::next_player_turn(ui, UiEvent::Tick, mv),
            GameState::MissionSelect(ms) => Self::next_mission_turn(ms, mission_select::UiEvent::Tick, mv),
            GameState::AITurnTransition => {
                begin_turn(Team::Enemy, mv);
                GameState::AITurn(UiState::Unselected)
            },
            GameState::PlayerTurnTransition => {
                if mv.level.check_victory().is_some() {
                    GameState::Quit
                } else {
                    begin_turn(Team::Player, mv);
                    GameState::PlayerTurn(UiState::Unselected)
                }
            },
            GameState::AITurn(UiState::Animating) => {
                let modified = update_programs(&mut mv.level, &mut mv.map);
                if !modified {
                    GameState::AITurn(UiState::Unselected)
                } else {
                    GameState::AITurn(UiState::Animating)
                }
            },
            GameState::AITurn(_) => {
                let ai_state = ai_tick(&mut mv.level);
                mv.map.set_help(Help::AiStatus(ai_state));
                match ai_state {
                    AIState::Done => GameState::PlayerTurnTransition,
                    AIState::Plotting => GameState::AITurn(UiState::Unselected),
                    AIState::WaitingAnimation => GameState::AITurn(UiState::Animating),
                }
            },
            GameState::SetupTransition => {
                mv.level.add_program(hack(Team::Enemy, Point::new(7, 10), "Hack"));
                mv.level.add_program(hack(Team::Enemy, Point::new(7, 9), "Hack"));
                let prog1 = hack(Team::Player, Point::new(0, 0), "Hack 1");
                let prog2 = hack(Team::Player, Point::new(0, 0), "Hack 2");
                let roster1 = hack(Team::Player, Point::new(0, 0), "Hack 1");
                let roster2 = hack(Team::Player, Point::new(0, 0), "Hack 2");
                mv.player.programs.push(prog1);
                mv.player.programs.push(prog2);
                mv.info.primary_action = PrimaryAction::LaunchIntrusion;
                mv.info.clear();
                let list = mv.program_list.choices();
                list.push(("Hack 1".to_owned(), roster1));
                list.push(("Hack 2".to_owned(), roster2));
                GameState::Setup(UiState::Unselected)
            },
            GameState::Quit => GameState::Quit,
        }
    }

    /// The player's turn after `event`, which is neither an end of turn nor a quit.
    pub fn next_player_turn(ui_state: UiState, event: UiEvent, mv: &mut ModelView) -> (r: GameState)
        requires
            event != UiEvent::EndTurn,
            event != UiEvent::Quit,
        ensures
            r == GameState::PlayerTurn(
                next_ui(ui_state, event, old(mv).level@, old(mv).map, old(mv).info),
            ),
            final(mv).level@ == player_turn::next_level(ui_state, event, old(mv).level@, old(mv).map),
    {
        GameState::PlayerTurn(player_turn::next(ui_state, event, mv))
    }

    /// The title screen after `event`: it leads to the setup of the chosen level when that
    /// level exists.
    pub fn next_mission_turn(
        mission_state: mission_select::State,
        event: mission_select::UiEvent,
        mv: &mut ModelView,
    ) -> (r: GameState)
        ensures
            event == mission_select::UiEvent::Tick ==> r == GameState::MissionSelect(mission_state)
                && final(mv).level@ == old(mv).level@,
            event == mission_select::UiEvent::KeyPressed ==> r is SetupTransition,
            r is SetupTransition ==> final(mv).level@ == populated(level_rows(0)),
            !(r is SetupTransition) ==> r == GameState::MissionSelect(mission_state),
    {
        let mut ms = mission_state;
        match mission_select::next(&mut ms, event) {
            mission_select::Transition::Ui(_) => GameState::MissionSelect(ms),
            mission_select::Transition::Level(index) => match load_level(index) {
                Some(level) => {
                    mv.level = level;
                    GameState::SetupTransition
                },
                None => GameState::MissionSelect(ms),
            },
        }
    }

    /// The setup phase after `event`: an end of turn starts the game, a quit ends it.
    pub fn next_setup_turn(ui_state: UiState, event: UiEvent, mv: &mut ModelView) -> (r: GameState)
        ensures
            event == UiEvent::EndTurn ==> r == GameState::PlayerTurnTransition
                && final(mv).info.primary_action == PrimaryAction::EndTurn,
            event == UiEvent::Quit ==> r == GameState::Quit,
            event != UiEvent::EndTurn && event != UiEvent::Quit ==> r == GameState::Setup(
                next_setup_ui(ui_state, event, old(mv).level@, old(mv).map),
            ),
            loads_program(ui_state, event, old(mv).level@, old(mv).map, old(mv).program_list)
                ==> final(mv).level@ == loaded(
                old(mv).level@,
                old(mv).program_list.items()[list_click(
                    old(mv).program_list,
                    event->ClickInfo_0,
                )->0 - old(mv).program_list.top()].1@,
                old(mv).map.uplink->0,
            ),
            !loads_program(ui_state, event, old(mv).level@, old(mv).map, old(mv).program_list)
                ==> final(mv).level@ == old(mv).level@,
    {
        match event {
            UiEvent::EndTurn => {
                mv.info.primary_action = PrimaryAction::EndTurn;
                GameState::PlayerTurnTransition
            },
            UiEvent::Quit => GameState::Quit,
            _ => GameState::Setup(player_turn::next_setup(ui_state, event, mv)),
        }
    }
}

/// A unit with no trail and pending damage is gone after the next tick, and so is every unit
/// whose head stands where a destroyed unit's head was.
pub proof fn lemma_destroyed_units_removed(programs: Seq<ProgramView>)
    ensures
        forall|k: int|
            0 <= k < ticked_programs(programs).len() ==> !killed_positions(programs).contains(
                (#[trigger] ticked_programs(programs)[k]).position,
            ),
        forall|i: int|
            0 <= i < programs.len() && (#[trigger] programs[i]).dies_on_tick()
                ==> killed_positions(programs).contains(programs[i].position),
{
    lemma_killed_contains(programs);
    lemma_without_heads(programs.map_values(|p: ProgramView| p.ticked()), killed_positions(programs));
}

proof fn lemma_killed_contains(programs: Seq<ProgramView>)
    ensures
        forall|i: int|
            0 <= i < programs.len() && (#[trigger] programs[i]).dies_on_tick()
                ==> killed_positions(programs).contains(programs[i].position),
    decreases programs.len(),
{
    if programs.len() > 0 {
        let init = programs.drop_last();
        lemma_killed_contains(init);
        assert forall|i: int|
            0 <= i < programs.len() && (#[trigger] programs[i]).dies_on_tick() implies killed_positions(
            programs,
        ).contains(programs[i].position) by {
            if i < programs.len() - 1 {
                assert(init[i] == programs[i]);
                let w = choose|w: int|
                    0 <= w < killed_positions(init).len() && killed_positions(init)[w]
                        == programs[i].position;
                assert(killed_positions(programs)[w] == programs[i].position);
            } else {
                assert(killed_positions(programs).last() == programs[i].position);
            }
        }
    }
}

proof fn lemma_without_head_at(programs: Seq<ProgramView>, p: Point)
    ensures
        forall|k: int|
            0 <= k < crate::level::without_head_at(programs, p).len() ==> (
            #[trigger] crate::level::without_head_at(programs, p)[k]).position != p,
        forall|k: int|
            0 <= k < crate::level::without_head_at(programs, p).len() ==> programs.contains(
                #[trigger] crate::level::without_head_at(programs, p)[k],
            ),
    decreases programs.len(),
{
    if programs.len() > 0 {
        let init = programs.drop_last();
        lemma_without_head_at(init, p);
        let rest = crate::level::without_head_at(init, p);
        let all = crate::level::without_head_at(programs, p);
        assert forall|k: int| 0 <= k < all.len() implies programs.contains(#[trigger] all[k]) by {
            if k < rest.len() {
                assert(all[k] == rest[k]);
                let w = choose|w: int| 0 <= w < init.len() && init[w] == rest[k];
                assert(programs[w] == init[w]);
            } else {
                assert(programs[programs.len() - 1] == all[k]);
            }
        }
        assert forall|k: int| 0 <= k < all.len() implies (#[trigger] all[k]).position != p by {
            if k < rest.len() {
                assert(all[k] == rest[k]);
            }
        }
    }
}

proof fn lemma_without_heads(programs: Seq<ProgramView>, positions: Seq<Point>)
    ensures
        forall|k: int|
            0 <= k < without_heads(programs, positions).len() ==> !positions.contains(
                (#[trigger] without_heads(programs, positions)[k]).position,
            ),
    decreases positions.len(),
{
    if positions.len() > 0 {
        let init = positions.drop_last();
        lemma_without_heads(programs, init);
        let before = without_heads(programs, init);
        let after = without_heads(programs, positions);
        lemma_without_head_at(before, positions.last());
        assert forall|k: int| 0 <= k < after.len() implies !positions.contains(
            (#[trigger] after[k]).position,
        ) by {
            assert(before.contains(after[k]));
            let w = choose|w: int| 0 <= w < before.len() && before[w] == after[k];
            assert(!init.contains(before[w].position));
            if positions.contains(after[k].position) {
                let v = choose|v: int| 0 <= v < positions.len() && positions[v] == after[k].position;
                if v < init.len() {
                    assert(init[v] == positions[v]);
                }
            }
        }
    }
}

proof fn lemma_without_head_at_keeps(programs: Seq<ProgramView>, p: Point, q: ProgramView)
    requires
        programs.contains(q),
        q.position != p,
    ensures
        crate::level::without_head_at(programs, p).contains(q),
    decreases programs.len(),
{
    let init = programs.drop_last();
    let all = crate::level::without_head_at(programs, p);
    let rest = crate::level::without_head_at(init, p);
    if programs.last() == q {
        assert(all[all.len() - 1] == q);
    } else {
        let w = choose|w: int| 0 <= w < programs.len() && programs[w] == q;
        assert(init[w] == q);
        lemma_without_head_at_keeps(init, p, q);
        let v = choose|v: int| 0 <= v < rest.len() && rest[v] == q;
        assert(all[v] == q);
    }
}

proof fn lemma_without_heads_keeps(programs: Seq<ProgramView>, positions: Seq<Point>, q: ProgramView)
    requires
        programs.contains(q),
        !positions.contains(q.position),
    ensures
        without_heads(programs, positions).contains(q),
    decreases positions.len(),
{
    if positions.len() > 0 {
        let init = positions.drop_last();
        assert(!init.contains(q.position)) by {
            if init.contains(q.position) {
                let v = choose|v: int| 0 <= v < init.len() && init[v] == q.position;
                assert(positions[v] == q.position);
            }
        }
        lemma_without_heads_keeps(programs, init, q);
        assert(positions[positions.len() - 1] != q.position);
        lemma_without_head_at_keeps(without_heads(programs, init), positions.last(), q);
    }
}

/// A unit that the tick does not destroy, and whose head is not where a destroyed unit's
/// head was, is still in the level after the tick, ticked once.
pub proof fn lemma_survivor_stays(programs: Seq<ProgramView>, k: int)
    requires
        0 <= k < programs.len(),
        !programs[k].dies_on_tick(),
        !killed_positions(programs).contains(programs[k].position),
    ensures
        ticked_programs(programs).contains(programs[k].ticked()),
{
    let all = programs.map_values(|p: ProgramView| p.ticked());
    assert(all[k] == programs[k].ticked());
    assert(programs[k].ticked().position == programs[k].position);
    lemma_without_heads_keeps(all, killed_positions(programs), programs[k].ticked());
}

/// The units after `j` ticks.
pub open spec fn level_ticks(programs: Seq<ProgramView>, j: nat) -> Seq<ProgramView>
    decreases j,
{
    if j == 0 {
        programs
    } else {
        ticked_programs(level_ticks(programs, (j - 1) as nat))
    }
}

proof fn lemma_killed_only(programs: Seq<ProgramView>, k: int)
    requires
        forall|i: int| 0 <= i < programs.len() && i != k ==> !(#[trigger] programs[i]).dies_on_tick(),
    ensures
        0 <= k < programs.len() && programs[k].dies_on_tick() ==> killed_positions(programs) == seq![
            programs[k].position,
        ],
        !(0 <= k < programs.len() && programs[k].dies_on_tick()) ==> killed_positions(programs)
            == Seq::<Point>::empty(),
    decreases programs.len(),
{
    if programs.len() > 0 {
        let init = programs.drop_last();
        assert forall|i: int| 0 <= i < init.len() && i != k implies !(#[trigger] init[i]).dies_on_tick() by {
            assert(init[i] == programs[i]);
        }
        lemma_killed_only(init, k);
        if 0 <= k < init.len() {
            assert(init[k] == programs[k]);
        }
    }
}

proof fn lemma_remove_only_head(programs: Seq<ProgramView>, k: int)
    requires
        0 <= k < programs.len(),
        forall|i: int|
            0 <= i < programs.len() && i != k ==> (#[trigger] programs[i]).position != programs[k].position,
    ensures
        crate::level::without_head_at(programs, programs[k].position) == programs.remove(k),
    decreases programs.len(),
{
    let p = programs[k].position;
    let init = programs.drop_last();
    if k == programs.len() - 1 {
        lemma_none_at_head(init, p);
        assert(init =~= programs.remove(k));
    } else {
        assert forall|i: int| 0 <= i < init.len() && i != k implies (#[trigger] init[i]).position
            != init[k].position by {
            assert(init[i] == programs[i]);
        }
        lemma_remove_only_head(init, k);
        assert(programs.last().position != p);
        assert(init.remove(k).push(programs.last()) =~= programs.remove(k));
    }
}

proof fn lemma_none_at_head(programs: Seq<ProgramView>, p: Point)
    requires
        forall|i: int| 0 <= i < programs.len() ==> (#[trigger] programs[i]).position != p,
    ensures
        crate::level::without_head_at(programs, p) == programs,
    decreases programs.len(),
{
    if programs.len() > 0 {
        let init = programs.drop_last();
        assert forall|i: int| 0 <= i < init.len() implies (#[trigger] init[i]).position != p by {
            assert(init[i] == programs[i]);
        }
        lemma_none_at_head(init, p);
        assert(init.push(programs.last()) =~= programs);
    }
}

/// On a level where only unit `k` has pending damage, more of it than it has trail
/// segments, and no other head stands on its head, the unit survives as many ticks as it
/// has trail segments, ticking alone, and the next tick removes it and nothing else.
pub proof fn lemma_level_survives_trail_length(programs: Seq<ProgramView>, k: int, m: usize, j: nat)
    requires
        0 <= k < programs.len(),
        programs[k].status_effects == seq![StatusEffect::Damage(m)],
        m > programs[k].trail.len(),
        forall|i: int| 0 <= i < programs.len() && i != k ==> (#[trigger] programs[i]).status_effects.len() == 0,
        forall|i: int|
            0 <= i < programs.len() && i != k ==> (#[trigger] programs[i]).position != programs[k].position,
        j <= programs[k].trail.len() + 1,
    ensures
        j <= programs[k].trail.len() ==> level_ticks(programs, j) == programs.update(k, programs[k].ticks(j)),
        j == programs[k].trail.len() + 1 ==> level_ticks(programs, j) == programs.remove(k),
    decreases j,
{
    let u = programs[k];
    if j > 0 {
        lemma_level_survives_trail_length(programs, k, m, (j - 1) as nat);
        let prev = programs.update(k, u.ticks((j - 1) as nat));
        crate::program::lemma_survives_trail_length(u, m, (j - 1) as nat);
        assert forall|i: int| 0 <= i < prev.len() && i != k implies !(#[trigger] prev[i]).dies_on_tick() by {
            assert(prev[i] == programs[i]);
        }
        lemma_killed_only(prev, k);
        let all = prev.map_values(|p: ProgramView| p.ticked());
        assert forall|i: int| 0 <= i < prev.len() && i != k implies #[trigger] all[i] == programs[i] by {
            assert(prev[i] == programs[i]);
        }
        if j <= u.trail.len() {
            assert(!prev[k].dies_on_tick());
            assert(all =~= programs.update(k, u.ticks(j)));
        } else {
            assert(prev[k].dies_on_tick());
            assert(all[k].position == u.position) by {
                assert(u.ticks((j - 1) as nat).position == u.position) by {
                    lemma_ticks_keep_position(u, (j - 1) as nat);
                }
            }
            assert forall|i: int| 0 <= i < all.len() && i != k implies (#[trigger] all[i]).position
                != all[k].position by {}
            lemma_remove_only_head(all, k);
            let kp = killed_positions(prev);
            assert(kp == seq![prev[k].position]);
            assert(kp.drop_last() =~= Seq::<Point>::empty());
            assert(without_heads(all, kp.drop_last()) == all);
            assert(prev[k].position == u.position) by {
                lemma_ticks_keep_position(u, (j - 1) as nat);
            }
            assert(ticked_programs(prev) == crate::level::without_head_at(all, all[k].position));
            assert(all.remove(k) =~= programs.remove(k));
        }
    }
}

proof fn lemma_ticks_keep_position(u: ProgramView, j: nat)
    ensures
        u.ticks(j).position == u.position,
    decreases j,
{
    if j > 0 {
        lemma_ticks_keep_position(u, (j - 1) as nat);
    }
}

} // verus!
