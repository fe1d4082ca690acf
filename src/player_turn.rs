use vstd::prelude::*;

use crate::game_state::{
    ModelView,
    UiEvent,
    UiState,
    any_pending,
    killed_positions,
    ticked_programs,
    update_programs,
};
use crate::info_view::{ChoiceList, InfoView, shows};
use crate::level::{CellContents, Level, LevelView};
use crate::map_view::{Help, Mark, MapView, overlay_for, valid_highlight};
use crate::point::Point;
use crate::program::{
    Ability,
    ProgramTurnState,
    ProgramView,
    Team,
    ability_damage,
    ability_range,
    added_damage,
};

verus! {

/// Index of the first player unit that occupies `p`.
pub open spec fn first_player_at(programs: Seq<ProgramView>, p: Point) -> Option<int>
    decreases programs.len(),
{
    if programs.len() == 0 {
        None
    } else {
        match first_player_at(programs.drop_last(), p) {
            Some(i) => Some(i),
            None => if programs.last().occupies(p) && programs.last().team == Team::Player {
                Some(programs.len() - 1)
            } else {
                None
            },
        }
    }
}

/// Whether `p` carries a marker of the overlay.
pub open spec fn on_overlay(overlay: Seq<(Point, Mark)>, p: Point) -> bool {
    exists|i: int| 0 <= i < overlay.len() && (#[trigger] overlay[i]).0 == p
}

/// The row a click on the ability list selects: the clicked row, unless it is outside the
/// list or was already selected.
pub open spec fn click_selection(list: ChoiceList<Ability>, p: Point) -> Option<u16> {
    if p.y < list.top() || p.y - list.top() >= list.items().len() {
        None
    } else if list.selection() == Some(p.y) {
        None
    } else {
        Some(p.y)
    }
}

/// The ability a click on the panel picks.
pub open spec fn clicked_ability(info: InfoView, p: Point) -> Option<Ability> {
    match click_selection(info.ability_list, p) {
        Some(s) => Some(info.ability_list.items()[s - info.ability_list.top()].1),
        None => None,
    }
}

/// The interaction state after `event` in state `state`.
pub open spec fn next_ui(
    state: UiState,
    event: UiEvent,
    lv: LevelView,
    map: MapView,
    info: InfoView,
) -> UiState {
    match (state, event) {
        (UiState::Unselected, UiEvent::ClickMap(p)) => if first_player_at(lv.programs, p) is Some {
            UiState::Selected
        } else {
            UiState::Unselected
        },
        (UiState::Selected, UiEvent::ClickMap(p)) => if on_overlay(map.overlay@, p) {
            UiState::Selected
        } else if first_player_at(lv.programs, p) is Some {
            UiState::Selected
        } else {
            UiState::Unselected
        },
        (UiState::Unselected, UiEvent::ClickInfo(_)) => UiState::Unselected,
        (UiState::Selected, UiEvent::ClickInfo(p)) => match clicked_ability(info, p) {
            Some(a) => UiState::SelectTarget(a),
            None => UiState::Selected,
        },
        (UiState::SelectTarget(_), UiEvent::ClickMap(p)) => if on_overlay(map.overlay@, p)
            && lv.in_bounds(p) && lv.contents(p) is Program {
            UiState::Animating
        } else {
            UiState::Selected
        },
        (UiState::SelectTarget(_), UiEvent::ClickInfo(p)) => match clicked_ability(info, p) {
            Some(a) => UiState::SelectTarget(a),
            None => UiState::Selected,
        },
        (s, UiEvent::Tick) => if s == UiState::Animating && !any_pending(lv.programs) {
            if map.highlight is Some {
                UiState::Selected
            } else {
                UiState::Unselected
            }
        } else {
            s
        },
        (s, _) => s,
    }
}

/// The units after `ability` hits unit `target` and the highlighted unit, if any, is marked
/// as having used its ability.
pub open spec fn attacked(
    programs: Seq<ProgramView>,
    ability: Ability,
    target: int,
    caster: Option<usize>,
) -> Seq<ProgramView> {
    let t = programs[target];
    let hit = programs.update(
        target,
        t.with_effects(added_damage(t.status_effects, ability_damage(ability))),
    );
    match caster {
        Some(c) => if c < hit.len() {
            hit.update(
                c as int,
                hit[c as int].with_turn_state(
                    ProgramTurnState { ability_used: true, ..hit[c as int].turn_state },
                ),
            )
        } else {
            hit
        },
        None => hit,
    }
}

/// The level after `event` in state `state`.
pub open spec fn next_level(state: UiState, event: UiEvent, lv: LevelView, map: MapView) -> LevelView {
    match (state, event) {
        (UiState::Selected, UiEvent::ClickMap(p)) => if on_overlay(map.overlay@, p) && valid_highlight(
            map.highlight,
            lv,
        ) {
            let h = map.highlight->0 as int;
            LevelView { programs: lv.programs.update(h, lv.programs[h].move_to(p)), ..lv }
        } else {
            lv
        },
        (UiState::SelectTarget(a), UiEvent::ClickMap(p)) => if on_overlay(map.overlay@, p)
            && lv.in_bounds(p) && lv.contents(p) is Program {
            LevelView {
                programs: attacked(
                    lv.programs,
                    a,
                    lv.contents(p)->Program_0 as int,
                    map.highlight,
                ),
                ..lv
            }
        } else {
            lv
        },
        (_, UiEvent::Tick) => LevelView { programs: ticked_programs(lv.programs), ..lv },
        _ => lv,
    }
}

/// The highlighted unit after `event` in state `state`.
pub open spec fn next_highlight(
    state: UiState,
    event: UiEvent,
    lv: LevelView,
    map: MapView,
) -> Option<usize> {
    match (state, event) {
        (UiState::Unselected, UiEvent::ClickMap(p)) => match first_player_at(lv.programs, p) {
            Some(i) => Some(i as usize),
            None => map.highlight,
        },
        (UiState::Selected, UiEvent::ClickMap(p)) => if on_overlay(map.overlay@, p) {
            map.highlight
        } else {
            match first_player_at(lv.programs, p) {
                Some(i) => Some(i as usize),
                None => None,
            }
        },
        (_, UiEvent::Tick) => if killed_positions(lv.programs).len() > 0 {
            None
        } else {
            map.highlight
        },
        _ => map.highlight,
    }
}

proof fn lemma_first_player_prefix(programs: Seq<ProgramView>, m: int, p: Point)
    requires
        0 <= m <= programs.len(),
        first_player_at(programs.take(m), p) is Some,
    ensures
        first_player_at(programs, p) == first_player_at(programs.take(m), p),
    decreases programs.len() - m,
{
    if m == programs.len() {
        assert(programs.take(m) =~= programs);
    } else {
        assert(programs.drop_last().take(m) =~= programs.take(m));
        lemma_first_player_prefix(programs.drop_last(), m, p);
    }
}

proof fn lemma_killed_means_pending(programs: Seq<ProgramView>)
    ensures
        killed_positions(programs).len() > 0 ==> any_pending(programs),
    decreases programs.len(),
{
    if programs.len() > 0 {
        let init = programs.drop_last();
        lemma_killed_means_pending(init);
        if killed_positions(init).len() > 0 {
            let i = choose|i: int| 0 <= i < init.len() && (#[trigger] init[i]).status_effects.len() > 0;
            assert(programs[i] == init[i]);
        } else if programs.last().dies_on_tick() {
            assert(programs[programs.len() - 1].status_effects.len() > 0);
        }
    }
}

/// Highlights the first player unit at `point` and shows it on the panel.
fn select_program(point: Point, level: &Level, map: &mut MapView, info: &mut InfoView) -> (r: UiState)
    ensures
        r == if first_player_at(level@.programs, point) is Some {
            UiState::Selected
        } else {
            UiState::Unselected
        },
        final(map).highlight == match first_player_at(level@.programs, point) {
            Some(i) => Some(i as usize),
            None => old(map).highlight,
        },
        final(map).highlight_range == old(map).highlight_range,
        final(map).uplink == old(map).uplink,
        final(info).ability_list.top() == old(info).ability_list.top(),
        final(info).team == old(info).team,
        final(info).primary_action == old(info).primary_action,
        first_player_at(level@.programs, point) is Some ==> {
            let i = first_player_at(level@.programs, point)->0;
            &&& 0 <= i < level@.programs.len()
            &&& shows(final(info).program, level@.programs[i])
            &&& final(map).overlay@ == overlay_for(level@, i, old(map).highlight_range)
        },
        first_player_at(level@.programs, point) is None ==> *final(map) == *old(map) && *final(info)
            == *old(info),
{
    let n = level.programs.len();
    let mut i: usize = 0;
    while i < n
        invariant
            0 <= i <= n,
            n == level@.programs.len(),
            first_player_at(level@.programs.take(i as int), point) is None,
            *map == *old(map),
            *info == *old(info),
        decreases n - i,
    {
        proof {
            assert(level@.programs.take(i + 1).drop_last() =~= level@.programs.take(i as int));
            assert(level@.programs.take(i + 1).last() == level@.programs[i as int]);
        }
        if level.programs[i].intersects(point) && level.programs[i].team == Team::Player {
            proof {
                lemma_first_player_prefix(level@.programs, i + 1, point);
            }
            map.highlight(i, level);
            info.display_program(&level.programs[i]);
            map.set_help(Help::MoveOrUseAbility);
            return UiState::Selected;
        }
        i = i + 1;
    }
    proof {
        assert(level@.programs.take(n as int) =~= level@.programs);
    }
    UiState::Unselected
}

/// The player's interaction during their turn: selecting a unit, moving it along the
/// arrows, choosing an ability and a target, and waiting while damage plays out. Every tick
/// advances pending effects.
pub fn next(state: UiState, event: UiEvent, mv: &mut ModelView) -> (r: UiState)
    ensures
        r == next_ui(state, event, old(mv).level@, old(mv).map, old(mv).info),
        final(mv).level@ == next_level(state, event, old(mv).level@, old(mv).map),
        final(mv).map.highlight == next_highlight(state, event, old(mv).level@, old(mv).map),
        // a unit is selected: it is shown on the panel, with its markers on the map
        event is ClickMap && (state == UiState::Unselected || (state == UiState::Selected
            && !on_overlay(old(mv).map.overlay@, event->ClickMap_0))) && first_player_at(
            old(mv).level@.programs,
            event->ClickMap_0,
        ) is Some ==> {
            let i = first_player_at(old(mv).level@.programs, event->ClickMap_0)->0;
            &&& shows(final(mv).info.program, old(mv).level@.programs[i])
            &&& final(mv).map.overlay@ == overlay_for(old(mv).level@, i, old(mv).map.highlight_range)
        },
        // a move along an arrow: the markers follow the unit's new head
        state == UiState::Selected && event is ClickMap && on_overlay(
            old(mv).map.overlay@,
            event->ClickMap_0,
        ) && valid_highlight(old(mv).map.highlight, old(mv).level@) ==> final(mv).map.highlight_range
            == old(mv).map.highlight_range && final(mv).map.overlay@ == overlay_for(
            final(mv).level@,
            old(mv).map.highlight->0 as int,
            old(mv).map.highlight_range,
        ),
        // an ability is picked on the panel: its range is shown
        (state == UiState::Selected || state is SelectTarget) && event is ClickInfo
            && clicked_ability(old(mv).info, event->ClickInfo_0) is Some ==> {
            let a = clicked_ability(old(mv).info, event->ClickInfo_0)->0;
            &&& final(mv).map.highlight_range == Some(ability_range(a))
            &&& valid_highlight(old(mv).map.highlight, old(mv).level@) ==> final(mv).map.overlay@
                == overlay_for(
                old(mv).level@,
                old(mv).map.highlight->0 as int,
                Some(ability_range(a)),
            )
        },
        // a target is clicked, or the choice of ability is undone: the range is cleared and
        // the unit's moves are shown again
        state is SelectTarget && (event is ClickMap || (event is ClickInfo && clicked_ability(
            old(mv).info,
            event->ClickInfo_0,
        ) is None)) ==> final(mv).map.highlight_range is None && (valid_highlight(
            old(mv).map.highlight,
            old(mv).level@,
        ) ==> final(mv).map.overlay@ == overlay_for(
            old(mv).level@,
            old(mv).map.highlight->0 as int,
            None,
        )),
{
    let ghost lv = mv.level@;
    let ghost map0 = mv.map;
    proof {
        lemma_killed_means_pending(lv.programs);
    }
    let result = match (state, event) {
        (UiState::Unselected, UiEvent::ClickMap(p)) => {
            select_program(p, &mv.level, &mut mv.map, &mut mv.info)
        },
        (UiState::Selected, UiEvent::ClickMap(p)) => {
            let target = mv.map.translate_click(p);
            match target {
                Some(q) => {
                    match mv.map.get_highlight() {
                        Some(h) => {
                            if h < mv.level.programs.len() {
                                mv.level.programs[h].move_to(q);
                                mv.info.update_program(&mv.level.programs[h]);
                                proof {
                                    assert(mv.level@.programs =~= lv.programs.update(
                                        h as int,
                                        lv.programs[h as int].move_to(p),
                                    ));
                                }
                            }
                        },
                        None => {},
                    }
                    mv.map.update_highlight(&mv.level);
                    UiState::Selected
                },
                None => {
                    mv.map.clear_highlight();
                    mv.info.clear();
                    select_program(p, &mv.level, &mut mv.map, &mut mv.info)
                },
            }
        },
        (UiState::Unselected, UiEvent::ClickInfo(_)) => UiState::Unselected,
        (UiState::Selected, UiEvent::ClickInfo(p)) => {
            match mv.info.translate_click(p) {
                Some(ability) => {
                    let Ability::Destroy { damage, range } = ability;
                    mv.map.set_help(Help::SelectTarget { damage, range });
                    mv.map.highlight_range(range, &mv.level);
                    UiState::SelectTarget(ability)
                },
                None => UiState::Selected,
            }
        },
        (UiState::SelectTarget(ability), UiEvent::ClickMap(p)) => {
            let target = mv.map.translate_click(p);
            mv.info.clear_ability();
            mv.map.clear_range();
            mv.map.update_highlight(&mv.level);
            match target {
                Some(q) => {
                    if mv.level.in_bounds(q) {
                        match mv.level.contents_of(q) {
                            CellContents::Program(t) => {
                                ability.apply(&mut mv.level.programs[t]);
                                let ghost hit = mv.level@.programs;
                                match mv.map.get_highlight() {
                                    Some(c) => {
                                        if c < mv.level.programs.len() {
                                            mv.level.programs[c].turn_state.ability_used = true;
                                            mv.info.clear();
                                            mv.info.display_program(&mv.level.programs[c]);
                                            proof {
                                                assert(mv.level@.programs =~= hit.update(
                                                    c as int,
                                                    hit[c as int].with_turn_state(
                                                        ProgramTurnState {
                                                            ability_used: true,
                                                            ..hit[c as int].turn_state
                                                        },
                                                    ),
                                                ));
                                            }
                                        }
                                    },
                                    None => {},
                                }
                                proof {
                                    assert(hit =~= lv.programs.update(
                                        t as int,
                                        lv.programs[t as int].with_effects(
                                            added_damage(
                                                lv.programs[t as int].status_effects,
                                                ability_damage(ability),
                                            ),
                                        ),
                                    ));
                                    assert(mv.level@.programs =~= attacked(
                                        lv.programs,
                                        ability,
                                        t as int,
                                        map0.highlight,
                                    ));
                                }
                                UiState::Animating
                            },
                            _ => UiState::Selected,
                        }
                    } else {
                        UiState::Selected
                    }
                },
                None => UiState::Selected,
            }
        },
        (UiState::SelectTarget(_), UiEvent::ClickInfo(p)) => {
            match mv.info.translate_click(p) {
                Some(ability) => {
                    let Ability::Destroy { damage, range } = ability;
                    mv.map.set_help(Help::SelectTarget { damage, range });
                    mv.map.highlight_range(range, &mv.level);
                    UiState::SelectTarget(ability)
                },
                None => {
                    mv.info.clear_ability();
                    mv.map.clear_range();
                    mv.map.update_highlight(&mv.level);
                    UiState::Selected
                },
            }
        },
        (s, UiEvent::Tick) => {
            let modified = update_programs(&mut mv.level, &mut mv.map);
            match s {
                UiState::Animating => {
                    if !modified {
                        if mv.map.get_highlight().is_some() {
                            UiState::Selected
                        } else {
                            mv.info.clear();
                            UiState::Unselected
                        }
                    } else {
                        s
                    }
                },
                _ => s,
            }
        },
        (UiState::Animating, _) => UiState::Animating,
        (s, _) => s,
    };
    if result == UiState::Unselected {
        mv.map.set_help(Help::ClickProgram);
    }
    result
}

/// The row a click on a list selects.
pub open spec fn list_click<T>(list: ChoiceList<T>, p: Point) -> Option<u16> {
    if p.y < list.top() || p.y - list.top() >= list.items().len() {
        None
    } else if list.selection() == Some(p.y) {
        None
    } else {
        Some(p.y)
    }
}

/// The interaction state during setup after `event`: the player picks an uplink on the map,
/// then a unit of the roster to load there.
pub open spec fn next_setup_ui(state: UiState, event: UiEvent, lv: LevelView, map: MapView) -> UiState {
    match (state, event) {
        (UiState::Unselected, UiEvent::ClickMap(p)) | (UiState::Selected, UiEvent::ClickMap(p)) => if lv.in_bounds(p)
            && lv.contents(p) == CellContents::Uplink && map.uplink is None {
            UiState::Selected
        } else {
            UiState::Unselected
        },
        (UiState::Unselected, UiEvent::ClickInfo(_)) => UiState::Unselected,
        (UiState::Selected, UiEvent::ClickInfo(_)) => UiState::Unselected,
        (s, _) => s,
    }
}

/// Whether a click on the roster at `p` loads a unit: a row is picked and the chosen
/// uplink lies on the map.
pub open spec fn loads_program(
    state: UiState,
    event: UiEvent,
    lv: LevelView,
    map: MapView,
    roster: ChoiceList<crate::program::Program>,
) -> bool {
    &&& state == UiState::Selected
    &&& event matches UiEvent::ClickInfo(p)
    &&& list_click(roster, event->ClickInfo_0) is Some
    &&& map.uplink is Some
    &&& lv.in_bounds(map.uplink->0)
}

/// The level after a unit is loaded at uplink `u`: the uplink becomes open ground and the
/// unit, standing on it, joins the level.
pub open spec fn loaded(lv: LevelView, program: ProgramView, u: Point) -> LevelView {
    let layout = if lv.cell(u) == 'o' {
        lv.layout.update(u.y - 1, lv.layout[u.y - 1].update(u.x - 1, '.'))
    } else {
        lv.layout
    };
    LevelView {
        layout,
        programs: lv.programs.push(ProgramView { position: u, ..program }),
    }
}

/// The player's interaction while placing units before the first turn.
pub fn next_setup(state: UiState, event: UiEvent, mv: &mut ModelView) -> (r: UiState)
    ensures
        r == next_setup_ui(state, event, old(mv).level@, old(mv).map),
        loads_program(state, event, old(mv).level@, old(mv).map, old(mv).program_list) ==> {
            let p = event->ClickInfo_0;
            let s = list_click(old(mv).program_list, p)->0;
            let k = s - old(mv).program_list.top();
            &&& final(mv).level@ == loaded(
                old(mv).level@,
                old(mv).program_list.items()[k].1@,
                old(mv).map.uplink->0,
            )
            &&& final(mv).program_list.items() == old(mv).program_list.items().remove(k)
        },
        !loads_program(state, event, old(mv).level@, old(mv).map, old(mv).program_list)
            ==> final(mv).level@ == old(mv).level@ && final(mv).program_list.items()
            == old(mv).program_list.items(),
        (state == UiState::Unselected || state == UiState::Selected) ==> (r == UiState::Unselected
            ==> final(mv).map.uplink is None),
        r == UiState::Selected && event is ClickMap ==> final(mv).map.uplink == Some(event->ClickMap_0),
{
    let new_state = match (state, event) {
        (UiState::Unselected, UiEvent::ClickMap(p)) | (UiState::Selected, UiEvent::ClickMap(p)) => {
            if mv.level.in_bounds(p) && mv.level.contents_of(p) == CellContents::Uplink {
                if mv.map.uplink.is_some() {
                    UiState::Unselected
                } else {
                    mv.map.uplink = Some(p);
                    UiState::Selected
                }
            } else {
                UiState::Unselected
            }
        },
        (UiState::Unselected, UiEvent::ClickInfo(_)) => UiState::Unselected,
        (UiState::Selected, UiEvent::ClickInfo(p)) => {
            let picked = mv.program_list.handle_click(p).is_some();
            if picked {
                match mv.map.uplink {
                    Some(u) => {
                        if mv.level.in_bounds(u) {
                            match mv.program_list.get_selection_index() {
                                Some(idx) => {
                                    let list = mv.program_list.choices();
                                    let (_, mut program) = list.remove(idx as usize);
                                    program.position = u;
                                    mv.level.remove_uplink_at(u);
                                    mv.level.add_program(program);
                                },
                                None => {},
                            }
                        }
                    },
                    None => {},
                }
            }
            mv.program_list.clear_selection();
            UiState::Unselected
        },
        (s, _) => s,
    };
    match new_state {
        UiState::Unselected => {
            if state == UiState::Unselected || state == UiState::Selected {
                mv.map.uplink = None;
                mv.info.clear();
                mv.map.set_help(Help::ChooseUplink);
            }
        },
        UiState::Selected => {
            mv.map.set_help(Help::ChooseProgram);
        },
        _ => {},
    }
    new_state
}

} // verus!
