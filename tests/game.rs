use rehack::ai::{ai_tick, AIState};
use rehack::data::{builder_for, load_level};
use rehack::game_state::{GameState, ModelView, UiEvent, UiState};
use rehack::info_view::{ChoiceList, InfoView, PrimaryAction};
use rehack::level::{CellContents, Level};
use rehack::level_transition;
use rehack::map_view::{Help, MapView, Mark};
use rehack::mission_select;
use rehack::player::Player;
use rehack::player_turn;
use rehack::point::Point;
use rehack::program::{Ability, Program, StatusEffect, Team};

fn rows_with(special: &[(usize, &'static str)]) -> [&'static str; 20] {
    let mut rows = ["...................."; 20];
    for &(i, s) in special {
        rows[i] = s;
    }
    rows
}

fn model(level: Level) -> ModelView {
    ModelView {
        info: InfoView::new(),
        map: MapView::new(),
        player: Player::new("David"),
        program_list: ChoiceList::new(4),
        level,
    }
}

#[test]
fn level_reads_terrain() {
    let level = Level::new(&rows_with(&[(0, "o.#s"), (1, "Ab.p")]));
    assert_eq!(level.layout.len(), 20);
    assert_eq!(level.layout[0], vec!['o', '.', '#', '.']);
    assert_eq!(level.layout[1], vec!['.', '.', '.', '.']);
    assert!(level.programs.is_empty());
}

#[test]
fn contents_and_passability() {
    let mut level = Level::new(&rows_with(&[(0, "o.# ")]));
    assert_eq!(level.contents_of(Point::new(1, 1)), CellContents::Uplink);
    assert_eq!(level.contents_of(Point::new(2, 1)), CellContents::Empty);
    assert_eq!(level.contents_of(Point::new(3, 1)), CellContents::Unpassable);
    assert!(!level.passable(Point::new(1, 1)));
    assert!(level.passable(Point::new(2, 1)));
    assert!(!level.passable(Point::new(3, 1)));

    let mut p = Program::new(Team::Enemy, Point::new(5, 5), "Hack");
    p.move_to(Point::new(6, 5));
    level.add_program(p);
    level.add_program(Program::new(Team::Player, Point::new(5, 5), "Other"));
    assert_eq!(level.contents_of(Point::new(5, 5)), CellContents::Program(0));
    assert_eq!(level.contents_of(Point::new(6, 5)), CellContents::Program(0));
    assert!(!level.passable(Point::new(5, 5)));
    assert!(!level.passable(Point::new(6, 5)));
    assert!(level.passable(Point::new(7, 5)));
}

#[test]
fn uplink_becomes_ground() {
    let mut level = Level::new(&rows_with(&[(0, "o.")]));
    level.remove_uplink_at(Point::new(1, 1));
    assert_eq!(level.layout[0], vec!['.', '.']);
    level.remove_uplink_at(Point::new(2, 1));
    assert_eq!(level.layout[0], vec!['.', '.']);
}

#[test]
fn remove_program_by_head() {
    let mut level = Level::new(&rows_with(&[]));
    level.add_program(Program::new(Team::Enemy, Point::new(2, 2), "A"));
    level.add_program(Program::new(Team::Enemy, Point::new(3, 3), "B"));
    level.add_program(Program::new(Team::Player, Point::new(4, 4), "C"));
    level.remove_program_at(Point::new(3, 3));
    assert_eq!(level.programs.len(), 2);
    assert_eq!(level.programs[0].name, "A");
    assert_eq!(level.programs[1].name, "C");
}

#[test]
fn begin_turn_resets_every_unit() {
    let mut level = Level::new(&rows_with(&[]));
    let mut a = Program::new(Team::Enemy, Point::new(2, 2), "A");
    a.move_to(Point::new(3, 2));
    a.turn_state.ability_used = true;
    level.add_program(a);
    let mut b = Program::new(Team::Player, Point::new(5, 5), "B");
    b.move_to(Point::new(5, 6));
    level.add_program(b);
    level.begin_turn();
    for p in level.programs.iter() {
        assert_eq!(p.turn_state.moves_made, 0);
        assert!(!p.turn_state.ability_used);
    }
}

#[test]
fn victory_with_only_player_units() {
    let mut level = Level::new(&rows_with(&[]));
    level.add_program(Program::new(Team::Player, Point::new(2, 2), "Hack"));
    assert_eq!(level.check_victory(), Some(Team::Player));
}

#[test]
fn victory_cases() {
    let mut level = Level::new(&rows_with(&[]));
    assert_eq!(level.check_victory(), Some(Team::Enemy));
    level.add_program(Program::new(Team::Enemy, Point::new(2, 2), "Hack"));
    assert_eq!(level.check_victory(), Some(Team::Enemy));
    level.add_program(Program::new(Team::Player, Point::new(4, 4), "Hack"));
    assert_eq!(level.check_victory(), None);
}

fn duel_level() -> Level {
    let mut level = Level::new(&rows_with(&[]));
    let mut enemy = Program::new(Team::Enemy, Point::new(5, 5), "Sprinter");
    enemy.abilities.push(("Overflow".to_owned(), Ability::Destroy { damage: 1, range: 3 }));
    level.add_program(enemy);
    level.add_program(Program::new(Team::Player, Point::new(7, 6), "Hack"));
    level
}

#[test]
fn ai_prefers_ability_over_move() {
    let mut level = duel_level();
    assert_eq!(ai_tick(&mut level), AIState::WaitingAnimation);
    assert!(level.programs[0].turn_state.ability_used);
    assert_eq!(level.programs[0].position, Point::new(5, 5));
    assert_eq!(level.programs[1].status_effects, vec![StatusEffect::Damage(1)]);
}

#[test]
fn ai_moves_once_ability_is_used() {
    let mut level = duel_level();
    ai_tick(&mut level);
    assert_eq!(ai_tick(&mut level), AIState::Plotting);
    assert_eq!(level.programs[0].position, Point::new(6, 5));
    assert_eq!(level.programs[0].tail, vec![Point::new(5, 5)]);
    assert_eq!(level.programs[1].status_effects, vec![StatusEffect::Damage(1)]);
}

#[test]
fn ai_is_done_when_nothing_is_possible() {
    let mut level = Level::new(&rows_with(&[(0, "#.#"), (1, "#.#"), (2, "###")]));
    let mut enemy = Program::new(Team::Enemy, Point::new(2, 2), "Hack");
    enemy.max_moves = 0;
    level.add_program(enemy);
    assert_eq!(ai_tick(&mut level), AIState::Done);
    let mut level = Level::new(&rows_with(&[(0, "###"), (1, "#.#"), (2, "###")]));
    level.add_program(Program::new(Team::Enemy, Point::new(2, 2), "Hack"));
    assert_eq!(ai_tick(&mut level), AIState::Done);
}

#[test]
fn ai_first_direction_is_east() {
    let mut level = Level::new(&rows_with(&[]));
    level.add_program(Program::new(Team::Enemy, Point::new(5, 5), "Hack"));
    assert_eq!(ai_tick(&mut level), AIState::Plotting);
    assert_eq!(level.programs[0].position, Point::new(6, 5));
}

#[test]
fn ai_is_deterministic() {
    let mut a = duel_level();
    let mut b = duel_level();
    for _ in 0..5 {
        assert_eq!(ai_tick(&mut a), ai_tick(&mut b));
        assert_eq!(a.programs.len(), b.programs.len());
        for (x, y) in a.programs.iter().zip(b.programs.iter()) {
            assert_eq!(x.position, y.position);
            assert_eq!(x.tail, y.tail);
            assert_eq!(x.status_effects, y.status_effects);
            assert_eq!(x.turn_state, y.turn_state);
        }
    }
}

#[test]
fn ai_ignores_player_units() {
    let mut level = Level::new(&rows_with(&[]));
    level.add_program(Program::new(Team::Player, Point::new(5, 5), "Hack"));
    assert_eq!(ai_tick(&mut level), AIState::Done);
    assert_eq!(level.programs[0].position, Point::new(5, 5));
}

#[test]
fn levels_load() {
    let level = load_level(0).unwrap();
    assert_eq!(level.layout.len(), 20);
    assert_eq!(level.programs.len(), 6);
    assert!(level.programs.iter().all(|p| p.team == Team::Enemy));
    assert_eq!(level.programs[0].name, "Patrol");
    assert_eq!(level.programs[0].position, Point::new(33, 3));
    assert_eq!(level.contents_of(Point::new(4, 9)), CellContents::Uplink);
    assert!(load_level(1).is_some());
    assert!(load_level(2).is_none());
}

#[test]
fn archetypes() {
    let s = builder_for('s').unwrap().instance(Team::Enemy);
    assert_eq!(s.name, "Sprinter");
    assert_eq!(s.max_tail, 2);
    assert_eq!(s.max_moves, 10);
    assert_eq!(s.abilities[0].1, Ability::Destroy { damage: 1, range: 3 });
    let f = builder_for('f').unwrap().instance(Team::Enemy);
    assert_eq!(f.max_moves, 0);
    assert!(builder_for('x').is_none());
}

#[test]
fn choice_list_toggles() {
    let mut list: ChoiceList<u32> = ChoiceList::new(6);
    list.choices().push(("a".to_owned(), 10));
    list.choices().push(("b".to_owned(), 20));
    assert_eq!(list.handle_click(Point::new(1, 7)), Some(&20));
    assert_eq!(list.get_selection_index(), Some(1));
    assert_eq!(list.handle_click(Point::new(1, 7)), None);
    assert_eq!(list.handle_click(Point::new(1, 6)), Some(&10));
    assert_eq!(list.handle_click(Point::new(1, 9)), None);
    assert_eq!(list.get_selection(), None);
    list.handle_click(Point::new(1, 6));
    list.clear();
    assert_eq!(list.get_selection(), None);
    assert!(list.choices().is_empty());
}

#[test]
fn movement_overlay_arrows() {
    let mut level = Level::new(&rows_with(&[(4, "....#....")]));
    level.add_program(Program::new(Team::Player, Point::new(4, 5), "Hack"));
    let mut map = MapView::new();
    map.highlight(0, &level);
    assert_eq!(
        map.overlay,
        vec![(Point::new(3, 5), Mark::West), (Point::new(4, 4), Mark::North), (Point::new(4, 6), Mark::South)]
    );
    assert_eq!(map.translate_click(Point::new(3, 5)), Some(Point::new(3, 5)));
    assert_eq!(map.translate_click(Point::new(5, 5)), None);
}

#[test]
fn range_overlay_marks_targets() {
    let mut level = Level::new(&rows_with(&[]));
    level.add_program(Program::new(Team::Player, Point::new(4, 5), "Hack"));
    level.add_program(Program::new(Team::Enemy, Point::new(5, 5), "Foe"));
    let mut map = MapView::new();
    map.highlight(0, &level);
    map.highlight_range(1, &level);
    assert_eq!(
        map.overlay,
        vec![
            (Point::new(3, 5), Mark::InRange),
            (Point::new(4, 4), Mark::InRange),
            (Point::new(4, 6), Mark::InRange),
            (Point::new(5, 5), Mark::Target),
        ]
    );
}

#[test]
fn player_selects_moves_and_attacks() {
    let mut level = Level::new(&rows_with(&[]));
    let mut hack = Program::new(Team::Player, Point::new(4, 5), "Hack");
    hack.abilities.push(("Bitblast".to_owned(), Ability::Destroy { damage: 2, range: 1 }));
    level.add_program(hack);
    level.add_program(Program::new(Team::Enemy, Point::new(7, 5), "Foe"));
    let mut mv = model(level);

    let s = player_turn::next(UiState::Unselected, UiEvent::ClickMap(Point::new(4, 5)), &mut mv);
    assert_eq!(s, UiState::Selected);
    assert_eq!(mv.map.highlight, Some(0));
    assert_eq!(mv.map.help, Some(Help::MoveOrUseAbility));

    let s = player_turn::next(s, UiEvent::ClickMap(Point::new(5, 5)), &mut mv);
    assert_eq!(s, UiState::Selected);
    assert_eq!(mv.level.programs[0].position, Point::new(5, 5));

    let s = player_turn::next(s, UiEvent::ClickInfo(Point::new(2, 6)), &mut mv);
    assert_eq!(s, UiState::SelectTarget(Ability::Destroy { damage: 2, range: 1 }));

    let s = player_turn::next(s, UiEvent::ClickMap(Point::new(6, 5)), &mut mv);
    assert_eq!(s, UiState::Selected);

    let s = player_turn::next(s, UiEvent::ClickMap(Point::new(6, 5)), &mut mv);
    assert_eq!(s, UiState::Selected);
    assert_eq!(mv.level.programs[0].position, Point::new(6, 5));

    let s = player_turn::next(s, UiEvent::ClickInfo(Point::new(2, 6)), &mut mv);
    let s = player_turn::next(s, UiEvent::ClickMap(Point::new(7, 5)), &mut mv);
    assert_eq!(s, UiState::Animating);
    assert!(mv.level.programs[0].turn_state.ability_used);
    assert_eq!(mv.level.programs[1].status_effects, vec![StatusEffect::Damage(2)]);

    let s = player_turn::next(s, UiEvent::Tick, &mut mv);
    assert_eq!(s, UiState::Animating);
    assert_eq!(mv.level.programs.len(), 1);
    assert_eq!(mv.map.highlight, None);
    let s = player_turn::next(s, UiEvent::Tick, &mut mv);
    assert_eq!(s, UiState::Unselected);
    assert_eq!(mv.map.help, Some(Help::ClickProgram));
}

#[test]
fn clicking_enemy_does_not_select() {
    let mut level = Level::new(&rows_with(&[]));
    level.add_program(Program::new(Team::Enemy, Point::new(4, 5), "Foe"));
    let mut mv = model(level);
    let s = player_turn::next(UiState::Unselected, UiEvent::ClickMap(Point::new(4, 5)), &mut mv);
    assert_eq!(s, UiState::Unselected);
    assert_eq!(mv.map.highlight, None);
}

#[test]
fn setup_loads_a_program_at_an_uplink() {
    let level = Level::new(&rows_with(&[(0, "o...")]));
    let mut mv = model(level);
    mv.program_list.choices().push(("Hack 1".to_owned(), Program::new(Team::Player, Point::new(0, 0), "Hack 1")));
    let s = player_turn::next_setup(UiState::Unselected, UiEvent::ClickMap(Point::new(1, 1)), &mut mv);
    assert_eq!(s, UiState::Selected);
    assert_eq!(mv.map.uplink, Some(Point::new(1, 1)));
    let s = player_turn::next_setup(s, UiEvent::ClickInfo(Point::new(2, 4)), &mut mv);
    assert_eq!(s, UiState::Unselected);
    assert_eq!(mv.level.programs.len(), 1);
    assert_eq!(mv.level.programs[0].position, Point::new(1, 1));
    assert_eq!(mv.level.layout[0][0], '.');
    assert!(mv.program_list.choices().is_empty());
    assert_eq!(mv.map.uplink, None);
    assert_eq!(mv.map.help, Some(Help::ChooseUplink));
}

#[test]
fn setup_click_off_uplink() {
    let level = Level::new(&rows_with(&[(0, "o...")]));
    let mut mv = model(level);
    let s = player_turn::next_setup(UiState::Unselected, UiEvent::ClickMap(Point::new(2, 1)), &mut mv);
    assert_eq!(s, UiState::Unselected);
    assert_eq!(mv.map.uplink, None);
}

#[test]
fn game_phases() {
    let mut mv = model(Level::new(&rows_with(&[])));
    let state = GameState::MissionSelect(mission_select::State::new());
    let state = state.tick(&mut mv);
    assert!(matches!(state, GameState::MissionSelect(_)));
    let state = state.key_pressed(&mut mv);
    assert!(matches!(state, GameState::SetupTransition));
    assert_eq!(mv.level.programs.len(), 6);
    let state = state.tick(&mut mv);
    assert!(matches!(state, GameState::Setup(UiState::Unselected)));
    assert_eq!(mv.level.programs.len(), 8);
    assert_eq!(mv.player.programs.len(), 2);
    assert_eq!(mv.info.primary_action, PrimaryAction::LaunchIntrusion);
    let state = state.next(UiEvent::EndTurn, &mut mv);
    assert!(matches!(state, GameState::PlayerTurnTransition));
    assert_eq!(mv.info.primary_action, PrimaryAction::EndTurn);
    let state = state.tick(&mut mv);
    assert!(matches!(state, GameState::Quit));
}

#[test]
fn turns_alternate() {
    let mut level = Level::new(&rows_with(&[]));
    level.add_program(Program::new(Team::Player, Point::new(2, 2), "Hack"));
    level.add_program(Program::new(Team::Enemy, Point::new(15, 15), "Foe"));
    let mut mv = model(level);
    let state = GameState::PlayerTurnTransition.tick(&mut mv);
    assert!(matches!(state, GameState::PlayerTurn(UiState::Unselected)));
    let state = state.next(UiEvent::EndTurn, &mut mv);
    assert!(matches!(state, GameState::AITurnTransition));
    let state = state.tick(&mut mv);
    assert!(matches!(state, GameState::AITurn(UiState::Unselected)));
    assert_eq!(mv.info.team, Team::Enemy);
    let mut state = state;
    let mut ticks = 0;
    while !matches!(state, GameState::PlayerTurnTransition) {
        state = state.tick(&mut mv);
        ticks += 1;
        assert!(ticks < 10);
    }
    assert_eq!(ticks, 4);
    assert_eq!(mv.level.programs[1].position, Point::new(18, 15));
    let state = state.next(UiEvent::Quit, &mut mv);
    assert!(matches!(state, GameState::Quit));
}

#[test]
fn transition_screen_picks_next_level() {
    let mut won = level_transition::State::new(0, Team::Player);
    assert_eq!(level_transition::next(&mut won, level_transition::UiEvent::KeyPressed), Some(1));
    let mut lost = level_transition::State::new(0, Team::Enemy);
    assert_eq!(level_transition::next(&mut lost, level_transition::UiEvent::KeyPressed), Some(0));
    assert_eq!(level_transition::next(&mut lost, level_transition::UiEvent::Tick), None);
}

#[test]
fn title_screen_starts_first_level() {
    let mut s = mission_select::State::new();
    assert_eq!(mission_select::next(&mut s, mission_select::UiEvent::KeyPressed), mission_select::Transition::Level(0));
    assert_eq!(
        mission_select::next(&mut s, mission_select::UiEvent::Tick),
        mission_select::Transition::Ui(UiState::Unselected)
    );
}

#[test]
fn second_level_loads() {
    let level = load_level(1).unwrap();
    assert_eq!(level.programs.len(), 7);
    assert_eq!(level.contents_of(Point::new(11, 9)), CellContents::Uplink);
    let firewall = level.programs.iter().find(|p| p.name == "Firewall").unwrap();
    assert_eq!(firewall.position, Point::new(33, 9));
}

#[test]
fn quit_ends_setup() {
    let mut mv = model(Level::new(&rows_with(&[])));
    let state = GameState::Setup(UiState::Unselected).next(UiEvent::Quit, &mut mv);
    assert!(matches!(state, GameState::Quit));
}

#[test]
fn setup_without_uplink_loads_nothing() {
    let level = Level::new(&rows_with(&[(0, "o...")]));
    let mut mv = model(level);
    mv.program_list.choices().push(("Hack 1".to_owned(), Program::new(Team::Player, Point::new(0, 0), "Hack 1")));
    let s = player_turn::next_setup(UiState::Selected, UiEvent::ClickInfo(Point::new(2, 4)), &mut mv);
    assert_eq!(s, UiState::Unselected);
    assert!(mv.level.programs.is_empty());
    assert_eq!(mv.program_list.choices().len(), 1);
}

#[test]
fn enemies_act_in_level_order() {
    let mut level = Level::new(&rows_with(&[]));
    level.add_program(Program::new(Team::Enemy, Point::new(5, 5), "First"));
    level.add_program(Program::new(Team::Enemy, Point::new(7, 5), "Second"));
    assert_eq!(ai_tick(&mut level), AIState::Plotting);
    assert_eq!(level.programs[0].position, Point::new(6, 5));
    assert_eq!(level.programs[1].position, Point::new(8, 5));
    assert_eq!(ai_tick(&mut level), AIState::Plotting);
    assert_eq!(level.programs[0].position, Point::new(6, 4));
    assert_eq!(level.programs[1].position, Point::new(9, 5));
}

#[test]
fn range_overlay_stops_at_the_edge() {
    let mut level = Level::new(&rows_with(&[]));
    level.add_program(Program::new(Team::Player, Point::new(1, 1), "Hack"));
    let mut map = MapView::new();
    map.highlight(0, &level);
    map.highlight_range(1, &level);
    assert_eq!(map.overlay, vec![(Point::new(1, 2), Mark::InRange), (Point::new(2, 1), Mark::InRange)]);
    map.clear_range();
    map.update_highlight(&level);
    assert_eq!(map.overlay, vec![(Point::new(2, 1), Mark::East), (Point::new(1, 2), Mark::South)]);
}

#[test]
fn info_panel_shows_unit() {
    let mut info = InfoView::new();
    let mut p = Program::new(Team::Player, Point::new(1, 1), "Hack");
    p.abilities.push(("Bitblast".to_owned(), Ability::Destroy { damage: 2, range: 1 }));
    info.display_program(&p);
    let shown = info.program.as_ref().unwrap();
    assert_eq!(shown.name, "Hack");
    assert_eq!(shown.max_moves, 3);
    assert_eq!(info.ability_list.labels(), vec!["Bitblast".to_owned()]);
    assert_eq!(info.translate_click(Point::new(2, 6)), Some(Ability::Destroy { damage: 2, range: 1 }));
    info.clear_ability();
    assert_eq!(info.ability_list.selected_row(), None);
    p.turn_state.ability_used = true;
    info.display_program(&p);
    assert!(info.ability_list.labels().is_empty());
    info.clear();
    assert!(info.program.is_none());
}

#[test]
fn overlays_follow_the_interaction() {
    let mut level = Level::new(&rows_with(&[]));
    let mut hack = Program::new(Team::Player, Point::new(4, 5), "Hack");
    hack.abilities.push(("Bitblast".to_owned(), Ability::Destroy { damage: 2, range: 1 }));
    level.add_program(hack);
    let mut mv = model(level);
    let s = player_turn::next(UiState::Unselected, UiEvent::ClickMap(Point::new(4, 5)), &mut mv);
    assert_eq!(mv.info.program.as_ref().unwrap().name, "Hack");
    let s = player_turn::next(s, UiEvent::ClickMap(Point::new(5, 5)), &mut mv);
    assert_eq!(mv.map.overlay[0], (Point::new(6, 5), Mark::East));
    let s = player_turn::next(s, UiEvent::ClickInfo(Point::new(2, 6)), &mut mv);
    assert_eq!(mv.map.highlight_range, Some(1));
    assert_eq!(mv.map.overlay[0], (Point::new(5, 4), Mark::InRange));
    let s = player_turn::next(s, UiEvent::ClickMap(Point::new(9, 9)), &mut mv);
    assert_eq!(s, UiState::Selected);
    assert_eq!(mv.map.highlight_range, None);
    assert_eq!(mv.map.overlay[0], (Point::new(6, 5), Mark::East));
}

#[test]
fn ai_turn_transition_clears_the_map() {
    let mut level = Level::new(&rows_with(&[]));
    level.add_program(Program::new(Team::Player, Point::new(4, 5), "Hack"));
    let mut mv = model(level);
    mv.map.highlight(0, &mv.level);
    mv.map.highlight_range = Some(2);
    let state = GameState::AITurnTransition.tick(&mut mv);
    assert!(matches!(state, GameState::AITurn(UiState::Unselected)));
    assert_eq!(mv.map.highlight, None);
    assert_eq!(mv.map.highlight_range, None);
    assert!(mv.map.overlay.is_empty());
}
