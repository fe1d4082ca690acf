use rehack::level::Level;
use rehack::map_view::MapView;
use rehack::game_state::update_programs;
use rehack::point::Point;
use rehack::program::{Ability, Program, ProgramBuilder, StatusEffect, Team};

fn open_rows() -> [&'static str; 20] {
    let mut rows = [""; 20];
    for r in rows.iter_mut() {
        *r = "..............................";
    }
    rows
}

#[test]
fn three_moves_then_no_op() {
    let mut p = Program::new(Team::Player, Point::new(5, 5), "Hack");
    assert_eq!(p.max_moves, 3);
    p.move_to(Point::new(6, 5));
    p.move_to(Point::new(7, 5));
    p.move_to(Point::new(8, 5));
    assert_eq!(p.position, Point::new(8, 5));
    assert_eq!(p.turn_state.moves_made, 3);
    assert!(!p.can_move());
    let tail_before = p.tail.clone();
    p.move_to(Point::new(9, 5));
    assert_eq!(p.position, Point::new(8, 5));
    assert_eq!(p.turn_state.moves_made, 3);
    assert_eq!(p.tail, tail_before);
}

#[test]
fn trail_never_exceeds_cap() {
    let mut p = ProgramBuilder::new("Runner").max_tail(4).max_moves(100).instance(Team::Enemy);
    for i in 1..50u16 {
        p.move_to(Point::new(i, 1));
        assert!(p.tail.len() <= 3);
    }
    assert_eq!(p.tail, vec![Point::new(46, 1), Point::new(47, 1), Point::new(48, 1)]);
    assert_eq!(p.position, Point::new(49, 1));
}

#[test]
fn move_keeps_trail_in_order() {
    let mut p = Program::new(Team::Player, Point::new(2, 2), "Hack");
    p.move_to(Point::new(3, 2));
    p.move_to(Point::new(3, 3));
    assert_eq!(p.tail, vec![Point::new(2, 2), Point::new(3, 2)]);
    assert!(p.intersects(Point::new(2, 2)));
    assert!(p.intersects(Point::new(3, 3)));
    assert!(!p.intersects(Point::new(4, 4)));
}

#[test]
fn begin_turn_resets_counters() {
    let mut p = Program::new(Team::Player, Point::new(2, 2), "Hack");
    p.move_to(Point::new(3, 2));
    p.turn_state.ability_used = true;
    p.begin_turn();
    assert_eq!(p.turn_state.moves_made, 0);
    assert!(!p.turn_state.ability_used);
    assert_eq!(p.position, Point::new(3, 2));
}

#[test]
fn damage_accumulates_into_one_effect() {
    let mut p = Program::new(Team::Player, Point::new(2, 2), "Hack");
    Ability::Destroy { damage: 2, range: 1 }.apply(&mut p);
    Ability::Destroy { damage: 3, range: 4 }.apply(&mut p);
    assert_eq!(p.status_effects, vec![StatusEffect::Damage(5)]);
}

#[test]
fn damage_saturates_at_the_largest_magnitude() {
    let mut p = Program::new(Team::Player, Point::new(2, 2), "Hack");
    Ability::Destroy { damage: usize::MAX, range: 1 }.apply(&mut p);
    Ability::Destroy { damage: 1, range: 1 }.apply(&mut p);
    assert_eq!(p.status_effects, vec![StatusEffect::Damage(usize::MAX)]);
}

#[test]
fn damage_takes_oldest_segment_first() {
    let mut p = Program::new(Team::Player, Point::new(1, 1), "Hack");
    p.move_to(Point::new(2, 1));
    p.move_to(Point::new(3, 1));
    assert!(p.damage());
    assert_eq!(p.tail, vec![Point::new(2, 1)]);
    assert!(p.damage());
    assert!(p.tail.is_empty());
    assert!(!p.damage());
}

#[test]
fn reachable_tiles_range_one_in_order() {
    let a = Ability::Destroy { damage: 1, range: 1 };
    assert_eq!(
        a.reachable_tiles(Point::new(5, 5)),
        vec![Point::new(4, 5), Point::new(5, 4), Point::new(5, 6), Point::new(6, 5)]
    );
}

#[test]
fn reachable_tiles_counts() {
    for r in 0..6usize {
        let tiles = Ability::Destroy { damage: 1, range: r }.reachable_tiles(Point::new(10, 10));
        assert_eq!(tiles.len(), 2 * r * r + 2 * r);
        for t in tiles.iter() {
            let d = (t.x as i32 - 10).abs() + (t.y as i32 - 10).abs();
            assert!(d >= 1 && d <= r as i32);
        }
    }
}

#[test]
fn reachable_tiles_at_the_corner() {
    let tiles = Ability::Destroy { damage: 1, range: 1 }.reachable_tiles(Point::new(0, 0));
    assert_eq!(tiles, vec![Point::new(0, 1), Point::new(1, 0)]);
}

#[test]
fn builder_sets_every_field() {
    let b = ProgramBuilder::new("Sprinter")
        .ability("Overflow", Ability::Destroy { damage: 1, range: 3 })
        .max_tail(2)
        .max_moves(10)
        .name("Sprint");
    let p = b.instance(Team::Enemy);
    assert_eq!(p.name, "Sprint");
    assert_eq!(p.max_tail, 2);
    assert_eq!(p.max_moves, 10);
    assert_eq!(p.abilities.len(), 1);
    assert_eq!(p.abilities[0].0, "Overflow");
    assert_eq!(p.abilities[0].1, Ability::Destroy { damage: 1, range: 3 });
    assert_eq!(p.position, Point::new(0, 0));
    assert_eq!(p.team, Team::Enemy);
}

#[test]
fn unit_with_trail_cap_one_dies_on_second_tick() {
    let mut level = Level::new(&open_rows());
    let mut map = MapView::new();
    let mut p = ProgramBuilder::new("Sprinter").max_tail(2).max_moves(10).instance(Team::Player);
    p.position = Point::new(3, 3);
    p.move_to(Point::new(4, 3));
    assert_eq!(p.tail.len(), 1);
    level.add_program(p);

    Ability::Destroy { damage: 1, range: 1 }.apply(&mut level.programs[0]);
    assert!(update_programs(&mut level, &mut map));
    assert_eq!(level.programs.len(), 1);
    assert!(level.programs[0].tail.is_empty());
    assert!(level.programs[0].status_effects.is_empty());

    Ability::Destroy { damage: 1, range: 1 }.apply(&mut level.programs[0]);
    assert!(update_programs(&mut level, &mut map));
    assert_eq!(level.programs.len(), 0);
}

#[test]
fn unit_survives_as_many_ticks_as_its_trail() {
    let mut level = Level::new(&open_rows());
    let mut map = MapView::new();
    map.highlight = Some(0);
    let mut p = ProgramBuilder::new("Patrol").max_tail(6).max_moves(10).instance(Team::Player);
    p.position = Point::new(1, 1);
    for x in 2..5u16 {
        p.move_to(Point::new(x, 1));
    }
    assert_eq!(p.tail.len(), 3);
    level.add_program(p);
    Ability::Destroy { damage: 10, range: 1 }.apply(&mut level.programs[0]);
    for n in 0..3usize {
        assert!(update_programs(&mut level, &mut map));
        assert_eq!(level.programs.len(), 1);
        assert_eq!(level.programs[0].tail.len(), 2 - n);
        assert_eq!(map.highlight, Some(0));
    }
    assert!(update_programs(&mut level, &mut map));
    assert_eq!(level.programs.len(), 0);
    assert_eq!(map.highlight, None);
}

#[test]
fn tick_without_effects_changes_nothing() {
    let mut level = Level::new(&open_rows());
    let mut map = MapView::new();
    level.add_program(Program::new(Team::Player, Point::new(2, 2), "Hack"));
    assert!(!update_programs(&mut level, &mut map));
    assert_eq!(level.programs.len(), 1);
}

#[test]
fn damage_effect_counts_down_to_removal() {
    let mut level = Level::new(&open_rows());
    let mut map = MapView::new();
    let mut p = Program::new(Team::Enemy, Point::new(1, 2), "Hack");
    p.move_to(Point::new(2, 2));
    p.move_to(Point::new(3, 2));
    p.move_to(Point::new(4, 2));
    level.add_program(p);
    Ability::Destroy { damage: 2, range: 1 }.apply(&mut level.programs[0]);
    assert!(update_programs(&mut level, &mut map));
    assert_eq!(level.programs[0].status_effects, vec![StatusEffect::Damage(1)]);
    assert!(update_programs(&mut level, &mut map));
    assert!(level.programs[0].status_effects.is_empty());
    assert_eq!(level.programs[0].tail.len(), 1);
    assert!(!update_programs(&mut level, &mut map));
}

#[test]
fn trail_glyphs_follow_the_path() {
    let mut p = ProgramBuilder::new("Snake").max_tail(10).max_moves(10).instance(Team::Player);
    p.position = Point::new(1, 1);
    p.move_to(Point::new(2, 1));
    p.move_to(Point::new(3, 1));
    p.move_to(Point::new(3, 2));
    p.move_to(Point::new(3, 3));
    let cells = p.display_color(7u8);
    assert_eq!(
        cells,
        vec![
            (Point::new(1, 1), '\u{2550}', 7),
            (Point::new(2, 1), '\u{2550}', 7),
            (Point::new(3, 1), '\u{2557}', 7),
            (Point::new(3, 2), '\u{2551}', 7),
            (Point::new(3, 3), '\u{25d8}', 7),
        ]
    );
}

#[test]
fn lone_head_is_a_block() {
    let p = Program::new(Team::Enemy, Point::new(4, 4), "Hack");
    assert_eq!(p.display_color('r'), vec![(Point::new(4, 4), '\u{25d8}', 'r')]);
}

#[test]
fn terrain_glyphs() {
    assert_eq!(Level::convert('.'), Some('\u{b7}'));
    assert_eq!(Level::convert('o'), Some('\u{398}'));
    assert_eq!(Level::convert(' '), None);
}
