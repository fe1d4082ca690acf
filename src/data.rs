use vstd::prelude::*;
use vstd::string::StrSliceExecFns;

use crate::level::{Level, LevelView, terrain_row};
use crate::point::Point;
use crate::program::{Ability, BuilderView, ProgramBuilder, ProgramView, Team, instance_of};

verus! {

/// The unit archetype a letter of a level description stands for.
pub open spec fn archetype(c: char) -> Option<BuilderView> {
    if c == 's' {
        Some(
            BuilderView {
                name: "Sprinter"@,
                abilities: seq![("Overflow"@, Ability::Destroy { damage: 1, range: 3 })],
                max_tail: 2,
                max_moves: 10,
            },
        )
    } else if c == 'p' {
        Some(
            BuilderView {
                name: "Patrol"@,
                abilities: seq![("Delete"@, Ability::Destroy { damage: 4, range: 1 })],
                max_tail: 6,
                max_moves: 2,
            },
        )
    } else if c == 'f' {
        Some(
            BuilderView {
                name: "Firewall"@,
                abilities: seq![("Reject"@, Ability::Destroy { damage: 6, range: 2 })],
                max_tail: 1,
                max_moves: 0,
            },
        )
    } else {
        None
    }
}

/// The archetype of the unit a letter stands for: `s` a sprinter (fast, fragile, long
/// range), `p` a patrol, `f` a firewall that never moves.
pub fn builder_for(c: char) -> (r: Option<ProgramBuilder>)
    ensures
        r is Some <==> archetype(c) is Some,
        r matches Some(b) ==> b@ == archetype(c)->0,
{
    if c == 's' {
        let b = ProgramBuilder::new("Sprinter").ability(
            "Overflow",
            Ability::Destroy { damage: 1, range: 3 },
        ).max_tail(2).max_moves(10);
        assert(b@.abilities =~= seq![("Overflow"@, Ability::Destroy { damage: 1, range: 3 })]);
        Some(b)
    } else if c == 'p' {
        let b = ProgramBuilder::new("Patrol").ability("Delete", Ability::Destroy { damage: 4, range: 1 }).max_tail(
            6,
        ).max_moves(2);
        assert(b@.abilities =~= seq![("Delete"@, Ability::Destroy { damage: 4, range: 1 })]);
        Some(b)
    } else if c == 'f' {
        let b = ProgramBuilder::new("Firewall").ability("Reject", Ability::Destroy { damage: 6, range: 2 }).max_tail(
            1,
        ).max_moves(0);
        assert(b@.abilities =~= seq![("Reject"@, Ability::Destroy { damage: 6, range: 2 })]);
        Some(b)
    } else {
        None
    }
}

/// The rows of level `id`: `.` open ground, `o` an uplink, letters the enemy units.
pub open spec fn level_rows(id: int) -> Seq<&'static str> {
    if id == 0 {
        seq![
            "                                                          ",
            "                                                          ",
            "          ......................p..                       ",
            "          .........................                       ",
            "          ..                     ..                       ",
            "          ..                     ..                       ",
            "          ..                     ..                       ",
            "          ..                     ..                       ",
            "   o...............s             ..f..                    ",
            "   o...............s             ..f..                    ",
            "          ..                     ..                       ",
            "          ..                     ..                       ",
            "          ..                     ..                       ",
            "          ..                     ..                       ",
            "          ..                     ..                       ",
            "          .........................                       ",
            "          ......................p..                       ",
            "                                                          ",
            "                                                          ",
            "                                                          ",
        ]
    } else if id == 1 {
        seq![
            "                                                          ",
            "                                                          ",
            "          ......................p..                       ",
            "          ..........    ...........                       ",
            "          ..                     ..                       ",
            "          ..                     ..                       ",
            "          ..                     ..                       ",
            "          ..                     ..                       ",
            "          o........s  ..........f..                       ",
            "          o........s  p.........f..                       ",
            "          ..                     ..                       ",
            "          ..                     ..                       ",
            "          ..                     ..                       ",
            "          ..                     ..                       ",
            "          ..                     ..                       ",
            "          ..........    ...........                       ",
            "          ......................p..                       ",
            "                                                          ",
            "                                                          ",
            "                                                          ",
        ]
    } else {
        Seq::empty()
    }
}

/// The units the letters of `row` (the `y`-th row) stand for, over its first `n` columns.
pub open spec fn row_spawns(row: Seq<char>, y: int, n: int) -> Seq<ProgramView>
    decreases n,
{
    if n <= 0 {
        Seq::empty()
    } else {
        let rest = row_spawns(row, y, n - 1);
        match archetype(row[n - 1]) {
            Some(b) => rest.push(instance_of(b, Team::Enemy, Point { x: n as u16, y: y as u16 })),
            None => rest,
        }
    }
}

/// Columns of a row that can hold a unit: those with a coordinate.
pub open spec fn spawn_width(row: Seq<char>) -> int {
    if row.len() < u16::MAX {
        row.len() as int
    } else {
        u16::MAX as int
    }
}

/// The units of the first `k` rows, row by row, left to right.
pub open spec fn spawns(rows: Seq<&str>, k: int) -> Seq<ProgramView>
    decreases k,
{
    if k <= 0 {
        Seq::empty()
    } else {
        spawns(rows, k - 1) + row_spawns(rows[k - 1]@, k, spawn_width(rows[k - 1]@))
    }
}

/// The level a description stands for: its terrain, and an enemy unit on each letter of an
/// archetype.
pub open spec fn populated(rows: Seq<&str>) -> LevelView {
    LevelView { layout: rows.map_values(|s: &str| terrain_row(s@)), programs: spawns(rows, rows.len() as int) }
}

/// The rows of level `id`, when there is such a level.
pub fn level_description(id: usize) -> (r: Option<[&'static str; 20]>)
    ensures
        r is Some <==> id < 2,
        r matches Some(d) ==> d@ == level_rows(id as int),
{
    if id == 0 {
        Some(
            [
                "                                                          ",
                "                                                          ",
                "          ......................p..                       ",
                "          .........................                       ",
                "          ..                     ..                       ",
                "          ..                     ..                       ",
                "          ..                     ..                       ",
                "          ..                     ..                       ",
                "   o...............s             ..f..                    ",
                "   o...............s             ..f..                    ",
                "          ..                     ..                       ",
                "          ..                     ..                       ",
                "          ..                     ..                       ",
                "          ..                     ..                       ",
                "          ..                     ..                       ",
                "          .........................                       ",
                "          ......................p..                       ",
                "                                                          ",
                "                                                          ",
                "                                                          ",
            ],
        )
    } else if id == 1 {
        Some(
            [
                "                                                          ",
                "                                                          ",
                "          ......................p..                       ",
                "          ..........    ...........                       ",
                "          ..                     ..                       ",
                "          ..                     ..                       ",
                "          ..                     ..                       ",
                "          ..                     ..                       ",
                "          o........s  ..........f..                       ",
                "          o........s  p.........f..                       ",
                "          ..                     ..                       ",
                "          ..                     ..                       ",
                "          ..                     ..                       ",
                "          ..                     ..                       ",
                "          ..                     ..                       ",
                "          ..........    ...........                       ",
                "          ......................p..                       ",
                "                                                          ",
                "                                                          ",
                "                                                          ",
            ],
        )
    } else {
        None
    }
}

/// A level read from `description`, with an enemy unit of the matching archetype on each
/// letter that names one.
pub fn populate(description: &[&str; 20]) -> (r: Level)
    ensures
        r@ == populated(description@),
{
    let mut level = Level::new(description);
    let mut row: usize = 0;
    assert(level@.programs =~= spawns(description@, 0));
    while row < 20
        invariant
            0 <= row <= 20,
            level@.layout == description@.map_values(|s: &str| terrain_row(s@)),
            level@.programs == spawns(description@, row as int),
        decreases 20 - row,
    {
        let s: &str = description[row];
        let n = s.unicode_len();
        let ghost before = level@.programs;
        let mut col: usize = 0;
        assert(level@.programs =~= before + row_spawns(s@, row + 1, 0));
        while col < n && col < 65535
            invariant
                0 <= col <= n,
                col <= 65535,
                row < 20,
                n == s@.len(),
                s == description@[row as int],
                level@.layout == description@.map_values(|s: &str| terrain_row(s@)),
                level@.programs == before + row_spawns(s@, row + 1, col as int),
            decreases n - col,
        {
            let c = s.get_char(col);
            match builder_for(c) {
                Some(builder) => {
                    let mut instance = builder.instance(Team::Enemy);
                    instance.position = Point::new((col + 1) as u16, (row + 1) as u16);
                    level.add_program(instance);
                },
                None => {},
            }
            proof {
                assert(level@.programs =~= before + row_spawns(s@, row + 1, col + 1));
            }
            col = col + 1;
        }
        proof {
            assert(col == spawn_width(s@));
            assert(level@.programs =~= spawns(description@, row + 1));
        }
        row = row + 1;
    }
    level
}

/// Level `id` with its enemy units placed where their letters stand, or `None` when there
/// is no such level.
pub fn load_level(id: usize) -> (r: Option<Level>)
    ensures
        r is Some <==> id < 2,
        r matches Some(l) ==> l@ == populated(level_rows(id as int)),
{
    match level_description(id) {
        Some(d) => Some(populate(&d)),
        None => None,
    }
}

} // verus!
