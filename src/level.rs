use vstd::prelude::*;
use vstd::string::StrSliceExecFns;

use crate::point::Point;
use crate::program::{Program, ProgramView, Team, fresh_turn_state};

verus! {

/// Terrain of a cell on the map: `'.'` is open ground, `'o'` an uplink (spawn point),
/// anything else cannot be entered.
pub struct Level {
    pub layout: Vec<Vec<char>>,
    pub programs: Vec<Program>,
}

/// What a cell holds. A unit is named by its index in `Level::programs`.
#[derive(Clone, Copy, Debug, PartialEq, Eq, Structural)]
pub enum CellContents {
    Unpassable,
    Empty,
    Program(usize),
    Uplink,
}

/// The mathematical value of a `Level`.
pub struct LevelView {
    pub layout: Seq<Seq<char>>,
    pub programs: Seq<ProgramView>,
}

impl View for Level {
    type V = LevelView;

    open spec fn view(&self) -> LevelView {
        LevelView {
            layout: self.layout@.map_values(|row: Vec<char>| row@),
            programs: self.programs@.map_values(|p: Program| p@),
        }
    }
}

/// How a character of a level description reads as terrain: unit letters stand on open ground.
pub open spec fn terrain_of(c: char) -> char {
    if ('a' <= c && c <= 'n') || ('p' <= c && c <= 'z') || ('A' <= c && c <= 'Z') {
        '.'
    } else {
        c
    }
}

pub open spec fn terrain_row(s: Seq<char>) -> Seq<char> {
    s.map_values(|c: char| terrain_of(c))
}

/// Index of the first unit that occupies `p`.
pub open spec fn first_occupant(programs: Seq<ProgramView>, p: Point) -> Option<int>
    decreases programs.len(),
{
    if programs.len() == 0 {
        None
    } else {
        match first_occupant(programs.drop_last(), p) {
            Some(i) => Some(i),
            None => if programs.last().occupies(p) {
                Some(programs.len() - 1)
            } else {
                None
            },
        }
    }
}

/// The units whose head is not at `p`, in their order.
pub open spec fn without_head_at(programs: Seq<ProgramView>, p: Point) -> Seq<ProgramView>
    decreases programs.len(),
{
    if programs.len() == 0 {
        Seq::empty()
    } else {
        let rest = without_head_at(programs.drop_last(), p);
        if programs.last().position == p {
            rest
        } else {
            rest.push(programs.last())
        }
    }
}

pub open spec fn has_team(programs: Seq<ProgramView>, team: Team) -> bool {
    exists|i: int| 0 <= i < programs.len() && #[trigger] programs[i].team == team
}

/// Who has won: the enemy when no player unit is left (checked first), the player when
/// no enemy unit is left.
pub open spec fn victory(programs: Seq<ProgramView>) -> Option<Team> {
    if !has_team(programs, Team::Player) {
        Some(Team::Enemy)
    } else if !has_team(programs, Team::Enemy) {
        Some(Team::Player)
    } else {
        None
    }
}

impl LevelView {
    /// Whether `p` names a cell of the layout (coordinates are one-based).
    pub open spec fn in_bounds(self, p: Point) -> bool {
        &&& 1 <= p.y <= self.layout.len()
        &&& 1 <= p.x <= self.layout[p.y - 1].len()
    }

    pub open spec fn cell(self, p: Point) -> char {
        self.layout[p.y - 1][p.x - 1]
    }

    pub open spec fn contents(self, p: Point) -> CellContents {
        match first_occupant(self.programs, p) {
            Some(i) => CellContents::Program(i as usize),
            None => if self.cell(p) == '.' {
                CellContents::Empty
            } else if self.cell(p) == 'o' {
                CellContents::Uplink
            } else {
                CellContents::Unpassable
            },
        }
    }

    pub open spec fn passable(self, p: Point) -> bool {
        self.cell(p) == '.' && first_occupant(self.programs, p) is None
    }
}

proof fn lemma_first_occupant_bounds(programs: Seq<ProgramView>, p: Point)
    ensures
        first_occupant(programs, p) matches Some(i) ==> 0 <= i < programs.len() && programs[i].occupies(p),
        first_occupant(programs, p) is None ==> forall|j: int|
            0 <= j < programs.len() ==> !(#[trigger] programs[j]).occupies(p),
    decreases programs.len(),
{
    if programs.len() > 0 {
        lemma_first_occupant_bounds(programs.drop_last(), p);
        let init = programs.drop_last();
        assert forall|j: int| 0 <= j < init.len() implies init[j] == programs[j] by {}
    }
}

proof fn lemma_first_occupant_prefix(programs: Seq<ProgramView>, m: int, p: Point)
    requires
        0 <= m <= programs.len(),
        first_occupant(programs.take(m), p) is Some,
    ensures
        first_occupant(programs, p) == first_occupant(programs.take(m), p),
    decreases programs.len() - m,
{
    if m == programs.len() {
        assert(programs.take(m) =~= programs);
    } else {
        assert(programs.drop_last().take(m) =~= programs.take(m));
        lemma_first_occupant_prefix(programs.drop_last(), m, p);
    }
}

impl Level {
    /// A level whose layout is read from the rows of `description`, with no units yet.
    pub fn new(description: &[&str; 20]) -> (r: Level)
        ensures
            r@.layout == description@.map_values(|s: &str| terrain_row(s@)),
            r@.programs == Seq::<ProgramView>::empty(),
    {
        let mut layout: Vec<Vec<char>> = Vec::new();
        let mut i: usize = 0;
        while i < 20
            invariant
                0 <= i <= 20,
                layout@.len() == i,
                forall|k: int| 0 <= k < i ==> #[trigger] layout@[k]@ == terrain_row(description@[k]@),
            decreases 20 - i,
        {
            let s: &str = description[i];
            let n = s.unicode_len();
            let mut row: Vec<char> = Vec::new();
            let mut j: usize = 0;
            while j < n
                invariant
                    0 <= j <= n,
                    n == s@.len(),
                    row@ == terrain_row(s@).take(j as int),
                decreases n - j,
            {
                let c = s.get_char(j);
                let t = if ('a' <= c && c <= 'n') || ('p' <= c && c <= 'z') || ('A' <= c && c <= 'Z') {
                    '.'
                } else {
                    c
                };
                row.push(t);
                proof {
                    assert(row@ =~= terrain_row(s@).take(j + 1));
                }
                j = j + 1;
            }
            proof {
                assert(row@ =~= terrain_row(s@));
            }
            layout.push(row);
            i = i + 1;
        }
        let r = Level { layout, programs: Vec::new() };
        proof {
            assert(r@.layout =~= description@.map_values(|s: &str| terrain_row(s@)));
            assert(r@.programs =~= Seq::<ProgramView>::empty());
        }
        r
    }

    /// The glyph the map shows for a terrain character: a dot for open ground, a theta for an
    /// uplink, nothing for the rest.
    pub fn convert(c: char) -> (r: Option<char>)
        ensures
            r == if c == '.' {
                Some('\u{b7}')
            } else if c == 'o' {
                Some('\u{398}')
            } else {
                None::<char>
            },
    {
        if c == '.' {
            Some('\u{b7}')
        } else if c == 'o' {
            Some('\u{398}')
        } else {
            None
        }
    }

    /// Turns the uplink at `point`, if there is one, into open ground.
    pub fn remove_uplink_at(&mut self, point: Point)
        requires
            old(self)@.in_bounds(point),
        ensures
            final(self)@.programs == old(self)@.programs,
            final(self)@.layout == if old(self)@.cell(point) == 'o' {
                old(self)@.layout.update(
                    point.y - 1,
                    old(self)@.layout[point.y - 1].update(point.x - 1, '.'),
                )
            } else {
                old(self)@.layout
            },
    {
        let y = (point.y - 1) as usize;
        let x = (point.x - 1) as usize;
        if self.layout[y][x] == 'o' {
            let mut row: Vec<char> = Vec::new();
            std::mem::swap(&mut row, &mut self.layout[y]);
            row.set(x, '.');
            self.layout.set(y, row);
            proof {
                assert(self@.layout =~= old(self)@.layout.update(
                    point.y - 1,
                    old(self)@.layout[point.y - 1].update(point.x - 1, '.'),
                ));
            }
        }
    }

    pub fn add_program(&mut self, program: Program)
        ensures
            final(self)@.layout == old(self)@.layout,
            final(self)@.programs == old(self)@.programs.push(program@),
    {
        self.programs.push(program);
        proof {
            assert(self@.programs =~= old(self)@.programs.push(program@));
        }
    }

    /// Removes every unit whose head is at `point`.
    pub fn remove_program_at(&mut self, point: Point)
        ensures
            final(self)@.layout == old(self)@.layout,
            final(self)@.programs == without_head_at(old(self)@.programs, point),
    {
        let ghost orig = old(self)@.programs;
        let mut kept: Vec<Program> = Vec::new();
        let mut rest: Vec<Program> = Vec::new();
        std::mem::swap(&mut rest, &mut self.programs);
        assert(kept@.map_values(|p: Program| p@) =~= without_head_at(orig.take(0), point));
        let ghost mut done: int = 0;
        while rest.len() > 0
            invariant
                0 <= done <= orig.len(),
                rest@.len() == orig.len() - done,
                forall|k: int| 0 <= k < rest@.len() ==> #[trigger] rest@[k]@ == orig[done + k],
                kept@.map_values(|p: Program| p@) == without_head_at(orig.take(done), point),
            decreases rest@.len(),
        {
            let p = rest.remove(0);
            proof {
                assert(orig.take(done + 1).drop_last() =~= orig.take(done));
                assert(orig.take(done + 1).last() == p@);
            }
            if p.position != point {
                kept.push(p);
            }
            proof {
                assert(kept@.map_values(|p: Program| p@) =~= without_head_at(orig.take(done + 1), point));
                done = done + 1;
            }
        }
        proof {
            assert(orig.take(orig.len() as int) =~= orig);
        }
        self.programs = kept;
    }

    /// Starts a new turn for every unit: moves and ability use are reset.
    pub fn begin_turn(&mut self)
        ensures
            final(self)@.layout == old(self)@.layout,
            final(self)@.programs.len() == old(self)@.programs.len(),
            forall|i: int|
                0 <= i < old(self)@.programs.len() ==> #[trigger] final(self)@.programs[i]
                    == old(self)@.programs[i].with_turn_state(fresh_turn_state()),
    {
        let n = self.programs.len();
        let mut i: usize = 0;
        while i < n
            invariant
                0 <= i <= n,
                n == old(self)@.programs.len(),
                self@.layout == old(self)@.layout,
                self@.programs.len() == n,
                forall|k: int|
                    0 <= k < i ==> #[trigger] self.programs@[k]@ == old(self).programs@[k]@.with_turn_state(
                        fresh_turn_state(),
                    ),
                forall|k: int| i <= k < n ==> #[trigger] self.programs@[k]@ == old(self).programs@[k]@,
            decreases n - i,
        {
            self.programs[i].begin_turn();
            i = i + 1;
        }
        proof {
            assert forall|k: int| 0 <= k < n implies #[trigger] self@.programs[k]
                == old(self)@.programs[k].with_turn_state(fresh_turn_state()) by {
                assert(self@.programs[k] == self.programs@[k]@);
                assert(old(self)@.programs[k] == old(self).programs@[k]@);
            }
        }
    }

    /// Whether `p` names a cell of the layout.
    pub fn in_bounds(&self, p: Point) -> (r: bool)
        ensures
            r == self@.in_bounds(p),
    {
        p.y >= 1 && (p.y as usize) <= self.layout.len() && p.x >= 1 && (p.x as usize)
            <= self.layout[(p.y - 1) as usize].len()
    }

    /// Whether a unit may move onto `point`: open ground that no unit occupies.
    pub fn passable(&self, point: Point) -> (r: bool)
        requires
            self@.in_bounds(point),
        ensures
            r == self@.passable(point),
    {
        let cell = self.layout[(point.y - 1) as usize][(point.x - 1) as usize];
        if cell != '.' {
            return false;
        }
        match self.first_occupant(point) {
            Some(_) => false,
            None => true,
        }
    }

    /// Index of the first unit whose head or trail is at `point`.
    pub fn first_occupant(&self, point: Point) -> (r: Option<usize>)
        ensures
            r matches Some(i) ==> first_occupant(self@.programs, point) == Some(i as int),
            r is None ==> first_occupant(self@.programs, point) is None,
    {
        let n = self.programs.len();
        let mut i: usize = 0;
        while i < n
            invariant
                0 <= i <= n,
                n == self@.programs.len(),
                first_occupant(self@.programs.take(i as int), point) is None,
            decreases n - i,
        {
            proof {
                assert(self@.programs.take(i + 1).drop_last() =~= self@.programs.take(i as int));
            }
            if self.programs[i].intersects(point) {
                proof {
                    assert(self@.programs.take(i + 1).last() == self@.programs[i as int]);
                    lemma_first_occupant_prefix(self@.programs, i + 1, point);
                }
                return Some(i);
            }
            i = i + 1;
        }
        proof {
            assert(self@.programs.take(n as int) =~= self@.programs);
        }
        None
    }

    /// What is at `point`: a unit (head or trail) before terrain.
    pub fn contents_of(&self, point: Point) -> (r: CellContents)
        requires
            self@.in_bounds(point),
        ensures
            r == self@.contents(point),
            r matches CellContents::Program(i) ==> i < self@.programs.len(),
    {
        proof {
            lemma_first_occupant_bounds(self@.programs, point);
        }
        match self.first_occupant(point) {
            Some(i) => CellContents::Program(i),
            None => {
                let c = self.layout[(point.y - 1) as usize][(point.x - 1) as usize];
                if c == '.' {
                    CellContents::Empty
                } else if c == 'o' {
                    CellContents::Uplink
                } else {
                    CellContents::Unpassable
                }
            },
        }
    }

    /// The winning team once one side has no unit left. With no unit at all, the enemy wins.
    pub fn check_victory(&self) -> (r: Option<Team>)
        ensures
            r == victory(self@.programs),
    {
        let mut found_player = false;
        let mut found_enemy = false;
        let n = self.programs.len();
        let mut i: usize = 0;
        while i < n
            invariant
                0 <= i <= n,
                n == self@.programs.len(),
                found_player == exists|k: int| 0 <= k < i && #[trigger] self@.programs[k].team == Team::Player,
                found_enemy == exists|k: int| 0 <= k < i && #[trigger] self@.programs[k].team == Team::Enemy,
            decreases n - i,
        {
            let team = self.programs[i].team;
            match team {
                Team::Player => found_player = true,
                Team::Enemy => found_enemy = true,
            }
            proof {
                assert(self@.programs[i as int].team == team);
            }
            i = i + 1;
        }
        if !found_player {
            Some(Team::Enemy)
        } else if !found_enemy {
            Some(Team::Player)
        } else {
            None
        }
    }
}

} // verus!
