use vstd::prelude::*;

use crate::ai::AIState;
use crate::level::{CellContents, Level, LevelView};
use crate::point::Point;
use crate::program::{Ability, Team, reachable};

verus! {

/// A marker the map shows on a cell.
#[derive(Clone, Copy, Debug, PartialEq, Eq, Structural)]
pub enum Mark {
    East,
    West,
    North,
    South,
    /// An open cell in the range of the chosen ability.
    InRange,
    /// An enemy unit in the range of the chosen ability.
    Target,
}

/// A short help line for the player.
#[derive(Clone, Copy, Debug, PartialEq, Eq, Structural)]
pub enum Help {
    ClickProgram,
    MoveOrUseAbility,
    SelectTarget { damage: usize, range: usize },
    ChooseUplink,
    ChooseProgram,
    AiStatus(AIState),
}

/// What the map shows beyond the level itself: the highlighted unit (an index into the
/// level's units), the range of a chosen ability, the markers computed for them, the
/// uplink chosen during setup and a help line.
pub struct MapView {
    pub highlight: Option<usize>,
    pub highlight_range: Option<usize>,
    pub overlay: Vec<(Point, Mark)>,
    pub uplink: Option<Point>,
    pub help: Option<Help>,
}

/// The cell one step away from `p` in a direction, if it has coordinates.
pub open spec fn step(p: Point, dir: Mark) -> Option<Point> {
    match dir {
        Mark::East => if p.x < u16::MAX {
            Some(Point { x: (p.x + 1) as u16, y: p.y })
        } else {
            None
        },
        Mark::West => if p.x > 0 {
            Some(Point { x: (p.x - 1) as u16, y: p.y })
        } else {
            None
        },
        Mark::North => if p.y > 0 {
            Some(Point { x: p.x, y: (p.y - 1) as u16 })
        } else {
            None
        },
        Mark::South => if p.y < u16::MAX {
            Some(Point { x: p.x, y: (p.y + 1) as u16 })
        } else {
            None
        },
        _ => None,
    }
}

/// Whether a unit at `p` can step in direction `dir` on the level.
pub open spec fn can_step(lv: LevelView, p: Point, dir: Mark) -> bool {
    step(p, dir) matches Some(q) && lv.in_bounds(q) && lv.passable(q)
}

/// The directions in which a unit at `p` can step, east, west, north, south in that order.
pub open spec fn open_directions(lv: LevelView, p: Point) -> Seq<Mark> {
    let e = if can_step(lv, p, Mark::East) { seq![Mark::East] } else { Seq::empty() };
    let w = if can_step(lv, p, Mark::West) { seq![Mark::West] } else { Seq::empty() };
    let n = if can_step(lv, p, Mark::North) { seq![Mark::North] } else { Seq::empty() };
    let s = if can_step(lv, p, Mark::South) { seq![Mark::South] } else { Seq::empty() };
    e + w + n + s
}

/// The arrows shown around a unit at `p` that can still move.
pub open spec fn move_marks(lv: LevelView, p: Point) -> Seq<(Point, Mark)> {
    open_directions(lv, p).map_values(|d: Mark| (step(p, d)->0, d))
}

/// The marker of a tile in the range of an ability used from `origin`, if any: open
/// cells, and enemy units other than the one at `origin`.
pub open spec fn range_mark(lv: LevelView, origin: Point, t: Point) -> Option<Mark> {
    if t.x == 0 || t.y == 0 || !lv.in_bounds(t) {
        None
    } else {
        match lv.contents(t) {
            CellContents::Empty => Some(Mark::InRange),
            CellContents::Program(q) => if lv.programs[q as int].position != origin
                && lv.programs[q as int].team == Team::Enemy {
                Some(Mark::Target)
            } else {
                None
            },
            _ => None,
        }
    }
}

/// The markers for the tiles `tiles`, in order.
pub open spec fn range_marks(lv: LevelView, origin: Point, tiles: Seq<Point>) -> Seq<(Point, Mark)>
    decreases tiles.len(),
{
    if tiles.len() == 0 {
        Seq::empty()
    } else {
        let rest = range_marks(lv, origin, tiles.drop_last());
        match range_mark(lv, origin, tiles.last()) {
            Some(m) => rest.push((tiles.last(), m)),
            None => rest,
        }
    }
}

/// The overlay for the unit at index `h` of the level: its ability range when one is
/// chosen, else its moves.
pub open spec fn overlay_for(lv: LevelView, h: int, range: Option<usize>) -> Seq<(Point, Mark)> {
    let p = lv.programs[h];
    match range {
        Some(r) => range_marks(lv, p.position, reachable(p.position, r as int)),
        None => if p.can_move() {
            move_marks(lv, p.position)
        } else {
            Seq::empty()
        },
    }
}

/// Whether a highlight names a unit of the level.
pub open spec fn valid_highlight(highlight: Option<usize>, lv: LevelView) -> bool {
    highlight is Some && highlight->0 < lv.programs.len()
}

impl MapView {
    pub fn new() -> (r: MapView)
        ensures
            r.highlight is None,
            r.highlight_range is None,
            r.overlay@.len() == 0,
            r.uplink is None,
            r.help is None,
    {
        MapView { highlight: None, highlight_range: None, overlay: Vec::new(), uplink: None, help: None }
    }

    /// Clears markers, help and highlight. The chosen range stays.
    pub fn reset(&mut self)
        ensures
            final(self).highlight is None,
            final(self).highlight_range == old(self).highlight_range,
            final(self).overlay@.len() == 0,
            final(self).uplink is None,
            final(self).help is None,
    {
        self.overlay.clear();
        self.uplink = None;
        self.clear_help();
        self.clear_highlight();
    }

    /// The uplink chosen during setup.
    pub fn get_overlay(&self) -> (r: Option<Point>)
        ensures
            r == self.uplink,
    {
        self.uplink
    }

    /// Highlights the unit at index `program` and shows its markers.
    pub fn highlight(&mut self, program: usize, level: &Level)
        ensures
            final(self).highlight == Some(program),
            final(self).highlight_range == old(self).highlight_range,
            final(self).uplink == old(self).uplink,
            final(self).help == old(self).help,
            program < level@.programs.len() ==> final(self).overlay@ == overlay_for(
                level@,
                program as int,
                old(self).highlight_range,
            ),
            program >= level@.programs.len() ==> final(self).overlay@ == old(self).overlay@,
    {
        self.highlight = Some(program);
        self.update_highlight(level);
    }

    /// Shows the range of an ability around the highlighted unit.
    pub fn highlight_range(&mut self, range: usize, level: &Level)
        ensures
            final(self).highlight == old(self).highlight,
            final(self).highlight_range == Some(range),
            final(self).uplink == old(self).uplink,
            final(self).help == old(self).help,
            valid_highlight(old(self).highlight, level@) ==> final(self).overlay@ == overlay_for(
                level@,
                old(self).highlight->0 as int,
                Some(range),
            ),
            !valid_highlight(old(self).highlight, level@) ==> final(self).overlay@ == old(self).overlay@,
    {
        self.highlight_range = Some(range);
        self.update_highlight(level);
    }

    pub fn clear_range(&mut self)
        ensures
            final(self).highlight_range is None,
            final(self).highlight == old(self).highlight,
            final(self).overlay == old(self).overlay,
            final(self).uplink == old(self).uplink,
            final(self).help == old(self).help,
    {
        self.highlight_range = None;
    }

    /// Recomputes the markers of the highlighted unit; nothing changes when no unit of the
    /// level is highlighted.
    pub fn update_highlight(&mut self, level: &Level)
        ensures
            final(self).highlight == old(self).highlight,
            final(self).highlight_range == old(self).highlight_range,
            final(self).uplink == old(self).uplink,
            final(self).help == old(self).help,
            valid_highlight(old(self).highlight, level@) ==> final(self).overlay@ == overlay_for(
                level@,
                old(self).highlight->0 as int,
                old(self).highlight_range,
            ),
            !valid_highlight(old(self).highlight, level@) ==> final(self).overlay@ == old(self).overlay@,
    {
        let h = match self.highlight {
            Some(h) => h,
            None => {
                return;
            },
        };
        if h >= level.programs.len() {
            return;
        }
        self.overlay.clear();
        let position = level.programs[h].position;
        match self.highlight_range {
            Some(range) => {
                let tiles = Ability::Destroy { damage: 0, range }.reachable_tiles(position);
                let n = tiles.len();
                let mut i: usize = 0;
                while i < n
                    invariant
                        0 <= i <= n,
                        n == tiles@.len(),
                        tiles@ == reachable(position, range as int),
                        h < level@.programs.len(),
                        position == level@.programs[h as int].position,
                        self.overlay@ == range_marks(level@, position, tiles@.take(i as int)),
                        self.highlight == old(self).highlight,
                        self.highlight_range == old(self).highlight_range,
                        self.uplink == old(self).uplink,
                        self.help == old(self).help,
                    decreases n - i,
                {
                    let t = tiles[i];
                    proof {
                        assert(tiles@.take(i + 1).drop_last() =~= tiles@.take(i as int));
                        assert(tiles@.take(i + 1).last() == t);
                    }
                    if t.x > 0 && t.y > 0 && level.in_bounds(t) {
                        match level.contents_of(t) {
                            CellContents::Empty => {
                                self.overlay.push((t, Mark::InRange));
                            },
                            CellContents::Program(q) => {
                                if level.programs[q].position != position && level.programs[q].team
                                    == Team::Enemy {
                                    self.overlay.push((t, Mark::Target));
                                }
                            },
                            _ => {},
                        }
                    }
                    i = i + 1;
                }
                proof {
                    assert(tiles@.take(n as int) =~= tiles@);
                }
            },
            None => {
                if !level.programs[h].can_move() {
                    return;
                }
                let ghost lv = level@;
                let dirs = [Mark::East, Mark::West, Mark::North, Mark::South];
                let mut k: usize = 0;
                while k < 4
                    invariant
                        0 <= k <= 4,
                        dirs@ == seq![Mark::East, Mark::West, Mark::North, Mark::South],
                        lv == level@,
                        self.overlay@ == move_marks_upto(lv, position, k as int),
                        self.highlight == old(self).highlight,
                        self.highlight_range == old(self).highlight_range,
                        self.uplink == old(self).uplink,
                        self.help == old(self).help,
                    decreases 4 - k,
                {
                    let d = dirs[k];
                    proof {
                        assert(seq![Mark::East, Mark::West, Mark::North, Mark::South][k as int] == d);
                    }
                    match level.step_if_open(position, d) {
                        Some(q) => {
                            self.overlay.push((q, d));
                        },
                        None => {},
                    }
                    k = k + 1;
                }
                proof {
                    lemma_move_marks_upto(lv, position);
                }
            },
        }
    }

    pub fn clear_highlight(&mut self)
        ensures
            final(self).highlight is None,
            final(self).overlay@.len() == 0,
            final(self).highlight_range == old(self).highlight_range,
            final(self).uplink == old(self).uplink,
            final(self).help == old(self).help,
    {
        self.highlight = None;
        self.overlay.clear();
    }

    pub fn get_highlight(&self) -> (r: Option<usize>)
        ensures
            r == self.highlight,
    {
        self.highlight
    }

    /// The marked cell at `click`, if there is one.
    pub fn translate_click(&self, click: Point) -> (r: Option<Point>)
        ensures
            r is Some <==> exists|i: int| 0 <= i < self.overlay@.len() && (#[trigger] self.overlay@[i]).0 == click,
            r matches Some(p) ==> p == click,
    {
        let n = self.overlay.len();
        let mut i: usize = 0;
        while i < n
            invariant
                0 <= i <= n,
                n == self.overlay@.len(),
                forall|j: int| 0 <= j < i ==> (#[trigger] self.overlay@[j]).0 != click,
            decreases n - i,
        {
            if self.overlay[i].0 == click {
                return Some(self.overlay[i].0);
            }
            i = i + 1;
        }
        None
    }

    pub fn set_help(&mut self, help: Help)
        ensures
            final(self).help == Some(help),
            final(self).highlight == old(self).highlight,
            final(self).highlight_range == old(self).highlight_range,
            final(self).overlay == old(self).overlay,
            final(self).uplink == old(self).uplink,
    {
        self.help = Some(help);
    }

    pub fn clear_help(&mut self)
        ensures
            final(self).help is None,
            final(self).highlight == old(self).highlight,
            final(self).highlight_range == old(self).highlight_range,
            final(self).overlay == old(self).overlay,
            final(self).uplink == old(self).uplink,
    {
        self.help = None;
    }
}

/// The arrows for the first `k` of east, west, north, south.
pub open spec fn move_marks_upto(lv: LevelView, p: Point, k: int) -> Seq<(Point, Mark)>
    decreases k,
{
    if k <= 0 {
        Seq::empty()
    } else {
        let d = seq![Mark::East, Mark::West, Mark::North, Mark::South][k - 1];
        let rest = move_marks_upto(lv, p, k - 1);
        if can_step(lv, p, d) {
            rest.push((step(p, d)->0, d))
        } else {
            rest
        }
    }
}

proof fn lemma_move_marks_upto(lv: LevelView, p: Point)
    ensures
        move_marks_upto(lv, p, 4) == move_marks(lv, p),
{
    reveal_with_fuel(move_marks_upto, 5);
    assert(move_marks_upto(lv, p, 4) =~= move_marks(lv, p));
}

impl Level {
    /// The cell one step from `p` in direction `dir`, when a unit may move there.
    pub fn step_if_open(&self, p: Point, dir: Mark) -> (r: Option<Point>)
        ensures
            r is Some <==> can_step(self@, p, dir),
            r matches Some(q) ==> step(p, dir) == Some(q),
    {
        let q = match dir {
            Mark::East => if p.x < 65535 {
                Point { x: p.x + 1, y: p.y }
            } else {
                return None;
            },
            Mark::West => if p.x > 0 {
                Point { x: p.x - 1, y: p.y }
            } else {
                return None;
            },
            Mark::North => if p.y > 0 {
                Point { x: p.x, y: p.y - 1 }
            } else {
                return None;
            },
            Mark::South => if p.y < 65535 {
                Point { x: p.x, y: p.y + 1 }
            } else {
                return None;
            },
            _ => {
                return None;
            },
        };
        if self.in_bounds(q) && self.passable(q) {
            Some(q)
        } else {
            None
        }
    }
}

} // verus!
