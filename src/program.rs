use vstd::prelude::*;

use crate::point::Point;

verus! {

/// What a unit can do to another unit.
#[derive(Clone, Copy, Debug, PartialEq, Eq, Structural)]
pub enum Ability {
    Destroy { damage: usize, range: usize },
}

/// A delayed effect on a unit, resolved one point per tick.
#[derive(Clone, Copy, Debug, PartialEq, Eq, Structural)]
pub enum StatusEffect {
    Damage(usize),
}

#[derive(Clone, Copy, Debug, PartialEq, Eq, Structural)]
pub struct ProgramTurnState {
    pub moves_made: usize,
    pub ability_used: bool,
}

#[derive(Clone, Copy, Debug, PartialEq, Eq, Structural)]
pub enum Team {
    Player,
    Enemy,
}

/// A unit on the map: a head, a trail of earlier cells (its hit points),
/// abilities, per-turn counters and pending effects.
#[derive(Debug)]
pub struct Program {
    pub team: Team,
    pub position: Point,
    pub tail: Vec<Point>,
    pub name: String,
    pub abilities: Vec<(String, Ability)>,
    pub max_tail: usize,
    pub max_moves: usize,
    pub turn_state: ProgramTurnState,
    pub status_effects: Vec<StatusEffect>,
}

/// The mathematical value of a `Program`.
pub struct ProgramView {
    pub team: Team,
    pub position: Point,
    pub trail: Seq<Point>,
    pub name: Seq<char>,
    pub abilities: Seq<(Seq<char>, Ability)>,
    pub max_tail: usize,
    pub max_moves: usize,
    pub turn_state: ProgramTurnState,
    pub status_effects: Seq<StatusEffect>,
}

pub open spec fn named_abilities_view(v: Seq<(String, Ability)>) -> Seq<(Seq<char>, Ability)> {
    v.map_values(|e: (String, Ability)| (e.0@, e.1))
}

impl View for Program {
    type V = ProgramView;

    open spec fn view(&self) -> ProgramView {
        ProgramView {
            team: self.team,
            position: self.position,
            trail: self.tail@,
            name: self.name@,
            abilities: named_abilities_view(self.abilities@),
            max_tail: self.max_tail,
            max_moves: self.max_moves,
            turn_state: self.turn_state,
            status_effects: self.status_effects@,
        }
    }
}

pub open spec fn fresh_turn_state() -> ProgramTurnState {
    ProgramTurnState { moves_made: 0, ability_used: false }
}

impl ProgramView {
    /// True when the point is the head or one of the trail segments.
    pub open spec fn occupies(self, p: Point) -> bool {
        self.position == p || self.trail.contains(p)
    }

    pub open spec fn can_move(self) -> bool {
        self.turn_state.moves_made < self.max_moves
    }

    /// The state after a move to `point`; unchanged when no move is left.
    pub open spec fn move_to(self, point: Point) -> ProgramView {
        if self.can_move() {
            ProgramView {
                position: point,
                trail: moved_trail(self.trail, self.position, self.max_tail),
                turn_state: ProgramTurnState {
                    moves_made: (self.turn_state.moves_made + 1) as usize,
                    ability_used: self.turn_state.ability_used,
                },
                ..self
            }
        } else {
            self
        }
    }

    /// The state after the moves to `points`, in order.
    pub open spec fn moves(self, points: Seq<Point>) -> ProgramView
        decreases points.len(),
    {
        if points.len() == 0 {
            self
        } else {
            self.moves(points.drop_last()).move_to(points.last())
        }
    }

    /// One point of damage: the oldest trail segment goes, if there is one.
    pub open spec fn damaged(self) -> ProgramView {
        if self.trail.len() > 0 {
            ProgramView { trail: self.trail.drop_first(), ..self }
        } else {
            self
        }
    }

    /// The state after one tick: pending damage decays by one and costs one trail segment.
    pub open spec fn ticked(self) -> ProgramView {
        if self.status_effects.len() > 0 {
            self.with_effects(decayed(self.status_effects)).damaged()
        } else {
            self
        }
    }

    /// The state after `k` ticks.
    pub open spec fn ticks(self, k: nat) -> ProgramView
        decreases k,
    {
        if k == 0 {
            self
        } else {
            self.ticks((k - 1) as nat).ticked()
        }
    }

    /// Whether the next tick destroys the unit: damage is pending and no trail is left.
    pub open spec fn dies_on_tick(self) -> bool {
        self.status_effects.len() > 0 && self.trail.len() == 0
    }

    pub open spec fn with_turn_state(self, ts: ProgramTurnState) -> ProgramView {
        ProgramView { turn_state: ts, ..self }
    }

    pub open spec fn with_effects(self, e: Seq<StatusEffect>) -> ProgramView {
        ProgramView { status_effects: e, ..self }
    }
}

/// The old head joins the trail; the oldest segment is dropped once the trail reaches `max_tail`.
pub open spec fn moved_trail(trail: Seq<Point>, head: Point, max_tail: usize) -> Seq<Point> {
    if trail.len() + 1 >= max_tail {
        trail.push(head).drop_first()
    } else {
        trail.push(head)
    }
}

pub open spec fn magnitude(e: StatusEffect) -> usize {
    match e {
        StatusEffect::Damage(x) => x,
    }
}

/// Effects after one tick: each loses one point, and those that reach zero are gone.
pub open spec fn decayed(effects: Seq<StatusEffect>) -> Seq<StatusEffect>
    decreases effects.len(),
{
    if effects.len() == 0 {
        Seq::empty()
    } else {
        let rest = decayed(effects.drop_last());
        let m = magnitude(effects.last());
        if m <= 1 {
            rest
        } else {
            rest.push(StatusEffect::Damage((m - 1) as usize))
        }
    }
}

pub open spec fn sat_add(a: usize, b: usize) -> usize {
    if a + b > usize::MAX {
        usize::MAX
    } else {
        (a + b) as usize
    }
}

/// Effects after `damage` more is added: every damage effect grows, or one is created.
pub open spec fn added_damage(effects: Seq<StatusEffect>, damage: usize) -> Seq<StatusEffect> {
    if effects.len() == 0 {
        seq![StatusEffect::Damage(damage)]
    } else {
        effects.map_values(|e: StatusEffect| StatusEffect::Damage(sat_add(magnitude(e), damage)))
    }
}

pub open spec fn ability_range(a: Ability) -> usize {
    match a {
        Ability::Destroy { range, .. } => range,
    }
}

pub open spec fn ability_damage(a: Ability) -> usize {
    match a {
        Ability::Destroy { damage, .. } => damage,
    }
}

/// Lowest coordinate within `range` of `c` on an axis of the map's coordinate space.
pub open spec fn span_lo(c: int, range: int) -> int {
    if range >= c {
        0
    } else {
        c - range
    }
}

/// Highest coordinate within `range` of `c` on an axis of the map's coordinate space.
pub open spec fn span_hi(c: int, range: int) -> int {
    if range > u16::MAX - c {
        u16::MAX as int
    } else {
        c + range
    }
}

/// Whether `(x, y)` is a tile of the targeting diamond of `range` around `c`.
pub open spec fn in_diamond(c: Point, range: int, x: int, y: int) -> bool {
    &&& !(x == c.x && y == c.y)
    &&& crate::point::abs_diff(x, c.x as int) + crate::point::abs_diff(y, c.y as int) <= range
}

/// The tiles of column `x` with y from the lowest in reach up to `y_end` (excluded), in order.
pub open spec fn diamond_column(c: Point, range: int, x: int, y_end: int) -> Seq<Point>
    decreases y_end - span_lo(c.y as int, range),
{
    if y_end <= span_lo(c.y as int, range) {
        Seq::empty()
    } else {
        let rest = diamond_column(c, range, x, y_end - 1);
        if in_diamond(c, range, x, y_end - 1) {
            rest.push(Point { x: x as u16, y: (y_end - 1) as u16 })
        } else {
            rest
        }
    }
}

/// The tiles of the columns from the lowest in reach up to `x_end` (excluded), column by column.
pub open spec fn diamond_columns(c: Point, range: int, x_end: int) -> Seq<Point>
    decreases x_end - span_lo(c.x as int, range),
{
    if x_end <= span_lo(c.x as int, range) {
        Seq::empty()
    } else {
        diamond_columns(c, range, x_end - 1) + diamond_column(
            c,
            range,
            x_end - 1,
            span_hi(c.y as int, range) + 1,
        )
    }
}

/// Every point of the map's coordinate space within Manhattan distance `range` of `c`,
/// `c` excluded, ordered by x and then by y.
pub open spec fn reachable(c: Point, range: int) -> Seq<Point> {
    diamond_columns(c, range, span_hi(c.x as int, range) + 1)
}

impl Ability {
    /// The targeting shape: all points within Manhattan distance `range` of `center`,
    /// without `center`. Map bounds are not checked here; points that would leave the
    /// coordinate space are left out.
    pub fn reachable_tiles(&self, center: Point) -> (r: Vec<Point>)
        ensures
            r@ == reachable(center, ability_range(*self) as int),
    {
        let mut result: Vec<Point> = Vec::new();
        match *self {
            Ability::Destroy { range, .. } => {
                let cx: u64 = center.x as u64;
                let cy: u64 = center.y as u64;
                let rng: u64 = range as u64;
                let ghost rg = range as int;
                let x_lo: u64 = if rng >= cx { 0 } else { cx - rng };
                let x_end: u64 = if rng > 65535 - cx { 65536 } else { cx + rng + 1 };
                let y_lo: u64 = if rng >= cy { 0 } else { cy - rng };
                let y_end: u64 = if rng > 65535 - cy { 65536 } else { cy + rng + 1 };
                let mut x: u64 = x_lo;
                assert(result@ =~= diamond_columns(center, rg, x as int));
                while x < x_end
                    invariant
                        x_lo <= x <= x_end,
                        x_lo == span_lo(cx as int, rg),
                        x_end == span_hi(cx as int, rg) + 1,
                        y_lo == span_lo(cy as int, rg),
                        y_end == span_hi(cy as int, rg) + 1,
                        cx == center.x,
                        cy == center.y,
                        rg == rng,
                        result@ == diamond_columns(center, rg, x as int),
                    decreases x_end - x,
                {
                    let mut y: u64 = y_lo;
                    let ghost prefix = result@;
                    assert(diamond_column(center, rg, x as int, y as int) =~= Seq::<Point>::empty());
                    while y < y_end
                        invariant
                            y_lo <= y <= y_end,
                            y_lo == span_lo(cy as int, rg),
                            y_end == span_hi(cy as int, rg) + 1,
                            cx == center.x,
                            cy == center.y,
                            x_lo <= x < x_end,
                            x_end <= 65536,
                            rg == rng,
                            result@ == prefix + diamond_column(center, rg, x as int, y as int),
                        decreases y_end - y,
                    {
                        let dx: u64 = if x >= cx { x - cx } else { cx - x };
                        let dy: u64 = if y >= cy { y - cy } else { cy - y };
                        if !(x == cx && y == cy) && dx + dy <= rng {
                            result.push(Point { x: x as u16, y: y as u16 });
                        }
                        proof {
                            assert(result@ =~= prefix + diamond_column(center, rg, x as int, y + 1));
                        }
                        y = y + 1;
                    }
                    proof {
                        assert(result@ =~= diamond_columns(center, rg, x + 1));
                    }
                    x = x + 1;
                }
            },
        }
        result
    }

    /// Adds this ability's damage to the target's pending damage effect, or creates one.
    pub fn apply(&self, program: &mut Program)
        ensures
            final(program)@ == old(program)@.with_effects(
                added_damage(old(program)@.status_effects, ability_damage(*self)),
            ),
    {
        match *self {
            Ability::Destroy { damage, .. } => {
                let mut applied = false;
                let n = program.status_effects.len();
                let ghost before = program.status_effects@;
                let mut i: usize = 0;
                while i < n
                    invariant
                        0 <= i <= n,
                        n == before.len(),
                        program.status_effects@.len() == n,
                        applied == (i > 0),
                        forall|j: int|
                            0 <= j < i ==> #[trigger] program.status_effects@[j] == StatusEffect::Damage(
                                sat_add(magnitude(before[j]), damage),
                            ),
                        forall|j: int| i <= j < n ==> #[trigger] program.status_effects@[j] == before[j],
                        program@ == old(program)@.with_effects(program.status_effects@),
                        before == old(program)@.status_effects,
                    decreases n - i,
                {
                    applied = true;
                    let StatusEffect::Damage(x) = program.status_effects[i];
                    let grown = x.saturating_add(damage);
                    program.status_effects.set(i, StatusEffect::Damage(grown));
                    i = i + 1;
                }
                if !applied {
                    program.status_effects.push(StatusEffect::Damage(damage));
                }
                proof {
                    assert(program.status_effects@ =~= added_damage(before, damage));
                }
            },
        }
    }
}

impl ProgramTurnState {
    fn new() -> (r: ProgramTurnState)
        ensures
            r == fresh_turn_state(),
    {
        ProgramTurnState { moves_made: 0, ability_used: false }
    }
}

impl Program {
    /// A unit with no trail, no abilities, a trail cap of 4 and 3 moves a turn.
    pub fn new(team: Team, position: Point, name: &str) -> (r: Program)
        ensures
            r@ == (ProgramView {
                team,
                position,
                trail: Seq::empty(),
                name: name@,
                abilities: Seq::empty(),
                max_tail: 4,
                max_moves: 3,
                turn_state: fresh_turn_state(),
                status_effects: Seq::empty(),
            }),
    {
        let r = Program {
            team,
            position,
            tail: Vec::new(),
            name: name.to_owned(),
            abilities: Vec::new(),
            max_tail: 4,
            max_moves: 3,
            turn_state: ProgramTurnState::new(),
            status_effects: Vec::new(),
        };
        proof {
            assert(named_abilities_view(r.abilities@) =~= Seq::empty());
        }
        r
    }

    pub fn begin_turn(&mut self)
        ensures
            final(self)@ == old(self)@.with_turn_state(fresh_turn_state()),
    {
        self.turn_state.moves_made = 0;
        self.turn_state.ability_used = false;
    }

    pub fn can_move(&self) -> (r: bool)
        ensures
            r == self@.can_move(),
    {
        self.turn_state.moves_made < self.max_moves
    }

    /// Moves the head to `point`, the old head joining the trail; nothing happens
    /// when the unit has no move left this turn.
    pub fn move_to(&mut self, point: Point)
        ensures
            final(self)@ == old(self)@.move_to(point),
            old(self)@.turn_state.moves_made >= old(self)@.max_moves ==> final(self)@ == old(self)@,
    {
        if !self.can_move() {
            return;
        }
        self.turn_state.moves_made = self.turn_state.moves_made + 1;
        let head = self.position;
        self.tail.push(head);
        if self.tail.len() >= self.max_tail {
            self.tail.remove(0);
        }
        self.position = point;
        proof {
            assert(self.tail@ =~= moved_trail(old(self)@.trail, old(self).position, self.max_tail));
        }
    }

    /// Takes one point of damage. Returns false when the trail was already empty,
    /// that is when the unit is destroyed.
    pub fn damage(&mut self) -> (r: bool)
        ensures
            r == (old(self)@.trail.len() > 0),
            final(self)@ == old(self)@.damaged(),
    {
        if self.tail.len() > 0 {
            self.tail.remove(0);
            proof {
                assert(self.tail@ =~= old(self)@.trail.drop_first());
            }
            true
        } else {
            false
        }
    }

    /// Whether the point is this unit's head or one of its trail segments.
    pub fn intersects(&self, point: Point) -> (r: bool)
        ensures
            r == self@.occupies(point),
    {
        let n = self.tail.len();
        let mut i: usize = 0;
        while i < n
            invariant
                0 <= i <= n,
                n == self.tail@.len(),
                forall|j: int| 0 <= j < i ==> self.tail@[j] != point,
            decreases n - i,
        {
            if self.tail[i] == point {
                return true;
            }
            i = i + 1;
        }
        self.position == point
    }
}

/// The box-drawing glyph for a trail cell at `cur` followed by `next`, given the step that led
/// into `cur` (`None` for the oldest segment). Straight runs use double lines, turns use
/// double corners, and anything else a plus sign.
pub open spec fn trail_glyph(prev: Option<Point>, cur: Point, next: Point) -> char {
    let dx = next.x - cur.x;
    let dy = next.y - cur.y;
    let pdx: Option<int> = match prev {
        Some(p) => Some(cur.x - p.x),
        None => None,
    };
    let pdy: Option<int> = match prev {
        Some(p) => Some(cur.y - p.y),
        None => None,
    };
    if (pdx is None && pdy is None && (dx == 1 || dx == -1) && dy == 0) || (pdx == Some(1int) && dx
        == 1 && dy == 0) || (pdx == Some(-1int) && dx == -1 && dy == 0) {
        '\u{2550}'
    } else if (pdx is None && pdy is None && dx == 0 && (dy == 1 || dy == -1)) || (pdy == Some(1int)
        && dx == 0 && dy == 1) || (pdy == Some(-1int) && dx == 0 && dy == -1) {
        '\u{2551}'
    } else if (pdx == Some(1int) && dx == 0 && dy == 1) || (pdy == Some(-1int) && dx == -1 && dy == 0) {
        '\u{2557}'
    } else if (pdx == Some(1int) && dx == 0 && dy == -1) || (pdy == Some(1int) && dx == -1 && dy == 0) {
        '\u{255d}'
    } else if (pdx == Some(-1int) && dx == 0 && dy == -1) || (pdy == Some(1int) && dx == 1 && dy == 0) {
        '\u{255a}'
    } else if (pdx == Some(-1int) && dx == 0 && dy == 1) || (pdy == Some(-1int) && dx == 1 && dy == 0) {
        '\u{2554}'
    } else {
        '+'
    }
}

/// The glyphs of the cells `cells[0..n]`, each followed by the next cell, with `color`.
pub open spec fn trail_cells<C>(cells: Seq<Point>, n: int, color: C) -> Seq<(Point, char, C)>
    decreases n,
{
    if n <= 0 {
        Seq::empty()
    } else {
        let prev = if n >= 2 {
            Some(cells[n - 2])
        } else {
            None
        };
        trail_cells(cells, n - 1, color).push(
            (cells[n - 1], trail_glyph(prev, cells[n - 1], cells[n]), color),
        )
    }
}

/// What the map shows of a unit: each trail segment as a line joining its neighbours, and
/// the head as a block, all on background `color`.
pub open spec fn unit_cells<C>(p: ProgramView, color: C) -> Seq<(Point, char, C)> {
    let cells = p.trail.push(p.position);
    trail_cells(cells, p.trail.len() as int, color).push((p.position, '\u{25d8}', color))
}

fn glyph_of(prev: Option<Point>, cur: Point, next: Point) -> (r: char)
    ensures
        r == trail_glyph(prev, cur, next),
{
    let dx: i32 = next.x as i32 - cur.x as i32;
    let dy: i32 = next.y as i32 - cur.y as i32;
    let pdx: Option<i32> = match prev {
        Some(p) => Some(cur.x as i32 - p.x as i32),
        None => None,
    };
    let pdy: Option<i32> = match prev {
        Some(p) => Some(cur.y as i32 - p.y as i32),
        None => None,
    };
    if (pdx.is_none() && pdy.is_none() && (dx == 1 || dx == -1) && dy == 0) || (pdx == Some(1i32) && dx
        == 1 && dy == 0) || (pdx == Some(-1i32) && dx == -1 && dy == 0) {
        '\u{2550}'
    } else if (pdx.is_none() && pdy.is_none() && dx == 0 && (dy == 1 || dy == -1)) || (pdy == Some(1i32)
        && dx == 0 && dy == 1) || (pdy == Some(-1i32) && dx == 0 && dy == -1) {
        '\u{2551}'
    } else if (pdx == Some(1i32) && dx == 0 && dy == 1) || (pdy == Some(-1i32) && dx == -1 && dy == 0) {
        '\u{2557}'
    } else if (pdx == Some(1i32) && dx == 0 && dy == -1) || (pdy == Some(1i32) && dx == -1 && dy == 0) {
        '\u{255d}'
    } else if (pdx == Some(-1i32) && dx == 0 && dy == -1) || (pdy == Some(1i32) && dx == 1 && dy == 0) {
        '\u{255a}'
    } else if (pdx == Some(-1i32) && dx == 0 && dy == 1) || (pdy == Some(-1i32) && dx == 1 && dy == 0) {
        '\u{2554}'
    } else {
        '+'
    }
}

impl Program {
    /// The cells the map draws for this unit, oldest trail segment first and the head last,
    /// each with its glyph and the background `color`.
    pub fn display_color<C: Copy>(&self, color: C) -> (r: Vec<(Point, char, C)>)
        ensures
            r@ == unit_cells(self@, color),
    {
        let mut result: Vec<(Point, char, C)> = Vec::new();
        let n = self.tail.len();
        let ghost cells = self@.trail.push(self.position);
        let mut i: usize = 0;
        while i < n
            invariant
                0 <= i <= n,
                n == self.tail@.len(),
                cells == self.tail@.push(self.position),
                result@ == trail_cells(cells, i as int, color),
            decreases n - i,
        {
            let cur = self.tail[i];
            let next = if i + 1 < n {
                self.tail[i + 1]
            } else {
                self.position
            };
            let prev = if i >= 1 {
                Some(self.tail[i - 1])
            } else {
                None
            };
            proof {
                assert(cells[i as int] == cur);
                assert(cells[i + 1] == next);
                if i >= 1 {
                    assert(cells[i - 1] == self.tail@[i - 1]);
                }
            }
            result.push((cur, glyph_of(prev, cur, next), color));
            i = i + 1;
        }
        result.push((self.position, '\u{25d8}', color));
        result
    }
}

/// A unit archetype: name, abilities, trail cap and moves per turn.
pub struct ProgramBuilder {
    name: String,
    abilities: Vec<(String, Ability)>,
    max_tail: usize,
    max_moves: usize,
}

/// The mathematical value of a `ProgramBuilder`.
pub struct BuilderView {
    pub name: Seq<char>,
    pub abilities: Seq<(Seq<char>, Ability)>,
    pub max_tail: usize,
    pub max_moves: usize,
}

impl View for ProgramBuilder {
    type V = BuilderView;

    closed spec fn view(&self) -> BuilderView {
        BuilderView {
            name: self.name@,
            abilities: named_abilities_view(self.abilities@),
            max_tail: self.max_tail,
            max_moves: self.max_moves,
        }
    }
}

/// A fresh unit of archetype `b` for `team`, standing at `position`.
pub open spec fn instance_of(b: BuilderView, team: Team, position: Point) -> ProgramView {
    ProgramView {
        team,
        position,
        trail: Seq::empty(),
        name: b.name,
        abilities: b.abilities,
        max_tail: b.max_tail,
        max_moves: b.max_moves,
        turn_state: fresh_turn_state(),
        status_effects: Seq::empty(),
    }
}

impl ProgramBuilder {
    /// An archetype with no abilities, a trail cap of 1 and 1 move a turn.
    pub fn new(name: &str) -> (r: ProgramBuilder)
        ensures
            r@ == (BuilderView {
                name: name@,
                abilities: Seq::empty(),
                max_tail: 1,
                max_moves: 1,
            }),
    {
        let r = ProgramBuilder { name: name.to_owned(), abilities: Vec::new(), max_tail: 1, max_moves: 1 };
        proof {
            assert(named_abilities_view(r.abilities@) =~= Seq::empty());
        }
        r
    }

    pub fn max_tail(self, size: usize) -> (r: ProgramBuilder)
        ensures
            r@ == (BuilderView { max_tail: size, ..self@ }),
    {
        let mut b = self;
        b.max_tail = size;
        b
    }

    pub fn max_moves(self, moves: usize) -> (r: ProgramBuilder)
        ensures
            r@ == (BuilderView { max_moves: moves, ..self@ }),
    {
        let mut b = self;
        b.max_moves = moves;
        b
    }

    /// Adds an ability after those already there.
    pub fn ability(self, name: &str, ability: Ability) -> (r: ProgramBuilder)
        ensures
            r@ == (BuilderView { abilities: self@.abilities.push((name@, ability)), ..self@ }),
    {
        let mut b = self;
        b.abilities.push((name.to_owned(), ability));
        proof {
            assert(named_abilities_view(b.abilities@) =~= self@.abilities.push((name@, ability)));
        }
        b
    }

    pub fn name(self, name: &str) -> (r: ProgramBuilder)
        ensures
            r@ == (BuilderView { name: name@, ..self@ }),
    {
        let mut b = self;
        b.name = name.to_owned();
        b
    }

    /// A fresh unit of this archetype for `team`, at (0, 0).
    pub fn instance(&self, team: Team) -> (r: Program)
        ensures
            r@ == instance_of(self@, team, Point { x: 0, y: 0 }),
    {
        let mut p = Program::new(team, Point::new(0, 0), self.name.as_str());
        p.max_tail = self.max_tail;
        p.max_moves = self.max_moves;
        assert(p.abilities@.len() == p@.abilities.len());
        let n = self.abilities.len();
        let mut i: usize = 0;
        while i < n
            invariant
                0 <= i <= n,
                n == self.abilities@.len(),
                p.abilities@.len() == i,
                forall|k: int|
                    0 <= k < i ==> (#[trigger] p.abilities@[k]).0@ == self.abilities@[k].0@
                        && p.abilities@[k].1 == self.abilities@[k].1,
                p@ == (ProgramView { abilities: p@.abilities, ..instance_of(self@, team, Point { x: 0, y: 0 }) }),
            decreases n - i,
        {
            let name = self.abilities[i].0.clone();
            p.abilities.push((name, self.abilities[i].1));
            i = i + 1;
        }
        proof {
            assert(p@.abilities =~= self@.abilities);
        }
        p
    }
}

/// However many moves a unit makes, its trail never holds more than `max_tail - 1` segments.
pub proof fn lemma_trail_stays_capped(p: ProgramView, points: Seq<Point>)
    requires
        p.max_tail >= 1,
        p.trail.len() <= p.max_tail - 1,
    ensures
        p.moves(points).max_tail == p.max_tail,
        p.moves(points).trail.len() <= p.max_tail - 1,
    decreases points.len(),
{
    if points.len() > 0 {
        lemma_trail_stays_capped(p, points.drop_last());
    }
}

/// Two damage applications before any tick leave a single damage effect: on a unit without
/// one, its magnitude is the sum of the two damages.
pub proof fn lemma_damage_accumulates(effects: Seq<StatusEffect>, d1: usize, d2: usize)
    requires
        effects.len() <= 1,
    ensures
        added_damage(added_damage(effects, d1), d2).len() == 1,
        effects.len() == 0 && d1 + d2 <= usize::MAX ==> added_damage(added_damage(effects, d1), d2)
            == seq![StatusEffect::Damage((d1 + d2) as usize)],
{
    let once = added_damage(effects, d1);
    let twice = added_damage(once, d2);
    assert(twice.len() == 1);
    if effects.len() == 0 && d1 + d2 <= usize::MAX {
        assert(twice =~= seq![StatusEffect::Damage((d1 + d2) as usize)]);
    }
}

/// A unit never holds more than one damage effect: adding damage leaves exactly one, and a
/// tick leaves at most one.
pub proof fn lemma_single_damage_effect(effects: Seq<StatusEffect>, damage: usize)
    requires
        effects.len() <= 1,
    ensures
        added_damage(effects, damage).len() == 1,
        decayed(effects).len() <= 1,
{
    if effects.len() == 1 {
        assert(effects.drop_last() =~= Seq::<StatusEffect>::empty());
        assert(decayed(effects.drop_last()) =~= Seq::<StatusEffect>::empty());
    }
}

/// A damaged unit loses one trail segment per tick and is destroyed on the tick after its
/// trail is gone: with `N` trail segments and more than `N` points of pending damage, it
/// survives `N` ticks and dies on the next one.
pub proof fn lemma_survives_trail_length(p: ProgramView, m: usize, k: nat)
    requires
        p.status_effects == seq![StatusEffect::Damage(m)],
        m > p.trail.len(),
        k <= p.trail.len(),
    ensures
        p.ticks(k).trail == p.trail.skip(k as int),
        p.ticks(k).status_effects == seq![StatusEffect::Damage((m - k) as usize)],
        p.ticks(k).dies_on_tick() <==> k == p.trail.len(),
    decreases k,
{
    if k == 0 {
        assert(p.trail.skip(0) =~= p.trail);
    } else {
        lemma_survives_trail_length(p, m, (k - 1) as nat);
        let q = p.ticks((k - 1) as nat);
        let e = seq![StatusEffect::Damage((m - (k - 1)) as usize)];
        assert(e.drop_last() =~= Seq::<StatusEffect>::empty());
        assert(decayed(e.drop_last()) =~= Seq::<StatusEffect>::empty());
        assert(magnitude(e.last()) == m - (k - 1));
        assert(decayed(e) =~= seq![StatusEffect::Damage((m - k) as usize)]);
        assert(q.trail.drop_first() =~= p.trail.skip(k as int));
    }
}

proof fn lemma_column_members(c: Point, range: int, x: int, y_end: int)
    requires
        0 <= x <= u16::MAX,
        y_end <= u16::MAX + 1,
    ensures
        forall|p: Point|
            diamond_column(c, range, x, y_end).contains(p) <==> (p.x == x && span_lo(c.y as int, range)
                <= p.y < y_end && in_diamond(c, range, x, p.y as int)),
    decreases y_end - span_lo(c.y as int, range),
{
    if y_end > span_lo(c.y as int, range) {
        lemma_column_members(c, range, x, y_end - 1);
        let rest = diamond_column(c, range, x, y_end - 1);
        let all = diamond_column(c, range, x, y_end);
        assert forall|p: Point| all.contains(p) <==> (p.x == x && span_lo(c.y as int, range) <= p.y
            < y_end && in_diamond(c, range, x, p.y as int)) by {
            if in_diamond(c, range, x, y_end - 1) {
                let q = Point { x: x as u16, y: (y_end - 1) as u16 };
                assert(all == rest.push(q));
                if all.contains(p) {
                    let w = choose|w: int| 0 <= w < all.len() && all[w] == p;
                    if w < rest.len() {
                        assert(rest[w] == p);
                    }
                }
                if rest.contains(p) {
                    let w = choose|w: int| 0 <= w < rest.len() && rest[w] == p;
                    assert(all[w] == p);
                }
                if p == q {
                    assert(all[all.len() - 1] == p);
                }
            }
        }
    }
}

proof fn lemma_columns_members(c: Point, range: int, x_end: int)
    requires
        x_end <= u16::MAX + 1,
    ensures
        forall|p: Point|
            diamond_columns(c, range, x_end).contains(p) <==> (span_lo(c.x as int, range) <= p.x < x_end
                && span_lo(c.y as int, range) <= p.y <= span_hi(c.y as int, range) && in_diamond(
                c,
                range,
                p.x as int,
                p.y as int,
            )),
    decreases x_end - span_lo(c.x as int, range),
{
    if x_end > span_lo(c.x as int, range) {
        lemma_columns_members(c, range, x_end - 1);
        let y_end = span_hi(c.y as int, range) + 1;
        lemma_column_members(c, range, x_end - 1, y_end);
        let left = diamond_columns(c, range, x_end - 1);
        let right = diamond_column(c, range, x_end - 1, y_end);
        let all = diamond_columns(c, range, x_end);
        assert(all == left + right);
        assert forall|p: Point| all.contains(p) <==> (left.contains(p) || right.contains(p)) by {
            if all.contains(p) {
                let w = choose|w: int| 0 <= w < all.len() && all[w] == p;
                if w < left.len() {
                    assert(left[w] == p);
                } else {
                    assert(right[w - left.len()] == p);
                }
            }
            if left.contains(p) {
                let w = choose|w: int| 0 <= w < left.len() && left[w] == p;
                assert(all[w] == p);
            }
            if right.contains(p) {
                let w = choose|w: int| 0 <= w < right.len() && right[w] == p;
                assert(all[left.len() + w] == p);
            }
        }
    }
}

/// Tiles in the column at offset `d` from the centre whose y lies in `[c.y - range, y_end)`.
spec fn column_count(cy: int, range: int, d: int, y_end: int) -> int {
    let k = range - d;
    let hi = if y_end < cy + k + 1 {
        y_end
    } else {
        cy + k + 1
    };
    let span = if hi - (cy - k) > 0 {
        hi - (cy - k)
    } else {
        0
    };
    span - if d == 0 && y_end > cy {
        1int
    } else {
        0
    }
}

proof fn lemma_column_len(c: Point, range: int, x: int, y_end: int)
    requires
        0 <= range <= c.y,
        c.y + range <= u16::MAX,
        0 <= x <= u16::MAX,
        crate::point::abs_diff(x, c.x as int) <= range,
        c.y - range <= y_end <= c.y + range + 1,
    ensures
        diamond_column(c, range, x, y_end).len() == column_count(
            c.y as int,
            range,
            crate::point::abs_diff(x, c.x as int),
            y_end,
        ),
    decreases y_end - (c.y - range),
{
    if y_end > c.y - range {
        lemma_column_len(c, range, x, y_end - 1);
    }
}

/// Tiles in the first `j` columns of a diamond of `range` that lies inside the coordinate space.
spec fn columns_count(range: int, j: int) -> int {
    if j <= range {
        j * j
    } else {
        let m = j - (range + 1);
        range * range + 2 * range + 2 * range * m - m * m
    }
}

proof fn lemma_columns_len(c: Point, range: int, x_end: int)
    requires
        0 <= range <= c.x,
        0 <= range <= c.y,
        c.x + range <= u16::MAX,
        c.y + range <= u16::MAX,
        c.x - range <= x_end <= c.x + range + 1,
    ensures
        diamond_columns(c, range, x_end).len() == columns_count(range, x_end - (c.x - range)),
    decreases x_end - (c.x - range),
{
    if x_end > c.x - range {
        lemma_columns_len(c, range, x_end - 1);
        let x = x_end - 1;
        lemma_column_len(c, range, x, c.y + range + 1);
        let j = x_end - (c.x - range);
        let t = j - 1;
        if t < range {
            assert(j * j == (j - 1) * (j - 1) + 2 * j - 1) by (nonlinear_arith);
        } else if t == range {
            assert(columns_count(range, j) == range * range + 2 * range) by (nonlinear_arith)
                requires
                    j == range + 1,
            ;
            assert(columns_count(range, j - 1) == range * range) by (nonlinear_arith)
                requires
                    j - 1 == range,
            ;
        } else {
            let m = j - (range + 1);
            assert(range * range + 2 * range + 2 * range * m - m * m == range * range + 2 * range + 2
                * range * (m - 1) - (m - 1) * (m - 1) + 2 * (range - m) + 1) by (nonlinear_arith);
        }
    }
}

/// Whether `a` comes before `b` ordered by x, then by y.
pub open spec fn comes_before(a: Point, b: Point) -> bool {
    a.x < b.x || (a.x == b.x && a.y < b.y)
}

proof fn lemma_column_sorted(c: Point, range: int, x: int, y_end: int)
    requires
        0 <= x <= u16::MAX,
        y_end <= u16::MAX + 1,
    ensures
        forall|k: int|
            0 <= k < diamond_column(c, range, x, y_end).len() ==> (#[trigger] diamond_column(
                c,
                range,
                x,
                y_end,
            )[k]).x == x && diamond_column(c, range, x, y_end)[k].y < y_end,
        forall|i: int, j: int|
            0 <= i < j < diamond_column(c, range, x, y_end).len() ==> (#[trigger] diamond_column(
                c,
                range,
                x,
                y_end,
            )[i]).y < (#[trigger] diamond_column(c, range, x, y_end)[j]).y,
    decreases y_end - span_lo(c.y as int, range),
{
    if y_end > span_lo(c.y as int, range) {
        lemma_column_sorted(c, range, x, y_end - 1);
        let rest = diamond_column(c, range, x, y_end - 1);
        let all = diamond_column(c, range, x, y_end);
        assert forall|k: int| 0 <= k < rest.len() implies #[trigger] all[k] == rest[k] by {}
    }
}

proof fn lemma_columns_sorted(c: Point, range: int, x_end: int)
    requires
        x_end <= u16::MAX + 1,
    ensures
        forall|k: int|
            0 <= k < diamond_columns(c, range, x_end).len() ==> (#[trigger] diamond_columns(
                c,
                range,
                x_end,
            )[k]).x < x_end,
        forall|i: int, j: int|
            0 <= i < j < diamond_columns(c, range, x_end).len() ==> comes_before(
                #[trigger] diamond_columns(c, range, x_end)[i],
                #[trigger] diamond_columns(c, range, x_end)[j],
            ),
    decreases x_end - span_lo(c.x as int, range),
{
    if x_end > span_lo(c.x as int, range) {
        lemma_columns_sorted(c, range, x_end - 1);
        let y_end = span_hi(c.y as int, range) + 1;
        lemma_column_sorted(c, range, x_end - 1, y_end);
        let left = diamond_columns(c, range, x_end - 1);
        let right = diamond_column(c, range, x_end - 1, y_end);
        let all = diamond_columns(c, range, x_end);
        assert(all == left + right);
        assert forall|k: int| 0 <= k < all.len() implies (#[trigger] all[k]).x < x_end by {
            if k < left.len() {
                assert(all[k] == left[k]);
            } else {
                assert(all[k] == right[k - left.len()]);
            }
        }
        assert forall|i: int, j: int| 0 <= i < j < all.len() implies comes_before(
            #[trigger] all[i],
            #[trigger] all[j],
        ) by {
            if j < left.len() {
                assert(all[i] == left[i] && all[j] == left[j]);
            } else if i < left.len() {
                assert(all[i] == left[i] && all[j] == right[j - left.len()]);
            } else {
                assert(all[i] == right[i - left.len()] && all[j] == right[j - left.len()]);
            }
        }
    }
}

/// The targeting shape of range `r` around `c` holds exactly the points at Manhattan distance
/// 1 to `r` from `c`, each once, in increasing order of x and then y; away from the edges
/// of the coordinate space it has `2r^2 + 2r` tiles.
pub proof fn lemma_reachable_is_diamond(c: Point, r: int)
    requires
        r >= 0,
    ensures
        forall|p: Point| reachable(c, r).contains(p) <==> 1 <= crate::point::manhattan(c, p) <= r,
        forall|i: int, j: int|
            0 <= i < j < reachable(c, r).len() ==> comes_before(
                #[trigger] reachable(c, r)[i],
                #[trigger] reachable(c, r)[j],
            ),
        reachable(c, r).no_duplicates(),
        r <= c.x && r <= c.y && c.x + r <= u16::MAX && c.y + r <= u16::MAX ==> reachable(c, r).len()
            == 2 * r * r + 2 * r,
{
    lemma_columns_members(c, r, span_hi(c.x as int, r) + 1);
    lemma_columns_sorted(c, r, span_hi(c.x as int, r) + 1);
    let s = reachable(c, r);
    assert forall|i: int, j: int| 0 <= i < s.len() && 0 <= j < s.len() && i != j implies s[i] != s[j] by {
        if i < j {
            assert(comes_before(s[i], s[j]));
        } else {
            assert(comes_before(s[j], s[i]));
        }
    }
    assert forall|p: Point| reachable(c, r).contains(p) <==> 1 <= crate::point::manhattan(c, p) <= r by {
        if 1 <= crate::point::manhattan(c, p) <= r {
            assert(p != c);
        }
    }
    if r <= c.x && r <= c.y && c.x + r <= u16::MAX && c.y + r <= u16::MAX {
        lemma_columns_len(c, r, c.x + r + 1);
        let m = r;
        assert(r * r + 2 * r + 2 * r * m - m * m == 2 * r * r + 2 * r) by (nonlinear_arith)
            requires
                m == r,
        ;
    }
}

} // verus!
