use vstd::prelude::*;

use crate::level::{CellContents, Level, LevelView};
use crate::map_view::{Mark, open_directions, step};
use crate::point::Point;
use crate::program::{
    Ability,
    ProgramView,
    Team,
    ability_damage,
    ability_range,
    added_damage,
    reachable,
};

verus! {

/// An action the opponent considers for one of its units.
#[derive(Clone, Copy, Debug, PartialEq, Eq, Structural)]
pub enum AIChoice {
    /// Use `ability` on the unit at index `target` of the level.
    Ability { ability: Ability, target: usize },
    Move(Point),
}

/// What one pass of the opponent did.
#[derive(Clone, Copy, Debug, PartialEq, Eq, Structural)]
pub enum AIState {
    /// Some unit attacked: effects are pending.
    WaitingAnimation,
    /// Some unit moved, none attacked.
    Plotting,
    /// No unit acted.
    Done,
}

/// Weight of using an ability on a player unit.
pub const ABILITY_WEIGHT: u32 = 100;

/// Weight of a move.
pub const MOVE_WEIGHT: u32 = 50;

/// The player unit an ability could hit at `t`, if any.
pub open spec fn target_at(lv: LevelView, t: Point) -> Option<usize> {
    if lv.in_bounds(t) {
        match lv.contents(t) {
            CellContents::Program(j) => if j < lv.programs.len() && lv.programs[j as int].team
                == Team::Player {
                Some(j)
            } else {
                None
            },
            _ => None,
        }
    } else {
        None
    }
}

/// Uses of `a` on the tiles `tiles`, in order.
pub open spec fn tile_candidates(lv: LevelView, a: Ability, tiles: Seq<Point>) -> Seq<AIChoice>
    decreases tiles.len(),
{
    if tiles.len() == 0 {
        Seq::empty()
    } else {
        let rest = tile_candidates(lv, a, tiles.drop_last());
        match target_at(lv, tiles.last()) {
            Some(j) => rest.push(AIChoice::Ability { ability: a, target: j }),
            None => rest,
        }
    }
}

/// Uses of the abilities `abilities` from `pos`, ability by ability, each over its range.
pub open spec fn ability_candidates(
    lv: LevelView,
    abilities: Seq<(Seq<char>, Ability)>,
    pos: Point,
) -> Seq<AIChoice>
    decreases abilities.len(),
{
    if abilities.len() == 0 {
        Seq::empty()
    } else {
        let a = abilities.last().1;
        ability_candidates(lv, abilities.drop_last(), pos) + tile_candidates(
            lv,
            a,
            reachable(pos, ability_range(a) as int),
        )
    }
}

/// The ability uses unit `i` may pick: none once it has used an ability this turn.
pub open spec fn attack_candidates(lv: LevelView, i: int) -> Seq<AIChoice> {
    let p = lv.programs[i];
    if p.turn_state.ability_used {
        Seq::empty()
    } else {
        ability_candidates(lv, p.abilities, p.position)
    }
}

/// The moves unit `i` may pick: east, west, north, south, where the cell is passable.
pub open spec fn move_candidates(lv: LevelView, i: int) -> Seq<AIChoice> {
    let pos = lv.programs[i].position;
    open_directions(lv, pos).map_values(|d: Mark| AIChoice::Move(step(pos, d)->0))
}

/// Every candidate of unit `i` with its weight, in the order they are generated.
pub open spec fn weighted_candidates(lv: LevelView, i: int) -> Seq<(u32, AIChoice)> {
    attack_candidates(lv, i).map_values(|c: AIChoice| (ABILITY_WEIGHT, c)) + move_candidates(
        lv,
        i,
    ).map_values(|c: AIChoice| (MOVE_WEIGHT, c))
}

/// Index of the first candidate of highest weight: the head of a stable sort by weight,
/// heaviest first.
pub open spec fn is_first_best(cands: Seq<(u32, AIChoice)>, b: int) -> bool {
    &&& 0 <= b < cands.len()
    &&& forall|j: int| 0 <= j < cands.len() ==> (#[trigger] cands[j]).0 <= cands[b].0
    &&& forall|j: int| 0 <= j < b ==> (#[trigger] cands[j]).0 < cands[b].0
}

/// The action unit `i` picks: its first attack if it has one, else its first move.
pub open spec fn unit_choice(lv: LevelView, i: int) -> Option<AIChoice> {
    let attacks = attack_candidates(lv, i);
    let moves = move_candidates(lv, i);
    if attacks.len() > 0 {
        Some(attacks[0])
    } else if moves.len() > 0 {
        Some(moves[0])
    } else {
        None
    }
}

/// The level after unit `i` carries out `c`, and whether it acted.
pub open spec fn carry_out(lv: LevelView, i: int, c: AIChoice) -> (LevelView, bool) {
    let p = lv.programs[i];
    match c {
        AIChoice::Ability { ability, target } => if target >= lv.programs.len() {
            (lv, false)
        } else {
            let used = ProgramView {
                turn_state: crate::program::ProgramTurnState {
                    ability_used: true,
                    ..p.turn_state
                },
                ..p
            };
            let progs = lv.programs.update(i, used);
            let t = progs[target as int];
            (
                LevelView {
                    programs: progs.update(
                        target as int,
                        t.with_effects(added_damage(t.status_effects, ability_damage(ability))),
                    ),
                    ..lv
                },
                true,
            )
        },
        AIChoice::Move(q) => if p.can_move() {
            (LevelView { programs: lv.programs.update(i, p.move_to(q)), ..lv }, true)
        } else {
            (lv, false)
        },
    }
}

/// Combines the outcome so far with what one unit did.
pub open spec fn next_ai_state(st: AIState, c: AIChoice, acted: bool) -> AIState {
    if !acted {
        st
    } else {
        match c {
            AIChoice::Ability { .. } => AIState::WaitingAnimation,
            AIChoice::Move(_) => if st == AIState::Done {
                AIState::Plotting
            } else {
                st
            },
        }
    }
}

/// The level and outcome after the enemy units among the first `n` have acted, in order.
pub open spec fn ai_pass(lv: LevelView, n: int) -> (LevelView, AIState)
    decreases n,
{
    if n <= 0 {
        (lv, AIState::Done)
    } else {
        let (cur, st) = ai_pass(lv, n - 1);
        if n - 1 >= cur.programs.len() || cur.programs[n - 1].team != Team::Enemy {
            (cur, st)
        } else {
            match unit_choice(cur, n - 1) {
                None => (cur, st),
                Some(c) => {
                    let (next, acted) = carry_out(cur, n - 1, c);
                    (next, next_ai_state(st, c, acted))
                },
            }
        }
    }
}

proof fn lemma_ai_pass_len(lv: LevelView, n: int)
    ensures
        ai_pass(lv, n).0.programs.len() == lv.programs.len(),
        ai_pass(lv, n).0.layout == lv.layout,
    decreases n,
{
    if n > 0 {
        lemma_ai_pass_len(lv, n - 1);
    }
}

/// Index of the first candidate of highest weight.
fn first_best(cands: &Vec<(u32, AIChoice)>) -> (r: Option<usize>)
    ensures
        r is None <==> cands@.len() == 0,
        r matches Some(b) ==> is_first_best(cands@, b as int),
{
    if cands.len() == 0 {
        return None;
    }
    let mut best: usize = 0;
    let mut i: usize = 1;
    while i < cands.len()
        invariant
            1 <= i <= cands@.len(),
            0 <= best < i,
            forall|j: int| 0 <= j < i ==> (#[trigger] cands@[j]).0 <= cands@[best as int].0,
            forall|j: int| 0 <= j < best ==> (#[trigger] cands@[j]).0 < cands@[best as int].0,
        decreases cands@.len() - i,
    {
        if cands[i].0 > cands[best].0 {
            best = i;
        }
        i = i + 1;
    }
    Some(best)
}

/// The uses of ability `a` from `pos` on player units, appended to `out` with their weight.
fn push_tile_candidates(level: &Level, a: Ability, pos: Point, out: &mut Vec<(u32, AIChoice)>)
    ensures
        final(out)@ == old(out)@ + tile_candidates(
            level@,
            a,
            reachable(pos, ability_range(a) as int),
        ).map_values(|c: AIChoice| (ABILITY_WEIGHT, c)),
{
    let tiles = a.reachable_tiles(pos);
    let n = tiles.len();
    let mut m: usize = 0;
    while m < n
        invariant
            0 <= m <= n,
            n == tiles@.len(),
            tiles@ == reachable(pos, ability_range(a) as int),
            out@ == old(out)@ + tile_candidates(level@, a, tiles@.take(m as int)).map_values(
                |c: AIChoice| (ABILITY_WEIGHT, c),
            ),
        decreases n - m,
    {
        let t = tiles[m];
        proof {
            assert(tiles@.take(m + 1).drop_last() =~= tiles@.take(m as int));
            assert(tiles@.take(m + 1).last() == t);
        }
        if level.in_bounds(t) {
            match level.contents_of(t) {
                CellContents::Program(j) => {
                    if level.programs[j].team == Team::Player {
                        out.push((ABILITY_WEIGHT, AIChoice::Ability { ability: a, target: j }));
                    }
                },
                _ => {},
            }
        }
        proof {
            assert(out@ =~= old(out)@ + tile_candidates(level@, a, tiles@.take(m + 1)).map_values(
                |c: AIChoice| (ABILITY_WEIGHT, c),
            ));
        }
        m = m + 1;
    }
    proof {
        assert(tiles@.take(n as int) =~= tiles@);
    }
}

/// The weighted candidates of unit `i`: its attacks, then its moves.
fn candidates(level: &Level, i: usize) -> (r: Vec<(u32, AIChoice)>)
    requires
        i < level@.programs.len(),
    ensures
        r@ == weighted_candidates(level@, i as int),
{
    let mut out: Vec<(u32, AIChoice)> = Vec::new();
    let pos = level.programs[i].position;
    let ghost lv = level@;
    let ghost abilities = lv.programs[i as int].abilities;
    if !level.programs[i].turn_state.ability_used {
        let n = level.programs[i].abilities.len();
        let mut k: usize = 0;
        while k < n
            invariant
                0 <= k <= n,
                i < level@.programs.len(),
                lv == level@,
                n == abilities.len(),
                abilities == lv.programs[i as int].abilities,
                pos == lv.programs[i as int].position,
                out@ == ability_candidates(lv, abilities.take(k as int), pos).map_values(
                    |c: AIChoice| (ABILITY_WEIGHT, c),
                ),
            decreases n - k,
        {
            let a = level.programs[i].abilities[k].1;
            proof {
                assert(abilities.take(k + 1).drop_last() =~= abilities.take(k as int));
                assert(abilities.take(k + 1).last().1 == a);
            }
            push_tile_candidates(level, a, pos, &mut out);
            proof {
                assert(out@ =~= ability_candidates(lv, abilities.take(k + 1), pos).map_values(
                    |c: AIChoice| (ABILITY_WEIGHT, c),
                ));
            }
            k = k + 1;
        }
        proof {
            assert(abilities.take(n as int) =~= abilities);
        }
    }
    let ghost attacks = out@;
    assert(attacks =~= attack_candidates(lv, i as int).map_values(|c: AIChoice| (ABILITY_WEIGHT, c)));
    let dirs = [Mark::East, Mark::West, Mark::North, Mark::South];
    let mut k: usize = 0;
    while k < 4
        invariant
            0 <= k <= 4,
            lv == level@,
            i < lv.programs.len(),
            pos == lv.programs[i as int].position,
            dirs@ == seq![Mark::East, Mark::West, Mark::North, Mark::South],
            out@ == attacks + moves_upto(lv, pos, k as int).map_values(
                |c: AIChoice| (MOVE_WEIGHT, c),
            ),
        decreases 4 - k,
    {
        let d = dirs[k];
        proof {
            assert(seq![Mark::East, Mark::West, Mark::North, Mark::South][k as int] == d);
        }
        match level.step_if_open(pos, d) {
            Some(q) => {
                out.push((MOVE_WEIGHT, AIChoice::Move(q)));
            },
            None => {},
        }
        proof {
            assert(out@ =~= attacks + moves_upto(lv, pos, k + 1).map_values(
                |c: AIChoice| (MOVE_WEIGHT, c),
            ));
        }
        k = k + 1;
    }
    proof {
        lemma_moves_upto(lv, pos);
        assert(out@ =~= weighted_candidates(lv, i as int));
    }
    out
}

/// The moves among the first `k` of east, west, north, south.
pub open spec fn moves_upto(lv: LevelView, p: Point, k: int) -> Seq<AIChoice>
    decreases k,
{
    if k <= 0 {
        Seq::empty()
    } else {
        let d = seq![Mark::East, Mark::West, Mark::North, Mark::South][k - 1];
        let rest = moves_upto(lv, p, k - 1);
        if crate::map_view::can_step(lv, p, d) {
            rest.push(AIChoice::Move(step(p, d)->0))
        } else {
            rest
        }
    }
}

proof fn lemma_moves_upto(lv: LevelView, p: Point)
    ensures
        moves_upto(lv, p, 4) == open_directions(lv, p).map_values(
            |d: Mark| AIChoice::Move(step(p, d)->0),
        ),
{
    reveal_with_fuel(moves_upto, 5);
    assert(moves_upto(lv, p, 4) =~= open_directions(lv, p).map_values(
        |d: Mark| AIChoice::Move(step(p, d)->0),
    ));
}

/// Whether a candidate is an attack on a player unit of the level.
pub open spec fn hits_player(lv: LevelView, c: AIChoice) -> bool {
    match c {
        AIChoice::Ability { target, .. } => target < lv.programs.len() && lv.programs[target as int].team
            == Team::Player,
        AIChoice::Move(_) => false,
    }
}

proof fn lemma_candidate_targets(lv: LevelView, abilities: Seq<(Seq<char>, Ability)>, pos: Point)
    ensures
        forall|k: int|
            0 <= k < ability_candidates(lv, abilities, pos).len() ==> hits_player(lv, #[trigger] ability_candidates(
                lv,
                abilities,
                pos,
            )[k]),
    decreases abilities.len(),
{
    if abilities.len() > 0 {
        lemma_candidate_targets(lv, abilities.drop_last(), pos);
        let a = abilities.last().1;
        lemma_tile_targets(lv, a, reachable(pos, ability_range(a) as int));
        let left = ability_candidates(lv, abilities.drop_last(), pos);
        let right = tile_candidates(lv, a, reachable(pos, ability_range(a) as int));
        assert forall|k: int| 0 <= k < right.len() implies #[trigger] (left + right)[left.len() + k]
            == right[k] by {}
    }
}

proof fn lemma_tile_targets(lv: LevelView, a: Ability, tiles: Seq<Point>)
    ensures
        forall|k: int|
            0 <= k < tile_candidates(lv, a, tiles).len() ==> hits_player(lv, #[trigger] tile_candidates(
                lv,
                a,
                tiles,
            )[k]),
    decreases tiles.len(),
{
    if tiles.len() > 0 {
        lemma_tile_targets(lv, a, tiles.drop_last());
        let rest = tile_candidates(lv, a, tiles.drop_last());
        let all = tile_candidates(lv, a, tiles);
        assert forall|k: int| 0 <= k < rest.len() implies #[trigger] all[k] == rest[k] by {}
    }
}

/// One pass of the opponent: each enemy unit, in level order, carries out the first of its
/// highest-weighted candidates. Attacks (weight 100) come before moves (weight 50); a move
/// is dropped when the unit has no move left.
pub fn ai_tick(level: &mut Level) -> (r: AIState)
    ensures
        (final(level)@, r) == ai_pass(old(level)@, old(level)@.programs.len() as int),
{
    let mut result = AIState::Done;
    let n = level.programs.len();
    let mut i: usize = 0;
    while i < n
        invariant
            0 <= i <= n,
            n == old(level)@.programs.len(),
            (level@, result) == ai_pass(old(level)@, i as int),
        decreases n - i,
    {
        proof {
            lemma_ai_pass_len(old(level)@, i as int);
        }
        let ghost cur = level@;
        if level.programs[i].team != Team::Enemy {
            i = i + 1;
            continue;
        }
        let cands = candidates(level, i);
        proof {
            let attacks = attack_candidates(cur, i as int);
            let moves = move_candidates(cur, i as int);
            assert forall|j: int| 0 <= j < cands@.len() implies (#[trigger] cands@[j]).0 == if j
                < attacks.len() {
                ABILITY_WEIGHT
            } else {
                MOVE_WEIGHT
            } by {
                if j >= attacks.len() {
                    assert(cands@[j] == moves.map_values(|c: AIChoice| (MOVE_WEIGHT, c))[j
                        - attacks.len()]);
                }
            }
            if !cur.programs[i as int].turn_state.ability_used {
                lemma_candidate_targets(cur, cur.programs[i as int].abilities, cur.programs[i as int].position);
            }
        }
        match first_best(&cands) {
            None => {},
            Some(b) => {
                proof {
                    let attacks = attack_candidates(cur, i as int);
                    if b > 0 {
                        assert(cands@[0].0 < cands@[b as int].0);
                    }
                    assert(b == 0);
                    if attacks.len() > 0 {
                        assert(cands@[0].1 == attacks[0]);
                    } else {
                        assert(cands@[0].1 == move_candidates(cur, i as int)[0]);
                    }
                }
                let choice = cands[b].1;
                match choice {
                    AIChoice::Ability { ability, target } => {
                        level.programs[i].turn_state.ability_used = true;
                        ability.apply(&mut level.programs[target]);
                        result = AIState::WaitingAnimation;
                        proof {
                            assert(level@.programs =~= carry_out(cur, i as int, choice).0.programs);
                        }
                    },
                    AIChoice::Move(point) => {
                        if level.programs[i].can_move() {
                            level.programs[i].move_to(point);
                            if result == AIState::Done {
                                result = AIState::Plotting;
                            }
                            proof {
                                assert(level@.programs =~= carry_out(cur, i as int, choice).0.programs);
                            }
                        }
                    },
                }
            },
        }
        i = i + 1;
    }
    result
}

/// The opponent holds no hidden state or chance: two equal levels give the same candidates,
/// the same pick for every unit, and the same level and outcome after a pass.
pub proof fn lemma_ai_deterministic(l1: LevelView, l2: LevelView, i: int, n: int)
    requires
        l1 == l2,
    ensures
        weighted_candidates(l1, i) == weighted_candidates(l2, i),
        unit_choice(l1, i) == unit_choice(l2, i),
        ai_pass(l1, n) == ai_pass(l2, n),
{
}

/// The pick of a unit is the first candidate of highest weight, so an attack on a player
/// unit always wins over a move.
pub proof fn lemma_choice_is_first_best(lv: LevelView, i: int)
    requires
        0 <= i < lv.programs.len(),
    ensures
        weighted_candidates(lv, i).len() == 0 <==> unit_choice(lv, i) is None,
        weighted_candidates(lv, i).len() > 0 ==> is_first_best(weighted_candidates(lv, i), 0)
            && unit_choice(lv, i) == Some(weighted_candidates(lv, i)[0].1),
        attack_candidates(lv, i).len() > 0 ==> unit_choice(lv, i) matches Some(
            AIChoice::Ability { .. },
        ),
{
    let w = weighted_candidates(lv, i);
    let attacks = attack_candidates(lv, i);
    let moves = move_candidates(lv, i);
    if attacks.len() > 0 {
        lemma_attacks_are_attacks(lv, i);
    }
    assert forall|j: int| 0 <= j < w.len() implies (#[trigger] w[j]).0 == if j < attacks.len() {
        ABILITY_WEIGHT
    } else {
        MOVE_WEIGHT
    } by {
        if j >= attacks.len() {
            assert(w[j] == moves.map_values(|c: AIChoice| (MOVE_WEIGHT, c))[j - attacks.len()]);
        }
    }
    if w.len() > 0 {
        if attacks.len() == 0 {
            assert(w[0] == moves.map_values(|c: AIChoice| (MOVE_WEIGHT, c))[0]);
        }
    }
}

proof fn lemma_attacks_are_attacks(lv: LevelView, i: int)
    requires
        0 <= i < lv.programs.len(),
        attack_candidates(lv, i).len() > 0,
    ensures
        attack_candidates(lv, i)[0] is Ability,
{
    let p = lv.programs[i];
    lemma_candidate_targets(lv, p.abilities, p.position);
    assert(hits_player(lv, ability_candidates(lv, p.abilities, p.position)[0]));
}

/// An enemy unit that can hit a player unit attacks instead of moving: its head, trail and
/// moves stay as they were, its ability is marked used, the target gets the ability's damage,
/// and the pass reports effects to wait for.
pub proof fn lemma_attack_beats_move(lv: LevelView, i: int, st: AIState)
    requires
        0 <= i < lv.programs.len(),
        lv.programs[i].team == Team::Enemy,
        attack_candidates(lv, i).len() > 0,
    ensures
        ({
            let c = unit_choice(lv, i)->0;
            let (next, acted) = carry_out(lv, i, c);
            let t = c->target as int;
            &&& unit_choice(lv, i) is Some
            &&& c is Ability
            &&& acted
            &&& next_ai_state(st, c, acted) == AIState::WaitingAnimation
            &&& 0 <= t < lv.programs.len() && t != i
            &&& lv.programs[t].team == Team::Player
            &&& next.programs[i].position == lv.programs[i].position
            &&& next.programs[i].trail == lv.programs[i].trail
            &&& next.programs[i].turn_state.moves_made == lv.programs[i].turn_state.moves_made
            &&& next.programs[i].turn_state.ability_used
            &&& next.programs[t].status_effects == added_damage(
                lv.programs[t].status_effects,
                ability_damage(c->ability),
            )
        }),
{
    lemma_attacks_are_attacks(lv, i);
    let p = lv.programs[i];
    lemma_candidate_targets(lv, p.abilities, p.position);
    assert(hits_player(lv, ability_candidates(lv, p.abilities, p.position)[0]));
}

} // verus!
