//! The life simulation: one tick moves every creature but the player.
//!
//! A tick makes two passes over all levels, each in raster order. The first
//! lets every creature decide what it wants and act on it, once: a creature
//! that has stepped onto a cell which the pass has yet to visit is passed
//! over there. The second makes the starving pay with their health. What a
//! hungry, a scared or a dead creature does is still undecided: a tick that
//! meets one stops there and says so, leaving the world as it was at that
//! moment.

use vstd::prelude::*;
use crate::util::fast_random::{xorshift, FastRandom};
use crate::util::torus::{lemma_wrap, wrap, wrap_offset};
use crate::world::entity::creature::{BodyStats, Creature, Interest};
use crate::world::entity::Entity;
use crate::world::level::{
    cell_view, flat_index, lemma_flat_index_split, swap_entities_at, with_entity, Level, Slot,
};
use crate::world::search::{closest_tile, ring_search, Density, Target, MAX_SEARCH_DISTANCE};
use crate::world::slot_position::SlotPosition;
use crate::world::World;

pub mod invariants;
pub mod vision;

use self::invariants::{
    grid_preserved, lemma_tick_one_step, lemma_tick_preserved, moved_by_one,
};

verus! {

/// A case the simulation has no rule for yet, and where it was met.
#[derive(Debug, Copy, Clone, PartialEq, Eq, Structural)]
pub enum Unresolved {
    /// A hungry creature has to act.
    HungryAction(SlotPosition),
    /// A scared creature has to act.
    ScaredAction(SlotPosition),
    /// A creature has no health left.
    Death(SlotPosition),
}

/// How far a creature looks for a portal when its target is on another level.
pub const PORTAL_SEARCH_DISTANCE: usize = 128;

/// An idle creature wanders about once in this many ticks.
pub const IDLE_MOVE_CHANCE: u64 = 16;

/// The two passes of a tick.
#[derive(Debug, Copy, Clone, PartialEq, Eq, Structural)]
pub enum Pass {
    /// Creatures decide and act.
    Act,
    /// The starving lose health.
    Starve,
}

/// The state that a pass threads through the cells: the slots of the level
/// at hand, the generator, the cells whose occupant has already acted in this
/// pass, and the reason to stop, once there is one.
pub struct Progress {
    pub slots: Seq<Slot>,
    pub seed: u64,
    pub acted: Seq<bool>,
    pub halt: Option<Unresolved>,
}

/// The sign of `v`: -1, 0 or 1.
pub open spec fn signum(v: int) -> int {
    if v < 0 {
        -1
    } else if v == 0 {
        0
    } else {
        1
    }
}

/// The absolute value of `v`.
pub open spec fn abs(v: int) -> int {
    if v < 0 {
        -v
    } else {
        v
    }
}

/// One orthogonal step from `(x, y)` toward `goal`: along the columns if
/// the goal is farther away in columns than in rows, else along the rows.
/// The offsets are taken as they are, not around the torus.
pub open spec fn step_toward(x: int, y: int, goal: (int, int)) -> (int, int) {
    let dx = goal.0 - x;
    let dy = goal.1 - y;
    if abs(dx) > abs(dy) {
        (x + signum(dx), y)
    } else {
        (x, y + signum(dy))
    }
}

/// The neighbour of `(x, y)` in direction `d`: down, up, right, left.
pub open spec fn neighbour(x: int, y: int, d: int) -> (int, int) {
    if d == 0 {
        (x, y + 1)
    } else if d == 1 {
        (x, y - 1)
    } else if d == 2 {
        (x + 1, y)
    } else {
        (x - 1, y)
    }
}

/// The slots after the occupant of position `from` has tried to move to
/// position `to`: the two occupants trade places if `to` is walkable
/// ground with nobody on it, and nothing happens otherwise.
pub open spec fn move_if_free(slots: Seq<Slot>, from: int, to: int) -> Seq<Slot> {
    if slots[to].tile.is_floor() && slots[to].entity is None {
        swap_entities_at(slots, from, to)
    } else {
        slots
    }
}

/// The marks after the occupant of some position has tried to move to
/// position `to`: if the move is made, `to` is marked, so that the mover is
/// not asked to act again in the same pass.
pub open spec fn mark_if_free(slots: Seq<Slot>, acted: Seq<bool>, to: int) -> Seq<bool> {
    if slots[to].tile.is_floor() && slots[to].entity is None {
        acted.update(to, true)
    } else {
        acted
    }
}

/// The creature after it has recomputed its interest, `draw` being the
/// generator's next state.
pub open spec fn reconsidered(c: Creature, draw: u64) -> Creature {
    Creature { species: c.species, body: c.body, behavior: c.behavior, memory: c.spec_interests(draw) }
}

/// The creature after it has lost one point of health.
pub open spec fn weakened(c: Creature) -> Creature {
    Creature {
        species: c.species,
        body: BodyStats {
            max_health: c.body.max_health,
            max_nutrition: c.body.max_nutrition,
            health: (c.body.health - 1) as u8,
            nutrition: c.body.nutrition,
            karma: c.body.karma,
            smelliness: c.body.smelliness,
            strength: c.body.strength,
        },
        behavior: c.behavior,
        memory: c.memory,
    }
}

/// What the first pass does at cell `(x, y)` of level `l`, given the
/// player's position `pp`. Nothing happens unless a creature stands there
/// that is not the player and has not acted in this pass yet. The creature
/// first recomputes its interest. A curious one with a target steps toward
/// it, or toward the nearest portal found if the target lies on another
/// level; an idle one wanders to a random neighbour once in sixteen ticks.
/// Whoever steps is marked at the cell stepped onto. Hungry and scared
/// creatures stop the pass.
pub open spec fn act_at(
    slots: Seq<Slot>,
    acted: Seq<bool>,
    size: int,
    seed: u64,
    l: int,
    x: int,
    y: int,
    pp: SlotPosition,
) -> Progress {
    let i = x * size + y;
    match slots[i].entity {
        Some(Entity::Creature(c)) => {
            if (pp.x == x && pp.y == y && pp.level == l) || acted[i] {
                Progress { slots, seed, acted, halt: None }
            } else {
                let draw = xorshift(seed);
                let moved = reconsidered(c, draw);
                let memory = moved.memory;
                let seed1 = if c.rolls_for_curiosity() {
                    draw
                } else {
                    seed
                };
                let slots1 = slots.update(i, with_entity(slots[i], Some(Entity::Creature(moved))));
                let here = SlotPosition { x: x as usize, y: y as usize, level: l as usize };
                match memory.current_interest {
                    Interest::Hungry => Progress {
                        slots: slots1,
                        seed: seed1,
                        acted,
                        halt: Some(Unresolved::HungryAction(here)),
                    },
                    Interest::Scared => Progress {
                        slots: slots1,
                        seed: seed1,
                        acted,
                        halt: Some(Unresolved::ScaredAction(here)),
                    },
                    Interest::Curious => match memory.target {
                        Some(target) => {
                            let search = ring_search(
                                slots1,
                                size,
                                seed1,
                                x,
                                y,
                                1,
                                PORTAL_SEARCH_DISTANCE as int,
                                Target::Portal,
                                Density::SkipOneIn(2),
                            );
                            let goal = if target.level != l {
                                match search.0 {
                                    Some(c) => c,
                                    None => (target.x as int, target.y as int),
                                }
                            } else {
                                (target.x as int, target.y as int)
                            };
                            let seed2 = if target.level != l {
                                search.1
                            } else {
                                seed1
                            };
                            let to = step_toward(x, y, goal);
                            Progress {
                                slots: move_if_free(slots1, i, flat_index(to.0, to.1, size)),
                                seed: seed2,
                                acted: mark_if_free(slots1, acted, flat_index(to.0, to.1, size)),
                                halt: None,
                            }
                        },
                        None => Progress { slots: slots1, seed: seed1, acted, halt: None },
                    },
                    Interest::Idle => {
                        let roll = xorshift(seed1);
                        if roll % IDLE_MOVE_CHANCE == 0 {
                            let pick = xorshift(roll);
                            let to = neighbour(x, y, (pick % 4) as int);
                            Progress {
                                slots: move_if_free(slots1, i, flat_index(to.0, to.1, size)),
                                seed: pick,
                                acted: mark_if_free(slots1, acted, flat_index(to.0, to.1, size)),
                                halt: None,
                            }
                        } else {
                            Progress { slots: slots1, seed: roll, acted, halt: None }
                        }
                    },
                }
            }
        },
        _ => Progress { slots, seed, acted, halt: None },
    }
}

/// What the second pass does at cell `(x, y)` of level `l`: a creature
/// without nutrition loses one point of health; one without health stops the
/// pass. The marks are not looked at.
pub open spec fn starve_at(
    slots: Seq<Slot>,
    acted: Seq<bool>,
    size: int,
    seed: u64,
    l: int,
    x: int,
    y: int,
) -> Progress {
    let i = x * size + y;
    match slots[i].entity {
        Some(Entity::Creature(c)) => {
            if c.body.health == 0 {
                Progress {
                    slots,
                    seed,
                    acted,
                    halt: Some(
                        Unresolved::Death(SlotPosition { x: x as usize, y: y as usize, level: l as usize }),
                    ),
                }
            } else if c.body.nutrition == 0 {
                Progress {
                    slots: slots.update(i, with_entity(slots[i], Some(Entity::Creature(weakened(c))))),
                    seed,
                    acted,
                    halt: None,
                }
            } else {
                Progress { slots, seed, acted, halt: None }
            }
        },
        _ => Progress { slots, seed, acted, halt: None },
    }
}

/// What a pass does at one cell.
pub open spec fn visit(
    pass: Pass,
    slots: Seq<Slot>,
    acted: Seq<bool>,
    size: int,
    seed: u64,
    l: int,
    x: int,
    y: int,
    pp: SlotPosition,
) -> Progress {
    match pass {
        Pass::Act => act_at(slots, acted, size, seed, l, x, y, pp),
        Pass::Starve => starve_at(slots, acted, size, seed, l, x, y),
    }
}

/// The marks at the start of a pass: nobody has acted.
pub open spec fn unmarked(slots: Seq<Slot>) -> Seq<bool> {
    Seq::new(slots.len(), |j: int| false)
}

/// The state of a pass over level `l` after its first `n` cells in raster
/// order, column by column. Once a reason to stop has come up, nothing more
/// is done.
pub open spec fn sweep(
    pass: Pass,
    slots: Seq<Slot>,
    size: int,
    seed: u64,
    l: int,
    pp: SlotPosition,
    n: nat,
) -> Progress
    decreases n,
{
    if n == 0 {
        Progress { slots, seed, acted: unmarked(slots), halt: None }
    } else {
        let before = sweep(pass, slots, size, seed, l, pp, (n - 1) as nat);
        if before.halt is Some {
            before
        } else {
            visit(
                pass,
                before.slots,
                before.acted,
                size,
                before.seed,
                l,
                (n - 1) / size,
                (n - 1) % size,
                pp,
            )
        }
    }
}

/// The state that a pass threads through the levels.
pub struct WorldProgress {
    pub grid: Seq<Seq<Slot>>,
    pub seed: u64,
    pub halt: Option<Unresolved>,
}

/// The state of a pass after the first `levels` levels.
pub open spec fn sweep_levels(
    pass: Pass,
    grid: Seq<Seq<Slot>>,
    size: int,
    seed: u64,
    pp: SlotPosition,
    levels: nat,
) -> WorldProgress
    decreases levels,
{
    if levels == 0 {
        WorldProgress { grid, seed, halt: None }
    } else {
        let before = sweep_levels(pass, grid, size, seed, pp, (levels - 1) as nat);
        if before.halt is Some {
            before
        } else {
            let l = levels - 1;
            let done = sweep(pass, before.grid[l], size, before.seed, l, pp, (size * size) as nat);
            WorldProgress { grid: before.grid.update(l, done.slots), seed: done.seed, halt: done.halt }
        }
    }
}

/// The outcome of one tick on a world of `levels` levels of side `size`.
pub open spec fn spec_tick(
    grid: Seq<Seq<Slot>>,
    size: int,
    seed: u64,
    pp: SlotPosition,
    levels: nat,
) -> WorldProgress {
    let acted = sweep_levels(Pass::Act, grid, size, seed, pp, levels);
    if acted.halt is Some {
        acted
    } else {
        sweep_levels(Pass::Starve, acted.grid, size, acted.seed, pp, levels)
    }
}

/// Looks for the portal nearest to `(x, y)`, skipping every other ring on
/// average.
pub fn closest_portal_tile<const SIZE: usize>(
    random: &mut FastRandom,
    level: &Level<SIZE>,
    x: usize,
    y: usize,
    max_axis_distance: usize,
) -> (r: Option<(usize, usize)>)
    requires
        max_axis_distance <= MAX_SEARCH_DISTANCE,
    ensures
        (cell_view(r), final(random)@) == ring_search(
            level@,
            SIZE as int,
            old(random)@,
            x as int,
            y as int,
            1,
            max_axis_distance as int,
            Target::Portal,
            Density::SkipOneIn(2),
        ),
        r matches Some(c) ==> c.0 < SIZE && c.1 < SIZE && level.spec_slot(
            c.0 as int,
            c.1 as int,
        ).tile.is_portal(),
{
    closest_tile(random, level, x, y, max_axis_distance, Target::Portal, Density::SkipOneIn(2))
}

/// Moves the occupant of `from` to `to` if `to` is walkable ground with
/// nobody on it. Says whether the move was made.
pub fn try_move<const SIZE: usize>(level: &mut Level<SIZE>, from: (usize, usize), to: (usize, usize)) -> (r:
    bool)
    ensures
        final(level)@ == move_if_free(
            old(level)@,
            flat_index(from.0 as int, from.1 as int, SIZE as int),
            flat_index(to.0 as int, to.1 as int, SIZE as int),
        ),
        r == (old(level).spec_slot(to.0 as int, to.1 as int).tile.is_floor() && old(
            level,
        ).spec_slot(to.0 as int, to.1 as int).entity is None),
{
    let new_slot = level.slot(to.0, to.1);
    if new_slot.tile.is_floor() && new_slot.entity.is_none() {
        level.swap_entities(from, to);
        true
    } else {
        false
    }
}

/// The cell one orthogonal step from `(x, y)` toward `goal`, wrapped onto
/// the grid.
pub fn step_cell_toward(x: usize, y: usize, goal: (usize, usize), size: usize) -> (r: (
    usize,
    usize,
))
    requires
        size > 0,
    ensures
        r.0 == wrap(step_toward(x as int, y as int, (goal.0 as int, goal.1 as int)).0, size as int),
        r.1 == wrap(step_toward(x as int, y as int, (goal.0 as int, goal.1 as int)).1, size as int),
{
    let dx: i128 = goal.0 as i128 - x as i128;
    let dy: i128 = goal.1 as i128 - y as i128;
    let ax: i128 = if dx < 0 {
        -dx
    } else {
        dx
    };
    let ay: i128 = if dy < 0 {
        -dy
    } else {
        dy
    };
    if ax > ay {
        let sx: i64 = if dx < 0 {
            -1
        } else {
            1
        };
        (wrap_offset(x, sx, size), wrap_offset(y, 0, size))
    } else {
        let sy: i64 = if dy < 0 {
            -1
        } else if dy == 0 {
            0
        } else {
            1
        };
        (wrap_offset(x, 0, size), wrap_offset(y, sy, size))
    }
}

/// The neighbour of `(x, y)` in direction `d`, wrapped onto the grid.
pub fn neighbour_cell(x: usize, y: usize, d: u64, size: usize) -> (r: (usize, usize))
    requires
        size > 0,
        d < 4,
    ensures
        r.0 == wrap(neighbour(x as int, y as int, d as int).0, size as int),
        r.1 == wrap(neighbour(x as int, y as int, d as int).1, size as int),
{
    if d == 0 {
        (wrap_offset(x, 0, size), wrap_offset(y, 1, size))
    } else if d == 1 {
        (wrap_offset(x, 0, size), wrap_offset(y, -1, size))
    } else if d == 2 {
        (wrap_offset(x, 1, size), wrap_offset(y, 0, size))
    } else {
        (wrap_offset(x, -1, size), wrap_offset(y, 0, size))
    }
}

/// Lets the creature at `(x, y)` decide and act, if there is one, it is not
/// the player and it has not acted in this pass. If it steps, the cell
/// stepped onto is marked in `acted`.
pub fn act_cell<const SIZE: usize>(
    level: &mut Level<SIZE>,
    random: &mut FastRandom,
    acted: &mut Vec<bool>,
    l: usize,
    x: usize,
    y: usize,
    pp: SlotPosition,
) -> (r: Option<Unresolved>)
    requires
        x < SIZE,
        y < SIZE,
        old(acted)@.len() == SIZE * SIZE,
    ensures
        (Progress {
            slots: final(level)@,
            seed: final(random)@,
            acted: final(acted)@,
            halt: r,
        }) == act_at(
            old(level)@,
            old(acted)@,
            SIZE as int,
            old(random)@,
            l as int,
            x as int,
            y as int,
            pp,
        ),
        final(acted)@.len() == SIZE * SIZE,
{
    proof {
        use_type_invariant(&*level);
        lemma_wrap(x as int, SIZE as int);
        lemma_wrap(y as int, SIZE as int);
    }
    let slot = level.slot(x, y);
    match slot.entity {
        Some(Entity::Creature(c)) => {
            if (pp.x == x && pp.y == y && pp.level == l) || acted[level.index_of(x, y)] {
                return None;
            }
            let mut c = c;
            let interest = c.calculate_interests(random);
            level.set_entity(x, y, Some(Entity::Creature(c)));
            let here = SlotPosition { x, y, level: l };
            match interest {
                Interest::Hungry => Some(Unresolved::HungryAction(here)),
                Interest::Scared => Some(Unresolved::ScaredAction(here)),
                Interest::Curious => {
                    match c.memory.target {
                        Some(target) => {
                            let go_to = if target.level != l {
                                match closest_portal_tile(random, level, x, y, PORTAL_SEARCH_DISTANCE) {
                                    Some(found) => found,
                                    None => (target.x, target.y),
                                }
                            } else {
                                (target.x, target.y)
                            };
                            let new_pos = step_cell_toward(x, y, go_to, SIZE);
                            proof {
                                let to = step_toward(x as int, y as int, (go_to.0 as int, go_to.1 as int));
                                lemma_wrap(to.0, SIZE as int);
                                lemma_wrap(to.1, SIZE as int);
                            }
                            if try_move(level, (x, y), new_pos) {
                                let at: usize = level.index_of(new_pos.0, new_pos.1);
                                acted[at] = true;
                            }
                            None
                        },
                        None => None,
                    }
                },
                Interest::Idle => {
                    if random.one_in(IDLE_MOVE_CHANCE) {
                        let d: u64 = random.next_less_than(4);
                        let new_pos = neighbour_cell(x, y, d, SIZE);
                        proof {
                            let to = neighbour(x as int, y as int, d as int);
                            lemma_wrap(to.0, SIZE as int);
                            lemma_wrap(to.1, SIZE as int);
                        }
                        if try_move(level, (x, y), new_pos) {
                            let at: usize = level.index_of(new_pos.0, new_pos.1);
                            acted[at] = true;
                        }
                    }
                    None
                },
            }
        },
        _ => None,
    }
}

/// Makes the creature at `(x, y)`, if there is one, pay for starving.
pub fn starve_cell<const SIZE: usize>(level: &mut Level<SIZE>, l: usize, x: usize, y: usize) -> (r:
    Option<Unresolved>)
    requires
        x < SIZE,
        y < SIZE,
    ensures
        forall|seed: u64, acted: Seq<bool>|
            (Progress { slots: final(level)@, seed, acted, halt: r }) == #[trigger] starve_at(
                old(level)@,
                acted,
                SIZE as int,
                seed,
                l as int,
                x as int,
                y as int,
            ),
{
    proof {
        use_type_invariant(&*level);
        lemma_wrap(x as int, SIZE as int);
        lemma_wrap(y as int, SIZE as int);
    }
    let slot = level.slot(x, y);
    match slot.entity {
        Some(Entity::Creature(c)) => {
            if c.body.health == 0 {
                Some(Unresolved::Death(SlotPosition { x, y, level: l }))
            } else if c.body.nutrition == 0 {
                let mut c = c;
                c.body.health = c.body.health - 1;
                level.set_entity(x, y, Some(Entity::Creature(c)));
                None
            } else {
                None
            }
        },
        _ => None,
    }
}

/// Runs one pass over one level, in raster order, until it is through or
/// meets a case it has no rule for.
pub fn sweep_level<const SIZE: usize>(
    pass: Pass,
    level: &mut Level<SIZE>,
    random: &mut FastRandom,
    l: usize,
    pp: SlotPosition,
) -> (r: Option<Unresolved>)
    ensures
        final(level)@ == sweep(
            pass,
            old(level)@,
            SIZE as int,
            old(random)@,
            l as int,
            pp,
            (SIZE * SIZE) as nat,
        ).slots,
        final(random)@ == sweep(
            pass,
            old(level)@,
            SIZE as int,
            old(random)@,
            l as int,
            pp,
            (SIZE * SIZE) as nat,
        ).seed,
        r == sweep(
            pass,
            old(level)@,
            SIZE as int,
            old(random)@,
            l as int,
            pp,
            (SIZE * SIZE) as nat,
        ).halt,
{
    proof {
        use_type_invariant(&*level);
        level.lemma_inv();
    }
    let n: usize = SIZE * SIZE;
    let mut acted: Vec<bool> = Vec::new();
    match pass {
        Pass::Act => {
            let mut k: usize = 0;
            while k < n
                invariant
                    k <= n,
                    acted@.len() == k,
                    forall|j: int| 0 <= j < k ==> !(#[trigger] acted@[j]),
                decreases n - k,
            {
                acted.push(false);
                k += 1;
            }
        },
        Pass::Starve => {},
    }
    let ghost mut marks = unmarked(level@);
    proof {
        if pass == Pass::Act {
            assert(acted@ =~= marks);
        }
    }
    let mut i: usize = 0;
    while i < n
        invariant
            i <= n,
            n == SIZE * SIZE,
            SIZE > 0,
            marks.len() == n,
            pass == Pass::Act ==> acted@ == marks,
            (Progress { slots: level@, seed: random@, acted: marks, halt: None }) == sweep(
                pass,
                old(level)@,
                SIZE as int,
                old(random)@,
                l as int,
                pp,
                i as nat,
            ),
        decreases n - i,
    {
        let x: usize = i / SIZE;
        let y: usize = i % SIZE;
        proof {
            lemma_flat_index_split(i as int, SIZE as int);
        }
        let halt = match pass {
            Pass::Act => {
                let halt = act_cell(level, random, &mut acted, l, x, y, pp);
                proof {
                    marks = acted@;
                }
                halt
            },
            Pass::Starve => starve_cell(level, l, x, y),
        };
        if halt.is_some() {
            proof {
                lemma_sweep_halted(
                    pass,
                    old(level)@,
                    SIZE as int,
                    old(random)@,
                    l as int,
                    pp,
                    (i + 1) as nat,
                    n as nat,
                );
            }
            return halt;
        }
        i += 1;
    }
    None
}

/// Once a pass has stopped, visiting more cells changes nothing.
pub proof fn lemma_sweep_halted(
    pass: Pass,
    slots: Seq<Slot>,
    size: int,
    seed: u64,
    l: int,
    pp: SlotPosition,
    m: nat,
    n: nat,
)
    requires
        m <= n,
        sweep(pass, slots, size, seed, l, pp, m).halt is Some,
    ensures
        sweep(pass, slots, size, seed, l, pp, n) == sweep(pass, slots, size, seed, l, pp, m),
    decreases n - m,
{
    if m < n {
        lemma_sweep_halted(pass, slots, size, seed, l, pp, m, (n - 1) as nat);
    }
}

/// Once a pass has stopped, visiting more levels changes nothing.
pub proof fn lemma_sweep_levels_halted(
    pass: Pass,
    grid: Seq<Seq<Slot>>,
    size: int,
    seed: u64,
    pp: SlotPosition,
    m: nat,
    n: nat,
)
    requires
        m <= n,
        sweep_levels(pass, grid, size, seed, pp, m).halt is Some,
    ensures
        sweep_levels(pass, grid, size, seed, pp, n) == sweep_levels(pass, grid, size, seed, pp, m),
    decreases n - m,
{
    if m < n {
        lemma_sweep_levels_halted(pass, grid, size, seed, pp, m, (n - 1) as nat);
    }
}

/// Runs one pass over all levels, the first level first.
pub fn sweep_world<const SIZE: usize, const H: usize>(
    pass: Pass,
    world: &mut World<SIZE, H>,
    random: &mut FastRandom,
) -> (r: Option<Unresolved>)
    ensures
        (WorldProgress { grid: final(world).grid(), seed: final(random)@, halt: r })
            == sweep_levels(
            pass,
            old(world).grid(),
            SIZE as int,
            old(random)@,
            old(world).player_position,
            H as nat,
        ),
        final(world).player_position == old(world).player_position,
        final(world).species == old(world).species,
{
    let pp = world.player_position;
    let mut l: usize = 0;
    while l < H
        invariant
            l <= H,
            world.player_position == pp,
            pp == old(world).player_position,
            world.species == old(world).species,
            (WorldProgress { grid: world.grid(), seed: random@, halt: None }) == sweep_levels(
                pass,
                old(world).grid(),
                SIZE as int,
                old(random)@,
                pp,
                l as nat,
            ),
        decreases H - l,
    {
        let ghost before = world.grid();
        let halt = sweep_level(pass, &mut world.levels[l], random, l, pp);
        assert(world.grid() =~= before.update(l as int, world.levels[l as int]@));
        if halt.is_some() {
            proof {
                lemma_sweep_levels_halted(
                    pass,
                    old(world).grid(),
                    SIZE as int,
                    old(random)@,
                    pp,
                    (l + 1) as nat,
                    H as nat,
                );
            }
            return halt;
        }
        l += 1;
    }
    None
}

/// Advances the world by one step: every creature but the player decides
/// and acts, once, then the starving lose health. Nobody ends up more than
/// one orthogonal step from where it stood. Terrain, the player's position
/// and the species table stay as they are, and so does the number of
/// occupants of every level. A tick that meets a hungry or a scared
/// creature, or one without health, stops at once and reports it.
pub fn tick<const SIZE: usize, const H: usize>(
    world: &mut World<SIZE, H>,
    random: &mut FastRandom,
) -> (r: Result<(), Unresolved>)
    ensures
        final(world).grid() == spec_tick(
            old(world).grid(),
            SIZE as int,
            old(random)@,
            old(world).player_position,
            H as nat,
        ).grid,
        final(random)@ == spec_tick(
            old(world).grid(),
            SIZE as int,
            old(random)@,
            old(world).player_position,
            H as nat,
        ).seed,
        r == (match spec_tick(
            old(world).grid(),
            SIZE as int,
            old(random)@,
            old(world).player_position,
            H as nat,
        ).halt {
            Some(u) => Err::<(), Unresolved>(u),
            None => Ok(()),
        }),
        final(world).player_position == old(world).player_position,
        final(world).species == old(world).species,
        forall|l: int|
            0 <= l < H ==> moved_by_one(
                old(world).grid()[l],
                #[trigger] final(world).grid()[l],
                SIZE as int,
            ),
        grid_preserved(old(world).grid(), final(world).grid()),
{
    if H > 0 {
        let first = &world.levels[0];
        proof {
            use_type_invariant(first);
            first.lemma_inv();
            world.lemma_grid_wf();
            lemma_tick_one_step(
                world.grid(),
                SIZE as int,
                random@,
                world.player_position,
            );
            lemma_tick_preserved(world.grid(), SIZE as int, random@, world.player_position);
        }
    }
    match sweep_world(Pass::Act, world, random) {
        Some(u) => Err(u),
        None => match sweep_world(Pass::Starve, world, random) {
            Some(u) => Err(u),
            None => Ok(()),
        },
    }
}

} // verus!
