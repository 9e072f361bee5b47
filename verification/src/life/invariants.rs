//! What every tick preserves.
//!
//! A tick never touches terrain, never creates, destroys or duplicates an
//! entity, only moves a creature onto walkable ground that nobody occupies,
//! and moves no creature by more than one orthogonal step. The statements here are proved about the mathematical
//! description of a tick, which is what `tick` is proved to compute.

use vstd::prelude::*;
use crate::life::{
    act_at, mark_if_free, move_if_free, neighbour, reconsidered, spec_tick, starve_at,
    step_toward, sweep, sweep_levels, unmarked, visit, Pass, IDLE_MOVE_CHANCE,
    PORTAL_SEARCH_DISTANCE,
};
use crate::util::fast_random::xorshift;
use crate::world::entity::creature::Interest;
use crate::world::entity::Entity;
use crate::util::torus::lemma_wrap;
use crate::world::level::{
    flat_index, lemma_flat_index, lemma_flat_index_injective, lemma_flat_index_split,
    swap_entities_at, with_entity, Slot,
};
use crate::world::search::{ring_search, Density, Target};
use crate::world::slot_position::SlotPosition;
use crate::world::grid_wf;

verus! {

/// One if the slot is occupied, zero if not.
pub open spec fn occupied(slot: Slot) -> nat {
    if slot.entity is Some {
        1
    } else {
        0
    }
}

/// Whether the occupant, if any, is a creature.
pub open spec fn is_creature(entity: Option<Entity>) -> bool {
    match entity {
        Some(Entity::Creature(_)) => true,
        _ => false,
    }
}

/// The number of occupied slots.
pub open spec fn population(slots: Seq<Slot>) -> nat
    decreases slots.len(),
{
    if slots.len() == 0 {
        0
    } else {
        population(slots.drop_last()) + occupied(slots.last())
    }
}

/// Every creature stands on ground it can walk on or water it can swim in.
pub open spec fn standing(slots: Seq<Slot>) -> bool {
    forall|i: int|
        0 <= i < slots.len() && is_creature((#[trigger] slots[i]).entity) ==> slots[i].tile.is_floor()
            || slots[i].tile.is_swimmable()
}

/// What relates the slots of a level before and after any part of a tick:
/// the terrain is the same, as many slots are occupied, and if every creature
/// stood on walkable ground before, every creature does so after.
pub open spec fn preserved(before: Seq<Slot>, after: Seq<Slot>) -> bool {
    &&& after.len() == before.len()
    &&& forall|i: int| 0 <= i < before.len() ==> (#[trigger] after[i]).tile == before[i].tile
    &&& population(after) == population(before)
    &&& standing(before) ==> standing(after)
}

/// The same, level by level.
pub open spec fn grid_preserved(before: Seq<Seq<Slot>>, after: Seq<Seq<Slot>>) -> bool {
    &&& after.len() == before.len()
    &&& forall|l: int| 0 <= l < before.len() ==> preserved(before[l], #[trigger] after[l])
}

/// Replacing one slot changes the population by the difference in occupancy.
pub proof fn lemma_population_update(slots: Seq<Slot>, i: int, slot: Slot)
    requires
        0 <= i < slots.len(),
    ensures
        population(slots.update(i, slot)) + occupied(slots[i]) == population(slots) + occupied(
            slot,
        ),
    decreases slots.len(),
{
    let updated = slots.update(i, slot);
    if i == slots.len() - 1 {
        assert(updated.drop_last() =~= slots.drop_last());
    } else {
        assert(updated.drop_last() =~= slots.drop_last().update(i, slot));
        lemma_population_update(slots.drop_last(), i, slot);
    }
}

/// Replacing the creature in a slot by another creature preserves
/// everything.
pub proof fn lemma_replace_creature_preserved(slots: Seq<Slot>, i: int, slot: Slot)
    requires
        0 <= i < slots.len(),
        is_creature(slots[i].entity),
        is_creature(slot.entity),
        slot.tile == slots[i].tile,
    ensures
        preserved(slots, slots.update(i, slot)),
{
    lemma_population_update(slots, i, slot);
    let after = slots.update(i, slot);
    if standing(slots) {
        assert forall|k: int|
            0 <= k < after.len() && is_creature((#[trigger] after[k]).entity) implies after[k].tile.is_floor()
                || after[k].tile.is_swimmable() by {}
    }
}

/// A move ends on walkable, unoccupied ground or does not happen. When it
/// happens, the mover arrives, nobody is left behind, and everything a tick
/// preserves is preserved.
pub proof fn lemma_move_if_free(slots: Seq<Slot>, from: int, to: int)
    requires
        0 <= from < slots.len(),
        0 <= to < slots.len(),
    ensures
        preserved(slots, move_if_free(slots, from, to)),
        move_if_free(slots, from, to) != slots ==> {
            &&& slots[to].tile.is_floor()
            &&& slots[to].entity is None
            &&& move_if_free(slots, from, to)[to].entity == slots[from].entity
            &&& move_if_free(slots, from, to)[from].entity is None
        },
{
    let after = move_if_free(slots, from, to);
    if slots[to].tile.is_floor() && slots[to].entity is None {
        let first = slots.update(from, with_entity(slots[from], slots[to].entity));
        lemma_population_update(slots, from, first[from]);
        lemma_population_update(first, to, after[to]);
        if standing(slots) {
            assert forall|k: int|
                0 <= k < after.len() && is_creature((#[trigger] after[k]).entity) implies after[k].tile.is_floor()
                    || after[k].tile.is_swimmable() by {}
        }
    }
}

/// Whether position `to` is the cell `(x, y)` or one orthogonal step from
/// it around the torus.
#[verifier::opaque]
pub open spec fn near(x: int, y: int, to: int, size: int) -> bool {
    ||| to == flat_index(x, y, size)
    ||| to == flat_index(x + 1, y, size)
    ||| to == flat_index(x - 1, y, size)
    ||| to == flat_index(x, y + 1, size)
    ||| to == flat_index(x, y - 1, size)
}

/// What either pass does at a cell preserves what a tick preserves.
pub proof fn lemma_visit_preserved(
    pass: Pass,
    slots: Seq<Slot>,
    acted: Seq<bool>,
    size: int,
    seed: u64,
    l: int,
    x: int,
    y: int,
    pp: SlotPosition,
)
    requires
        size > 0,
        slots.len() == size * size,
        0 <= x < size,
        0 <= y < size,
    ensures
        preserved(slots, visit(pass, slots, acted, size, seed, l, x, y, pp).slots),
{
    lemma_flat_index(x, y, size);
    let i = x * size + y;
    match slots[i].entity {
        Some(Entity::Creature(c)) => {
            match pass {
                Pass::Act => {
                    if !((pp.x == x && pp.y == y && pp.level == l) || acted[i]) {
                        let out = act_at(slots, acted, size, seed, l, x, y, pp);
                        let draw = xorshift(seed);
                        let moved = reconsidered(c, draw);
                        let slots1 = slots.update(
                            i,
                            with_entity(slots[i], Some(Entity::Creature(moved))),
                        );
                        lemma_replace_creature_preserved(slots, i, slots1[i]);
                        if out.slots != slots1 {
                            lemma_act_moves(slots, acted, size, seed, l, x, y, pp);
                            let to = choose|to: int|
                                0 <= to < slots.len() && near(x, y, to, size) && out.slots
                                    == move_if_free(slots1, i, to) && out.acted == mark_if_free(
                                    slots1,
                                    acted,
                                    to,
                                );
                            lemma_move_if_free(slots1, i, to);
                        }
                    }
                },
                Pass::Starve => {
                    let out = starve_at(slots, acted, size, seed, l, x, y);
                    if out.slots != slots {
                        lemma_replace_creature_preserved(slots, i, out.slots[i]);
                    }
                },
            }
        },
        _ => {},
    }
}

/// Whatever the first pass does at the cell of a creature that acts, beyond
/// refreshing the creature's memory, is one attempted move from that cell to
/// the cell itself or to a cell one orthogonal step away, and the cell moved
/// to is marked if the move is made.
pub proof fn lemma_act_moves(
    slots: Seq<Slot>,
    acted: Seq<bool>,
    size: int,
    seed: u64,
    l: int,
    x: int,
    y: int,
    pp: SlotPosition,
)
    requires
        size > 0,
        slots.len() == size * size,
        0 <= x < size,
        0 <= y < size,
        is_creature(slots[x * size + y].entity),
        !(pp.x == x && pp.y == y && pp.level == l),
        !acted[x * size + y],
    ensures
        ({
            let i = x * size + y;
            let c = slots[i].entity->Some_0->Creature_0;
            let moved = reconsidered(c, xorshift(seed));
            let slots1 = slots.update(
                i,
                with_entity(slots[i], Some(Entity::Creature(moved))),
            );
            let out = act_at(slots, acted, size, seed, l, x, y, pp);
            (out.slots == slots1 && out.acted == acted) || exists|to: int|
                0 <= to < slots.len() && near(x, y, to, size) && out.slots == move_if_free(
                    slots1,
                    i,
                    to,
                ) && out.acted == mark_if_free(slots1, acted, to)
        }),
{
    reveal(near);
    let i = x * size + y;
    let c = slots[i].entity->Some_0->Creature_0;
    let draw = xorshift(seed);
    let memory = c.spec_interests(draw);
    let moved = reconsidered(c, draw);
    let slots1 = slots.update(
        i,
        with_entity(slots[i], Some(Entity::Creature(moved))),
    );
    let seed1 = if c.rolls_for_curiosity() {
        draw
    } else {
        seed
    };
    match memory.current_interest {
        Interest::Curious => {
            match memory.target {
                Some(target) => {
                    let search = ring_search(
                        slots1,
                        size,
                        seed1,
                        x,
                        y,
                        1,
                        PORTAL_SEARCH_DISTANCE as int,
                        Target::Portal,
                        Density::SkipOneIn(2),
                    );
                    let goal = if target.level != l {
                        match search.0 {
                            Some(c) => c,
                            None => (target.x as int, target.y as int),
                        }
                    } else {
                        (target.x as int, target.y as int)
                    };
                    let to = step_toward(x, y, goal);
                    lemma_flat_index(to.0 % size, to.1 % size, size);
                    assert(near(x, y, flat_index(to.0, to.1, size), size));
                },
                None => {},
            }
        },
        Interest::Idle => {
            let roll = xorshift(seed1);
            if roll % IDLE_MOVE_CHANCE == 0 {
                let pick = xorshift(roll);
                let to = neighbour(x, y, (pick % 4) as int);
                lemma_flat_index(to.0 % size, to.1 % size, size);
                assert(near(x, y, flat_index(to.0, to.1, size), size));
            }
        },
        _ => {},
    }
}

/// A pass over any number of cells of a level preserves what a tick
/// preserves.
pub proof fn lemma_sweep_preserved(
    pass: Pass,
    slots: Seq<Slot>,
    size: int,
    seed: u64,
    l: int,
    pp: SlotPosition,
    n: nat,
)
    requires
        size > 0,
        slots.len() == size * size,
        n <= size * size,
    ensures
        preserved(slots, sweep(pass, slots, size, seed, l, pp, n).slots),
    decreases n,
{
    if n > 0 {
        let before = sweep(pass, slots, size, seed, l, pp, (n - 1) as nat);
        lemma_sweep_preserved(pass, slots, size, seed, l, pp, (n - 1) as nat);
        if before.halt is None {
            lemma_flat_index_split(n - 1, size);
            lemma_visit_preserved(
                pass,
                before.slots,
                before.acted,
                size,
                before.seed,
                l,
                (n - 1) / size,
                (n - 1) % size,
                pp,
            );
        }
    }
}

/// A pass over any number of levels preserves what a tick preserves.
pub proof fn lemma_sweep_levels_preserved(
    pass: Pass,
    grid: Seq<Seq<Slot>>,
    size: int,
    seed: u64,
    pp: SlotPosition,
    levels: nat,
)
    requires
        grid_wf(grid, size),
        levels <= grid.len(),
    ensures
        grid_preserved(grid, sweep_levels(pass, grid, size, seed, pp, levels).grid),
    decreases levels,
{
    assert forall|l: int| 0 <= l < grid.len() implies preserved(grid[l], #[trigger] grid[l]) by {}
    if levels > 0 {
        let before = sweep_levels(pass, grid, size, seed, pp, (levels - 1) as nat);
        lemma_sweep_levels_preserved(pass, grid, size, seed, pp, (levels - 1) as nat);
        if before.halt is None {
            let l = levels - 1;
            let after = sweep_levels(pass, grid, size, seed, pp, levels).grid;
            lemma_sweep_preserved(pass, before.grid[l], size, before.seed, l, pp, (size * size) as nat);
            assert forall|k: int| 0 <= k < grid.len() implies preserved(grid[k], #[trigger] after[k]) by {}
        }
    }
}

/// Whatever a tick does and wherever it stops, on every level the terrain
/// is what it was, exactly as many slots are occupied as before, and if every
/// creature stood on walkable ground or in water before, every creature
/// still does.
pub proof fn lemma_tick_preserved(
    grid: Seq<Seq<Slot>>,
    size: int,
    seed: u64,
    pp: SlotPosition,
)
    requires
        grid_wf(grid, size),
    ensures
        grid_preserved(grid, spec_tick(grid, size, seed, pp, grid.len()).grid),
        grid_wf(spec_tick(grid, size, seed, pp, grid.len()).grid, size),
{
    let acted = sweep_levels(Pass::Act, grid, size, seed, pp, grid.len());
    lemma_sweep_levels_preserved(Pass::Act, grid, size, seed, pp, grid.len());
    assert(grid_wf(acted.grid, size)) by {
        assert forall|l: int| 0 <= l < acted.grid.len() implies (#[trigger] acted.grid[l]).len()
            == size * size by {}
    }
    if acted.halt is None {
        let starved = sweep_levels(Pass::Starve, acted.grid, size, acted.seed, pp, grid.len());
        lemma_sweep_levels_preserved(Pass::Starve, acted.grid, size, acted.seed, pp, grid.len());
        assert forall|l: int| 0 <= l < grid.len() implies preserved(
            grid[l],
            #[trigger] starved.grid[l],
        ) by {}
        assert forall|l: int| 0 <= l < starved.grid.len() implies (#[trigger] starved.grid[l]).len()
            == size * size by {}
    }
}

/// What either pass does at a cell never empties position `at`, provided
/// that the first pass, when it visits `at`, finds the player there.
pub proof fn lemma_visit_keeps_occupant(
    pass: Pass,
    slots: Seq<Slot>,
    acted: Seq<bool>,
    size: int,
    seed: u64,
    l: int,
    x: int,
    y: int,
    pp: SlotPosition,
    at: int,
)
    requires
        size > 0,
        slots.len() == size * size,
        0 <= x < size,
        0 <= y < size,
        0 <= at < slots.len(),
        slots[at].entity is Some,
        x * size + y == at ==> pp.x == x && pp.y == y && pp.level == l,
    ensures
        visit(pass, slots, acted, size, seed, l, x, y, pp).slots[at].entity is Some,
{
    lemma_flat_index(x, y, size);
    let i = x * size + y;
    match slots[i].entity {
        Some(Entity::Creature(c)) => {
            match pass {
                Pass::Act => {
                    if !((pp.x == x && pp.y == y && pp.level == l) || acted[i]) {
                        lemma_act_moves(slots, acted, size, seed, l, x, y, pp);
                    }
                },
                Pass::Starve => {},
            }
        },
        _ => {},
    }
}

/// A pass over any number of cells of the player's level never empties the
/// player's slot.
pub proof fn lemma_sweep_keeps_player(
    pass: Pass,
    slots: Seq<Slot>,
    size: int,
    seed: u64,
    pp: SlotPosition,
    n: nat,
)
    requires
        size > 0,
        slots.len() == size * size,
        n <= size * size,
        pp.x < size,
        pp.y < size,
        slots[pp.x * size + pp.y].entity is Some,
    ensures
        sweep(pass, slots, size, seed, pp.level as int, pp, n).slots.len() == size * size,
        sweep(pass, slots, size, seed, pp.level as int, pp, n).slots[pp.x * size
            + pp.y].entity is Some,
    decreases n,
{
    lemma_flat_index(pp.x as int, pp.y as int, size);
    if n > 0 {
        let l = pp.level as int;
        let before = sweep(pass, slots, size, seed, l, pp, (n - 1) as nat);
        lemma_sweep_keeps_player(pass, slots, size, seed, pp, (n - 1) as nat);
        if before.halt is None {
            let x = (n - 1) / size;
            let y = (n - 1) % size;
            lemma_flat_index_split(n - 1, size);
            if x * size + y == pp.x * size + pp.y {
                lemma_flat_index_injective(x, y, pp.x as int, pp.y as int, size);
            }
            lemma_visit_keeps_occupant(
                pass,
                before.slots,
                before.acted,
                size,
                before.seed,
                l,
                x,
                y,
                pp,
                pp.x * size + pp.y,
            );
            lemma_visit_preserved(pass, before.slots, before.acted, size, before.seed, l, x, y, pp);
        }
    }
}

/// A pass over any number of levels never empties the player's slot.
pub proof fn lemma_sweep_levels_keeps_player(
    pass: Pass,
    grid: Seq<Seq<Slot>>,
    size: int,
    seed: u64,
    pp: SlotPosition,
    levels: nat,
)
    requires
        grid_wf(grid, size),
        levels <= grid.len(),
        pp.level < grid.len(),
        pp.x < size,
        pp.y < size,
        grid[pp.level as int][pp.x * size + pp.y].entity is Some,
    ensures
        sweep_levels(pass, grid, size, seed, pp, levels).grid.len() == grid.len(),
        sweep_levels(pass, grid, size, seed, pp, levels).grid[pp.level as int][pp.x * size
            + pp.y].entity is Some,
    decreases levels,
{
    if levels > 0 {
        let before = sweep_levels(pass, grid, size, seed, pp, (levels - 1) as nat);
        lemma_sweep_levels_keeps_player(pass, grid, size, seed, pp, (levels - 1) as nat);
        lemma_sweep_levels_preserved(pass, grid, size, seed, pp, (levels - 1) as nat);
        if before.halt is None {
            let l = levels - 1;
            if l == pp.level {
                lemma_sweep_keeps_player(pass, before.grid[l], size, before.seed, pp, (size * size) as nat);
            }
        }
    }
}

/// After a tick, wherever it stopped, somebody still stands where the
/// player stood.
pub proof fn lemma_tick_keeps_player(grid: Seq<Seq<Slot>>, size: int, seed: u64, pp: SlotPosition)
    requires
        grid_wf(grid, size),
        pp.level < grid.len(),
        pp.x < size,
        pp.y < size,
        grid[pp.level as int][pp.x * size + pp.y].entity is Some,
    ensures
        spec_tick(grid, size, seed, pp, grid.len()).grid.len() == grid.len(),
        spec_tick(grid, size, seed, pp, grid.len()).grid[pp.level as int][pp.x * size
            + pp.y].entity is Some,
{
    let acted = sweep_levels(Pass::Act, grid, size, seed, pp, grid.len());
    lemma_sweep_levels_keeps_player(Pass::Act, grid, size, seed, pp, grid.len());
    lemma_sweep_levels_preserved(Pass::Act, grid, size, seed, pp, grid.len());
    if acted.halt is None {
        assert(grid_wf(acted.grid, size)) by {
            assert forall|l: int| 0 <= l < acted.grid.len() implies (#[trigger] acted.grid[l]).len()
                == size * size by {}
        }
        lemma_sweep_levels_keeps_player(Pass::Starve, acted.grid, size, acted.seed, pp, grid.len());
    }
}

/// Whether `after` is the occupant `before` some part of a tick later: the
/// same object, or the same creature, of which nothing but its interests and
/// its health can have changed, and its health only for the worse.
pub open spec fn same_being(before: Option<Entity>, after: Option<Entity>) -> bool {
    match (before, after) {
        (Some(Entity::Creature(c)), Some(Entity::Creature(d))) => {
            &&& d.species == c.species
            &&& d.behavior == c.behavior
            &&& d.memory.target == c.memory.target
            &&& d.body.max_health == c.body.max_health
            &&& d.body.max_nutrition == c.body.max_nutrition
            &&& d.body.nutrition == c.body.nutrition
            &&& d.body.karma == c.body.karma
            &&& d.body.smelliness == c.body.smelliness
            &&& d.body.strength == c.body.strength
            &&& d.body.health <= c.body.health
        },
        (Some(Entity::Object(o)), Some(Entity::Object(p))) => o == p,
        _ => false,
    }
}

/// What relates the slots of a level before and after a tick, `origin`
/// telling for every position where its occupant stood before: every
/// occupant is the being that stood at its origin, the origin is the
/// position itself or one orthogonal step away around the torus, and no two
/// occupants have the same origin.
pub open spec fn stepped_once(before: Seq<Slot>, after: Seq<Slot>, origin: Seq<int>, size: int) -> bool {
    &&& after.len() == before.len()
    &&& origin.len() == before.len()
    &&& forall|j: int|
        0 <= j < after.len() && after[j].entity is Some ==> {
            &&& 0 <= (#[trigger] origin[j]) < before.len()
            &&& near(origin[j] / size, origin[j] % size, j, size)
            &&& same_being(before[origin[j]].entity, after[j].entity)
        }
    &&& forall|j: int, k: int|
        0 <= j < k < after.len() && after[j].entity is Some && after[k].entity is Some ==> (
        #[trigger] origin[j]) != (#[trigger] origin[k])
}

/// The same during the first pass, with what the marks add: whoever is not
/// marked stands where it stood, and wherever somebody has left, nobody
/// stands who could still act.
pub open spec fn traced(
    before: Seq<Slot>,
    after: Seq<Slot>,
    acted: Seq<bool>,
    origin: Seq<int>,
    size: int,
) -> bool {
    &&& stepped_once(before, after, origin, size)
    &&& acted.len() == before.len()
    &&& forall|j: int|
        0 <= j < after.len() && after[j].entity is Some ==> {
            &&& !acted[j] ==> (#[trigger] origin[j]) == j
            &&& origin[j] != j ==> after[origin[j]].entity is None || acted[origin[j]]
        }
}

/// Nobody has moved: every occupant is the being that stood there before.
pub open spec fn still(before: Seq<Slot>, after: Seq<Slot>) -> bool {
    &&& after.len() == before.len()
    &&& forall|j: int|
        0 <= j < after.len() && (#[trigger] after[j]).entity is Some ==> same_being(
            before[j].entity,
            after[j].entity,
        )
}

/// Every position is near itself.
pub proof fn lemma_near_itself(j: int, size: int)
    requires
        size > 0,
        0 <= j < size * size,
    ensures
        near(j / size, j % size, j, size),
{
    reveal(near);
    lemma_flat_index_split(j, size);
    lemma_wrap(j / size, size);
    lemma_wrap(j % size, size);
}

/// Before anything has happened, everybody stands where it stood.
pub proof fn lemma_traced_start(slots: Seq<Slot>, size: int)
    requires
        size > 0,
        slots.len() == size * size,
    ensures
        traced(slots, slots, unmarked(slots), Seq::new(slots.len(), |j: int| j), size),
{
    let origin = Seq::new(slots.len(), |j: int| j);
    assert forall|j: int| 0 <= j < slots.len() && slots[j].entity is Some implies {
        &&& 0 <= (#[trigger] origin[j]) < slots.len()
        &&& near(origin[j] / size, origin[j] % size, j, size)
        &&& same_being(slots[origin[j]].entity, slots[j].entity)
    } by {
        lemma_near_itself(j, size);
    }
}

/// Replacing an occupant by the same being a moment later keeps the trace.
pub proof fn lemma_traced_refresh(
    before: Seq<Slot>,
    slots: Seq<Slot>,
    acted: Seq<bool>,
    origin: Seq<int>,
    size: int,
    i: int,
    slot: Slot,
)
    requires
        traced(before, slots, acted, origin, size),
        0 <= i < slots.len(),
        same_being(slots[i].entity, slot.entity),
    ensures
        traced(before, slots.update(i, slot), acted, origin, size),
{
    let after = slots.update(i, slot);
    assert forall|j: int| 0 <= j < after.len() && after[j].entity is Some implies {
        &&& 0 <= (#[trigger] origin[j]) < before.len()
        &&& near(origin[j] / size, origin[j] % size, j, size)
        &&& same_being(before[origin[j]].entity, after[j].entity)
        &&& !acted[j] ==> origin[j] == j
        &&& origin[j] != j ==> after[origin[j]].entity is None || acted[origin[j]]
    } by {
        assert(slots[j].entity is Some);
    }
    assert forall|j: int, k: int|
        0 <= j < k < after.len() && after[j].entity is Some && after[k].entity is Some implies (
    #[trigger] origin[j]) != (#[trigger] origin[k]) by {
        assert(slots[j].entity is Some && slots[k].entity is Some);
    }
}

/// A step by somebody who has not acted, onto a free position one step
/// away, keeps the trace: the mover's origin is where it stood, and it is
/// marked where it stands now.
pub proof fn lemma_traced_move(
    before: Seq<Slot>,
    slots: Seq<Slot>,
    acted: Seq<bool>,
    origin: Seq<int>,
    size: int,
    i: int,
    to: int,
)
    requires
        size > 0,
        traced(before, slots, acted, origin, size),
        0 <= i < slots.len(),
        0 <= to < slots.len(),
        slots[i].entity is Some,
        !acted[i],
        slots[to].entity is None,
        near(i / size, i % size, to, size),
    ensures
        traced(
            before,
            swap_entities_at(slots, i, to),
            acted.update(to, true),
            origin.update(to, i),
            size,
        ),
{
    let after = swap_entities_at(slots, i, to);
    let marks = acted.update(to, true);
    let from = origin.update(to, i);
    assert(origin[i] == i);
    assert forall|j: int| 0 <= j < after.len() && after[j].entity is Some implies {
        &&& 0 <= (#[trigger] from[j]) < before.len()
        &&& near(from[j] / size, from[j] % size, j, size)
        &&& same_being(before[from[j]].entity, after[j].entity)
        &&& !marks[j] ==> from[j] == j
        &&& from[j] != j ==> after[from[j]].entity is None || marks[from[j]]
    } by {
        if j != to {
            assert(j != i);
            assert(after[j] == slots[j]);
            assert(slots[j].entity is Some);
            if origin[j] == i {
            }
        }
    }
    assert forall|j: int, k: int|
        0 <= j < k < after.len() && after[j].entity is Some && after[k].entity is Some implies (
    #[trigger] from[j]) != (#[trigger] from[k]) by {
        if j != to && k != to {
            assert(after[j] == slots[j] && after[k] == slots[k]);
            assert(slots[j].entity is Some && slots[k].entity is Some);
        } else if j == to {
            assert(after[k] == slots[k] || k == i);
            assert(slots[k].entity is Some);
        } else {
            assert(after[j] == slots[j] || j == i);
            assert(slots[j].entity is Some);
        }
    }
}

/// During the first pass every occupant of a level is traced to where it
/// stood when the pass began: in place if it has not stepped, one orthogonal
/// step away if it has.
pub proof fn lemma_sweep_traced(
    slots: Seq<Slot>,
    size: int,
    seed: u64,
    l: int,
    pp: SlotPosition,
    n: nat,
) -> (origin: Seq<int>)
    requires
        size > 0,
        slots.len() == size * size,
        n <= size * size,
    ensures
        traced(
            slots,
            sweep(Pass::Act, slots, size, seed, l, pp, n).slots,
            sweep(Pass::Act, slots, size, seed, l, pp, n).acted,
            origin,
            size,
        ),
    decreases n,
{
    if n == 0 {
        lemma_traced_start(slots, size);
        Seq::new(slots.len(), |j: int| j)
    } else {
        let origin = lemma_sweep_traced(slots, size, seed, l, pp, (n - 1) as nat);
        let before = sweep(Pass::Act, slots, size, seed, l, pp, (n - 1) as nat);
        let i = n - 1;
        let x = i / size;
        let y = i % size;
        lemma_flat_index_split(i, size);
        if before.halt is Some {
            origin
        } else if is_creature(before.slots[i].entity) && !((pp.x == x && pp.y == y && pp.level == l)
            || before.acted[i]) {
            let c = before.slots[i].entity->Some_0->Creature_0;
            let out = act_at(before.slots, before.acted, size, before.seed, l, x, y, pp);
            let refreshed = with_entity(
                before.slots[i],
                Some(Entity::Creature(reconsidered(c, xorshift(before.seed)))),
            );
            let slots1 = before.slots.update(i, refreshed);
            lemma_traced_refresh(slots, before.slots, before.acted, origin, size, i, refreshed);
            lemma_act_moves(before.slots, before.acted, size, before.seed, l, x, y, pp);
            if out.slots == slots1 && out.acted == before.acted {
                origin
            } else {
                let to = choose|to: int|
                    0 <= to < before.slots.len() && near(x, y, to, size) && out.slots
                        == move_if_free(slots1, i, to) && out.acted == mark_if_free(
                        slots1,
                        before.acted,
                        to,
                    );
                if slots1[to].tile.is_floor() && slots1[to].entity is None {
                    lemma_traced_move(slots, slots1, before.acted, origin, size, i, to);
                    origin.update(to, i)
                } else {
                    origin
                }
            }
        } else {
            origin
        }
    }
}

/// The second pass moves nobody.
pub proof fn lemma_sweep_still(
    slots: Seq<Slot>,
    size: int,
    seed: u64,
    l: int,
    pp: SlotPosition,
    n: nat,
)
    requires
        size > 0,
        slots.len() == size * size,
        n <= size * size,
    ensures
        still(slots, sweep(Pass::Starve, slots, size, seed, l, pp, n).slots),
    decreases n,
{
    if n > 0 {
        lemma_sweep_still(slots, size, seed, l, pp, (n - 1) as nat);
        lemma_flat_index_split(n - 1, size);
        let before = sweep(Pass::Starve, slots, size, seed, l, pp, (n - 1) as nat);
        let after = sweep(Pass::Starve, slots, size, seed, l, pp, n).slots;
        assert forall|j: int| 0 <= j < after.len() && (#[trigger] after[j]).entity is Some implies same_being(
            slots[j].entity,
            after[j].entity,
        ) by {
            assert(before.slots[j].entity is Some);
        }
    }
}

/// Standing still after a step is a step.
pub proof fn lemma_stepped_then_still(
    a: Seq<Slot>,
    b: Seq<Slot>,
    c: Seq<Slot>,
    origin: Seq<int>,
    size: int,
)
    requires
        stepped_once(a, b, origin, size),
        still(b, c),
    ensures
        stepped_once(a, c, origin, size),
{
    assert forall|j: int| 0 <= j < c.len() && c[j].entity is Some implies {
        &&& 0 <= (#[trigger] origin[j]) < a.len()
        &&& near(origin[j] / size, origin[j] % size, j, size)
        &&& same_being(a[origin[j]].entity, c[j].entity)
    } by {
        assert(b[j].entity is Some);
    }
    assert forall|j: int, k: int|
        0 <= j < k < c.len() && c[j].entity is Some && c[k].entity is Some implies (
    #[trigger] origin[j]) != (#[trigger] origin[k]) by {
        assert(b[j].entity is Some && b[k].entity is Some);
    }
}

/// Whether a pass over level `l` can have made `after` of `before`: the
/// level was not reached, or it was swept with some state of the generator.
pub open spec fn swept(
    pass: Pass,
    before: Seq<Slot>,
    after: Seq<Slot>,
    size: int,
    l: int,
    pp: SlotPosition,
) -> bool {
    after == before || exists|seed: u64|
        after == (#[trigger] sweep(pass, before, size, seed, l, pp, (size * size) as nat)).slots
}

/// A pass over some levels has swept each of them on its own or has not
/// reached it.
pub proof fn lemma_sweep_levels_swept(
    pass: Pass,
    grid: Seq<Seq<Slot>>,
    size: int,
    seed: u64,
    pp: SlotPosition,
    levels: nat,
)
    requires
        levels <= grid.len(),
    ensures
        sweep_levels(pass, grid, size, seed, pp, levels).grid.len() == grid.len(),
        forall|l: int|
            0 <= l < grid.len() ==> swept(
                pass,
                grid[l],
                #[trigger] sweep_levels(pass, grid, size, seed, pp, levels).grid[l],
                size,
                l,
                pp,
            ),
        forall|l: int|
            levels <= l < grid.len() ==> (#[trigger] sweep_levels(
                pass,
                grid,
                size,
                seed,
                pp,
                levels,
            ).grid[l]) == grid[l],
    decreases levels,
{
    if levels > 0 {
        lemma_sweep_levels_swept(pass, grid, size, seed, pp, (levels - 1) as nat);
        let before = sweep_levels(pass, grid, size, seed, pp, (levels - 1) as nat);
        let out = sweep_levels(pass, grid, size, seed, pp, levels);
        if before.halt is None {
            let at = levels - 1;
            assert(before.grid[at] == grid[at]);
            let done = sweep(pass, grid[at], size, before.seed, at, pp, (size * size) as nat);
            assert forall|l: int| 0 <= l < grid.len() implies swept(
                pass,
                grid[l],
                #[trigger] out.grid[l],
                size,
                l,
                pp,
            ) by {
                if l == at {
                    assert(out.grid[l] == done.slots);
                } else {
                    assert(out.grid[l] == before.grid[l]);
                }
            }
        }
    }
}

/// Whether every occupant of `after` is a being of `before` that stands
/// where it stood or one orthogonal step from there, no two of them the same.
pub open spec fn moved_by_one(before: Seq<Slot>, after: Seq<Slot>, size: int) -> bool {
    exists|origin: Seq<int>| #[trigger] stepped_once(before, after, origin, size)
}

/// In one tick nobody acts twice: on every level, whoever stands somewhere
/// after the tick, wherever the tick stopped, is a being that stood there or
/// one orthogonal step away before it, and no two are the same being.
pub proof fn lemma_tick_one_step(grid: Seq<Seq<Slot>>, size: int, seed: u64, pp: SlotPosition)
    requires
        grid_wf(grid, size),
    ensures
        spec_tick(grid, size, seed, pp, grid.len()).grid.len() == grid.len(),
        forall|l: int|
            0 <= l < grid.len() ==> moved_by_one(
                grid[l],
                #[trigger] spec_tick(grid, size, seed, pp, grid.len()).grid[l],
                size,
            ),
{
    let acted = sweep_levels(Pass::Act, grid, size, seed, pp, grid.len());
    let out = spec_tick(grid, size, seed, pp, grid.len());
    lemma_sweep_levels_swept(Pass::Act, grid, size, seed, pp, grid.len());
    lemma_sweep_levels_preserved(Pass::Act, grid, size, seed, pp, grid.len());
    lemma_sweep_levels_swept(Pass::Starve, acted.grid, size, acted.seed, pp, grid.len());
    assert forall|l: int| 0 <= l < grid.len() implies moved_by_one(
        grid[l],
        #[trigger] out.grid[l],
        size,
    ) by {
        let a = grid[l];
        let b = acted.grid[l];
        assert(preserved(a, b));
        assert(swept(Pass::Act, a, b, size, l, pp));
        let origin = if b == a {
            lemma_traced_start(a, size);
            Seq::new(a.len(), |j: int| j)
        } else {
            let s = choose|s: u64|
                b == (#[trigger] sweep(Pass::Act, a, size, s, l, pp, (size * size) as nat)).slots;
            lemma_sweep_traced(a, size, s, l, pp, (size * size) as nat)
        };
        assert(stepped_once(a, b, origin, size));
        if acted.halt is Some {
            assert(out.grid[l] == b);
        } else {
            let c = out.grid[l];
            assert(swept(Pass::Starve, b, c, size, l, pp));
            if c != b {
                let s = choose|s: u64|
                    c == (#[trigger] sweep(Pass::Starve, b, size, s, l, pp, (size * size) as nat)).slots;
                lemma_sweep_still(b, size, s, l, pp, (size * size) as nat);
            }
            lemma_stepped_then_still(a, b, c, origin, size);
            assert(stepped_once(a, c, origin, size));
        }
    }
}

} // verus!
