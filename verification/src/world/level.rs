//! One square, toroidal layer of the world.

use vstd::prelude::*;
use crate::util::fast_random::{xorshift, FastRandom};
use crate::util::torus::{lemma_wrap, wrap, wrap_index};
use crate::world::entity::Entity;
use crate::world::tile::Tile;

verus! {

/// One grid cell: its terrain and, at most, one occupant.
#[derive(Debug, Copy, Clone, PartialEq, Eq)]
pub struct Slot {
    pub tile: Tile,
    pub entity: Option<Entity>,
}

/// A `SIZE` by `SIZE` grid of slots whose columns and rows wrap around.
/// Column `x`, row `y` lives at position `x * SIZE + y` of the flat view.
#[derive(Debug)]
pub struct Level<const SIZE: usize> {
    slots: Vec<Slot>,
}

/// A column and a row below `n` address a position below `n * n`.
pub proof fn lemma_flat_index(x: int, y: int, n: int)
    by (nonlinear_arith)
    requires
        0 <= x < n,
        0 <= y < n,
    ensures
        0 <= x * n + y < n * n,
        0 <= x * n <= n * n - n,
{}

/// A position below `n * n` splits into a column and a row below `n`.
pub proof fn lemma_flat_index_split(i: int, n: int)
    by (nonlinear_arith)
    requires
        0 < n,
        0 <= i < n * n,
    ensures
        0 <= i / n < n,
        0 <= i % n < n,
        (i / n) * n + i % n == i,
{}

/// Different cells have different positions.
pub proof fn lemma_flat_index_injective(x0: int, y0: int, x1: int, y1: int, n: int)
    by (nonlinear_arith)
    requires
        0 <= x0 < n,
        0 <= y0 < n,
        0 <= x1 < n,
        0 <= y1 < n,
        x0 * n + y0 == x1 * n + y1,
    ensures
        x0 == x1,
        y0 == y1,
{}

/// A level's side fits in thirty-two bits.
pub proof fn lemma_side_bound(size: int)
    by (nonlinear_arith)
    requires
        0 <= size,
        size * size <= usize::MAX,
    ensures
        size <= 0xffff_ffff,
{}

/// The slot with the tile of `slot` and the given occupant.
pub open spec fn with_entity(slot: Slot, entity: Option<Entity>) -> Slot {
    Slot { tile: slot.tile, entity }
}

/// The slot with the occupant of `slot` and the given tile.
pub open spec fn with_tile(slot: Slot, tile: Tile) -> Slot {
    Slot { tile, entity: slot.entity }
}

/// The position in a flat view of side `size` of the cell that the unbounded
/// coordinates `(x, y)` denote.
pub open spec fn flat_index(x: int, y: int, size: int) -> int {
    wrap(x, size) * size + wrap(y, size)
}

/// The view after the occupants of two positions have traded places.
pub open spec fn swap_entities_at(slots: Seq<Slot>, i: int, j: int) -> Seq<Slot> {
    slots.update(i, with_entity(slots[i], slots[j].entity)).update(
        j,
        with_entity(slots[j], slots[i].entity),
    )
}

/// No slot holds a portal.
pub open spec fn no_portals(slots: Seq<Slot>) -> bool {
    forall|i: int| 0 <= i < slots.len() ==> !(#[trigger] slots[i]).tile.is_portal()
}

/// No slot holds anybody or anything.
pub open spec fn deserted(slots: Seq<Slot>) -> bool {
    forall|i: int| 0 <= i < slots.len() ==> (#[trigger] slots[i]).entity is None
}

/// What a random search for a cell is looking for.
#[derive(Debug, Copy, Clone, PartialEq, Eq, Structural)]
pub enum CellFilter {
    /// Walkable ground with nobody on it.
    FreeFloor,
    /// Void with nobody in it.
    FreeVoid,
}

impl CellFilter {
    /// Whether the slot is one the search is looking for.
    pub open spec fn spec_accepts(&self, slot: Slot) -> bool {
        match *self {
            CellFilter::FreeFloor => slot.tile.is_floor() && slot.entity is None,
            CellFilter::FreeVoid => slot.tile == Tile::Void && slot.entity is None,
        }
    }

    /// Whether the slot is one the search is looking for.
    #[verifier::when_used_as_spec(spec_accepts)]
    pub fn accepts(&self, slot: Slot) -> (r: bool)
        ensures
            r == self.spec_accepts(slot),
    {
        match self {
            CellFilter::FreeFloor => slot.tile.is_floor() && slot.entity.is_none(),
            CellFilter::FreeVoid => matches!(slot.tile, Tile::Void) && slot.entity.is_none(),
        }
    }
}

/// The outcome of rejection sampling for a cell that `filter` accepts: up to
/// `attempts` times a column and then a row are drawn, and the first cell
/// accepted is kept. Returns the cell found, if any, and the generator's
/// state afterwards.
pub open spec fn sample_cell(
    slots: Seq<Slot>,
    size: int,
    seed: u64,
    attempts: nat,
    filter: CellFilter,
) -> (Option<(int, int)>, u64)
    decreases attempts,
{
    if attempts == 0 {
        (None, seed)
    } else {
        let sx = xorshift(seed);
        let sy = xorshift(sx);
        let x = sx as int % size;
        let y = sy as int % size;
        if filter.accepts(slots[x * size + y]) {
            (Some((x, y)), sy)
        } else {
            sample_cell(slots, size, sy, (attempts - 1) as nat, filter)
        }
    }
}

/// Whatever `sample_cell` finds lies on the grid and is accepted.
pub proof fn lemma_sample_cell_accepted(
    slots: Seq<Slot>,
    size: int,
    seed: u64,
    attempts: nat,
    filter: CellFilter,
)
    requires
        size > 0,
    ensures
        sample_cell(slots, size, seed, attempts, filter).0 matches Some((x, y)) ==> 0 <= x < size
            && 0 <= y < size && filter.accepts(slots[x * size + y]),
    decreases attempts,
{
    if attempts > 0 {
        lemma_sample_cell_accepted(
            slots,
            size,
            xorshift(xorshift(seed)),
            (attempts - 1) as nat,
            filter,
        );
    }
}

/// An executable cell as the pair of unbounded coordinates it denotes.
pub open spec fn cell_view(cell: Option<(usize, usize)>) -> Option<(int, int)> {
    match cell {
        Some(c) => Some((c.0 as int, c.1 as int)),
        None => None,
    }
}

impl<const SIZE: usize> View for Level<SIZE> {
    type V = Seq<Slot>;

    /// The slots in raster order, column by column. The view of a level
    /// always has one slot for each cell.
    closed spec fn view(&self) -> Seq<Slot> {
        if self.slots@.len() == SIZE * SIZE {
            self.slots@
        } else {
            Seq::new((SIZE * SIZE) as nat, |i: int| Slot { tile: Tile::Void, entity: None })
        }
    }
}

impl<const SIZE: usize> Level<SIZE> {
    /// What holds of every level that exists at run time: it is not empty
    /// and holds one slot for each cell.
    #[verifier::type_invariant]
    pub closed spec fn inv(&self) -> bool {
        &&& SIZE > 0
        &&& SIZE * SIZE <= usize::MAX
        &&& self.slots@.len() == SIZE * SIZE
    }

    /// The same, stated over the view.
    pub open spec fn wf(&self) -> bool {
        &&& SIZE > 0
        &&& SIZE * SIZE <= usize::MAX
        &&& self@.len() == SIZE * SIZE
    }

    /// The invariant of a level is its well-formedness.
    pub proof fn lemma_inv(&self)
        requires
            self.inv(),
        ensures
            self.wf(),
    {}

    /// The view of a level has one slot for each cell, whatever the level.
    pub proof fn lemma_view_len(&self)
        ensures
            self@.len() == SIZE * SIZE,
    {}

    /// The slot at column `x`, row `y`, both taken modulo `SIZE`.
    pub open spec fn spec_slot(&self, x: int, y: int) -> Slot {
        self@[flat_index(x, y, SIZE as int)]
    }

    /// A level whose every slot holds `tile` and nobody.
    pub fn filled(tile: Tile) -> (r: Self)
        requires
            SIZE > 0,
            SIZE * SIZE <= usize::MAX,
        ensures
            r.wf(),
            forall|i: int| 0 <= i < SIZE * SIZE ==> r@[i] == (Slot { tile, entity: None }),
    {
        let n: usize = SIZE * SIZE;
        let mut slots: Vec<Slot> = Vec::new();
        let mut i: usize = 0;
        while i < n
            invariant
                i <= n,
                n == SIZE * SIZE,
                slots@.len() == i,
                forall|k: int| 0 <= k < i ==> slots@[k] == (Slot { tile, entity: None }),
            decreases n - i,
        {
            slots.push(Slot { tile, entity: None });
            i += 1;
        }
        Level { slots }
    }

    /// The number of columns, which is also the number of rows.
    pub fn size(&self) -> (r: usize)
        ensures
            r == SIZE,
            r > 0,
    {
        proof {
            use_type_invariant(self);
        }
        SIZE
    }

    /// The position of cell `(x, y)` in the flat view, after wrapping.
    pub fn index_of(&self, x: usize, y: usize) -> (r: usize)
        ensures
            r == flat_index(x as int, y as int, SIZE as int),
            r < SIZE * SIZE,
            self.wf(),
    {
        proof {
            use_type_invariant(self);
            lemma_flat_index(wrap(x as int, SIZE as int), wrap(y as int, SIZE as int), SIZE as int);
        }
        wrap_index(x, SIZE) * SIZE + wrap_index(y, SIZE)
    }

    /// The slot at column `x`, row `y`; coordinates wrap around.
    pub fn slot(&self, x: usize, y: usize) -> (r: Slot)
        ensures
            r == self.spec_slot(x as int, y as int),
    {
        proof {
            use_type_invariant(self);
        }
        let i: usize = self.index_of(x, y);
        self.slots[i]
    }

    /// The terrain at column `x`, row `y`; coordinates wrap around.
    pub fn tile(&self, x: usize, y: usize) -> (r: Tile)
        ensures
            r == self.spec_slot(x as int, y as int).tile,
    {
        proof {
            use_type_invariant(self);
        }
        let i: usize = self.index_of(x, y);
        self.slots[i].tile
    }

    /// The occupant at column `x`, row `y`; coordinates wrap around.
    pub fn entity(&self, x: usize, y: usize) -> (r: Option<Entity>)
        ensures
            r == self.spec_slot(x as int, y as int).entity,
    {
        proof {
            use_type_invariant(self);
        }
        let i: usize = self.index_of(x, y);
        self.slots[i].entity
    }

    /// Replaces the terrain of one cell and nothing else.
    pub fn set_tile(&mut self, x: usize, y: usize, tile: Tile)
        ensures
            final(self)@ == old(self)@.update(
                flat_index(x as int, y as int, SIZE as int),
                with_tile(old(self).spec_slot(x as int, y as int), tile),
            ),
            final(self).wf(),
    {
        proof {
            use_type_invariant(&*self);
        }
        let i: usize = self.index_of(x, y);
        let slot = self.slots[i];
        self.slots[i] = Slot { tile, entity: slot.entity };
    }

    /// Replaces the occupant of one cell and nothing else.
    pub fn set_entity(&mut self, x: usize, y: usize, entity: Option<Entity>)
        ensures
            final(self)@ == old(self)@.update(
                flat_index(x as int, y as int, SIZE as int),
                with_entity(old(self).spec_slot(x as int, y as int), entity),
            ),
            final(self).wf(),
    {
        proof {
            use_type_invariant(&*self);
        }
        let i: usize = self.index_of(x, y);
        let slot = self.slots[i];
        self.slots[i] = Slot { tile: slot.tile, entity };
    }

    /// Trades the occupants of two cells; the terrain stays. This is how
    /// every move is made: an entity is never copied.
    pub fn swap_entities(&mut self, from: (usize, usize), to: (usize, usize))
        ensures
            final(self)@ == swap_entities_at(
                old(self)@,
                flat_index(from.0 as int, from.1 as int, SIZE as int),
                flat_index(to.0 as int, to.1 as int, SIZE as int),
            ),
            final(self).wf(),
    {
        proof {
            use_type_invariant(&*self);
        }
        let i: usize = self.index_of(from.0, from.1);
        let j: usize = self.index_of(to.0, to.1);
        let from_old = self.slots[i];
        let from_new = self.slots[j];
        self.slots[i] = Slot { tile: from_old.tile, entity: from_new.entity };
        let kept = self.slots[j];
        self.slots[j] = Slot { tile: kept.tile, entity: from_old.entity };
    }

    /// Looks for a cell that `filter` accepts by drawing random cells, a
    /// column and then a row each time, until one is accepted or `attempts`
    /// cells have been rejected.
    pub fn sample(&self, random: &mut FastRandom, attempts: usize, filter: CellFilter) -> (r:
        Option<(usize, usize)>)
        ensures
            (cell_view(r), final(random)@) == sample_cell(
                self@,
                SIZE as int,
                old(random)@,
                attempts as nat,
                filter,
            ),
            r matches Some(c) ==> c.0 < SIZE && c.1 < SIZE && filter.accepts(
                self.spec_slot(c.0 as int, c.1 as int),
            ),
    {
        proof {
            use_type_invariant(self);
        }
        let mut left: usize = attempts;
        while left > 0
            invariant
                self.wf(),
                sample_cell(self@, SIZE as int, old(random)@, attempts as nat, filter)
                    == sample_cell(self@, SIZE as int, random@, left as nat, filter),
            decreases left,
        {
            let x: usize = random.next_less_than(SIZE as u64) as usize;
            let y: usize = random.next_less_than(SIZE as u64) as usize;
            proof {
                lemma_wrap(x as int, SIZE as int);
                lemma_wrap(y as int, SIZE as int);
            }
            let s = self.slot(x, y);
            if filter.accepts(s) {
                return Some((x, y));
            }
            left -= 1;
        }
        None
    }

    /// Looks for walkable, unoccupied ground by rejection sampling, giving
    /// up after `attempts` rejected cells.
    pub fn find_floor(&self, random: &mut FastRandom, attempts: usize) -> (r: Option<
        (usize, usize),
    >)
        ensures
            (cell_view(r), final(random)@) == sample_cell(
                self@,
                SIZE as int,
                old(random)@,
                attempts as nat,
                CellFilter::FreeFloor,
            ),
            r matches Some(c) ==> c.0 < SIZE && c.1 < SIZE && self.spec_slot(
                c.0 as int,
                c.1 as int,
            ).tile.is_floor() && self.spec_slot(c.0 as int, c.1 as int).entity is None,
    {
        self.sample(random, attempts, CellFilter::FreeFloor)
    }
}

} // verus!
