use vstd::prelude::*;

use crate::cell::CPMCell;
use crate::cell_perimeters::differs;
use crate::world::Coord;
use crate::world::World;

verus! {

/// How many times dearer a boundary between an obstacle and a motile cell is than any other
/// boundary.
pub const OBSTACLE_FACTOR: u32 = 10;

/// The adhesion penalty of one boundary edge between `a` and `b`, in units of the base
/// penalty.
pub open spec fn adhesion_penalty<C: CPMCell>(a: C, b: C) -> int {
    if a.spec_is_obstacle() != b.spec_is_obstacle() && !a.spec_is_bg() && !b.spec_is_bg() {
        OBSTACLE_FACTOR as int
    } else {
        1
    }
}

/// What one neighbour adds to the adhesion energy of `cell`: nothing if it belongs to the
/// same instance, else the penalty of the edge between the two.
pub open spec fn edge_adhesion<C: CPMCell>(other: C, cell: C) -> int {
    differs(other, cell) * adhesion_penalty(cell, other)
}

/// The adhesion energy of `cell` among the eight cells `around` it, in units of the base
/// penalty.
pub open spec fn adhesion_of<C: CPMCell>(around: Seq<C>, cell: C) -> int {
    edge_adhesion(around[0], cell) + edge_adhesion(around[1], cell) + edge_adhesion(
        around[2],
        cell,
    ) + edge_adhesion(around[3], cell) + edge_adhesion(around[4], cell) + edge_adhesion(
        around[5],
        cell,
    ) + edge_adhesion(around[6], cell) + edge_adhesion(around[7], cell)
}

/// The adhesion penalty of one boundary edge between `a` and `b`, in units of the base
/// penalty: `OBSTACLE_FACTOR` between an obstacle and a motile cell, 1 between any other two.
pub fn get_adhesion_penalty<C: CPMCell>(a: C, b: C) -> (penalty: u32)
    ensures
        penalty == adhesion_penalty(a, b),
{
    if a.is_obstacle() != b.is_obstacle() && !a.is_bg() && !b.is_bg() {
        OBSTACLE_FACTOR
    } else {
        1
    }
}

/// The adhesion energy that the pixel at `idx` would have if it held `cell`, in units of the
/// base penalty.
pub fn adhesion<const W: usize, const H: usize, C: CPMCell>(
    world: &World<W, H, C>,
    idx: Coord,
    cell: C,
) -> (energy: u32)
    requires
        world.wf(),
    ensures
        energy == adhesion_of(world.neighbours_of(idx), cell),
        energy <= 8 * OBSTACLE_FACTOR,
{
    let around = world.get_neighbours(idx);
    let mut energy: u32 = 0;
    let mut k: usize = 0;
    while k < 8
        invariant
            k <= 8,
            energy <= k * OBSTACLE_FACTOR,
            energy == (if k > 0 { edge_adhesion(around@[0], cell) } else { 0 })
                + (if k > 1 { edge_adhesion(around@[1], cell) } else { 0 })
                + (if k > 2 { edge_adhesion(around@[2], cell) } else { 0 })
                + (if k > 3 { edge_adhesion(around@[3], cell) } else { 0 })
                + (if k > 4 { edge_adhesion(around@[4], cell) } else { 0 })
                + (if k > 5 { edge_adhesion(around@[5], cell) } else { 0 })
                + (if k > 6 { edge_adhesion(around@[6], cell) } else { 0 })
                + (if k > 7 { edge_adhesion(around@[7], cell) } else { 0 }),
        decreases 8 - k,
    {
        proof {
            C::lemma_identity(around@[k as int], cell);
        }
        if around[k] != cell {
            energy += get_adhesion_penalty(cell, around[k]);
        }
        k += 1;
    }
    energy
}

/// The change of adhesion energy when the pixel at `dest_idx` goes from `dest` to `src`, in
/// units of the base penalty.
pub fn adhesion_delta<const W: usize, const H: usize, C: CPMCell>(
    world: &World<W, H, C>,
    src: C,
    dest: C,
    _src_idx: Coord,
    dest_idx: Coord,
) -> (delta: i32)
    requires
        world.wf(),
    ensures
        delta == adhesion_of(world.neighbours_of(dest_idx), src) - adhesion_of(
            world.neighbours_of(dest_idx),
            dest,
        ),
{
    adhesion(world, dest_idx, src) as i32 - adhesion(world, dest_idx, dest) as i32
}

} // verus!
