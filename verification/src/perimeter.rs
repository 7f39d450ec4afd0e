use vstd::prelude::*;

use crate::cell::CPMCell;
use crate::cell_perimeters::around;
use crate::cell_perimeters::differing;
use crate::cell_perimeters::lemma_perimeter_flip;
use crate::cell_perimeters::perimeter_of;
use crate::cell_perimeters::differs;
use crate::cell_perimeters::CellPerimeters;
use crate::world::Coord;
use crate::world::World;

verus! {

/// The distance of `perimeter` from the target of `cell`: a motile cell aims at
/// `target_perimeter`, an obstacle at zero, and the background at nothing.
pub open spec fn perimeter_deviation<C: CPMCell>(cell: C, perimeter: int, target_perimeter: int) -> int {
    if cell.spec_is_bg() {
        0
    } else if cell.spec_is_obstacle() {
        perimeter
    } else {
        perimeter - target_perimeter
    }
}

/// The perimeter penalty of `cell` at `perimeter`, in units of the perimeter weight: the
/// square of the deviation.
pub open spec fn perimeter_penalty<C: CPMCell>(cell: C, perimeter: int, target_perimeter: int) -> int {
    perimeter_deviation(cell, perimeter, target_perimeter) * perimeter_deviation(
        cell,
        perimeter,
        target_perimeter,
    )
}

/// The change of perimeter penalty, in units of the perimeter weight, when a pixel of `dest`
/// with the cells `around` it becomes a pixel of `src`: each instance is priced at its
/// perimeter after the flip against its perimeter before. The flip turns every edge from the
/// pixel to a cell of `src` into an inner edge, on both of its sides, and every edge to
/// another cell into a boundary edge; for `dest` the reverse.
pub open spec fn perimeter_delta_of<C: CPMCell>(
    around: Seq<C>,
    src: C,
    src_perimeter: int,
    dest: C,
    dest_perimeter: int,
    target_perimeter: int,
) -> int {
    perimeter_penalty(src, src_perimeter + 2 * differing(around, src) - 8, target_perimeter)
        - perimeter_penalty(src, src_perimeter, target_perimeter) + perimeter_penalty(
        dest,
        dest_perimeter + 8 - 2 * differing(around, dest),
        target_perimeter,
    ) - perimeter_penalty(dest, dest_perimeter, target_perimeter)
}

/// The perimeter term is the true change of penalty: where a pixel of one instance becomes a
/// pixel of another on a toroidal grid with at least two rows and two columns, the term
/// computed from the scanned perimeters before the copy and from the eight cells around the
/// pixel is, for both instances together, the penalty at the scanned perimeter after the copy
/// less the penalty at the scanned perimeter before it.
pub proof fn lemma_perimeter_delta<C: CPMCell>(
    cells: Seq<C>,
    w: int,
    h: int,
    d: int,
    src: C,
    target_perimeter: int,
)
    requires
        w >= 2,
        h >= 2,
        cells.len() == w * h,
        0 <= d < w * h,
        cells[d].spec_id() != src.spec_id(),
    ensures
        perimeter_delta_of(
            around(cells, d, w, h),
            src,
            perimeter_of(cells, w, h, src.spec_id() as int),
            cells[d],
            perimeter_of(cells, w, h, cells[d].spec_id() as int),
            target_perimeter,
        ) == perimeter_penalty(
            src,
            perimeter_of(cells.update(d, src), w, h, src.spec_id() as int),
            target_perimeter,
        ) - perimeter_penalty(
            src,
            perimeter_of(cells, w, h, src.spec_id() as int),
            target_perimeter,
        ) + perimeter_penalty(
            cells[d],
            perimeter_of(cells.update(d, src), w, h, cells[d].spec_id() as int),
            target_perimeter,
        ) - perimeter_penalty(
            cells[d],
            perimeter_of(cells, w, h, cells[d].spec_id() as int),
            target_perimeter,
        ),
{
    lemma_perimeter_flip(cells, w, h, d, src, src.spec_id() as int);
    lemma_perimeter_flip(cells, w, h, d, src, cells[d].spec_id() as int);
}

/// The perimeter penalty of `cell` at `perimeter`, in units of the perimeter weight:
/// `(perimeter - target)^2`, where the target is `target_perimeter` for a motile cell and zero
/// for an obstacle. The background pays nothing.
pub fn get_perimeter_penalty<C: CPMCell>(cell: C, perimeter: u32, target_perimeter: u32) -> (penalty:
    i128)
    ensures
        penalty == perimeter_penalty(cell, perimeter as int, target_perimeter as int),
        penalty >= 0,
{
    penalty_at(cell, perimeter as i64, target_perimeter)
}

/// The perimeter penalty at a perimeter that a flip may have moved by up to eight edges past
/// what a tracker can hold.
fn penalty_at<C: CPMCell>(cell: C, perimeter: i64, target_perimeter: u32) -> (penalty: i128)
    requires
        -8 <= perimeter <= u32::MAX + 8,
    ensures
        penalty == perimeter_penalty(cell, perimeter as int, target_perimeter as int),
        0 <= penalty <= 0x2_0000_0000 * 0x2_0000_0000,
{
    let deviation: i128 = if cell.is_bg() {
        0
    } else if cell.is_obstacle() {
        perimeter as i128
    } else {
        perimeter as i128 - target_perimeter as i128
    };
    assert(0 <= deviation * deviation <= 0x2_0000_0000 * 0x2_0000_0000) by (nonlinear_arith)
        requires
            -0x2_0000_0000 <= deviation <= 0x2_0000_0000,
    ;
    deviation * deviation
}

/// The change of perimeter penalty, in units of the perimeter weight, for copying `src` over
/// the pixel of `dest` at `dest_idx`: each of the two instances is priced at the perimeter
/// that `perimeters` tracks for it, moved by what the flip does to the edges around the
/// pixel, against the tracked perimeter itself.
pub fn perimeter_delta<const W: usize, const H: usize, C: CPMCell>(
    perimeters: &CellPerimeters,
    world: &World<W, H, C>,
    src: C,
    dest: C,
    _src_idx: Coord,
    dest_idx: Coord,
    target_perimeter: u32,
) -> (delta: i128)
    requires
        world.wf(),
        perimeters.wf::<C>(),
    ensures
        delta == perimeter_delta_of(
            world.neighbours_of(dest_idx),
            src,
            perimeters@[src.spec_id() as int] as int,
            dest,
            perimeters@[dest.spec_id() as int] as int,
            target_perimeter as int,
        ),
{
    let neighbourhood = world.get_neighbours(dest_idx);
    let mut src_perim_delta: i64 = 0;
    let mut dest_perim_delta: i64 = 0;
    let mut k: usize = 0;
    while k < 8
        invariant
            k <= 8,
            src_perim_delta == (if k > 0 { 2 * differs(neighbourhood@[0], src) - 1 } else { 0 })
                + (if k > 1 { 2 * differs(neighbourhood@[1], src) - 1 } else { 0 })
                + (if k > 2 { 2 * differs(neighbourhood@[2], src) - 1 } else { 0 })
                + (if k > 3 { 2 * differs(neighbourhood@[3], src) - 1 } else { 0 })
                + (if k > 4 { 2 * differs(neighbourhood@[4], src) - 1 } else { 0 })
                + (if k > 5 { 2 * differs(neighbourhood@[5], src) - 1 } else { 0 })
                + (if k > 6 { 2 * differs(neighbourhood@[6], src) - 1 } else { 0 })
                + (if k > 7 { 2 * differs(neighbourhood@[7], src) - 1 } else { 0 }),
            dest_perim_delta == (if k > 0 { 1 - 2 * differs(neighbourhood@[0], dest) } else { 0 })
                + (if k > 1 { 1 - 2 * differs(neighbourhood@[1], dest) } else { 0 })
                + (if k > 2 { 1 - 2 * differs(neighbourhood@[2], dest) } else { 0 })
                + (if k > 3 { 1 - 2 * differs(neighbourhood@[3], dest) } else { 0 })
                + (if k > 4 { 1 - 2 * differs(neighbourhood@[4], dest) } else { 0 })
                + (if k > 5 { 1 - 2 * differs(neighbourhood@[5], dest) } else { 0 })
                + (if k > 6 { 1 - 2 * differs(neighbourhood@[6], dest) } else { 0 })
                + (if k > 7 { 1 - 2 * differs(neighbourhood@[7], dest) } else { 0 }),
        decreases 8 - k,
    {
        let n = neighbourhood[k];
        proof {
            C::lemma_identity(n, src);
            C::lemma_identity(n, dest);
        }
        src_perim_delta += if n == src { -1 } else { 1 };
        dest_perim_delta += if n == dest { 1 } else { -1 };
        k += 1;
    }
    let src_perim: i64 = perimeters.get(src) as i64;
    let dest_perim: i64 = perimeters.get(dest) as i64;
    let src_gain: i128 = penalty_at(src, src_perim + src_perim_delta, target_perimeter)
        - penalty_at(src, src_perim, target_perimeter);
    let dest_loss: i128 = penalty_at(dest, dest_perim + dest_perim_delta, target_perimeter)
        - penalty_at(dest, dest_perim, target_perimeter);
    src_gain + dest_loss
}

} // verus!
