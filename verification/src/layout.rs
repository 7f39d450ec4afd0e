use vstd::prelude::*;

use crate::cell::ActCPMCell;
use crate::world::lemma_place_coords;
use crate::world::Coord;
use crate::world::World;

verus! {

/// The activity that every cell and obstacle starts with.
pub const START_ACTIVITY: u8 = 80;

/// How far the cells stand from the top and from the left of their part of the grid.
pub const CELL_OFFSET: usize = 8;

/// The place of the `i`-th pixel of a pattern of `grid` rows: it belongs to column `i / grid`
/// and row `i % grid` of the pattern, the columns and rows spread evenly over the `w` by `h`
/// pixels and then moved by `offset` down and to the right.
pub open spec fn pattern_place(i: int, grid: int, offset: int, w: int, h: int) -> int {
    ((i % grid) * h / grid + offset) * w + ((i / grid) * w / grid + offset)
}

/// The `i`-th cell of a pattern: its number is `i + 1`, cut to eight bits.
pub open spec fn pattern_cell(i: int, obstacle: bool) -> ActCPMCell {
    ActCPMCell(((i + 1) % 256) as u8, START_ACTIVITY, obstacle)
}

/// `cells` with the first `n` pixels of a pattern written one after the other, a later one
/// over an earlier one where they fall on the same place.
pub open spec fn patterned(
    cells: Seq<ActCPMCell>,
    n: int,
    grid: int,
    offset: int,
    obstacle: bool,
    w: int,
    h: int,
) -> Seq<ActCPMCell>
    decreases n,
{
    if n <= 0 {
        cells
    } else {
        patterned(cells, n - 1, grid, offset, obstacle, w, h).update(
            pattern_place(n - 1, grid, offset, w, h),
            pattern_cell(n - 1, obstacle),
        )
    }
}

/// Whether every pixel of a pattern of `grid` columns and rows, moved by `offset`, falls on
/// the grid.
pub open spec fn pattern_fits(grid: int, offset: int, w: int, h: int) -> bool {
    grid > 0 ==> (grid - 1) * w / grid + offset < w && (grid - 1) * h / grid + offset < h
}

/// Column or row `x` of `grid`, spread over `side` pixels and moved by `offset`, stays below
/// `side` where the last one does.
proof fn lemma_spread(x: int, grid: int, offset: int, side: int)
    requires
        0 <= x < grid,
        0 <= offset,
        0 < side,
        (grid - 1) * side / grid + offset < side,
    ensures
        0 <= x * side / grid,
        x * side / grid + offset < side,
{
    assert(0 <= x * side <= (grid - 1) * side) by (nonlinear_arith)
        requires
            0 <= x < grid,
            0 < side,
    ;
    vstd::arithmetic::div_mod::lemma_div_is_ordered(x * side, (grid - 1) * side, grid);
    vstd::arithmetic::div_mod::lemma_div_pos_is_pos(x * side, grid);
}

/// Writes the first `columns` columns of a pattern of `grid` columns and rows into `world`,
/// as obstacles or as cells: the pixels are written one after the other, down the first
/// column, then the second, and so on.
pub fn place_pattern<const W: usize, const H: usize>(
    world: &mut World<W, H, ActCPMCell>,
    columns: usize,
    grid: usize,
    offset: usize,
    obstacle: bool,
)
    requires
        old(world).wf(),
        columns <= grid,
        offset <= CELL_OFFSET,
        pattern_fits(grid as int, offset as int, W as int, H as int),
    ensures
        final(world).wf(),
        final(world)@ == patterned(
            old(world)@,
            columns * grid,
            grid as int,
            offset as int,
            obstacle,
            W as int,
            H as int,
        ),
{
    let mut x: usize = 0;
    while x < columns
        invariant
            world.wf(),
            x <= columns <= grid,
            offset <= CELL_OFFSET,
            pattern_fits(grid as int, offset as int, W as int, H as int),
            world@ == patterned(
                old(world)@,
                x * grid,
                grid as int,
                offset as int,
                obstacle,
                W as int,
                H as int,
            ),
        decreases columns - x,
    {
        let mut y: usize = 0;
        while y < grid
            invariant
                world.wf(),
                x < columns <= grid,
                y <= grid,
                offset <= CELL_OFFSET,
                pattern_fits(grid as int, offset as int, W as int, H as int),
                world@ == patterned(
                    old(world)@,
                    x * grid + y,
                    grid as int,
                    offset as int,
                    obstacle,
                    W as int,
                    H as int,
                ),
            decreases grid - y,
        {
            let ghost i: int = x * grid + y;
            proof {
                lemma_spread(x as int, grid as int, offset as int, W as int);
                lemma_spread(y as int, grid as int, offset as int, H as int);
                vstd::arithmetic::div_mod::lemma_fundamental_div_mod_converse(
                    i,
                    grid as int,
                    x as int,
                    y as int,
                );
                assert(0 <= x * grid <= (grid - 1) * grid) by (nonlinear_arith)
                    requires
                        0 <= x < grid,
                ;
                assert(x * W <= grid * W && y * H <= grid * H && grid * W <= usize::MAX * usize::MAX
                    && grid * H <= usize::MAX * usize::MAX && (grid - 1) * grid + grid
                    <= usize::MAX * usize::MAX) by (nonlinear_arith)
                    requires
                        0 <= x < grid <= usize::MAX,
                        0 <= y < grid,
                        0 < W <= usize::MAX,
                        0 < H <= usize::MAX,
                ;
            }
            let column: u128 = (x as u128) * (W as u128) / (grid as u128) + (offset as u128);
            let row: u128 = (y as u128) * (H as u128) / (grid as u128) + (offset as u128);
            let number: u128 = (x as u128) * (grid as u128) + (y as u128) + 1;
            let idx: Coord = (column as u32, row as u32);
            proof {
                lemma_place_coords(column as int, row as int, W as int, H as int);
                vstd::arithmetic::div_mod::lemma_small_mod(column as nat, W as nat);
                vstd::arithmetic::div_mod::lemma_small_mod(row as nat, H as nat);
                assert(World::<W, H, ActCPMCell>::place(idx) == pattern_place(
                    i,
                    grid as int,
                    offset as int,
                    W as int,
                    H as int,
                ));
            }
            world.set_cell(idx, ActCPMCell((number % 256) as u8, START_ACTIVITY, obstacle));
            y += 1;
        }
        proof {
            assert(x * grid + grid == (x + 1) * grid) by (nonlinear_arith);
        }
        x += 1;
    }
}

/// The grid that a simulation starts from: on a background of medium, first a pattern of
/// `obstacle_grid` columns and rows of obstacle pixels, spread evenly from the top left
/// corner, and then a pattern of `cell_grid` columns and rows of cell pixels, spread likewise
/// but `CELL_OFFSET` pixels further down and to the right. The pixels of a pattern are
/// numbered from 1 on, down the first column, then the second, and so on, and the number, cut
/// to eight bits, names the instance. Where two pixels fall on one place the later one stays.
pub fn create_world<const W: usize, const H: usize>(obstacle_grid: usize, cell_grid: usize) -> (world:
    World<W, H, ActCPMCell>)
    requires
        0 < W <= crate::world::MAX_SIDE,
        0 < H <= crate::world::MAX_SIDE,
        W * H <= usize::MAX,
        pattern_fits(cell_grid as int, CELL_OFFSET as int, W as int, H as int),
    ensures
        world.wf(),
        world@ == patterned(
            patterned(
                Seq::new((W * H) as nat, |p: int| ActCPMCell(0, 0, false)),
                obstacle_grid * obstacle_grid,
                obstacle_grid as int,
                0,
                true,
                W as int,
                H as int,
            ),
            cell_grid * cell_grid,
            cell_grid as int,
            CELL_OFFSET as int,
            false,
            W as int,
            H as int,
        ),
{
    let mut world: World<W, H, ActCPMCell> = World::filled(ActCPMCell(0, 0, false));
    assert(world@ =~= Seq::new((W * H) as nat, |p: int| ActCPMCell(0, 0, false)));
    proof {
        if obstacle_grid > 0 {
            let g = obstacle_grid as int;
            assert((g - 1) * W < g * W && (g - 1) * H < g * H) by (nonlinear_arith)
                requires
                    g > 0,
                    W > 0,
                    H > 0,
            ;
            vstd::arithmetic::div_mod::lemma_multiply_divide_lt((g - 1) * W, g, W as int);
            vstd::arithmetic::div_mod::lemma_multiply_divide_lt((g - 1) * H, g, H as int);
        }
    }
    place_pattern(&mut world, obstacle_grid, obstacle_grid, 0, true);
    place_pattern(&mut world, cell_grid, cell_grid, CELL_OFFSET, false);
    world
}

} // verus!
