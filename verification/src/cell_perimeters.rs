use vstd::prelude::*;

use crate::cell::CPMCell;
use crate::world::grid_after;
use crate::world::lemma_neighbour_place;
use crate::world::lemma_place_coords;
use crate::world::neighbour_place;
use crate::world::Coord;
use crate::world::World;

verus! {

/// 1 if the two cells belong to different instances, else 0.
pub open spec fn differs<C: CPMCell>(a: C, b: C) -> int {
    if a.spec_id() != b.spec_id() {
        1
    } else {
        0
    }
}

/// How many of the eight cells `around` belong to another instance than `cell` does.
pub open spec fn differing<C: CPMCell>(around: Seq<C>, cell: C) -> int {
    differs(around[0], cell) + differs(around[1], cell) + differs(around[2], cell) + differs(
        around[3],
        cell,
    ) + differs(around[4], cell) + differs(around[5], cell) + differs(around[6], cell) + differs(
        around[7],
        cell,
    )
}

/// The eight cells around place `p` of a toroidal grid of width `w` and height `h`.
pub open spec fn around<C: CPMCell>(cells: Seq<C>, p: int, w: int, h: int) -> Seq<C> {
    Seq::new(8, |k: int| cells[neighbour_place(p, k, w, h)])
}

/// The boundary edges of the pixel at place `p`: its neighbours of another instance.
pub open spec fn pixel_perimeter<C: CPMCell>(cells: Seq<C>, p: int, w: int, h: int) -> int {
    differing(around(cells, p, w, h), cells[p])
}

/// The boundary edges of the pixels of instance `id` among the first `n` places.
pub open spec fn perimeter_upto<C: CPMCell>(cells: Seq<C>, w: int, h: int, id: int, n: int) -> int
    decreases n,
{
    if n <= 0 {
        0
    } else {
        perimeter_upto(cells, w, h, id, n - 1) + if cells[n - 1].spec_id() == id {
            pixel_perimeter(cells, n - 1, w, h)
        } else {
            0
        }
    }
}

/// The perimeter of instance `id`: over all its pixels, the number of neighbours that belong
/// to another instance, both axes wrapping around. This is what a full scan counts.
pub open spec fn perimeter_of<C: CPMCell>(cells: Seq<C>, w: int, h: int, id: int) -> int {
    perimeter_upto(cells, w, h, id, w * h)
}

/// By how much the perimeter of instance `id` changes when a pixel of `dest`, with the cells
/// `around` it, becomes a pixel of `src`.
pub open spec fn perimeter_change<C: CPMCell>(around: Seq<C>, src: C, dest: C, id: int) -> int {
    let gain: int = if src.spec_id() == id {
        2 * differing(around, src) - 8
    } else {
        0
    };
    let loss: int = if dest.spec_id() == id {
        2 * differing(around, dest) - 8
    } else {
        0
    };
    gain - loss
}

/// The part of `perimeter_change` that the tracker follows: the background has no entry of
/// its own to keep.
pub open spec fn tracked_change<C: CPMCell>(around: Seq<C>, src: C, dest: C, id: int) -> int {
    let gain: int = if src.spec_id() == id && !src.spec_is_bg() {
        2 * differing(around, src) - 8
    } else {
        0
    };
    let loss: int = if dest.spec_id() == id && !dest.spec_is_bg() {
        2 * differing(around, dest) - 8
    } else {
        0
    };
    gain - loss
}

/// The boundary-edge count of every cell instance, kept up to date flip by flip.
pub struct CellPerimeters(Vec<u32>);

impl View for CellPerimeters {
    type V = Seq<u32>;

    /// The count of each id, from 0 to the largest id.
    closed spec fn view(&self) -> Seq<u32> {
        self.0@
    }
}

impl CellPerimeters {
    /// There is one count for each id of the cell type `C`.
    pub open spec fn wf<C: CPMCell>(&self) -> bool {
        self@.len() == C::spec_max_id() + 1
    }

    /// Every count, that of the background too, is what a full scan of the grid gives.
    pub open spec fn scanned<C: CPMCell>(&self, cells: Seq<C>, w: int, h: int) -> bool {
        &&& self.wf::<C>()
        &&& forall|id: int| 0 <= id < self@.len() ==> self@[id] == perimeter_of(cells, w, h, id)
    }

    /// The count of every instance other than the background is what a full scan of the grid
    /// gives.
    pub open spec fn counts<C: CPMCell>(&self, cells: Seq<C>, w: int, h: int) -> bool {
        &&& self.wf::<C>()
        &&& forall|c: C|
            !c.spec_is_bg() ==> self@[#[trigger] c.spec_id() as int] == perimeter_of(
                cells,
                w,
                h,
                c.spec_id() as int,
            )
    }

    /// The flip of a `dest` pixel with the cells `around` it to `src` keeps every count
    /// within `u32`.
    pub open spec fn fits_flip<C: CPMCell>(&self, around: Seq<C>, src: C, dest: C) -> bool {
        forall|id: int|
            0 <= id < self@.len() ==> 0 <= #[trigger] self@[id] + tracked_change(
                around,
                src,
                dest,
                id,
            ) <= u32::MAX
    }
}

/// A pixel has at most eight boundary edges, so `n` pixels have at most `8 * n`.
pub proof fn lemma_perimeter_bound<C: CPMCell>(cells: Seq<C>, w: int, h: int, id: int, n: int)
    requires
        0 <= n,
    ensures
        0 <= perimeter_upto(cells, w, h, id, n) <= 8 * n,
    decreases n,
{
    if n > 0 {
        lemma_perimeter_bound(cells, w, h, id, n - 1);
    }
}

/// The boundary edges in direction `k` of the pixels of instance `id` among the first `n`
/// places.
spec fn edges_toward<C: CPMCell>(cells: Seq<C>, w: int, h: int, id: int, k: int, n: int) -> int
    decreases n,
{
    if n <= 0 {
        0
    } else {
        edges_toward(cells, w, h, id, k, n - 1) + if cells[n - 1].spec_id() == id {
            differs(cells[neighbour_place(n - 1, k, w, h)], cells[n - 1])
        } else {
            0
        }
    }
}

/// A perimeter is the sum of its edges in the eight directions.
proof fn lemma_perimeter_by_direction<C: CPMCell>(cells: Seq<C>, w: int, h: int, id: int, n: int)
    requires
        0 <= n,
    ensures
        perimeter_upto(cells, w, h, id, n) == edges_toward(cells, w, h, id, 0, n) + edges_toward(
            cells,
            w,
            h,
            id,
            1,
            n,
        ) + edges_toward(cells, w, h, id, 2, n) + edges_toward(cells, w, h, id, 3, n)
            + edges_toward(cells, w, h, id, 4, n) + edges_toward(cells, w, h, id, 5, n)
            + edges_toward(cells, w, h, id, 6, n) + edges_toward(cells, w, h, id, 7, n),
    decreases n,
{
    if n > 0 {
        lemma_perimeter_by_direction(cells, w, h, id, n - 1);
    }
}

/// What the write of `cell` at place `d` adds to the edges in direction `k` that leave `d`.
spec fn outward_change<C: CPMCell>(cells: Seq<C>, w: int, h: int, id: int, k: int, d: int, cell: C) -> int {
    let there = cells[neighbour_place(d, k, w, h)];
    (if cell.spec_id() == id {
        differs(there, cell)
    } else {
        0
    }) - (if cells[d].spec_id() == id {
        differs(there, cells[d])
    } else {
        0
    })
}

/// What the write of `cell` at place `d` adds to the edge in direction `k` that arrives at
/// `d`.
spec fn inward_change<C: CPMCell>(cells: Seq<C>, w: int, h: int, id: int, k: int, d: int, cell: C) -> int {
    let from = cells[neighbour_place(d, 7 - k, w, h)];
    if from.spec_id() == id {
        differs(cell, from) - differs(cells[d], from)
    } else {
        0
    }
}

/// In one direction, a write touches two edges only: the one that leaves the written place
/// and the one that arrives at it.
proof fn lemma_direction_flip<C: CPMCell>(
    cells: Seq<C>,
    w: int,
    h: int,
    id: int,
    k: int,
    d: int,
    cell: C,
    n: int,
)
    requires
        w >= 2,
        h >= 2,
        cells.len() == w * h,
        0 <= d < w * h,
        0 <= k < 8,
        0 <= n <= w * h,
    ensures
        edges_toward(cells.update(d, cell), w, h, id, k, n) == edges_toward(cells, w, h, id, k, n)
            + (if d < n {
            outward_change(cells, w, h, id, k, d, cell)
        } else {
            0
        }) + (if neighbour_place(d, 7 - k, w, h) < n {
            inward_change(cells, w, h, id, k, d, cell)
        } else {
            0
        }),
    decreases n,
{
    if n > 0 {
        lemma_direction_flip(cells, w, h, id, k, d, cell, n - 1);
        let p = n - 1;
        lemma_neighbour_place(p, k, w, h);
        lemma_neighbour_place(d, k, w, h);
        lemma_neighbour_place(d, 7 - k, w, h);
    }
}

/// What one of the eight cells around a written place adds to the perimeter of instance `id`
/// when `was` gives way to `cell`: through the edge that leaves the written place, and
/// through the edge that arrives at it.
spec fn edge_pair_change<C: CPMCell>(other: C, cell: C, was: C, id: int) -> int {
    (if cell.spec_id() == id {
        2 * differs(other, cell) - 1
    } else {
        0
    }) - (if was.spec_id() == id {
        2 * differs(other, was) - 1
    } else {
        0
    })
}

/// The two edges between a written place and its neighbour in direction `k`, one in
/// direction `k` and one in the opposite direction, change together by `edge_pair_change`.
proof fn lemma_edge_pair<C: CPMCell>(cells: Seq<C>, w: int, h: int, id: int, k: int, d: int, cell: C)
    requires
        w >= 2,
        h >= 2,
        cells.len() == w * h,
        0 <= d < w * h,
        0 <= k < 8,
    ensures
        edges_toward(cells.update(d, cell), w, h, id, k, w * h) + edges_toward(
            cells.update(d, cell),
            w,
            h,
            id,
            7 - k,
            w * h,
        ) == edges_toward(cells, w, h, id, k, w * h) + edges_toward(cells, w, h, id, 7 - k, w * h)
            + edge_pair_change(around(cells, d, w, h)[k], cell, cells[d], id)
            + edge_pair_change(around(cells, d, w, h)[7 - k], cell, cells[d], id),
{
    let n = w * h;
    lemma_direction_flip(cells, w, h, id, k, d, cell, n);
    lemma_direction_flip(cells, w, h, id, 7 - k, d, cell, n);
    lemma_neighbour_place(d, k, w, h);
    lemma_neighbour_place(d, 7 - k, w, h);
    let a = around(cells, d, w, h);
    assert(a[k] == cells[neighbour_place(d, k, w, h)]);
    assert(a[7 - k] == cells[neighbour_place(d, 7 - k, w, h)]);
    assert(7 - (7 - k) == k);
}

/// The changes of the eight edge pairs add up to `perimeter_change`.
proof fn lemma_pairs_sum<C: CPMCell>(a: Seq<C>, cell: C, was: C, id: int)
    ensures
        edge_pair_change(a[0], cell, was, id) + edge_pair_change(a[1], cell, was, id)
            + edge_pair_change(a[2], cell, was, id) + edge_pair_change(a[3], cell, was, id)
            + edge_pair_change(a[4], cell, was, id) + edge_pair_change(a[5], cell, was, id)
            + edge_pair_change(a[6], cell, was, id) + edge_pair_change(a[7], cell, was, id)
            == perimeter_change(a, cell, was, id),
{
}

/// Writing `cell` at place `d` of a toroidal grid with at least two rows and two columns
/// changes the scanned perimeter of every instance by exactly what the eight cells around `d`
/// tell.
pub proof fn lemma_perimeter_flip<C: CPMCell>(cells: Seq<C>, w: int, h: int, d: int, cell: C, id: int)
    requires
        w >= 2,
        h >= 2,
        cells.len() == w * h,
        0 <= d < w * h,
    ensures
        perimeter_of(cells.update(d, cell), w, h, id) == perimeter_of(cells, w, h, id)
            + perimeter_change(around(cells, d, w, h), cell, cells[d], id),
{
    let n = w * h;
    assert(0 <= n) by (nonlinear_arith)
        requires
            w >= 2,
            h >= 2,
            n == w * h,
    ;
    lemma_perimeter_by_direction(cells, w, h, id, n);
    lemma_perimeter_by_direction(cells.update(d, cell), w, h, id, n);
    lemma_edge_pair(cells, w, h, id, 0, d, cell);
    lemma_edge_pair(cells, w, h, id, 1, d, cell);
    lemma_edge_pair(cells, w, h, id, 2, d, cell);
    lemma_edge_pair(cells, w, h, id, 3, d, cell);
    lemma_pairs_sum(around(cells, d, w, h), cell, cells[d], id);
}

/// The scanned perimeter of instance `id` after one incremental change for each flip, started
/// from `start`.
pub open spec fn perimeter_after<C: CPMCell>(
    start: int,
    cells: Seq<C>,
    w: int,
    h: int,
    flips: Seq<(int, C)>,
    id: int,
) -> int
    decreases flips.len(),
{
    if flips.len() == 0 {
        start
    } else {
        let before = grid_after(cells, flips.drop_last());
        perimeter_after(start, cells, w, h, flips.drop_last(), id) + perimeter_change(
            around(before, flips.last().0, w, h),
            flips.last().1,
            before[flips.last().0],
            id,
        )
    }
}

/// On a toroidal grid with at least two rows and two columns, started from a full scan and
/// changed once for each flip of any sequence of flips, the perimeter of every instance is
/// what a full scan of the final grid gives, at the grid's edges as elsewhere.
pub proof fn lemma_perimeter_tracking<C: CPMCell>(
    cells: Seq<C>,
    w: int,
    h: int,
    flips: Seq<(int, C)>,
    id: int,
)
    requires
        w >= 2,
        h >= 2,
        cells.len() == w * h,
        forall|i: int| 0 <= i < flips.len() ==> 0 <= (#[trigger] flips[i]).0 < w * h,
    ensures
        grid_after(cells, flips).len() == cells.len(),
        perimeter_after(perimeter_of(cells, w, h, id), cells, w, h, flips, id) == perimeter_of(
            grid_after(cells, flips),
            w,
            h,
            id,
        ),
    decreases flips.len(),
{
    if flips.len() > 0 {
        let earlier = flips.drop_last();
        assert forall|i: int| 0 <= i < earlier.len() implies 0 <= (#[trigger] earlier[i]).0 < w
            * h by {
            assert(earlier[i] == flips[i]);
        }
        lemma_perimeter_tracking(cells, w, h, earlier, id);
        lemma_perimeter_flip(grid_after(cells, earlier), w, h, flips.last().0, flips.last().1, id);
    }
}

/// How many of the eight cells `around` are not equal to `cell`.
fn count_differing<C: CPMCell>(around: &[C; 8], cell: C) -> (count: u32)
    ensures
        count == differing(around@, cell),
{
    let mut count: u32 = 0;
    let mut k: usize = 0;
    while k < 8
        invariant
            k <= 8,
            count <= k,
            count == (if k > 0 { differs(around@[0], cell) } else { 0 })
                + (if k > 1 { differs(around@[1], cell) } else { 0 })
                + (if k > 2 { differs(around@[2], cell) } else { 0 })
                + (if k > 3 { differs(around@[3], cell) } else { 0 })
                + (if k > 4 { differs(around@[4], cell) } else { 0 })
                + (if k > 5 { differs(around@[5], cell) } else { 0 })
                + (if k > 6 { differs(around@[6], cell) } else { 0 })
                + (if k > 7 { differs(around@[7], cell) } else { 0 }),
        decreases 8 - k,
    {
        proof {
            C::lemma_identity(around@[k as int], cell);
        }
        if around[k] != cell {
            count += 1;
        }
        k += 1;
    }
    count
}

/// Counts the boundary edges of every pixel of `world` under the pixel's id.
fn scan<const W: usize, const H: usize, C: CPMCell>(world: &World<W, H, C>) -> (perimeters: Vec<u32>)
    requires
        world.wf(),
        8 * (W * H) <= u32::MAX,
    ensures
        perimeters@.len() == C::spec_max_id() + 1,
        forall|id: int|
            0 <= id < perimeters@.len() ==> perimeters@[id] == perimeter_of(
                world@,
                W as int,
                H as int,
                id,
            ),
{
    let size: usize = C::max_id() + 1;
    let mut perimeters: Vec<u32> = Vec::with_capacity(size);
    let mut i: usize = 0;
    while i < size
        invariant
            i <= size,
            perimeters@.len() == i,
            forall|id: int| 0 <= id < i ==> perimeters@[id] == 0,
        decreases size - i,
    {
        perimeters.push(0);
        i += 1;
    }
    let mut y: usize = 0;
    while y < H
        invariant
            world.wf(),
            8 * (W * H) <= u32::MAX,
            y <= H,
            perimeters@.len() == size == C::spec_max_id() + 1,
            forall|id: int|
                0 <= id < size ==> perimeters@[id] == perimeter_upto(
                    world@,
                    W as int,
                    H as int,
                    id,
                    y * W,
                ),
        decreases H - y,
    {
        let mut x: usize = 0;
        while x < W
            invariant
                world.wf(),
                8 * (W * H) <= u32::MAX,
                y < H,
                x <= W,
                perimeters@.len() == size == C::spec_max_id() + 1,
                forall|id: int|
                    0 <= id < size ==> perimeters@[id] == perimeter_upto(
                        world@,
                        W as int,
                        H as int,
                        id,
                        y * W + x,
                    ),
            decreases W - x,
        {
            let idx: Coord = (x as u32, y as u32);
            let cell = world.get_cell(idx);
            let around = world.get_neighbours(idx);
            let edges = count_differing(&around, cell);
            let id = cell.id();
            proof {
                let p = y * W + x;
                lemma_place_coords(x as int, y as int, W as int, H as int);
                vstd::arithmetic::div_mod::lemma_small_mod(x as nat, W as nat);
                vstd::arithmetic::div_mod::lemma_small_mod(y as nat, H as nat);
                assert(World::<W, H, C>::place(idx) == p);
                assert(around@ =~= crate::cell_perimeters::around(world@, p, W as int, H as int));
                lemma_perimeter_bound(world@, W as int, H as int, id as int, p);
                assert(y * W + (x + 1) == p + 1);
            }
            let count: u32 = perimeters[id];
            perimeters.set(id, count + edges);
            x += 1;
        }
        proof {
            assert(y * W + W == (y + 1) * W) by (nonlinear_arith);
        }
        y += 1;
    }
    proof {
        assert(H * W == W * H) by (nonlinear_arith);
    }
    perimeters
}

impl CellPerimeters {
    /// Counts that a full scan gave are right for every instance.
    pub proof fn lemma_scanned_counts<C: CPMCell>(&self, cells: Seq<C>, w: int, h: int)
        requires
            self.scanned(cells, w, h),
        ensures
            self.counts(cells, w, h),
    {
        assert forall|c: C| !c.spec_is_bg() implies self@[#[trigger] c.spec_id() as int]
            == perimeter_of(cells, w, h, c.spec_id() as int) by {
            C::lemma_identity(c, c);
        }
    }

    /// While the counts are right, a flip on a grid with at least two rows and two columns
    /// keeps them within `u32`.
    pub proof fn lemma_counts_fit_flip<C: CPMCell>(&self, cells: Seq<C>, w: int, h: int, d: int, src: C, dest: C)
        requires
            self.counts(cells, w, h),
            w >= 2,
            h >= 2,
            cells.len() == w * h,
            8 * (w * h) <= u32::MAX,
            0 <= d < w * h,
            cells[d].spec_id() == dest.spec_id(),
        ensures
            self.fits_flip(around(cells, d, w, h), src, dest),
    {
        let a = around(cells, d, w, h);
        assert forall|id: int| 0 <= id < self@.len() implies 0 <= #[trigger] self@[id]
            + tracked_change(a, src, dest, id) <= u32::MAX by {
            C::lemma_identity(src, dest);
            if (src.spec_id() == id && !src.spec_is_bg()) || (dest.spec_id() == id
                && !dest.spec_is_bg()) {
                let c = if src.spec_id() == id {
                    src
                } else {
                    dest
                };
                assert(self@[c.spec_id() as int] == perimeter_of(cells, w, h, id));
                assert(tracked_change(a, src, dest, id) == perimeter_change(a, src, cells[d], id));
                lemma_perimeter_flip(cells, w, h, d, src, id);
                lemma_perimeter_bound(cells.update(d, src), w, h, id, w * h);
            }
        }
    }

    /// Counts that were right before a flip are right after it, once they have taken the
    /// tracked change.
    pub proof fn lemma_update_keeps_counts<C: CPMCell>(
        &self,
        after: &Self,
        cells: Seq<C>,
        w: int,
        h: int,
        d: int,
        src: C,
        cell: C,
    )
        requires
            self.counts(cells, w, h),
            w >= 2,
            h >= 2,
            cells.len() == w * h,
            0 <= d < w * h,
            cell.spec_id() == src.spec_id(),
            after@.len() == self@.len(),
            forall|id: int|
                0 <= id < self@.len() ==> after@[id] == self@[id] + tracked_change(
                    around(cells, d, w, h),
                    src,
                    cells[d],
                    id,
                ),
        ensures
            after.counts(cells.update(d, cell), w, h),
    {
        let a = around(cells, d, w, h);
        assert forall|c: C| !c.spec_is_bg() implies after@[#[trigger] c.spec_id() as int]
            == perimeter_of(cells.update(d, cell), w, h, c.spec_id() as int) by {
            let id = c.spec_id() as int;
            C::lemma_identity(c, c);
            C::lemma_identity(c, src);
            C::lemma_identity(c, cells[d]);
            assert(tracked_change(a, src, cells[d], id) == perimeter_change(a, cell, cells[d], id));
            lemma_perimeter_flip(cells, w, h, d, cell, id);
        }
    }

    /// Counts the boundary edges of every cell instance of `world`, both axes wrapping around.
    pub fn from_world<const W: usize, const H: usize, C: CPMCell>(world: &World<W, H, C>) -> (perimeters: Self)
        requires
            world.wf(),
            8 * (W * H) <= u32::MAX,
        ensures
            perimeters.scanned(world@, W as int, H as int),
            perimeters.counts(world@, W as int, H as int),
    {
        let perimeters = CellPerimeters(scan(world));
        proof {
            perimeters.lemma_scanned_counts(world@, W as int, H as int);
        }
        perimeters
    }

    /// Follows the flip of the pixel at `dest_idx` from `dest` to `src`, looking only at the
    /// eight cells around it as they stand in `world`: the pixel's own edges move from `dest`
    /// to `src`, and each neighbour gains an edge if it is of `dest` and loses one if it is of
    /// `src`. The background on either side is left alone. Where the grid has at least two
    /// rows and two columns, the counts were right for `world` and the pixel at `dest_idx` was
    /// `dest`, they are right for `world` with `src` written there.
    pub fn update<const W: usize, const H: usize, C: CPMCell>(
        &mut self,
        world: &World<W, H, C>,
        src: C,
        dest: C,
        _src_idx: Coord,
        dest_idx: Coord,
    )
        requires
            world.wf(),
            old(self).wf::<C>(),
            old(self).fits_flip(world.neighbours_of(dest_idx), src, dest),
        ensures
            final(self).wf::<C>(),
            forall|id: int|
                0 <= id < old(self)@.len() ==> final(self)@[id] == old(self)@[id] + tracked_change(
                    world.neighbours_of(dest_idx),
                    src,
                    dest,
                    id,
                ),
            forall|bg: C|
                bg.spec_is_bg() ==> final(self)@[#[trigger] bg.spec_id() as int] == old(
                    self,
                )@[bg.spec_id() as int],
            W >= 2 && H >= 2 && old(self).counts(world@, W as int, H as int) && world.at(dest_idx)
                == dest ==> final(self).counts(
                world@.update(World::<W, H, C>::place(dest_idx), src),
                W as int,
                H as int,
            ),
    {
        let ghost before = *self;
        let around = world.get_neighbours(dest_idx);
        let n_new: i64 = count_differing(&around, src) as i64;
        let n_old: i64 = count_differing(&around, dest) as i64;
        proof {
            C::lemma_identity(src, dest);
        }
        let src_id = src.id();
        let dest_id = dest.id();
        if src_id != dest_id {
            if !dest.is_bg() {
                assert(tracked_change(around@, src, dest, dest_id as int) == 8 - 2 * n_old);
                let count: i64 = self.0[dest_id] as i64;
                self.0.set(dest_id, (count + 8 - 2 * n_old) as u32);
            }
            if !src.is_bg() {
                assert(tracked_change(around@, src, dest, src_id as int) == 2 * n_new - 8);
                let count: i64 = self.0[src_id] as i64;
                self.0.set(src_id, (count + 2 * n_new - 8) as u32);
            }
        }
        proof {
            assert forall|bg: C| bg.spec_is_bg() implies self@[#[trigger] bg.spec_id() as int]
                == before@[bg.spec_id() as int] by {
                C::lemma_identity(bg, src);
                C::lemma_identity(bg, dest);
                C::lemma_identity(bg, bg);
            }
            if W >= 2 && H >= 2 && before.counts(world@, W as int, H as int) && world.at(dest_idx)
                == dest {
                let place = World::<W, H, C>::place(dest_idx);
                World::<W, H, C>::lemma_place_on_grid(dest_idx);
                assert(world.neighbours_of(dest_idx) =~= crate::cell_perimeters::around(
                    world@,
                    place,
                    W as int,
                    H as int,
                ));
                before.lemma_update_keeps_counts(
                    self,
                    world@,
                    W as int,
                    H as int,
                    place,
                    src,
                    src,
                );
            }
        }
    }

    /// Counts all boundary edges of `world` anew.
    pub fn recalculate<const W: usize, const H: usize, C: CPMCell>(&mut self, world: &World<W, H, C>)
        requires
            world.wf(),
            8 * (W * H) <= u32::MAX,
        ensures
            final(self).scanned(world@, W as int, H as int),
            final(self).counts(world@, W as int, H as int),
    {
        self.0 = scan(world);
        proof {
            self.lemma_scanned_counts(world@, W as int, H as int);
        }
    }

    /// The tracked boundary-edge count of the instance that `cell` belongs to.
    pub fn get<C: CPMCell>(&self, cell: C) -> (perimeter: u32)
        requires
            self.wf::<C>(),
        ensures
            perimeter == self@[cell.spec_id() as int],
    {
        self.0[cell.id()]
    }
}

} // verus!
