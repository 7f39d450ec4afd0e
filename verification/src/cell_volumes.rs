use vstd::prelude::*;

use crate::cell::CPMCell;
use crate::world::grid_after;
use crate::world::Coord;
use crate::world::World;

verus! {

/// How many of the first `n` cells are pixels of the cell instance `id`. Background pixels
/// belong to no instance and are never counted.
pub open spec fn volume_upto<C: CPMCell>(cells: Seq<C>, id: int, n: int) -> nat
    decreases n,
{
    if n <= 0 {
        0
    } else {
        let here: nat = if !cells[n - 1].spec_is_bg() && cells[n - 1].spec_id() == id {
            1
        } else {
            0
        };
        volume_upto(cells, id, n - 1) + here
    }
}

/// The number of pixels that the cell instance `id` holds: what a full scan counts.
pub open spec fn volume_of<C: CPMCell>(cells: Seq<C>, id: int) -> nat {
    volume_upto(cells, id, cells.len() as int)
}

/// By how much the volume of instance `id` changes when a pixel of `dest` becomes a pixel of
/// `src`.
pub open spec fn volume_change<C: CPMCell>(src: C, dest: C, id: int) -> int {
    let gain: int = if !src.spec_is_bg() && src.spec_id() == id {
        1
    } else {
        0
    };
    let loss: int = if !dest.spec_is_bg() && dest.spec_id() == id {
        1
    } else {
        0
    };
    gain - loss
}

/// The pixel count of every cell instance, kept up to date flip by flip.
pub struct CellVolumes(Vec<u32>);

impl View for CellVolumes {
    type V = Seq<u32>;

    /// The count of each id, from 0 to the largest id.
    closed spec fn view(&self) -> Seq<u32> {
        self.0@
    }
}

impl CellVolumes {
    /// There is one count for each id of the cell type `C`.
    pub open spec fn wf<C: CPMCell>(&self) -> bool {
        self@.len() == C::spec_max_id() + 1
    }

    /// Every count is what a full scan of `cells` gives.
    pub open spec fn counts<C: CPMCell>(&self, cells: Seq<C>) -> bool {
        &&& self.wf::<C>()
        &&& forall|id: int| 0 <= id < self@.len() ==> self@[id] == volume_of(cells, id)
    }

    /// The flip of a `dest` pixel to `src` keeps every count within `u32`.
    pub open spec fn fits_flip<C: CPMCell>(&self, src: C, dest: C) -> bool {
        forall|id: int|
            0 <= id < self@.len() ==> 0 <= #[trigger] self@[id] + volume_change(src, dest, id)
                <= u32::MAX
    }
}

/// A scan of no more than `n` cells counts no more than `n` pixels.
pub proof fn lemma_volume_bound<C: CPMCell>(cells: Seq<C>, id: int, n: int)
    requires
        0 <= n,
    ensures
        volume_upto(cells, id, n) <= n,
    decreases n,
{
    if n > 0 {
        lemma_volume_bound(cells, id, n - 1);
    }
}

/// Writing `cell` at place `d` changes the scanned volume of every instance by exactly what
/// one incremental update adds.
pub proof fn lemma_volume_flip<C: CPMCell>(cells: Seq<C>, d: int, cell: C, id: int)
    requires
        0 <= d < cells.len(),
    ensures
        volume_of(cells.update(d, cell), id) == volume_of(cells, id) + volume_change(
            cell,
            cells[d],
            id,
        ),
{
    lemma_volume_flip_upto(cells, d, cell, id, cells.len() as int);
}

proof fn lemma_volume_flip_upto<C: CPMCell>(cells: Seq<C>, d: int, cell: C, id: int, n: int)
    requires
        0 <= d < cells.len(),
        0 <= n <= cells.len(),
    ensures
        volume_upto(cells.update(d, cell), id, n) == volume_upto(cells, id, n) + if d < n {
            volume_change(cell, cells[d], id)
        } else {
            0
        },
    decreases n,
{
    if n > 0 {
        lemma_volume_flip_upto(cells, d, cell, id, n - 1);
    }
}

/// The count of instance `id` after one incremental update for each flip, started from
/// `start`.
pub open spec fn volume_after<C: CPMCell>(start: int, cells: Seq<C>, flips: Seq<(int, C)>, id: int) -> int
    decreases flips.len(),
{
    if flips.len() == 0 {
        start
    } else {
        let before = grid_after(cells, flips.drop_last());
        volume_after(start, cells, flips.drop_last(), id) + volume_change(
            flips.last().1,
            before[flips.last().0],
            id,
        )
    }
}

/// Started from a full scan and updated once for each flip of any sequence of flips, the
/// count of every instance is what a full scan of the final grid gives.
pub proof fn lemma_volume_tracking<C: CPMCell>(cells: Seq<C>, flips: Seq<(int, C)>, id: int)
    requires
        forall|i: int| 0 <= i < flips.len() ==> 0 <= (#[trigger] flips[i]).0 < cells.len(),
    ensures
        grid_after(cells, flips).len() == cells.len(),
        volume_after(volume_of(cells, id) as int, cells, flips, id) == volume_of(
            grid_after(cells, flips),
            id,
        ),
    decreases flips.len(),
{
    if flips.len() > 0 {
        let earlier = flips.drop_last();
        assert forall|i: int| 0 <= i < earlier.len() implies 0 <= (#[trigger] earlier[i]).0
            < cells.len() by {
            assert(earlier[i] == flips[i]);
        }
        lemma_volume_tracking(cells, earlier, id);
        lemma_volume_flip(grid_after(cells, earlier), flips.last().0, flips.last().1, id);
    }
}

/// Counts every pixel of `cells` under its id.
fn scan<C: CPMCell>(cells: &Vec<C>) -> (volumes: Vec<u32>)
    requires
        cells@.len() <= u32::MAX,
    ensures
        volumes@.len() == C::spec_max_id() + 1,
        forall|id: int| 0 <= id < volumes@.len() ==> volumes@[id] == volume_of(cells@, id),
{
    let size: usize = C::max_id() + 1;
    let mut volumes: Vec<u32> = Vec::with_capacity(size);
    let mut i: usize = 0;
    while i < size
        invariant
            i <= size,
            volumes@.len() == i,
            forall|id: int| 0 <= id < i ==> volumes@[id] == 0,
        decreases size - i,
    {
        volumes.push(0);
        i += 1;
    }
    let mut p: usize = 0;
    while p < cells.len()
        invariant
            p <= cells@.len() <= u32::MAX,
            volumes@.len() == size == C::spec_max_id() + 1,
            forall|id: int| 0 <= id < size ==> volumes@[id] == volume_upto(cells@, id, p as int),
        decreases cells@.len() - p,
    {
        let cell = cells[p];
        if !cell.is_bg() {
            let id = cell.id();
            proof {
                lemma_volume_bound(cells@, id as int, p as int);
            }
            let count: u32 = volumes[id];
            volumes.set(id, count + 1);
        }
        p += 1;
    }
    volumes
}

impl CellVolumes {
    /// While the counts are right, a flip keeps them within `u32`.
    pub proof fn lemma_counts_fit_flip<C: CPMCell>(&self, cells: Seq<C>, d: int, src: C, dest: C)
        requires
            self.counts(cells),
            cells.len() <= u32::MAX,
            0 <= d < cells.len(),
            cells[d].spec_id() == dest.spec_id(),
        ensures
            self.fits_flip(src, dest),
    {
        assert forall|id: int| 0 <= id < self@.len() implies 0 <= #[trigger] self@[id]
            + volume_change(src, dest, id) <= u32::MAX by {
            C::lemma_identity(cells[d], dest);
            lemma_volume_flip(cells, d, src, id);
            lemma_volume_bound(cells.update(d, src), id, cells.len() as int);
        }
    }

    /// Counts that were right before a flip are right after it, once they have taken the
    /// flip's change.
    pub proof fn lemma_update_keeps_counts<C: CPMCell>(
        &self,
        after: &Self,
        cells: Seq<C>,
        d: int,
        src: C,
        cell: C,
    )
        requires
            self.counts(cells),
            0 <= d < cells.len(),
            cell.spec_id() == src.spec_id(),
            after@.len() == self@.len(),
            forall|id: int|
                0 <= id < self@.len() ==> after@[id] == self@[id] + volume_change(
                    src,
                    cells[d],
                    id,
                ),
        ensures
            after.counts(cells.update(d, cell)),
    {
        assert forall|id: int| 0 <= id < after@.len() implies after@[id] == volume_of(
            cells.update(d, cell),
            id,
        ) by {
            C::lemma_identity(cell, src);
            lemma_volume_flip(cells, d, cell, id);
        }
    }

    /// Counts the pixels of every cell instance of `world`.
    pub fn from_world<const W: usize, const H: usize, C: CPMCell>(world: &World<W, H, C>) -> (volumes: Self)
        requires
            world.wf(),
            W * H <= u32::MAX,
        ensures
            volumes.counts(world@),
    {
        CellVolumes(scan(world.cells()))
    }

    /// Follows the flip of one pixel from `dest` to `src`: `src` gains a pixel and `dest`
    /// loses one, background excepted on either side. Where the counts were right for `world`
    /// and the pixel at `dest_idx` was of `dest`, they are right for `world` with `src`
    /// written there.
    pub fn update<const W: usize, const H: usize, C: CPMCell>(
        &mut self,
        world: &World<W, H, C>,
        src: C,
        dest: C,
        _src_idx: Coord,
        dest_idx: Coord,
    )
        requires
            old(self).wf::<C>(),
            old(self).fits_flip(src, dest),
        ensures
            final(self).wf::<C>(),
            forall|id: int|
                0 <= id < old(self)@.len() ==> final(self)@[id] == old(self)@[id] + volume_change(
                    src,
                    dest,
                    id,
                ),
            forall|bg: C|
                bg.spec_is_bg() ==> final(self)@[#[trigger] bg.spec_id() as int] == old(
                    self,
                )@[bg.spec_id() as int],
            world.wf() && old(self).counts(world@) && world.at(dest_idx).spec_id()
                == dest.spec_id() ==> final(self).counts(
                world@.update(World::<W, H, C>::place(dest_idx), src),
            ),
    {
        let ghost before = *self;
        proof {
            C::lemma_identity(src, dest);
        }
        let src_id = src.id();
        let dest_id = dest.id();
        if src_id != dest_id {
            if !src.is_bg() {
                assert(volume_change(src, dest, src_id as int) == 1);
                let count: u32 = self.0[src_id];
                self.0.set(src_id, count + 1);
            }
            if !dest.is_bg() {
                assert(volume_change(src, dest, dest_id as int) == -1);
                let count: u32 = self.0[dest_id];
                self.0.set(dest_id, count - 1);
            }
        }
        proof {
            assert forall|bg: C| bg.spec_is_bg() implies self@[#[trigger] bg.spec_id() as int]
                == before@[bg.spec_id() as int] by {
                C::lemma_identity(bg, src);
                C::lemma_identity(bg, dest);
                C::lemma_identity(bg, bg);
            }
            if world.wf() && before.counts(world@) && world.at(dest_idx).spec_id()
                == dest.spec_id() {
                let place = World::<W, H, C>::place(dest_idx);
                World::<W, H, C>::lemma_place_on_grid(dest_idx);
                C::lemma_identity(world@[place], dest);
                assert forall|id: int| 0 <= id < before@.len() implies self@[id] == before@[id]
                    + volume_change(src, world@[place], id) by {}
                before.lemma_update_keeps_counts(self, world@, place, src, src);
            }
        }
    }

    /// Counts all pixels of `world` anew.
    pub fn recalculate<const W: usize, const H: usize, C: CPMCell>(&mut self, world: &World<W, H, C>)
        requires
            world.wf(),
            W * H <= u32::MAX,
        ensures
            final(self).counts(world@),
    {
        self.0 = scan(world.cells());
    }

    /// The tracked pixel count of the instance that `cell` belongs to.
    pub fn get<C: CPMCell>(&self, cell: C) -> (volume: u32)
        requires
            self.wf::<C>(),
        ensures
            volume == self@[cell.spec_id() as int],
    {
        self.0[cell.id()]
    }
}

} // verus!
