use imgref::Img;
use loop9::loop9_img;
use rand::rngs::StdRng;
use rand::seq::SliceRandom;
use rand::Rng;
use vstd::prelude::*;
use vstd::std_specs::cmp::PartialEqSpec;

use crate::cell::Cell;

verus! {

/// A position on the grid: column, then row.
pub type Coord = (u32, u32);

/// The largest width or height of a grid: coordinates are moved by signed 32-bit offsets.
pub const MAX_SIDE: usize = 0x7fff_ffff;

/// `v` moved by `d` (one of -1, 0, 1) on a ring of `n` places.
pub open spec fn shift(v: int, d: int, n: int) -> int {
    if d < 0 {
        if v == 0 {
            n - 1
        } else {
            v - 1
        }
    } else if d > 0 {
        if v == n - 1 {
            0
        } else {
            v + 1
        }
    } else {
        v
    }
}

/// The column offset of the `k`-th neighbour, in row-major order around the centre.
pub open spec fn offset_x(k: int) -> int {
    if k == 0 || k == 3 || k == 5 {
        -1
    } else if k == 1 || k == 6 {
        0
    } else {
        1
    }
}

/// The row offset of the `k`-th neighbour, in row-major order around the centre.
pub open spec fn offset_y(k: int) -> int {
    if k <= 2 {
        -1
    } else if k <= 4 {
        0
    } else {
        1
    }
}

/// The place in a row-major grid of width `w` of the `k`-th neighbour of place `p`,
/// with both axes wrapping around.
pub open spec fn neighbour_place(p: int, k: int, w: int, h: int) -> int {
    shift(p / w, offset_y(k), h) * w + shift(p % w, offset_x(k), w)
}

/// The grid after a sequence of flips, each the place written and the cell written there.
pub open spec fn grid_after<C>(cells: Seq<C>, flips: Seq<(int, C)>) -> Seq<C>
    decreases flips.len(),
{
    if flips.len() == 0 {
        cells
    } else {
        grid_after(cells, flips.drop_last()).update(flips.last().0, flips.last().1)
    }
}

/// `v` held within `0..n`.
pub open spec fn clamp(v: int, n: int) -> int {
    if v < 0 {
        0
    } else if v >= n {
        n - 1
    } else {
        v
    }
}

/// The nine cells of the block of three by three around place `p` of a grid of width `w` and
/// height `h`, in row-major order. At an edge of the grid the block does not wrap: the cell at
/// the edge stands in for the one beyond it.
pub open spec fn block_at<C>(cells: Seq<C>, w: int, h: int, p: int) -> Seq<C> {
    Seq::new(9, |k: int| cells[clamp(p / w + k / 3 - 1, h) * w + clamp(p % w + k % 3 - 1, w)])
}

/// The grid with its outermost rows and columns overwritten so that they repeat the far side
/// of what they enclose: the first column takes the last but one, the last column the second,
/// and then likewise the rows.
pub open spec fn wrapped_edges<C>(cells: Seq<C>, w: int, h: int) -> Seq<C> {
    Seq::new(
        cells.len(),
        |p: int|
            {
                let x = p % w;
                let y = p / w;
                let from_x = if x == 0 {
                    w - 2
                } else if x == w - 1 {
                    1
                } else {
                    x
                };
                let from_y = if y == h - 1 {
                    1
                } else if y == 0 {
                    h - 2
                } else {
                    y
                };
                cells[from_y * w + from_x]
            },
    )
}

/// `cell` is what `rule` may return for a block of nine cells.
pub open spec fn rule_gives<C, F: Fn([C; 9]) -> C>(rule: F, block: Seq<C>, cell: C) -> bool {
    exists|nine: [C; 9]| nine@ == block && call_ensures(rule, (nine,), cell)
}

/// `loop9_img` of the loop9 crate, run over `cells` as an image of the imgref crate, `width`
/// by `height`: for every place in row-major order it hands out the block of three by three
/// around the place, and at an edge of the image it repeats the cell at the edge. The blocks
/// are collected as they come, each in row-major order. `Img::new` refuses a width of zero,
/// and the blocks are as stated only where the buffer ends with the image.
#[verifier::external_body]
pub(crate) fn blocks<C: Copy>(cells: &Vec<C>, width: usize, height: usize) -> (out: Vec<[C; 9]>)
    requires
        0 < width <= u32::MAX,
        0 < height <= u32::MAX,
        cells@.len() == width * height,
    ensures
        out@.len() == width * height,
        forall|p: int|
            0 <= p < width * height ==> (#[trigger] out@[p])@ == block_at(
                cells@,
                width as int,
                height as int,
                p,
            ),
{
    let mut out = Vec::with_capacity(cells.len());
    loop9_img(
        Img::new(cells.as_slice(), width, height),
        |_x, _y, top, mid, bot|
            out.push(
                [top.prev, top.curr, top.next, mid.prev, mid.curr, mid.next, bot.prev, bot.curr, bot.next],
            ),
    );
    out
}

/// `StdRng` of the rand crate, the generator that draws are made from. Nothing is known of
/// its state.
#[verifier::external_type_specification]
#[verifier::external_body]
pub struct ExStdRng(rand::rngs::StdRng);

/// `Rng::gen_range` of the rand crate on the range `0..n`: a number below `n`. Which one
/// depends on the generator's state, of which nothing is claimed. An empty range makes
/// `gen_range` panic, so `n` is above zero.
#[verifier::external_body]
fn random_below(rng: &mut StdRng, n: u32) -> (r: u32)
    requires
        n > 0,
    ensures
        r < n,
{
    rng.gen_range(0..n)
}

/// `SliceRandom::choose` of the rand crate on eight coordinates: one of the eight. Which one
/// depends on the generator's state, of which nothing is claimed.
#[verifier::external_body]
fn choose_coord(rng: &mut StdRng, options: &[Coord; 8]) -> (c: Coord)
    ensures
        options@.contains(c),
{
    *options.choose(rng).unwrap()
}

/// One attempt of a sweep as it went: the grid, the decider and the generator as the attempt
/// found them, the source and the destination that were drawn, the cell that was written at
/// the destination, or none where the attempt was skipped, and the decider and the generator
/// as the attempt left them.
pub struct Attempt<const W: usize, const H: usize, C: Cell, U> {
    pub world: World<W, H, C>,
    pub src_idx: Coord,
    pub dest_idx: Coord,
    pub written: Option<C>,
    pub update_before: U,
    pub update_after: U,
    pub rng_before: StdRng,
    pub rng_after: StdRng,
}

/// What decides the copies that a sweep proposes.
pub trait Update<const W: usize, const H: usize, C: Cell>: Sized {
    /// What is true of the decider and the cells of the grid whenever a copy is proposed.
    spec fn agrees(&self, cells: Seq<C>) -> bool;

    /// What a decision leaves of the decider as it was `before`.
    spec fn keeps(&self, before: &Self) -> bool;

    /// Whether `cell` may come of a copy, or of a chain of copies, of the cell `from`.
    spec fn descends(&self, cell: C, from: C) -> bool;

    /// Whether the decider refuses every copy.
    spec fn refuses(&self) -> bool;

    /// All that the decider promises of one decision: of itself after the decision and as it
    /// was `before`, of the cell that it returned, and of the generator before and after.
    spec fn decided(
        &self,
        before: &Self,
        world: &World<W, H, C>,
        src: C,
        dest: C,
        src_idx: Coord,
        dest_idx: Coord,
        cell: C,
        rng_before: StdRng,
        rng_after: StdRng,
    ) -> bool;

    /// What one decision keeps, any number of decisions keep.
    proof fn lemma_keeps(first: &Self, second: &Self, third: &Self)
        ensures
            first.keeps(first),
            third.keeps(second) && second.keeps(first) ==> third.keeps(first),
    ;

    /// A decider that is kept refuses as before and lets cells descend as before.
    proof fn lemma_kept(earlier: &Self, later: &Self, cell: C, from: C)
        requires
            later.keeps(earlier),
        ensures
            later.refuses() == earlier.refuses(),
            later.descends(cell, from) == earlier.descends(cell, from),
    ;

    /// A descendant of a descendant is a descendant.
    proof fn lemma_descends(&self, first: C, second: C, third: C)
        requires
            self.descends(third, second),
            self.descends(second, first),
        ensures
            self.descends(third, first),
    ;

    /// The cells are compared as their `eq_spec` says.
    proof fn lemma_compares()
        ensures
            C::obeys_eq_spec(),
    ;

    /// Decides the copy of `src`, the cell at `src_idx`, over `dest`, the cell at `dest_idx`,
    /// which are not equal, and returns the cell that is to stand at `dest_idx`: `dest` where
    /// the copy is refused.
    fn update(
        &mut self,
        world: &World<W, H, C>,
        src: C,
        dest: C,
        src_idx: Coord,
        dest_idx: Coord,
        rng: &mut StdRng,
    ) -> (cell: C)
        requires
            world.wf(),
            old(self).agrees(world@),
            src == world.at(src_idx),
            dest == world.at(dest_idx),
            !src.eq_spec(&dest),
        ensures
            final(self).agrees(world@.update(World::<W, H, C>::place(dest_idx), cell)),
            final(self).keeps(old(self)),
            cell == dest || old(self).descends(cell, src),
            old(self).refuses() ==> cell == dest,
            final(self).decided(
                old(self),
                world,
                src,
                dest,
                src_idx,
                dest_idx,
                cell,
                *old(rng),
                *final(rng),
            ),
    ;
}

/// Whether `cell` descends, as `update` has it, from one of `cells`.
pub open spec fn has_ancestor<const W: usize, const H: usize, C: Cell, U: Update<W, H, C>>(
    update: &U,
    cell: C,
    cells: Seq<C>,
) -> bool {
    exists|q: int| 0 <= q < cells.len() && update.descends(cell, #[trigger] cells[q])
}

/// A toroidal grid of `W` columns and `H` rows of cells.
pub struct World<const W: usize, const H: usize, C: Cell> {
    cells: Vec<C>,
}

impl<const W: usize, const H: usize, C: Cell> View for World<W, H, C> {
    type V = Seq<C>;

    /// The cells in row-major order.
    closed spec fn view(&self) -> Seq<C> {
        self.cells@
    }
}

impl<const W: usize, const H: usize, C: Cell> World<W, H, C> {
    /// The grid has `W * H` cells, and both sides are within `1..=MAX_SIDE`.
    pub open spec fn wf(&self) -> bool {
        &&& 0 < W <= MAX_SIDE
        &&& 0 < H <= MAX_SIDE
        &&& self@.len() == W * H
    }

    /// The place of a coordinate in the row-major order, each axis taken modulo its side.
    pub open spec fn place(idx: Coord) -> int {
        (idx.1 as int % H as int) * W as int + (idx.0 as int % W as int)
    }

    /// The cell at a coordinate.
    pub open spec fn at(&self, idx: Coord) -> C {
        self@[Self::place(idx)]
    }

    /// The coordinate of the `k`-th of the eight cells around `idx`.
    pub open spec fn neighbour_idx(idx: Coord, k: int) -> (int, int) {
        ((idx.0 + offset_x(k)) % (W as int), (idx.1 + offset_y(k)) % (H as int))
    }

    /// Whether `dest_idx` is the coordinate of one of the eight cells around `src_idx`.
    pub open spec fn adjoins(src_idx: Coord, dest_idx: Coord) -> bool {
        exists|k: int|
            0 <= k < 8 && #[trigger] Self::neighbour_idx(src_idx, k) == (
                dest_idx.0 as int,
                dest_idx.1 as int,
            )
    }

    /// The cells after a run of attempts: each attempt that was not skipped has written its
    /// cell at its destination, a later one over an earlier one.
    pub open spec fn after_attempts<U>(cells: Seq<C>, attempts: Seq<Attempt<W, H, C, U>>) -> Seq<C>
        decreases attempts.len(),
    {
        if attempts.len() == 0 {
            cells
        } else {
            let before = Self::after_attempts(cells, attempts.drop_last());
            match attempts.last().written {
                Some(cell) => before.update(Self::place(attempts.last().dest_idx), cell),
                None => before,
            }
        }
    }

    /// Whether an attempt went as attempts go: the source lies on the grid and the
    /// destination is one of the eight around it; where the two cells were equal nothing was
    /// written, and neither the decider nor the generator was touched; else the decider
    /// decided, as far as it is kept, and what it promises of a decision holds.
    pub open spec fn went<U: Update<W, H, C>>(attempt: Attempt<W, H, C, U>) -> bool {
        let src = attempt.world.at(attempt.src_idx);
        let dest = attempt.world.at(attempt.dest_idx);
        &&& attempt.world.wf()
        &&& attempt.src_idx.0 < W
        &&& attempt.src_idx.1 < H
        &&& Self::adjoins(attempt.src_idx, attempt.dest_idx)
        &&& attempt.update_after.keeps(&attempt.update_before)
        &&& match attempt.written {
            None => {
                &&& src.eq_spec(&dest)
                &&& attempt.update_after == attempt.update_before
                &&& attempt.rng_after == attempt.rng_before
            },
            Some(cell) => {
                &&& !src.eq_spec(&dest)
                &&& attempt.update_before.refuses() ==> cell == dest
                &&& attempt.update_after.decided(
                    &attempt.update_before,
                    &attempt.world,
                    src,
                    dest,
                    attempt.src_idx,
                    attempt.dest_idx,
                    cell,
                    attempt.rng_before,
                    attempt.rng_after,
                )
            },
        }
    }

    /// Whether the `i`-th of a run of attempts on `cells` by a decider that was `update` at
    /// first took up where the attempt before it left off.
    pub open spec fn took_up<U: Update<W, H, C>>(
        cells: Seq<C>,
        update: U,
        attempts: Seq<Attempt<W, H, C, U>>,
        i: int,
    ) -> bool {
        &&& attempts[i].world@ == Self::after_attempts(cells, attempts.take(i))
        &&& attempts[i].update_before == if i == 0 {
            update
        } else {
            attempts[i - 1].update_after
        }
    }

    /// The byte at index `j` of a frame of RGBA pixels, `frame_width` pixels wide, once the
    /// grid is drawn over `before` with each cell a square of `scale` pixels: the colour of
    /// the cell that covers the pixel, or the old byte where no cell covers it or where the
    /// frame ends within the pixel.
    pub open spec fn drawn_byte(&self, before: Seq<u8>, j: int, frame_width: int, scale: int) -> u8 {
        let i = j / 4;
        let x = (i % frame_width) / scale;
        let y = (i / frame_width) / scale;
        if i < before.len() / 4 && x < W && y < H {
            self@[y * W + x].spec_colour()[j % 4]
        } else {
            before[j]
        }
    }

    /// Every coordinate has a place on the grid.
    pub proof fn lemma_place_on_grid(idx: Coord)
        requires
            0 < W,
            0 < H,
        ensures
            0 <= Self::place(idx) < W * H,
    {
        vstd::arithmetic::div_mod::lemma_mod_bound(idx.0 as int, W as int);
        vstd::arithmetic::div_mod::lemma_mod_bound(idx.1 as int, H as int);
        lemma_place_coords(idx.0 as int % W as int, idx.1 as int % H as int, W as int, H as int);
    }

    /// The eight cells around a coordinate, in row-major order without the centre.
    pub open spec fn neighbours_of(&self, idx: Coord) -> Seq<C> {
        Seq::new(8, |k: int| self@[neighbour_place(Self::place(idx), k, W as int, H as int)])
    }
}

/// A row-major place splits back into its row and its column.
pub proof fn lemma_place_coords(x: int, y: int, w: int, h: int)
    requires
        0 <= x < w,
        0 <= y < h,
    ensures
        0 <= y * w + x < w * h,
        (y * w + x) % w == x,
        (y * w + x) / w == y,
{
    vstd::arithmetic::div_mod::lemma_fundamental_div_mod_converse(y * w + x, w, y, x);
    assert(y * w + x < w * h) by (nonlinear_arith)
        requires
            0 <= x < w,
            0 <= y < h,
    ;
    assert(0 <= y * w) by (nonlinear_arith)
        requires
            0 <= y,
            0 < w,
    ;
}

/// Every place below `w * h` has a row below `h` and a column below `w`.
pub proof fn lemma_coords_of_place(p: int, w: int, h: int)
    requires
        0 < w,
        0 <= p < w * h,
    ensures
        0 <= p % w < w,
        0 <= p / w < h,
        (p / w) * w + p % w == p,
{
    vstd::arithmetic::div_mod::lemma_fundamental_div_mod(p, w);
    vstd::arithmetic::div_mod::lemma_mod_bound(p, w);
    assert(0 <= p / w < h) by (nonlinear_arith)
        requires
            0 < w,
            0 <= p < w * h,
            p == w * (p / w) + p % w,
            0 <= p % w < w,
    ;
    assert((p / w) * w == w * (p / w)) by (nonlinear_arith);
}

/// On a ring, a step of -1, 0 or 1 is addition modulo the ring's size.
pub proof fn lemma_shift_is_mod(v: int, d: int, n: int)
    requires
        0 <= v < n,
        -1 <= d <= 1,
    ensures
        0 <= shift(v, d, n) < n,
        shift(v, d, n) == (v + d) % n,
{
    if 0 <= v + d < n {
        vstd::arithmetic::div_mod::lemma_small_mod((v + d) as nat, n as nat);
    } else if v + d == n {
        vstd::arithmetic::div_mod::lemma_mod_self_0(n);
    } else {
        vstd::arithmetic::div_mod::lemma_small_mod((n - 1) as nat, n as nat);
        vstd::arithmetic::div_mod::lemma_mod_add_multiples_vanish(-1, n);
    }
}

/// A neighbour's place lies on the grid, and stepping back from it by the opposite offset
/// returns to the start.
pub proof fn lemma_neighbour_place(p: int, k: int, w: int, h: int)
    requires
        0 < w,
        0 < h,
        0 <= p < w * h,
        0 <= k < 8,
    ensures
        0 <= neighbour_place(p, k, w, h) < w * h,
        neighbour_place(neighbour_place(p, k, w, h), 7 - k, w, h) == p,
        (w >= 2 && h >= 2) ==> neighbour_place(p, k, w, h) != p,
{
    lemma_coords_of_place(p, w, h);
    let x = shift(p % w, offset_x(k), w);
    let y = shift(p / w, offset_y(k), h);
    lemma_place_coords(x, y, w, h);
    let q = neighbour_place(p, k, w, h);
    assert(q == y * w + x);
    assert(shift(x, offset_x(7 - k), w) == p % w);
    assert(shift(y, offset_y(7 - k), h) == p / w);
}

/// A coordinate's `k`-th neighbour, taken modulo the sides, stands at the `k`-th
/// neighbouring place of the coordinate's place.
pub proof fn lemma_place_of_neighbour(idx: Coord, nidx: Coord, k: int, w: int, h: int)
    requires
        0 < w,
        0 < h,
        0 <= k < 8,
        nidx.0 == (idx.0 + offset_x(k)) % w,
        nidx.1 == (idx.1 + offset_y(k)) % h,
    ensures
        (nidx.1 as int % h) * w + (nidx.0 as int % w) == neighbour_place(
            (idx.1 as int % h) * w + (idx.0 as int % w),
            k,
            w,
            h,
        ),
{
    let x = idx.0 as int % w;
    let y = idx.1 as int % h;
    vstd::arithmetic::div_mod::lemma_mod_bound(idx.0 as int, w);
    vstd::arithmetic::div_mod::lemma_mod_bound(idx.1 as int, h);
    lemma_place_coords(x, y, w, h);
    lemma_shift_is_mod(x, offset_x(k), w);
    lemma_shift_is_mod(y, offset_y(k), h);
    vstd::arithmetic::div_mod::lemma_add_mod_noop_right(offset_x(k), idx.0 as int, w);
    vstd::arithmetic::div_mod::lemma_add_mod_noop_right(offset_y(k), idx.1 as int, h);
    vstd::arithmetic::div_mod::lemma_small_mod(nidx.0 as nat, w as nat);
    vstd::arithmetic::div_mod::lemma_small_mod(nidx.1 as nat, h as nat);
}

impl<const W: usize, const H: usize, C: Cell + Default> Default for World<W, H, C> {
    /// A grid of default cells. Where a side is zero or above `MAX_SIDE`, or the grid is too
    /// large for the machine, there is no such grid, and what is returned holds no cell.
    fn default() -> (world: Self)
        ensures
            (0 < W <= MAX_SIDE && 0 < H <= MAX_SIDE && W * H <= usize::MAX) ==> world.wf(),
            forall|p: int|
                0 <= p < world@.len() ==> call_ensures(C::default, (), #[trigger] world@[p]),
    {
        let mut cells: Vec<C> = Vec::new();
        if 0 < W && W <= MAX_SIDE && 0 < H && H <= MAX_SIDE {
            if let Some(n) = W.checked_mul(H) {
                let mut i: usize = 0;
                while i < n
                    invariant
                        i <= n,
                        cells@.len() == i,
                        forall|p: int| 0 <= p < i ==> call_ensures(C::default, (), #[trigger] cells@[p]),
                    decreases n - i,
                {
                    cells.push(C::default());
                    i += 1;
                }
            }
        }
        World { cells }
    }
}

/// `v + d` modulo `n`.
fn ring_add(v: u32, d: i32, n: usize) -> (r: u32)
    requires
        0 < n <= MAX_SIDE,
    ensures
        r == (v + d) % (n as int),
{
    let side: i64 = n as i64;
    let base: i64 = v as i64 % side;
    let step: i64 = if d >= 0 {
        d as i64 % side
    } else {
        let back: i64 = (-(d as i64)) % side;
        proof {
            let e = -(d as int);
            let q = e / (side as int);
            vstd::arithmetic::div_mod::lemma_fundamental_div_mod(e, side as int);
            assert((-q) * side == -(side * q)) by (nonlinear_arith);
            assert((-q - 1) * side == -(side * q) - side) by (nonlinear_arith);
            if back == 0 {
                vstd::arithmetic::div_mod::lemma_fundamental_div_mod_converse(
                    d as int,
                    side as int,
                    -(e / (side as int)),
                    0,
                );
            } else {
                vstd::arithmetic::div_mod::lemma_fundamental_div_mod_converse(
                    d as int,
                    side as int,
                    -(e / (side as int)) - 1,
                    side - back,
                );
            }
        }
        if back == 0 {
            0
        } else {
            side - back
        }
    };
    proof {
        vstd::arithmetic::div_mod::lemma_add_mod_noop(v as int, d as int, side as int);
    }
    ((base + step) % side) as u32
}

impl<const W: usize, const H: usize, C: Cell> World<W, H, C> {
    /// A grid that holds `cell` everywhere.
    pub fn filled(cell: C) -> (world: Self)
        requires
            0 < W <= MAX_SIDE,
            0 < H <= MAX_SIDE,
            W * H <= usize::MAX,
        ensures
            world.wf(),
            forall|p: int| 0 <= p < W * H ==> world@[p] == cell,
    {
        let n: usize = W * H;
        let mut cells: Vec<C> = Vec::with_capacity(n);
        let mut i: usize = 0;
        while i < n
            invariant
                i <= n,
                cells@.len() == i,
                forall|p: int| 0 <= p < i ==> cells@[p] == cell,
            decreases n - i,
        {
            cells.push(cell);
            i += 1;
        }
        World { cells }
    }

    /// A grid whose cell at each place is what `function` returns for the place, the places
    /// taken in row-major order.
    pub fn from_fn<F>(function: F) -> (world: Self) where F: Fn(usize) -> C
        requires
            0 < W <= MAX_SIDE,
            0 < H <= MAX_SIDE,
            W * H <= usize::MAX,
            forall|p: usize| 0 <= p < W * H ==> call_requires(function, (p,)),
        ensures
            world.wf(),
            forall|p: usize| 0 <= p < W * H ==> call_ensures(function, (p,), #[trigger] world@[p as int]),
    {
        let n: usize = W * H;
        let mut cells: Vec<C> = Vec::with_capacity(n);
        let mut i: usize = 0;
        while i < n
            invariant
                i <= n == W * H,
                cells@.len() == i,
                forall|p: usize| 0 <= p < W * H ==> call_requires(function, (p,)),
                forall|p: usize| 0 <= p < i ==> call_ensures(function, (p,), #[trigger] cells@[p as int]),
            decreases n - i,
        {
            cells.push(function(i));
            i += 1;
        }
        World { cells }
    }

    /// Draws the grid into `frame`, a buffer of RGBA pixels `frame_width` pixels wide, each
    /// cell as a square of `scale` pixels in its colour. Pixels that no cell covers, and bytes
    /// after the last whole pixel, are left as they are.
    pub fn draw(&self, frame: &mut [u8], frame_width: usize, scale: usize)
        requires
            self.wf(),
            frame_width > 0,
            scale > 0,
        ensures
            final(frame)@.len() == old(frame)@.len(),
            forall|j: int|
                0 <= j < old(frame)@.len() ==> #[trigger] final(frame)@[j] == self.drawn_byte(
                    old(frame)@,
                    j,
                    frame_width as int,
                    scale as int,
                ),
    {
        let len: usize = frame.len();
        let pixels: usize = len / 4;
        let mut i: usize = 0;
        while i < pixels
            invariant
                self.wf(),
                frame_width > 0,
                scale > 0,
                i <= pixels == len / 4,
                frame@.len() == old(frame)@.len() == len,
                forall|j: int|
                    0 <= j < 4 * i ==> #[trigger] frame@[j] == self.drawn_byte(
                        old(frame)@,
                        j,
                        frame_width as int,
                        scale as int,
                    ),
                forall|j: int| 4 * i <= j < frame@.len() ==> #[trigger] frame@[j] == old(frame)@[j],
            decreases pixels - i,
        {
            let x: usize = i % frame_width / scale;
            let y: usize = i / frame_width / scale;
            if x < W && y < H {
                let idx: Coord = (x as u32, y as u32);
                proof {
                    lemma_place_coords(x as int, y as int, W as int, H as int);
                    vstd::arithmetic::div_mod::lemma_small_mod(x as nat, W as nat);
                    vstd::arithmetic::div_mod::lemma_small_mod(y as nat, H as nat);
                    assert(Self::place(idx) == y * W + x);
                }
                let rgba = self.get_cell(idx).colour();
                frame[4 * i] = rgba[0];
                frame[4 * i + 1] = rgba[1];
                frame[4 * i + 2] = rgba[2];
                frame[4 * i + 3] = rgba[3];
            }
            i += 1;
        }
    }

    /// Overwrites the outermost rows and columns so that they repeat the far side of what
    /// they enclose.
    fn wrap_edges(&mut self)
        requires
            old(self).wf(),
            W >= 2,
            H >= 2,
        ensures
            final(self).wf(),
            final(self)@ == wrapped_edges(old(self)@, W as int, H as int),
    {
        let n: usize = self.cells.len();
        let mut wrapped: Vec<C> = Vec::with_capacity(n);
        let mut y: usize = 0;
        while y < H
            invariant
                self.wf(),
                W >= 2,
                H >= 2,
                n == W * H,
                y <= H,
                wrapped@.len() == y * W,
                forall|p: int|
                    0 <= p < y * W ==> #[trigger] wrapped@[p] == wrapped_edges(
                        self@,
                        W as int,
                        H as int,
                    )[p],
            decreases H - y,
        {
            let from_y: usize = if y == H - 1 {
                1
            } else if y == 0 {
                H - 2
            } else {
                y
            };
            let mut x: usize = 0;
            while x < W
                invariant
                    self.wf(),
                    W >= 2,
                    H >= 2,
                    n == W * H,
                    y < H,
                    x <= W,
                    from_y < H,
                    from_y == (if y == H - 1 {
                        1int
                    } else if y == 0 {
                        H - 2
                    } else {
                        y as int
                    }),
                    wrapped@.len() == y * W + x,
                    forall|p: int|
                        0 <= p < y * W + x ==> #[trigger] wrapped@[p] == wrapped_edges(
                            self@,
                            W as int,
                            H as int,
                        )[p],
                decreases W - x,
            {
                let from_x: usize = if x == 0 {
                    W - 2
                } else if x == W - 1 {
                    1
                } else {
                    x
                };
                proof {
                    lemma_place_coords(x as int, y as int, W as int, H as int);
                    lemma_place_coords(from_x as int, from_y as int, W as int, H as int);
                    assert(0 <= from_y * W <= from_y * W + from_x < n);
                }
                wrapped.push(self.cells[from_y * W + from_x]);
                x += 1;
            }
            proof {
                assert(y * W + W == (y + 1) * W) by (nonlinear_arith);
            }
            y += 1;
        }
        proof {
            assert(H * W == W * H) by (nonlinear_arith);
            assert(wrapped@ =~= wrapped_edges(self@, W as int, H as int));
        }
        self.cells = wrapped;
    }

    /// Gives every cell the value that `rule` returns for the block of three by three around
    /// it, all blocks taken from the grid as it was: first the outermost rows and columns are
    /// overwritten to repeat the far side of what they enclose, so that inside them the grid
    /// wraps around, and then every place, the outermost too, is given its new cell.
    pub fn convolve<F>(&mut self, rule: F) where F: Fn([C; 9]) -> C
        requires
            old(self).wf(),
            W >= 2,
            H >= 2,
            forall|block: [C; 9]| call_requires(rule, (block,)),
        ensures
            final(self).wf(),
            forall|p: int|
                0 <= p < W * H ==> rule_gives(
                    rule,
                    block_at(wrapped_edges(old(self)@, W as int, H as int), W as int, H as int, p),
                    #[trigger] final(self)@[p],
                ),
    {
        self.wrap_edges();
        let blocks = blocks(&self.cells, W, H);
        let n: usize = blocks.len();
        let mut cells: Vec<C> = Vec::with_capacity(n);
        let mut p: usize = 0;
        while p < n
            invariant
                p <= n == W * H,
                blocks@.len() == n,
                cells@.len() == p,
                forall|block: [C; 9]| call_requires(rule, (block,)),
                forall|q: int| 0 <= q < p ==> call_ensures(rule, (blocks@[q],), #[trigger] cells@[q]),
            decreases n - p,
        {
            cells.push(rule(blocks[p]));
            p += 1;
        }
        proof {
            assert forall|q: int| 0 <= q < W * H implies rule_gives(
                rule,
                block_at(wrapped_edges(old(self)@, W as int, H as int), W as int, H as int, q),
                #[trigger] cells@[q],
            ) by {
                let block = blocks@[q];
                assert(block@ == block_at(self@, W as int, H as int, q));
                assert(call_ensures(rule, (block,), cells@[q]));
            }
        }
        self.cells = cells;
    }

    /// One attempt: where the cell at `src_idx` and the cell at `dest_idx` are equal nothing
    /// is done, and the decider and the generator are not touched; else `update` decides the
    /// copy, and the cell that it returns is written at `dest_idx` and handed back.
    pub fn attempt<U: Update<W, H, C>>(
        &mut self,
        update: &mut U,
        src_idx: Coord,
        dest_idx: Coord,
        rng: &mut StdRng,
    ) -> (written: Option<C>)
        requires
            old(self).wf(),
            old(update).agrees(old(self)@),
        ensures
            final(self).wf(),
            final(update).agrees(final(self)@),
            final(update).keeps(old(update)),
            written.is_none() <==> old(self).at(src_idx).eq_spec(&old(self).at(dest_idx)),
            written.is_none() ==> final(self)@ == old(self)@ && *final(update) == *old(update)
                && *final(rng) == *old(rng),
            match written {
                Some(cell) => {
                    &&& final(self)@ == old(self)@.update(Self::place(dest_idx), cell)
                    &&& cell == old(self).at(dest_idx) || old(update).descends(
                        cell,
                        old(self).at(src_idx),
                    )
                    &&& old(update).refuses() ==> cell == old(self).at(dest_idx)
                    &&& final(update).decided(
                        old(update),
                        old(self),
                        old(self).at(src_idx),
                        old(self).at(dest_idx),
                        src_idx,
                        dest_idx,
                        cell,
                        *old(rng),
                        *final(rng),
                    )
                },
                None => true,
            },
    {
        let src = self.get_cell(src_idx);
        let dest = self.get_cell(dest_idx);
        proof {
            U::lemma_compares();
            U::lemma_keeps(update, update, update);
        }
        if src != dest {
            let cell = update.update(self, src, dest, src_idx, dest_idx, rng);
            self.set_cell(dest_idx, cell);
            Some(cell)
        } else {
            None
        }
    }

    /// One sweep of copy attempts, as many as the grid has cells: each time a source is drawn
    /// evenly from the grid and a destination evenly from the eight cells around the source,
    /// and `attempt` makes the attempt. A later attempt sees what an earlier one wrote. What
    /// is handed back tells how the sweep went, attempt by attempt.
    pub fn metropolis<U: Update<W, H, C>>(&mut self, update: &mut U, rng: &mut StdRng) -> (attempts:
        Ghost<Seq<Attempt<W, H, C, U>>>)
        requires
            old(self).wf(),
            old(update).agrees(old(self)@),
        ensures
            final(self).wf(),
            final(update).agrees(final(self)@),
            final(update).keeps(old(update)),
            attempts@.len() == W * H,
            forall|i: int|
                0 <= i < attempts@.len() ==> Self::went(#[trigger] attempts@[i]) && Self::took_up(
                    old(self)@,
                    *old(update),
                    attempts@,
                    i,
                ),
            attempts@.len() > 0 ==> attempts@.last().update_after == *final(update),
            attempts@.len() == 0 ==> *final(update) == *old(update),
            final(self)@ == Self::after_attempts(old(self)@, attempts@),
            forall|p: int|
                0 <= p < W * H ==> #[trigger] final(self)@[p] == old(self)@[p] || has_ancestor(
                    old(update),
                    final(self)@[p],
                    old(self)@,
                ),
            old(update).refuses() ==> final(self)@ == old(self)@,
    {
        let n: usize = self.cells.len();
        let mut i: usize = 0;
        let ghost mut attempts: Seq<Attempt<W, H, C, U>> = Seq::empty();
        proof {
            U::lemma_keeps(update, update, update);
        }
        while i < n
            invariant
                self.wf(),
                n == W * H == old(self)@.len(),
                i <= n,
                update.agrees(self@),
                update.keeps(old(update)),
                attempts.len() == i,
                forall|j: int|
                    0 <= j < attempts.len() ==> Self::went(#[trigger] attempts[j]) && Self::took_up(
                        old(self)@,
                        *old(update),
                        attempts,
                        j,
                    ),
                attempts.len() > 0 ==> attempts.last().update_after == *update,
                attempts.len() == 0 ==> *update == *old(update),
                self@ == Self::after_attempts(old(self)@, attempts),
                forall|p: int|
                    0 <= p < W * H ==> #[trigger] self@[p] == old(self)@[p] || has_ancestor(
                        old(update),
                        self@[p],
                        old(self)@,
                    ),
                old(update).refuses() ==> self@ == old(self)@,
            decreases n - i,
        {
            let ghost world = *self;
            let ghost before = *update;
            let ghost cells = self@;
            let ghost earlier = attempts;
            let src_idx: Coord = (random_below(rng, W as u32), random_below(rng, H as u32));
            let options = Self::get_neighbours_idx(src_idx);
            let dest_idx = choose_coord(rng, &options);
            let ghost drawn = *rng;
            let written = self.attempt(update, src_idx, dest_idx, rng);
            proof {
                let attempt = Attempt {
                    world,
                    src_idx,
                    dest_idx,
                    written,
                    update_before: before,
                    update_after: *update,
                    rng_before: drawn,
                    rng_after: *rng,
                };
                attempts = earlier.push(attempt);
                assert(attempts.drop_last() =~= earlier);
                assert(attempts.take(i as int) =~= earlier);
                let k = choose|k: int| 0 <= k < 8 && options@[k] == dest_idx;
                assert(Self::neighbour_idx(src_idx, k) == (dest_idx.0 as int, dest_idx.1 as int));
                U::lemma_keeps(old(update), &before, update);
                Self::lemma_place_on_grid(src_idx);
                Self::lemma_place_on_grid(dest_idx);
                U::lemma_kept(
                    old(update),
                    &before,
                    cells[Self::place(dest_idx)],
                    cells[Self::place(src_idx)],
                );
                assert(Self::went(attempt));
                assert forall|j: int| 0 <= j < attempts.len() implies Self::went(
                    #[trigger] attempts[j],
                ) && Self::took_up(old(self)@, *old(update), attempts, j) by {
                    if j < i {
                        assert(attempts[j] == earlier[j]);
                        assert(attempts.take(j) =~= earlier.take(j));
                        assert(Self::took_up(old(self)@, *old(update), earlier, j));
                        if j > 0 {
                            assert(attempts[j - 1] == earlier[j - 1]);
                        }
                    }
                }
                match written {
                    Some(cell) => {
                        let src = cells[Self::place(src_idx)];
                        let dest = cells[Self::place(dest_idx)];
                        U::lemma_kept(old(update), &before, cell, src);
                        if cell == dest {
                            assert(self@ =~= cells);
                        } else {
                            if src != old(self)@[Self::place(src_idx)] {
                                let q = choose|q: int|
                                    0 <= q < old(self)@.len() && old(update).descends(
                                        src,
                                        #[trigger] old(self)@[q],
                                    );
                                old(update).lemma_descends(old(self)@[q], src, cell);
                            }
                            assert(has_ancestor(old(update), cell, old(self)@));
                        }
                    },
                    None => {},
                }
            }
            i += 1;
        }
        Ghost(attempts)
    }

    /// All cells in row-major order.
    pub fn cells(&self) -> (cells: &Vec<C>)
        ensures
            cells@ == self@,
    {
        &self.cells
    }

    /// The row-major place of a coordinate, each axis taken modulo its side.
    fn place_of(&self, idx: Coord) -> (p: usize)
        requires
            self.wf(),
        ensures
            p == Self::place(idx),
            p < W * H,
    {
        let x: usize = idx.0 as usize % W;
        let y: usize = idx.1 as usize % H;
        let n: usize = self.cells.len();
        proof {
            lemma_place_coords(x as int, y as int, W as int, H as int);
            assert(0 <= y * W <= y * W + x < n);
        }
        y * W + x
    }

    /// The cell at a coordinate; a coordinate beyond a side wraps around it.
    pub fn get_cell(&self, idx: Coord) -> (cell: C)
        requires
            self.wf(),
        ensures
            cell == self.at(idx),
    {
        let p = self.place_of(idx);
        self.cells[p]
    }

    /// The coordinate `offset` away from `cell_idx`, each axis taken modulo its side.
    pub fn get_neighbour_idx(cell_idx: Coord, offset: (i32, i32)) -> (idx: Coord)
        requires
            0 < W <= MAX_SIDE,
            0 < H <= MAX_SIDE,
        ensures
            idx.0 == (cell_idx.0 + offset.0) % (W as int),
            idx.1 == (cell_idx.1 + offset.1) % (H as int),
    {
        (ring_add(cell_idx.0, offset.0, W), ring_add(cell_idx.1, offset.1, H))
    }

    /// The coordinates of the eight cells around `cell_idx`, in row-major order without the
    /// centre.
    pub fn get_neighbours_idx(cell_idx: Coord) -> (idx: [Coord; 8])
        requires
            0 < W <= MAX_SIDE,
            0 < H <= MAX_SIDE,
        ensures
            forall|k: int|
                0 <= k < 8 ==> {
                    &&& (#[trigger] idx[k]).0 == (cell_idx.0 + offset_x(k)) % (W as int)
                    &&& idx[k].1 == (cell_idx.1 + offset_y(k)) % (H as int)
                },
    {
        [
            Self::get_neighbour_idx(cell_idx, (-1, -1)),
            Self::get_neighbour_idx(cell_idx, (0, -1)),
            Self::get_neighbour_idx(cell_idx, (1, -1)),
            Self::get_neighbour_idx(cell_idx, (-1, 0)),
            Self::get_neighbour_idx(cell_idx, (1, 0)),
            Self::get_neighbour_idx(cell_idx, (-1, 1)),
            Self::get_neighbour_idx(cell_idx, (0, 1)),
            Self::get_neighbour_idx(cell_idx, (1, 1)),
        ]
    }

    /// The eight cells around `cell_idx`, in row-major order without the centre, both axes
    /// wrapping around.
    pub fn get_neighbours(&self, cell_idx: Coord) -> (cells: [C; 8])
        requires
            self.wf(),
        ensures
            cells@ == self.neighbours_of(cell_idx),
    {
        let idx = Self::get_neighbours_idx(cell_idx);
        let cells: [C; 8] = [
            self.get_cell(idx[0]),
            self.get_cell(idx[1]),
            self.get_cell(idx[2]),
            self.get_cell(idx[3]),
            self.get_cell(idx[4]),
            self.get_cell(idx[5]),
            self.get_cell(idx[6]),
            self.get_cell(idx[7]),
        ];
        proof {
            assert forall|k: int| 0 <= k < 8 implies cells@[k] == self.neighbours_of(cell_idx)[k] by {
                lemma_place_of_neighbour(cell_idx, idx[k], k, W as int, H as int);
            }
            assert(cells@ =~= self.neighbours_of(cell_idx));
        }
        cells
    }

    /// Writes `cell` at a coordinate; a coordinate beyond a side wraps around it.
    pub fn set_cell(&mut self, idx: Coord, cell: C)
        requires
            old(self).wf(),
        ensures
            final(self).wf(),
            final(self)@ == old(self)@.update(Self::place(idx), cell),
    {
        let p = self.place_of(idx);
        self.cells.set(p, cell);
    }
}

} // verus!
