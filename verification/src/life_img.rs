use vstd::prelude::*;

use crate::ca::life_rule;
use crate::world::block_at;
use crate::world::blocks;
use crate::world::lemma_place_coords;

verus! {

/// 1 if the cell lives, which it does where it holds 1, else 0.
pub open spec fn alive(cell: u8) -> int {
    if cell == 1 {
        1
    } else {
        0
    }
}

/// How many of the eight cells around the middle of a block of nine live.
pub open spec fn alive_around(block: Seq<u8>) -> int {
    alive(block[0]) + alive(block[1]) + alive(block[2]) + alive(block[3]) + alive(block[5]) + alive(
        block[6],
    ) + alive(block[7]) + alive(block[8])
}

/// The cell after one step, from the block of nine around it: 1 if it lives by Conway's rule,
/// else 0.
pub open spec fn next_cell(block: Seq<u8>) -> u8 {
    if life_rule(block[4] == 1, alive_around(block)) {
        1
    } else {
        0
    }
}

/// Conway's game of life on an image of bytes, `W` by `H`, row by row. A cell lives where its
/// byte is 1. The image does not wrap: beyond an edge, the cell at the edge counts once more.
pub struct GameOfLife<const W: usize, const H: usize> {
    pub grid: Vec<u8>,
}

impl<const W: usize, const H: usize> GameOfLife<W, H> {
    /// The grid holds `W * H` cells and has sides that an image can have.
    pub open spec fn wf(&self) -> bool {
        &&& 0 < W <= u32::MAX
        &&& 0 < H <= u32::MAX
        &&& self.grid@.len() == W * H
    }

    /// A grid without a living cell.
    pub fn new() -> (game: Self)
        requires
            0 < W <= u32::MAX,
            0 < H <= u32::MAX,
            W * H <= usize::MAX,
        ensures
            game.wf(),
            forall|p: int| 0 <= p < W * H ==> game.grid@[p] == 0,
    {
        let n: usize = W * H;
        let mut grid: Vec<u8> = Vec::with_capacity(n);
        let mut i: usize = 0;
        while i < n
            invariant
                i <= n,
                grid@.len() == i,
                forall|p: int| 0 <= p < i ==> grid@[p] == 0,
            decreases n - i,
        {
            grid.push(0);
            i += 1;
        }
        GameOfLife { grid }
    }

    /// One step of the game: every cell gets its next state by Conway's rule from the block
    /// around it as it was.
    pub fn step(&mut self)
        requires
            old(self).wf(),
        ensures
            final(self).wf(),
            forall|p: int|
                0 <= p < W * H ==> #[trigger] final(self).grid@[p] == next_cell(
                    block_at(old(self).grid@, W as int, H as int, p),
                ),
    {
        let blocks = blocks(&self.grid, W, H);
        let n: usize = blocks.len();
        let mut new_grid: Vec<u8> = Vec::with_capacity(n);
        let mut p: usize = 0;
        while p < n
            invariant
                p <= n == W * H,
                blocks@.len() == n,
                new_grid@.len() == p,
                forall|q: int|
                    0 <= q < n ==> (#[trigger] blocks@[q])@ == block_at(
                        self.grid@,
                        W as int,
                        H as int,
                        q,
                    ),
                forall|q: int| 0 <= q < p ==> #[trigger] new_grid@[q] == next_cell(blocks@[q]@),
            decreases n - p,
        {
            let block = &blocks[p];
            let n_neighbours = get_neighbours(block);
            let next: u8 = if transition(block[4] == 1, n_neighbours) {
                1
            } else {
                0
            };
            new_grid.push(next);
            p += 1;
        }
        self.grid = new_grid;
    }

    /// The byte at index `j` of a frame of RGBA pixels, `frame_width` pixels wide, once the
    /// grid is drawn over `before` with each cell a square of `scale` pixels: white or black
    /// as the cell that covers the pixel lives or not, or the old byte where no cell covers
    /// it or where the frame ends within the pixel.
    pub open spec fn drawn_byte(&self, before: Seq<u8>, j: int, frame_width: int, scale: int) -> u8 {
        let i = j / 4;
        let x = (i % frame_width) / scale;
        let y = (i / frame_width) / scale;
        if i < before.len() / 4 && x < W && y < H {
            if j % 4 == 3 || self.grid@[y * W + x] == 1 {
                0xff
            } else {
                0x00
            }
        } else {
            before[j]
        }
    }

    /// Draws the grid into `frame`, a buffer of RGBA pixels `frame_width` pixels wide, each
    /// cell as a square of `scale` pixels. Pixels that no cell covers, and bytes after the
    /// last whole pixel, are left as they are.
    pub fn draw(&self, frame: &mut [u8], frame_width: usize, scale: usize)
        requires
            self.wf(),
            frame_width > 0,
            scale > 0,
        ensures
            final(frame)@.len() == old(frame)@.len(),
            forall|j: int|
                0 <= j < old(frame)@.len() ==> #[trigger] final(frame)@[j] == self.drawn_byte(
                    old(frame)@,
                    j,
                    frame_width as int,
                    scale as int,
                ),
    {
        let len: usize = frame.len();
        let pixels: usize = len / 4;
        let mut i: usize = 0;
        while i < pixels
            invariant
                self.wf(),
                frame_width > 0,
                scale > 0,
                i <= pixels == len / 4,
                frame@.len() == old(frame)@.len() == len,
                forall|j: int|
                    0 <= j < 4 * i ==> #[trigger] frame@[j] == self.drawn_byte(
                        old(frame)@,
                        j,
                        frame_width as int,
                        scale as int,
                    ),
                forall|j: int| 4 * i <= j < frame@.len() ==> #[trigger] frame@[j] == old(frame)@[j],
            decreases pixels - i,
        {
            let x: usize = i % frame_width / scale;
            let y: usize = i / frame_width / scale;
            if x < W && y < H {
                let total: usize = self.grid.len();
                proof {
                    lemma_place_coords(x as int, y as int, W as int, H as int);
                    assert(0 <= y * W <= y * W + x < total);
                }
                let rgba = colour(self.grid[y * W + x]);
                frame[4 * i] = rgba[0];
                frame[4 * i + 1] = rgba[1];
                frame[4 * i + 2] = rgba[2];
                frame[4 * i + 3] = rgba[3];
            }
            i += 1;
        }
    }
}

/// How many of the eight cells around the middle of a block of nine live.
pub fn get_neighbours(block: &[u8; 9]) -> (count: u8)
    ensures
        count == alive_around(block@),
{
    let mut count: u8 = 0;
    let mut k: usize = 0;
    while k < 9
        invariant
            k <= 9,
            count == (if k > 0 { alive(block@[0]) } else { 0 })
                + (if k > 1 { alive(block@[1]) } else { 0 })
                + (if k > 2 { alive(block@[2]) } else { 0 })
                + (if k > 3 { alive(block@[3]) } else { 0 })
                + (if k > 5 { alive(block@[5]) } else { 0 })
                + (if k > 6 { alive(block@[6]) } else { 0 })
                + (if k > 7 { alive(block@[7]) } else { 0 })
                + (if k > 8 { alive(block@[8]) } else { 0 }),
        decreases 9 - k,
    {
        if k != 4 && block[k] == 1 {
            count += 1;
        }
        k += 1;
    }
    count
}

/// Conway's rule: the next state of a cell among `n_neighbours` living neighbours.
pub fn transition(cell: bool, n_neighbours: u8) -> (next: bool)
    ensures
        next == life_rule(cell, n_neighbours as int),
{
    (cell && (n_neighbours == 2 || n_neighbours == 3)) || (!cell && n_neighbours == 3)
}

/// White for a living cell, black for any other.
pub fn colour(cell: u8) -> (rgba: [u8; 4])
    ensures
        rgba[0] == rgba[1] == rgba[2] == (if cell == 1 {
            0xffu8
        } else {
            0x00u8
        }),
        rgba[3] == 0xff,
{
    if cell == 1 {
        [0xff, 0xff, 0xff, 0xff]
    } else {
        [0x00, 0x00, 0x00, 0xff]
    }
}

} // verus!
