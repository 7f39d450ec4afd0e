use bitvec::boxed::BitBox;
use bitvec::vec::BitVec;
use vstd::prelude::*;

use crate::ca::life_rule;

verus! {

/// The largest number of bits that a box of bits can hold.
pub open spec fn max_bits() -> int {
    usize::MAX as int / 8
}

/// A box of bits of the bitvec crate.
#[verifier::external_body]
pub struct Bits {
    pub bits: BitBox,
}

/// The bits that a box of bits holds, in order.
pub uninterp spec fn bits_of(grid: Bits) -> Seq<bool>;

/// `BitVec::repeat` of the bitvec crate, boxed by `into_boxed_bitslice`: `len` bits that are
/// all `bit`. More bits than a box can hold make `repeat` panic.
#[verifier::external_body]
fn bits_repeat(bit: bool, len: usize) -> (grid: Bits)
    requires
        len <= max_bits(),
    ensures
        bits_of(grid) == Seq::new(len as nat, |i: int| bit),
{
    Bits { bits: BitVec::repeat(bit, len).into_boxed_bitslice() }
}

/// `BitSlice::len` of the bitvec crate: the number of bits in the box.
#[verifier::external_body]
fn bits_len(grid: &Bits) -> (len: usize)
    ensures
        len == bits_of(*grid).len(),
{
    grid.bits.len()
}

/// `BitSlice::get` of the bitvec crate at one index: the bit there, or nothing where the
/// index is beyond the last bit.
#[verifier::external_body]
fn bits_get(grid: &Bits, index: usize) -> (bit: Option<bool>)
    ensures
        bit == if index < bits_of(*grid).len() {
            Some(bits_of(*grid)[index as int])
        } else {
            None
        },
{
    grid.bits.get(index).map(|bit| *bit)
}

/// `FromIterator<bool>` of the bitvec crate for a box of bits: the bits of `bits`, in order.
/// More bits than a box can hold make it panic.
#[verifier::external_body]
fn bits_collect(bits: &Vec<bool>) -> (grid: Bits)
    requires
        bits@.len() <= max_bits(),
    ensures
        bits_of(grid) == bits@,
{
    Bits { bits: bits.iter().copied().collect() }
}

/// 1 if `i` is the index of a set bit, else 0. An index beyond either end counts as not set.
pub open spec fn set_at(bits: Seq<bool>, i: int) -> int {
    if 0 <= i < bits.len() && bits[i] {
        1
    } else {
        0
    }
}

/// How many of the eight bits around index `i` are set, in a grid of width `w` that is laid
/// out row by row: the three bits around `i - w`, the two beside `i`, and the three around
/// `i + w`. Nothing wraps; at the left and right end of a row the neighbour beside it is the
/// bit that follows or precedes in the layout.
pub open spec fn set_around(bits: Seq<bool>, i: int, w: int) -> int {
    set_at(bits, i - w - 1) + set_at(bits, i - w) + set_at(bits, i - w + 1) + set_at(bits, i - 1)
        + set_at(bits, i + 1) + set_at(bits, i + w - 1) + set_at(bits, i + w) + set_at(
        bits,
        i + w + 1,
    )
}

/// Conway's game of life on a box of bits, `W` by `H`, laid out row by row.
pub struct GameOfLife<const W: usize, const H: usize> {
    pub grid: Bits,
}

impl<const W: usize, const H: usize> View for GameOfLife<W, H> {
    type V = Seq<bool>;

    /// The cells, row by row.
    open spec fn view(&self) -> Seq<bool> {
        bits_of(self.grid)
    }
}

impl<const W: usize, const H: usize> GameOfLife<W, H> {
    /// So many cells that a box of bits holds them and that indices of 32 bits with sign
    /// reach one row and one cell beyond them.
    pub open spec fn fits() -> bool {
        &&& W * H <= max_bits()
        &&& W * H + W + 1 <= i32::MAX
    }

    /// The grid holds `W * H` cells, few enough for a box and for its indices.
    pub open spec fn wf(&self) -> bool {
        &&& self@.len() == W * H
        &&& Self::fits()
    }

    /// A grid without a living cell.
    pub fn new() -> (game: Self)
        requires
            Self::fits(),
        ensures
            game.wf(),
            forall|i: int| 0 <= i < W * H ==> !game@[i],
    {
        GameOfLife { grid: bits_repeat(false, W * H) }
    }

    /// One step of the game: every cell gets its next state by Conway's rule from the cells
    /// around it as they were.
    pub fn step(&mut self)
        requires
            old(self).wf(),
        ensures
            final(self).wf(),
            forall|i: int|
                0 <= i < W * H ==> #[trigger] final(self)@[i] == life_rule(
                    old(self)@[i],
                    set_around(old(self)@, i, W as int),
                ),
    {
        let n: usize = bits_len(&self.grid);
        let mut next: Vec<bool> = Vec::with_capacity(n);
        let mut i: usize = 0;
        while i < n
            invariant
                self.wf(),
                n == W * H,
                i <= n,
                next@.len() == i,
                forall|j: int|
                    0 <= j < i ==> #[trigger] next@[j] == life_rule(
                        self@[j],
                        set_around(self@, j, W as int),
                    ),
            decreases n - i,
        {
            let cell = match bits_get(&self.grid, i) {
                Some(bit) => bit,
                None => false,
            };
            next.push(transition(cell, self.get_neighbours(i as i32)));
            i += 1;
        }
        self.grid = bits_collect(&next);
    }

    /// How many of the eight cells around index `i` live.
    fn get_neighbours(&self, i: i32) -> (count: u8)
        requires
            self.wf(),
            0 <= i < W * H,
        ensures
            count == set_around(self@, i as int, W as int),
    {
        let w: i32 = W as i32;
        self.get(i - w - 1) + self.get(i - w) + self.get(i - w + 1) + self.get(i - 1) + self.get(
            i + 1,
        ) + self.get(i + w - 1) + self.get(i + w) + self.get(i + w + 1)
    }

    /// 1 if `i` is the index of a living cell, else 0.
    fn get(&self, i: i32) -> (alive: u8)
        ensures
            alive == set_at(self@, i as int),
    {
        if i >= 0 {
            match bits_get(&self.grid, i as usize) {
                Some(true) => 1,
                _ => 0,
            }
        } else {
            0
        }
    }

    /// The byte at index `j` of a frame of RGBA pixels, `frame_width` pixels wide, once the
    /// grid is drawn over `before` with each cell a square of `scale` pixels: white or black
    /// as the cell that covers the pixel lives or not, or the old byte where no cell covers
    /// it or where the frame ends within the pixel.
    pub open spec fn drawn_byte(&self, before: Seq<u8>, j: int, frame_width: int, scale: int) -> u8 {
        let i = j / 4;
        let x = (i % frame_width) / scale;
        let y = (i / frame_width) / scale;
        if i < before.len() / 4 && x < W && y < H {
            if j % 4 == 3 || self@[x + y * W] {
                0xff
            } else {
                0x00
            }
        } else {
            before[j]
        }
    }

    /// Draws the grid into `frame`, a buffer of RGBA pixels `frame_width` pixels wide, each
    /// cell as a square of `scale` pixels. Pixels that no cell covers, and bytes after the
    /// last whole pixel, are left as they are.
    pub fn draw(&self, frame: &mut [u8], frame_width: usize, scale: usize)
        requires
            self.wf(),
            frame_width > 0,
            scale > 0,
        ensures
            final(frame)@.len() == old(frame)@.len(),
            forall|j: int|
                0 <= j < old(frame)@.len() ==> #[trigger] final(frame)@[j] == self.drawn_byte(
                    old(frame)@,
                    j,
                    frame_width as int,
                    scale as int,
                ),
    {
        let len: usize = frame.len();
        let pixels: usize = len / 4;
        let mut i: usize = 0;
        while i < pixels
            invariant
                self.wf(),
                frame_width > 0,
                scale > 0,
                i <= pixels == len / 4,
                frame@.len() == old(frame)@.len() == len,
                forall|j: int|
                    0 <= j < 4 * i ==> #[trigger] frame@[j] == self.drawn_byte(
                        old(frame)@,
                        j,
                        frame_width as int,
                        scale as int,
                    ),
                forall|j: int| 4 * i <= j < frame@.len() ==> #[trigger] frame@[j] == old(frame)@[j],
            decreases pixels - i,
        {
            let x: usize = i % frame_width / scale;
            let y: usize = i / frame_width / scale;
            if x < W && y < H {
                proof {
                    crate::world::lemma_place_coords(x as int, y as int, W as int, H as int);
                    assert(0 <= y * W <= y * W + x < W * H);
                }
                let index = x + y * W;
                let cell = match bits_get(&self.grid, index) {
                    Some(bit) => bit,
                    None => false,
                };
                let rgba = colour(cell);
                frame[4 * i] = rgba[0];
                frame[4 * i + 1] = rgba[1];
                frame[4 * i + 2] = rgba[2];
                frame[4 * i + 3] = rgba[3];
            }
            i += 1;
        }
    }
}

/// Conway's rule: the next state of a cell among `n_neighbours` living neighbours.
pub fn transition(cell: bool, n_neighbours: u8) -> (next: bool)
    ensures
        next == life_rule(cell, n_neighbours as int),
{
    (cell && (n_neighbours == 2 || n_neighbours == 3)) || (!cell && n_neighbours == 3)
}

/// White for a living cell, black for a dead one.
pub fn colour(cell: bool) -> (rgba: [u8; 4])
    ensures
        rgba[0] == rgba[1] == rgba[2] == (if cell {
            0xffu8
        } else {
            0x00u8
        }),
        rgba[3] == 0xff,
{
    if cell {
        [0xff, 0xff, 0xff, 0xff]
    } else {
        [0x00, 0x00, 0x00, 0xff]
    }
}

} // verus!
