use vstd::prelude::*;

verus! {

/// `String::push` of std: the char is appended at the end.
pub assume_specification[ String::push ](s: &mut String, ch: char)
    ensures
        final(s)@ == old(s)@.push(ch),
;

/// A cell of Conway's game of life.
#[derive(Clone, Copy, Debug, PartialEq, Eq, Structural)]
pub enum LifeState {
    Dead,
    Alive,
}

impl Default for LifeState {
    fn default() -> (state: Self)
        ensures
            state == LifeState::Dead,
    {
        LifeState::Dead
    }
}

impl LifeState {
    /// The colour of the cell: white if it lives, black if not.
    pub open spec fn spec_colour(&self) -> Seq<u8> {
        match self {
            LifeState::Dead => seq![0x00u8, 0x00u8, 0x00u8, 0xffu8],
            LifeState::Alive => seq![0xffu8, 0xffu8, 0xffu8, 0xffu8],
        }
    }

    /// The character that stands for the cell in text: `#` if it lives, `.` if not.
    pub open spec fn spec_symbol(&self) -> char {
        match self {
            LifeState::Dead => '.',
            LifeState::Alive => '#',
        }
    }

    pub fn is_alive(&self) -> (alive: bool)
        ensures
            alive == (*self == LifeState::Alive),
    {
        match self {
            LifeState::Dead => false,
            LifeState::Alive => true,
        }
    }

    /// The colour of the cell: white if it lives, black if not.
    pub fn colour(&self) -> (rgba: [u8; 4])
        ensures
            rgba@ == self.spec_colour(),
    {
        let rgba: [u8; 4] = match self {
            LifeState::Dead => [0x00, 0x00, 0x00, 0xff],
            LifeState::Alive => [0xff, 0xff, 0xff, 0xff],
        };
        assert(rgba@ =~= self.spec_colour());
        rgba
    }

    /// The character that stands for the cell in text: `#` if it lives, `.` if not.
    pub fn symbol(&self) -> (c: char)
        ensures
            c == self.spec_symbol(),
    {
        match self {
            LifeState::Dead => '.',
            LifeState::Alive => '#',
        }
    }
}

/// 1 if there is a cell and it lives, else 0.
pub open spec fn lives(cell: Option<&LifeState>) -> int {
    if cell == Some(&LifeState::Alive) {
        1
    } else {
        0
    }
}

/// How many of the three cells of a row live.
pub open spec fn alive_in_row(row: [Option<&LifeState>; 3]) -> int {
    lives(row[0]) + lives(row[1]) + lives(row[2])
}

/// How many of the nine cells of a block live. A place beyond the grid holds no cell.
pub open spec fn alive_in_block(block: [[Option<&LifeState>; 3]; 3]) -> int {
    alive_in_row(block[0]) + alive_in_row(block[1]) + alive_in_row(block[2])
}

/// How many of the cells handed over live.
pub fn count_alive_neighbours(neighbours: [[Option<&LifeState>; 3]; 3]) -> (count: u8)
    ensures
        count == alive_in_block(neighbours),
{
    let mut count: u8 = 0;
    let mut r: usize = 0;
    while r < 3
        invariant
            r <= 3,
            count == (if r > 0 { alive_in_row(neighbours[0]) } else { 0 })
                + (if r > 1 { alive_in_row(neighbours[1]) } else { 0 })
                + (if r > 2 { alive_in_row(neighbours[2]) } else { 0 }),
        decreases 3 - r,
    {
        let row = neighbours[r];
        let mut c: usize = 0;
        let ghost before = count;
        while c < 3
            invariant
                c <= 3,
                before <= 6,
                count == before + (if c > 0 { lives(row[0]) } else { 0 })
                    + (if c > 1 { lives(row[1]) } else { 0 })
                    + (if c > 2 { lives(row[2]) } else { 0 }),
            decreases 3 - c,
        {
            match row[c] {
                Some(cell) => {
                    if cell.is_alive() {
                        count += 1;
                    }
                },
                None => {},
            }
            c += 1;
        }
        r += 1;
    }
    count
}

/// The next state of a cell in `state` of whose `neighbours` so many live: a dead cell comes
/// to life among exactly three, and a living cell stays alive among two or three.
pub fn game_of_life(state: &LifeState, neighbours: [[Option<&LifeState>; 3]; 3]) -> (next: LifeState)
    ensures
        next == match *state {
            LifeState::Dead => if alive_in_block(neighbours) == 3 {
                LifeState::Alive
            } else {
                LifeState::Dead
            },
            LifeState::Alive => if 2 <= alive_in_block(neighbours) <= 3 {
                LifeState::Alive
            } else {
                LifeState::Dead
            },
        },
{
    let n_neighbours = count_alive_neighbours(neighbours);
    match state {
        LifeState::Dead => {
            if n_neighbours == 3 {
                LifeState::Alive
            } else {
                LifeState::Dead
            }
        },
        LifeState::Alive => {
            if n_neighbours >= 2 && n_neighbours <= 3 {
                LifeState::Alive
            } else {
                LifeState::Dead
            }
        },
    }
}

/// The character at index `i` of the text of a grid whose rows hold `h` cells: the rows
/// follow one another, each as the symbols of its cells and then a line feed.
pub open spec fn text_char<const W: usize, const H: usize>(grid: &[[LifeState; H]; W], i: int) -> char {
    if i % (H + 1) == H as int {
        '\n'
    } else {
        grid[i / (H + 1)][i % (H + 1)].spec_symbol()
    }
}

/// The grid as text: one line for each of its `W` rows, `#` for a living cell and `.` for a
/// dead one.
pub fn grid_to_string<const W: usize, const H: usize>(grid: &[[LifeState; H]; W]) -> (text: String)
    ensures
        text@ == Seq::new((W * (H + 1)) as nat, |i: int| text_char(grid, i)),
{
    let mut text = String::new();
    let mut r: usize = 0;
    while r < W
        invariant
            r <= W,
            text@.len() == r * (H + 1),
            forall|i: int| 0 <= i < text@.len() ==> #[trigger] text@[i] == text_char(grid, i),
        decreases W - r,
    {
        let row = &grid[r];
        let mut c: usize = 0;
        while c < H
            invariant
                r < W,
                c <= H,
                *row == grid[r as int],
                text@.len() == r * (H + 1) + c,
                forall|i: int| 0 <= i < text@.len() ==> #[trigger] text@[i] == text_char(grid, i),
            decreases H - c,
        {
            proof {
                vstd::arithmetic::div_mod::lemma_fundamental_div_mod_converse(
                    r * (H + 1) + c,
                    H + 1,
                    r as int,
                    c as int,
                );
            }
            text.push(row[c].symbol());
            c += 1;
        }
        proof {
            vstd::arithmetic::div_mod::lemma_fundamental_div_mod_converse(
                r * (H + 1) + H,
                H + 1,
                r as int,
                H as int,
            );
            assert(r * (H + 1) + H + 1 == (r + 1) * (H + 1)) by (nonlinear_arith);
        }
        text.push('\n');
        r += 1;
    }
    assert(text@ =~= Seq::new((W * (H + 1)) as nat, |i: int| text_char(grid, i)));
    text
}

/// The byte at index `j` of a frame of RGBA pixels, `frame_width` pixels wide, once `grid` is
/// drawn over `before` with each cell a square of `scale` pixels: the colour of the cell that
/// covers the pixel, or the old byte where no cell covers it or where the frame ends within
/// the pixel.
pub open spec fn drawn_byte<const W: usize, const H: usize>(
    grid: &[[LifeState; W]; H],
    before: Seq<u8>,
    j: int,
    frame_width: int,
    scale: int,
) -> u8 {
    let i = j / 4;
    let x = (i % frame_width) / scale;
    let y = (i / frame_width) / scale;
    if i < before.len() / 4 && x < W && y < H {
        grid[y][x].spec_colour()[j % 4]
    } else {
        before[j]
    }
}

/// Draws `grid`, `H` rows of `W` cells, into `frame`, a buffer of RGBA pixels `frame_width`
/// pixels wide, each cell as a square of `scale` pixels in its colour. Pixels that no cell
/// covers, and bytes after the last whole pixel, are left as they are.
pub fn draw_grid<const W: usize, const H: usize>(
    grid: &[[LifeState; W]; H],
    frame: &mut [u8],
    frame_width: usize,
    scale: usize,
)
    requires
        frame_width > 0,
        scale > 0,
    ensures
        final(frame)@.len() == old(frame)@.len(),
        forall|j: int|
            0 <= j < old(frame)@.len() ==> #[trigger] final(frame)@[j] == drawn_byte(
                grid,
                old(frame)@,
                j,
                frame_width as int,
                scale as int,
            ),
{
    let len: usize = frame.len();
    let pixels: usize = len / 4;
    let mut i: usize = 0;
    while i < pixels
        invariant
            frame_width > 0,
            scale > 0,
            i <= pixels == len / 4,
            frame@.len() == old(frame)@.len() == len,
            forall|j: int|
                0 <= j < 4 * i ==> #[trigger] frame@[j] == drawn_byte(
                    grid,
                    old(frame)@,
                    j,
                    frame_width as int,
                    scale as int,
                ),
            forall|j: int| 4 * i <= j < frame@.len() ==> #[trigger] frame@[j] == old(frame)@[j],
        decreases pixels - i,
    {
        let x: usize = i % frame_width / scale;
        let y: usize = i / frame_width / scale;
        if x < W && y < H {
            let rgba = grid[y][x].colour();
            frame[4 * i] = rgba[0];
            frame[4 * i + 1] = rgba[1];
            frame[4 * i + 2] = rgba[2];
            frame[4 * i + 3] = rgba[3];
        }
        i += 1;
    }
}

} // verus!
