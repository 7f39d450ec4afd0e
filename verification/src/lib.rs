//! Cellular automata on a toroidal grid, with a cellular Potts model at the centre.
//!
//! A Potts model moves biological cells over a grid by copying single pixels. Every copy
//! is weighed by its energy terms (adhesion, volume, perimeter, activity), which this
//! library computes in whole numbers; the caller weighs them with its own weights and
//! draws. The volume and the perimeter of every cell are tracked copy by copy, and the
//! tracked counts are proved to be what a full scan of the grid gives.
//!
//! An energy is counted in units of its weight. The volume term alone is counted in
//! quarters, since an obstacle aims at half the target volume. The perimeter of a cell is
//! counted on the torus: the grid wraps at its edges for a full scan as it does for a copy.

/// The activity term of the energy.
pub mod act;
/// The adhesion term of the energy.
pub mod adhesion;
/// Automata that are stepped by a rule on blocks of nine cells.
pub mod ca;
/// What a pixel can hold.
pub mod cell;
/// The tracked perimeter of every cell.
pub mod cell_perimeters;
/// The tracked volume of every cell.
pub mod cell_volumes;
/// The Potts model: energy terms, the Metropolis rule, sweeps.
pub mod cpm;
/// The grid that a simulation starts from.
pub mod layout;
/// Conway's game of life on arrays.
pub mod life;
/// Conway's game of life on a box of bits.
pub mod life_bits;
/// Conway's game of life on an image of bytes.
pub mod life_img;
/// The perimeter term of the energy.
pub mod perimeter;
/// The volume term of the energy.
pub mod volume;
/// Lists of words of one length.
pub mod word_list;
/// A game of guessing a word.
pub mod wordle;
/// The grid.
pub mod world;
