use vstd::prelude::*;

use crate::cell::Cell;
use crate::world::block_at;
use crate::world::wrapped_edges;
use crate::world::World;

verus! {

/// 1 for `true`, 0 for `false`.
pub open spec fn one_if(flag: bool) -> int {
    if flag {
        1
    } else {
        0
    }
}

/// How many of the eight flags around the middle one of a block are set.
pub open spec fn flags_around(flags: Seq<bool>) -> int {
    one_if(flags[0]) + one_if(flags[1]) + one_if(flags[2]) + one_if(flags[3]) + one_if(flags[5])
        + one_if(flags[6]) + one_if(flags[7]) + one_if(flags[8])
}

/// `flags` are answers of `filter` to the eight cells around the middle of `neighbourhood`,
/// each at the place of its cell.
pub open spec fn answers_of<C, F: Fn(C) -> bool>(filter: F, neighbourhood: Seq<C>, flags: Seq<bool>) -> bool {
    &&& flags.len() == 9
    &&& forall|k: int|
        0 <= k < 9 && k != 4 ==> call_ensures(filter, (neighbourhood[k],), #[trigger] flags[k])
}

/// The number of cells around the middle of `neighbourhood` for which `filter` returns
/// `true`. The middle cell is not asked.
pub fn count_neighbours<C: Copy, F>(neighbourhood: [C; 9], filter: F) -> (count: u8) where
    F: Fn(C) -> bool,

    requires
        forall|c: C| call_requires(filter, (c,)),
    ensures
        exists|flags: Seq<bool>|
            #[trigger] answers_of(filter, neighbourhood@, flags) && count == flags_around(flags),
{
    let mut count: u8 = 0;
    let ghost mut flags: Seq<bool> = Seq::new(9, |k: int| false);
    let mut k: usize = 0;
    while k < 9
        invariant
            k <= 9,
            flags.len() == 9,
            forall|c: C| call_requires(filter, (c,)),
            forall|j: int|
                0 <= j < k && j != 4 ==> call_ensures(filter, (neighbourhood@[j],), #[trigger] flags[j]),
            forall|j: int| k <= j < 9 ==> !(#[trigger] flags[j]),
            !flags[4],
            count == one_if(flags[0]) + one_if(flags[1]) + one_if(flags[2]) + one_if(flags[3])
                + one_if(flags[5]) + one_if(flags[6]) + one_if(flags[7]) + one_if(flags[8]),
        decreases 9 - k,
    {
        if k != 4 {
            let answer = filter(neighbourhood[k]);
            proof {
                flags = flags.update(k as int, answer);
            }
            if answer {
                count += 1;
            }
        }
        k += 1;
    }
    proof {
        assert(answers_of(filter, neighbourhood@, flags));
    }
    count
}

/// How many of the eight cells around the middle of a block of nine are set.
pub open spec fn set_around(neighbourhood: Seq<bool>) -> int {
    flags_around(neighbourhood)
}

/// Conway's rule for a cell among `around` set neighbours: a set cell stays set among two or
/// three, and a cell that is not set becomes set among exactly three.
pub open spec fn life_rule(cell: bool, around: int) -> bool {
    (cell && (around == 2 || around == 3)) || (!cell && around == 3)
}

/// Conway's game of life on cells that are set or not.
pub struct GameOfLife;

impl Default for GameOfLife {
    fn default() -> Self {
        GameOfLife
    }
}

impl GameOfLife {
    /// The next state of the middle cell of `neighbourhood`, by Conway's rule.
    pub fn rule(&self, neighbourhood: [bool; 9]) -> (next: bool)
        ensures
            next == life_rule(neighbourhood@[4], set_around(neighbourhood@)),
    {
        let cell = neighbourhood[4];
        let is_set = |c: bool| -> (r: bool)
            ensures
                r == c,
            { c };
        let n_neighbours = count_neighbours(neighbourhood, is_set);
        proof {
            let flags = choose|flags: Seq<bool>|
                #[trigger] answers_of(is_set, neighbourhood@, flags) && n_neighbours == flags_around(
                    flags,
                );
            assert(flags[0] == neighbourhood@[0]);
            assert(flags[1] == neighbourhood@[1]);
            assert(flags[2] == neighbourhood@[2]);
            assert(flags[3] == neighbourhood@[3]);
            assert(flags[5] == neighbourhood@[5]);
            assert(flags[6] == neighbourhood@[6]);
            assert(flags[7] == neighbourhood@[7]);
            assert(flags[8] == neighbourhood@[8]);
        }
        (cell && (n_neighbours == 2 || n_neighbours == 3)) || (!cell && n_neighbours == 3)
    }
}

/// `cell` is what the rule of `automaton` may return for a block of nine cells.
pub open spec fn rule_allows<const W: usize, const H: usize, A: Automaton<W, H>>(
    automaton: &A,
    block: Seq<A::C>,
    cell: A::C,
) -> bool {
    exists|nine: [A::C; 9]| nine@ == block && call_ensures(A::rule, (automaton, nine), cell)
}

/// A cellular automaton: a rule that gives a cell its next state from the block of three by
/// three around it.
pub trait Automaton<const W: usize, const H: usize>: Sized {
    type C: Cell;

    /// The next state of the middle cell of `neighbourhood`.
    fn rule(&self, neighbourhood: [Self::C; 9]) -> Self::C;
}

/// One step of `automaton`: every cell of `world` gets the state that the rule gives for the
/// block around it, all blocks taken from the grid as it was. The outermost rows and columns
/// of the grid are a margin that first takes the far side of what it encloses, so that the
/// grid inside wraps around.
pub fn step<const W: usize, const H: usize, A: Automaton<W, H>>(
    automaton: &A,
    world: &mut World<W, H, A::C>,
)
    requires
        old(world).wf(),
        W >= 2,
        H >= 2,
    ensures
        final(world).wf(),
        forall|p: int|
            0 <= p < W * H ==> rule_allows(
                automaton,
                block_at(wrapped_edges(old(world)@, W as int, H as int), W as int, H as int, p),
                #[trigger] final(world)@[p],
            ),
{
    let rule = |n: [A::C; 9]| -> (c: A::C)
        ensures
            call_ensures(A::rule, (automaton, n), c),
        { automaton.rule(n) };
    world.convolve(rule);
    proof {
        assert forall|p: int| 0 <= p < W * H implies rule_allows(
            automaton,
            block_at(wrapped_edges(old(world)@, W as int, H as int), W as int, H as int, p),
            #[trigger] world@[p],
        ) by {
            let block = block_at(
                wrapped_edges(old(world)@, W as int, H as int),
                W as int,
                H as int,
                p,
            );
            assert(crate::world::rule_gives(rule, block, world@[p]));
            let nine = choose|nine: [A::C; 9]| nine@ == block && call_ensures(rule, (nine,), world@[p]);
            assert(call_ensures(A::rule, (automaton, nine), world@[p]));
        }
    }
}

impl<const W: usize, const H: usize> Automaton<W, H> for GameOfLife {
    type C = bool;

    /// The next state of the middle cell of `neighbourhood`, by Conway's rule.
    fn rule(&self, neighbourhood: [bool; 9]) -> (next: bool)
        ensures
            next == life_rule(neighbourhood@[4], set_around(neighbourhood@)),
    {
        GameOfLife::rule(self, neighbourhood)
    }
}

/// The state of one individual in an epidemic.
#[derive(Clone, Copy, Debug, PartialEq, Eq, Structural)]
pub enum SirState {
    Susceptible,
    Infected,
    Resistant,
}

impl Default for SirState {
    fn default() -> (state: Self)
        ensures
            state == SirState::Susceptible,
    {
        SirState::Susceptible
    }
}

impl Cell for SirState {
    open spec fn spec_colour(&self) -> Seq<u8> {
        match self {
            SirState::Susceptible => seq![0xffu8, 0xffu8, 0xffu8, 0xffu8],
            SirState::Infected => seq![0x00u8, 0x00u8, 0x00u8, 0xffu8],
            SirState::Resistant => seq![0x88u8, 0x88u8, 0x88u8, 0xffu8],
        }
    }

    /// White for the susceptible, black for the infected, grey for the resistant.
    fn colour(&self) -> (rgba: [u8; 4]) {
        let rgba: [u8; 4] = match self {
            SirState::Susceptible => [0xff, 0xff, 0xff, 0xff],
            SirState::Infected => [0x00, 0x00, 0x00, 0xff],
            SirState::Resistant => [0x88, 0x88, 0x88, 0xff],
        };
        assert(rgba@ =~= self.spec_colour());
        rgba
    }
}

impl SirState {
    /// The state after one step in which chance struck or not: the susceptible are infected
    /// and the infected are cured when it strikes, and the resistant stay what they are.
    pub fn next(self, struck: bool) -> (next: SirState)
        ensures
            next == match self {
                SirState::Susceptible => if struck {
                    SirState::Infected
                } else {
                    SirState::Susceptible
                },
                SirState::Infected => if struck {
                    SirState::Resistant
                } else {
                    SirState::Infected
                },
                SirState::Resistant => SirState::Resistant,
            },
    {
        match self {
            SirState::Susceptible => {
                if struck {
                    SirState::Infected
                } else {
                    SirState::Susceptible
                }
            },
            SirState::Infected => {
                if struck {
                    SirState::Resistant
                } else {
                    SirState::Infected
                }
            },
            SirState::Resistant => SirState::Resistant,
        }
    }
}

} // verus!
