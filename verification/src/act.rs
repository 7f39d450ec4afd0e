use vstd::prelude::*;

use crate::cell::ActCell;
use crate::cell_perimeters::differing;
use crate::cell_perimeters::differs;
use crate::world::Coord;
use crate::world::World;

verus! {

/// The product of the activities of those among the first `k` cells `around` that belong to
/// the same instance as `cell`. With none of them, the product is 1.
pub open spec fn activity_product<C: ActCell>(around: Seq<C>, cell: C, k: int) -> nat
    decreases k,
{
    if k <= 0 {
        1
    } else if around[k - 1].spec_id() == cell.spec_id() {
        activity_product(around, cell, k - 1) * (around[k - 1].spec_activity() as nat)
    } else {
        activity_product(around, cell, k - 1)
    }
}

/// 255 to the power `k`.
pub open spec fn byte_power(k: int) -> nat
    decreases k,
{
    if k <= 0 {
        1
    } else {
        byte_power(k - 1) * 255
    }
}

/// A product of `k` activities is at most 255 to the power `k`.
pub proof fn lemma_activity_product_bound<C: ActCell>(around: Seq<C>, cell: C, k: int)
    requires
        0 <= k,
    ensures
        activity_product(around, cell, k) <= byte_power(k),
    decreases k,
{
    if k > 0 {
        lemma_activity_product_bound(around, cell, k - 1);
        let p = activity_product(around, cell, k - 1);
        let b = byte_power(k - 1);
        let a = around[k - 1].spec_activity() as nat;
        assert(p * a <= b * 255) by (nonlinear_arith)
            requires
                p <= b,
                a <= 255,
        ;
    }
}

/// Eight activities multiplied fit in 64 bits.
pub proof fn lemma_byte_power_fits()
    ensures
        byte_power(8) == 17878103347812890625,
        byte_power(8) <= u64::MAX,
{
    assert(byte_power(0) == 1);
    assert(byte_power(1) == 255);
    assert(byte_power(2) == 65025);
    assert(byte_power(3) == 16581375);
    assert(byte_power(4) == 4228250625);
    assert(byte_power(5) == 1078203909375);
    assert(byte_power(6) == 274941996890625);
    assert(byte_power(7) == 70110209207109375);
    assert(byte_power(8) == 17878103347812890625);
}

/// What a geometric mean of activities is taken from: the mean is the `count`-th root of
/// `product`. Where `count` is 0 the `product` is 1, and the mean is taken to be 1.
#[derive(Clone, Copy, PartialEq, Eq, Debug)]
pub struct ActivityMean {
    /// How many activities were multiplied.
    pub count: u8,
    /// Their product.
    pub product: u64,
}

/// The activities around the pixel at `idx` that belong to the pixel's own instance: their
/// number and their product, of which the geometric mean is the root. Neighbours of another
/// instance, or of the background around a cell, are left out.
pub fn gm_act<const W: usize, const H: usize, C: ActCell>(world: &World<W, H, C>, idx: Coord) -> (mean:
    ActivityMean)
    requires
        world.wf(),
    ensures
        mean.count == 8 - differing(world.neighbours_of(idx), world.at(idx)),
        mean.product == activity_product(world.neighbours_of(idx), world.at(idx), 8),
{
    let cell = world.get_cell(idx);
    let around = world.get_neighbours(idx);
    let mut count: u8 = 0;
    let mut product: u64 = 1;
    let mut k: usize = 0;
    while k < 8
        invariant
            k <= 8,
            product == activity_product(around@, cell, k as int),
            count == (if k > 0 { 1 - differs(around@[0], cell) } else { 0 })
                + (if k > 1 { 1 - differs(around@[1], cell) } else { 0 })
                + (if k > 2 { 1 - differs(around@[2], cell) } else { 0 })
                + (if k > 3 { 1 - differs(around@[3], cell) } else { 0 })
                + (if k > 4 { 1 - differs(around@[4], cell) } else { 0 })
                + (if k > 5 { 1 - differs(around@[5], cell) } else { 0 })
                + (if k > 6 { 1 - differs(around@[6], cell) } else { 0 })
                + (if k > 7 { 1 - differs(around@[7], cell) } else { 0 }),
        decreases 8 - k,
    {
        let neigh = around[k];
        proof {
            C::lemma_identity(neigh, cell);
            lemma_activity_product_bound(around@, cell, k as int + 1);
            lemma_byte_power_fits();
            assert(byte_power(k as int + 1) <= byte_power(8)) by {
                reveal_with_fuel(byte_power, 9);
            }
        }
        if neigh == cell {
            count += 1;
            product = product * (neigh.get_activity() as u64);
        }
        k += 1;
    }
    ActivityMean { count, product }
}

/// The act term of a proposed copy.
#[derive(Clone, Copy, PartialEq, Eq, Debug)]
pub enum ActDelta {
    /// The largest activity is zero: the act term is infinite, and the copy is forbidden.
    Forbidden,
    /// The act term is the act weight, divided by the largest activity, times the geometric
    /// mean at the destination less the one at the source.
    Means { src: ActivityMean, dest: ActivityMean },
}

/// The act term for copying the pixel at `src_idx` over the one at `dest_idx`, with `max_act`
/// the largest activity.
pub fn act_delta<const W: usize, const H: usize, C: ActCell>(
    world: &World<W, H, C>,
    max_act: u8,
    _src: C,
    _dest: C,
    src_idx: Coord,
    dest_idx: Coord,
) -> (delta: ActDelta)
    requires
        world.wf(),
    ensures
        max_act == 0 ==> delta == ActDelta::Forbidden,
        max_act > 0 ==> delta == (ActDelta::Means {
            src: act_mean_of(world.neighbours_of(src_idx), world.at(src_idx)),
            dest: act_mean_of(world.neighbours_of(dest_idx), world.at(dest_idx)),
        }),
{
    if max_act > 0 {
        ActDelta::Means { src: gm_act(world, src_idx), dest: gm_act(world, dest_idx) }
    } else {
        ActDelta::Forbidden
    }
}

/// What `gm_act` finds at a pixel that holds `cell` with the cells `around` it.
pub open spec fn act_mean_of<C: ActCell>(around: Seq<C>, cell: C) -> ActivityMean {
    ActivityMean {
        count: (8 - differing(around, cell)) as u8,
        product: activity_product(around, cell, 8) as u64,
    }
}

} // verus!
