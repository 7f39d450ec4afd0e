use vstd::prelude::*;

use crate::cell::CPMCell;
use crate::cell_volumes::lemma_volume_flip;
use crate::cell_volumes::volume_of;
use crate::cell_volumes::CellVolumes;

verus! {

/// Twice the distance of `volume` from the target of `cell`: a motile cell aims at
/// `target_volume`, an obstacle at half of it, and the background at nothing. Doubling keeps
/// the half of an odd target exact.
pub open spec fn volume_deviation<C: CPMCell>(cell: C, volume: int, target_volume: int) -> int {
    if cell.spec_is_bg() {
        0
    } else if cell.spec_is_obstacle() {
        2 * volume - target_volume
    } else {
        2 * volume - 2 * target_volume
    }
}

/// The volume penalty of `cell` at `volume`, counted in quarters of the volume weight: the
/// square of the doubled deviation. In whole weights it is `(volume - target)^2`.
pub open spec fn volume_penalty<C: CPMCell>(cell: C, volume: int, target_volume: int) -> int {
    volume_deviation(cell, volume, target_volume) * volume_deviation(cell, volume, target_volume)
}

/// `volume` less one, but never below zero.
pub open spec fn shrunk(volume: int) -> int {
    if volume > 0 {
        volume - 1
    } else {
        0
    }
}

/// The change of volume penalty, in quarters of the volume weight, when an instance of `src`
/// with `src_volume` pixels gains one pixel and an instance of `dest` with `dest_volume`
/// pixels loses one.
pub open spec fn volume_delta_of<C: CPMCell>(
    src: C,
    src_volume: int,
    dest: C,
    dest_volume: int,
    target_volume: int,
) -> int {
    volume_penalty(src, src_volume + 1, target_volume) - volume_penalty(
        src,
        src_volume,
        target_volume,
    ) + volume_penalty(dest, shrunk(dest_volume), target_volume) - volume_penalty(
        dest,
        dest_volume,
        target_volume,
    )
}

/// The volume term is the true change of penalty: where a pixel of one instance becomes a
/// pixel of another, the term computed from the scanned volumes before the copy is, for both
/// instances together, the penalty at the scanned volume after the copy less the penalty at
/// the scanned volume before it.
pub proof fn lemma_volume_delta<C: CPMCell>(cells: Seq<C>, d: int, src: C, target_volume: int)
    requires
        0 <= d < cells.len(),
        cells[d].spec_id() != src.spec_id(),
    ensures
        volume_delta_of(
            src,
            volume_of(cells, src.spec_id() as int) as int,
            cells[d],
            volume_of(cells, cells[d].spec_id() as int) as int,
            target_volume,
        ) == volume_penalty(
            src,
            volume_of(cells.update(d, src), src.spec_id() as int) as int,
            target_volume,
        ) - volume_penalty(src, volume_of(cells, src.spec_id() as int) as int, target_volume)
            + volume_penalty(
            cells[d],
            volume_of(cells.update(d, src), cells[d].spec_id() as int) as int,
            target_volume,
        ) - volume_penalty(
            cells[d],
            volume_of(cells, cells[d].spec_id() as int) as int,
            target_volume,
        ),
{
    lemma_volume_flip(cells, d, src, src.spec_id() as int);
    lemma_volume_flip(cells, d, src, cells[d].spec_id() as int);
}

/// The volume penalty of `cell` at `volume`, in quarters of the volume weight: four times
/// `(volume - target)^2`, where the target is `target_volume` for a motile cell and half of
/// it for an obstacle. The background pays nothing.
pub fn get_volume_penalty<C: CPMCell>(cell: C, volume: u32, target_volume: u32) -> (penalty: i128)
    ensures
        penalty == volume_penalty(cell, volume as int, target_volume as int),
        penalty >= 0,
{
    penalty_at(cell, volume as u64, target_volume)
}

/// The volume penalty at a volume that may be one above what a tracker can hold.
fn penalty_at<C: CPMCell>(cell: C, volume: u64, target_volume: u32) -> (penalty: i128)
    requires
        volume <= u32::MAX + 1,
    ensures
        penalty == volume_penalty(cell, volume as int, target_volume as int),
        0 <= penalty <= 0x4_0000_0000 * 0x4_0000_0000,
{
    let deviation: i128 = if cell.is_bg() {
        0
    } else if cell.is_obstacle() {
        2 * (volume as i128) - target_volume as i128
    } else {
        2 * (volume as i128) - 2 * (target_volume as i128)
    };
    assert(0 <= deviation * deviation <= 0x4_0000_0000 * 0x4_0000_0000) by (nonlinear_arith)
        requires
            -0x4_0000_0000 <= deviation <= 0x4_0000_0000,
    ;
    deviation * deviation
}

/// The change of volume penalty, in quarters of the volume weight, for copying `src` over a
/// pixel of `dest`: `src` is priced at one pixel more than `volumes` tracks for it, `dest` at
/// one pixel less, but never below zero.
pub fn volume_delta<C: CPMCell>(volumes: &CellVolumes, src: C, dest: C, target_volume: u32) -> (delta: i128)
    requires
        volumes.wf::<C>(),
    ensures
        delta == volume_delta_of(
            src,
            volumes@[src.spec_id() as int] as int,
            dest,
            volumes@[dest.spec_id() as int] as int,
            target_volume as int,
        ),
{
    let src_vol: u32 = volumes.get(src);
    let dest_vol: u32 = volumes.get(dest);
    let src_gain: i128 = penalty_at(src, src_vol as u64 + 1, target_volume) - penalty_at(
        src,
        src_vol as u64,
        target_volume,
    );
    let dest_loss: i128 = penalty_at(dest, dest_vol.saturating_sub(1) as u64, target_volume)
        - penalty_at(dest, dest_vol as u64, target_volume);
    src_gain + dest_loss
}

} // verus!
