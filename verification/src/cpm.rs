use rand::rngs::StdRng;
use vstd::prelude::*;

use crate::act::act_delta;
use crate::act::act_mean_of;
use crate::act::ActDelta;
use crate::adhesion::adhesion_delta;
use crate::adhesion::adhesion_of;
use crate::cell::ActCell;
use crate::cell_perimeters::around;
use crate::cell_perimeters::tracked_change;
use crate::cell_perimeters::CellPerimeters;
use crate::cell_volumes::volume_change;
use crate::cell_volumes::CellVolumes;
use crate::perimeter::perimeter_delta;
use crate::perimeter::perimeter_delta_of;
use crate::perimeter::perimeter_penalty;
use crate::volume::volume_delta;
use crate::volume::volume_delta_of;
use crate::volume::volume_penalty;
use crate::world::lemma_place_coords;
use crate::world::Coord;
use crate::world::has_ancestor;
use crate::world::Attempt;
use crate::world::Update;
use crate::world::World;

verus! {

/// The energy change of a proposed copy, term by term, in whole numbers. The energy itself
/// is the sum of the terms, each times its weight.
#[derive(Clone, Copy, PartialEq, Eq, Debug)]
pub struct Hamiltonian {
    /// The adhesion term, in units of the base adhesion penalty.
    pub adhesion: i32,
    /// The volume term, in quarters of the volume weight.
    pub volume: i128,
    /// The perimeter term, in units of the perimeter weight.
    pub perimeter: i128,
    /// The act term.
    pub act: ActDelta,
}

/// What the energy change of a proposed copy decides before any random draw.
#[derive(Clone, Copy, PartialEq, Eq, Debug)]
pub enum Verdict {
    /// The copy is made.
    Accept,
    /// The copy is not made.
    Reject,
    /// A random draw decides.
    Draw,
}

/// The verdict on an energy change of which `raises` tells whether it is above zero.
pub open spec fn verdict_of(hamiltonian: Hamiltonian, raises: bool) -> Verdict {
    if hamiltonian.act == ActDelta::Forbidden {
        Verdict::Reject
    } else if raises {
        Verdict::Draw
    } else {
        Verdict::Accept
    }
}

/// The Metropolis rule as far as it needs no chance: a copy with an infinite term is
/// refused, one that does not raise the energy is made without a draw, and any other is left
/// to a draw.
pub fn verdict(hamiltonian: &Hamiltonian, raises: bool) -> (v: Verdict)
    ensures
        v == verdict_of(*hamiltonian, raises),
        !raises && hamiltonian.act != ActDelta::Forbidden ==> v == Verdict::Accept,
        hamiltonian.act == ActDelta::Forbidden ==> v == Verdict::Reject,
{
    match hamiltonian.act {
        ActDelta::Forbidden => Verdict::Reject,
        ActDelta::Means { .. } => if raises {
            Verdict::Draw
        } else {
            Verdict::Accept
        },
    }
}

/// Any way of answering energy terms will do.
pub open spec fn any_answer<M>(answer: spec_fn(M, Hamiltonian) -> bool) -> bool {
    true
}

/// Any way of drawing from a generator will do.
pub open spec fn any_draw<M>(draw: spec_fn(M, Hamiltonian, StdRng) -> bool) -> bool {
    true
}

/// The part of the Metropolis rule that weighs the terms and draws. It is the caller's, for
/// it is floating point; all that is asked of it is that its answers are functions of what
/// it is given.
pub trait Metropolis: Sized {
    /// The answer of `raises` to the energy terms: some function of the judge and the terms,
    /// of which no more is known than that the same judge answers the same terms alike.
    open spec fn spec_raises(&self, hamiltonian: Hamiltonian) -> bool {
        (choose|answer: spec_fn(Self, Hamiltonian) -> bool| #[trigger] any_answer(answer))(
            *self,
            hamiltonian,
        )
    }

    /// Whether the energy change, the weighted sum of the terms, is above zero.
    fn raises(&self, hamiltonian: &Hamiltonian) -> (raises: bool)
        ensures
            raises == self.spec_raises(*hamiltonian),
    ;

    /// The answer of `draw` to the energy terms with the generator in a given state: some
    /// function of the judge, the terms and the generator, of which no more is known than that
    /// the same judge draws alike for the same terms from the same state of the generator.
    open spec fn spec_draws(&self, hamiltonian: Hamiltonian, rng: StdRng) -> bool {
        (choose|draw: spec_fn(Self, Hamiltonian, StdRng) -> bool| #[trigger] any_draw(draw))(
            *self,
            hamiltonian,
            rng,
        )
    }

    /// Draws a number in `[0, 1)` from `rng`, and from nowhere else, and tells whether it is
    /// below `exp(-energy change / temperature)`.
    fn draw(&mut self, hamiltonian: &Hamiltonian, rng: &mut StdRng) -> (accepted: bool)
        ensures
            accepted == old(self).spec_draws(*hamiltonian, *old(rng)),
    ;
}

/// Whether `cell` is what a copy by `model` leaves of one of `cells`.
pub open spec fn stems_from<C: ActCell, M: Metropolis>(model: &ActCPM<M>, cell: C, cells: Seq<C>) -> bool {
    exists|q: int| 0 <= q < cells.len() && model.copy_of(#[trigger] cells[q], cell)
}

/// What a sweep and the fading after it can leave of the pixel that held `before`, on a grid
/// that held `cells`: `after` is, but for the fading of its activity, `before` itself or what
/// a copy by `model` leaves of one of `cells`.
pub open spec fn swept<C: ActCell, M: Metropolis>(
    model: &ActCPM<M>,
    before: C,
    after: C,
    cells: Seq<C>,
) -> bool {
    exists|c: C| #[trigger] faded(c, after) && (c == before || stems_from(model, c, cells))
}

/// `after` is `before` one step later: the same cell, its activity one lower unless it was
/// zero already.
pub open spec fn faded<C: ActCell>(before: C, after: C) -> bool {
    &&& after.spec_id() == before.spec_id()
    &&& after.spec_is_bg() == before.spec_is_bg()
    &&& after.spec_is_obstacle() == before.spec_is_obstacle()
    &&& after.spec_activity() == if before.spec_activity() > 0 {
        before.spec_activity() - 1
    } else {
        0
    }
}

/// A copy into or out of the background changes no tracked count of the background, and the
/// background pays no volume or perimeter penalty, whatever is counted for it.
pub proof fn lemma_background_invariance<C: ActCell>(
    bg: C,
    around: Seq<C>,
    src: C,
    dest: C,
    count: int,
    target: int,
)
    requires
        bg.spec_is_bg(),
    ensures
        volume_change(src, dest, bg.spec_id() as int) == 0,
        tracked_change(around, src, dest, bg.spec_id() as int) == 0,
        volume_penalty(bg, count, target) == 0,
        perimeter_penalty(bg, count, target) == 0,
{
    C::lemma_identity(bg, src);
    C::lemma_identity(bg, dest);
}

/// How one attempted copy ended.
#[derive(Clone, Copy, PartialEq, Eq, Debug)]
pub enum Outcome {
    /// Source and destination hold the same cell instance: there was nothing to copy.
    Skipped,
    /// The copy was weighed and refused.
    Rejected,
    /// The copy was made.
    Accepted,
}

/// A cellular Potts model: the whole-number parameters of its constraints, the volume and
/// perimeter of every cell instance on the grid that it drives, and the judge that weighs the
/// energy terms and draws.
pub struct ActCPM<M: Metropolis> {
    target_volume: u32,
    target_perimeter: u32,
    max_act: u8,
    cell_volumes: CellVolumes,
    cell_perimeters: CellPerimeters,
    judge: M,
}

impl<M: Metropolis> ActCPM<M> {
    /// The volume that motile cells aim at.
    pub closed spec fn spec_target_volume(&self) -> u32 {
        self.target_volume
    }

    /// The perimeter that motile cells aim at.
    pub closed spec fn spec_target_perimeter(&self) -> u32 {
        self.target_perimeter
    }

    /// The activity that a pixel gets when a cell takes it.
    pub closed spec fn spec_max_act(&self) -> u8 {
        self.max_act
    }

    /// The judge that weighs the energy terms and draws.
    pub closed spec fn spec_judge(&self) -> M {
        self.judge
    }

    /// The tracked pixel counts.
    pub closed spec fn volumes(&self) -> CellVolumes {
        self.cell_volumes
    }

    /// The tracked boundary-edge counts.
    pub closed spec fn perimeters(&self) -> CellPerimeters {
        self.cell_perimeters
    }

    /// Both trackers have one count for each id of the cell type `C`.
    pub open spec fn wf<C: ActCell>(&self) -> bool {
        &&& self.volumes().wf::<C>()
        &&& self.perimeters().wf::<C>()
    }

    /// The trackers agree with a grid of `w` by `h` cells: every tracked volume, and the
    /// tracked perimeter of every instance but the background, is what a full scan gives.
    pub open spec fn tracks<C: ActCell>(&self, cells: Seq<C>, w: int, h: int) -> bool {
        &&& self.volumes().counts(cells)
        &&& self.perimeters().counts(cells, w, h)
    }

    /// The trackers agree with `world`.
    pub open spec fn consistent<const W: usize, const H: usize, C: ActCell>(
        &self,
        world: &World<W, H, C>,
    ) -> bool {
        self.tracks(world@, W as int, H as int)
    }

    /// The same parameters as `other` has.
    pub open spec fn same_parameters(&self, other: &Self) -> bool {
        &&& self.spec_target_volume() == other.spec_target_volume()
        &&& self.spec_target_perimeter() == other.spec_target_perimeter()
        &&& self.spec_max_act() == other.spec_max_act()
    }

    /// The same tracked counts as `other` has.
    pub open spec fn same_counts(&self, other: &Self) -> bool {
        &&& self.volumes() == other.volumes()
        &&& self.perimeters() == other.perimeters()
    }

    /// The energy terms for copying `src` over the pixel of `dest` at `dest_idx`.
    pub open spec fn hamiltonian_of<const W: usize, const H: usize, C: ActCell>(
        &self,
        world: &World<W, H, C>,
        src: C,
        dest: C,
        src_idx: Coord,
        dest_idx: Coord,
    ) -> Hamiltonian {
        let around_dest = world.neighbours_of(dest_idx);
        Hamiltonian {
            adhesion: (adhesion_of(around_dest, src) - adhesion_of(around_dest, dest)) as i32,
            volume: volume_delta_of(
                src,
                self.volumes()@[src.spec_id() as int] as int,
                dest,
                self.volumes()@[dest.spec_id() as int] as int,
                self.spec_target_volume() as int,
            ) as i128,
            perimeter: perimeter_delta_of(
                around_dest,
                src,
                self.perimeters()@[src.spec_id() as int] as int,
                dest,
                self.perimeters()@[dest.spec_id() as int] as int,
                self.spec_target_perimeter() as int,
            ) as i128,
            act: if self.spec_max_act() == 0 {
                ActDelta::Forbidden
            } else {
                ActDelta::Means {
                    src: act_mean_of(world.neighbours_of(src_idx), world.at(src_idx)),
                    dest: act_mean_of(around_dest, world.at(dest_idx)),
                }
            },
        }
    }

    /// The cell that the copy of `src` leaves at its destination: `src` itself where it is
    /// background, else `src` with the largest activity.
    pub open spec fn copy_of<C: ActCell>(&self, src: C, cell: C) -> bool {
        &&& cell.spec_id() == src.spec_id()
        &&& cell.spec_is_bg() == src.spec_is_bg()
        &&& cell.spec_is_obstacle() == src.spec_is_obstacle()
        &&& cell.spec_activity() == if src.spec_is_bg() {
            src.spec_activity()
        } else {
            self.spec_max_act()
        }
    }

    /// What a copy of `src` over `dest` at `dest_idx` of `world` that was made has done to the
    /// counts of `before`: both trackers have followed it.
    pub open spec fn followed<const W: usize, const H: usize, C: ActCell>(
        &self,
        before: &Self,
        world: &World<W, H, C>,
        src: C,
        dest: C,
        dest_idx: Coord,
    ) -> bool {
        &&& forall|id: int|
            0 <= id < before.volumes()@.len() ==> self.volumes()@[id] == before.volumes()@[id]
                + volume_change(src, dest, id)
        &&& forall|id: int|
            0 <= id < before.perimeters()@.len() ==> self.perimeters()@[id]
                == before.perimeters()@[id] + tracked_change(
                world.neighbours_of(dest_idx),
                src,
                dest,
                id,
            )
    }

    /// All that holds of the model after it has carried out a `verdict` on the copy of `src`
    /// over `dest`, the cell at `dest_idx` of `world`, with the energy `terms` in hand:
    /// - the parameters are kept, and the trackers agree with the grid once `cell` is written;
    /// - a copy that is not made leaves `dest` and the counts as they were; one that is made
    ///   leaves `src` with the largest activity, and both trackers have followed it;
    /// - an accepted copy is made and a rejected one is not, and neither the generator nor
    ///   the judge is touched; any other is made if the draw of the judge says so.
    pub open spec fn settlement<const W: usize, const H: usize, C: ActCell>(
        &self,
        before: &Self,
        world: &World<W, H, C>,
        verdict: Verdict,
        terms: Hamiltonian,
        src: C,
        dest: C,
        dest_idx: Coord,
        made: bool,
        cell: C,
        rng_before: StdRng,
        rng_after: StdRng,
    ) -> bool {
        &&& self.same_parameters(before)
        &&& self.tracks(
            world@.update(World::<W, H, C>::place(dest_idx), cell),
            W as int,
            H as int,
        )
        &&& !made ==> cell == dest && self.same_counts(before)
        &&& made ==> self.copy_of(src, cell) && self.followed(before, world, src, dest, dest_idx)
        &&& verdict == Verdict::Accept ==> made
        &&& verdict == Verdict::Reject ==> !made
        &&& verdict == Verdict::Draw ==> made == before.spec_judge().spec_draws(terms, rng_before)
        &&& verdict != Verdict::Draw ==> rng_after == rng_before && self.spec_judge()
            == before.spec_judge()
    }

    /// A verdict that was given on the judge's own answer and carried out makes a decision.
    pub proof fn lemma_settlement_decides<const W: usize, const H: usize, C: ActCell>(
        &self,
        before: &Self,
        world: &World<W, H, C>,
        src: C,
        dest: C,
        src_idx: Coord,
        dest_idx: Coord,
        made: bool,
        cell: C,
        rng_before: StdRng,
        rng_after: StdRng,
    )
        requires
            self.settlement(
                before,
                world,
                verdict_of(
                    before.hamiltonian_of(world, src, dest, src_idx, dest_idx),
                    before.spec_judge().spec_raises(
                        before.hamiltonian_of(world, src, dest, src_idx, dest_idx),
                    ),
                ),
                before.hamiltonian_of(world, src, dest, src_idx, dest_idx),
                src,
                dest,
                dest_idx,
                made,
                cell,
                rng_before,
                rng_after,
            ),
        ensures
            self.decision(
                before,
                world,
                src,
                dest,
                src_idx,
                dest_idx,
                made,
                cell,
                rng_before,
                rng_after,
            ),
    {
    }

    /// All that holds of the model after it has weighed the copy of `src` over `dest`, the
    /// cell at `dest_idx` of `world`, of the model as it was `before`, of whether the copy was
    /// `made`, of the `cell` that is to stand at `dest_idx`, and of the generator:
    /// - the parameters are kept, and the trackers agree with the grid once `cell` is written;
    /// - a copy that is not made leaves `dest` and the counts as they were; one that is made
    ///   leaves `src` with the largest activity, and both trackers have followed it;
    /// - where the largest activity is 0 the copy is not made, and where it is above 0 and the
    ///   judge says that the energy does not rise the copy is made; in both cases neither the
    ///   generator nor the judge is touched;
    /// - in any other case the copy is made if the draw of the judge says so, and else not.
    pub open spec fn decision<const W: usize, const H: usize, C: ActCell>(
        &self,
        before: &Self,
        world: &World<W, H, C>,
        src: C,
        dest: C,
        src_idx: Coord,
        dest_idx: Coord,
        made: bool,
        cell: C,
        rng_before: StdRng,
        rng_after: StdRng,
    ) -> bool {
        let terms = before.hamiltonian_of(world, src, dest, src_idx, dest_idx);
        let raises = before.spec_judge().spec_raises(terms);
        let forbidden = before.spec_max_act() == 0;
        &&& self.same_parameters(before)
        &&& self.tracks(
            world@.update(World::<W, H, C>::place(dest_idx), cell),
            W as int,
            H as int,
        )
        &&& !made ==> cell == dest && self.same_counts(before)
        &&& made ==> self.copy_of(src, cell) && self.followed(before, world, src, dest, dest_idx)
        &&& forbidden ==> !made
        &&& !forbidden && !raises ==> made
        &&& !forbidden && raises ==> made == before.spec_judge().spec_draws(terms, rng_before)
        &&& forbidden || !raises ==> rng_after == rng_before && self.spec_judge()
            == before.spec_judge()
    }

    /// A model for `world` as it stands: both trackers are filled by a full scan.
    pub fn new<const W: usize, const H: usize, C: ActCell>(
        target_volume: u32,
        target_perimeter: u32,
        max_act: u8,
        judge: M,
        world: &World<W, H, C>,
    ) -> (engine: Self)
        requires
            world.wf(),
            8 * (W * H) <= u32::MAX,
        ensures
            engine.spec_target_volume() == target_volume,
            engine.spec_target_perimeter() == target_perimeter,
            engine.spec_max_act() == max_act,
            engine.spec_judge() == judge,
            engine.consistent(world),
            engine.perimeters().scanned(world@, W as int, H as int),
    {
        ActCPM {
            target_volume,
            target_perimeter,
            max_act,
            cell_volumes: CellVolumes::from_world(world),
            cell_perimeters: CellPerimeters::from_world(world),
            judge,
        }
    }

    /// The activity that a pixel gets when a cell takes it.
    pub fn max_act(&self) -> (max_act: u8)
        ensures
            max_act == self.spec_max_act(),
    {
        self.max_act
    }

    /// The judge that weighs the energy terms and draws.
    pub fn judge(&self) -> (judge: &M)
        ensures
            *judge == self.spec_judge(),
    {
        &self.judge
    }

    /// The tracked volume of the instance of `state`.
    pub fn volume<C: ActCell>(&self, state: C) -> (volume: u32)
        requires
            self.wf::<C>(),
        ensures
            volume == self.volumes()@[state.spec_id() as int],
    {
        self.cell_volumes.get(state)
    }

    /// The tracked perimeter of the instance of `state`.
    pub fn perimeter<C: ActCell>(&self, state: C) -> (perimeter: u32)
        requires
            self.wf::<C>(),
        ensures
            perimeter == self.perimeters()@[state.spec_id() as int],
    {
        self.cell_perimeters.get(state)
    }

    /// The energy terms for copying `src`, the cell at `src_idx`, over `dest`, the cell at
    /// `dest_idx`: adhesion, volume and perimeter each as the term after the copy less the
    /// term before it, and the act term.
    pub fn hamiltonian<const W: usize, const H: usize, C: ActCell>(
        &self,
        world: &World<W, H, C>,
        src: C,
        dest: C,
        src_idx: Coord,
        dest_idx: Coord,
    ) -> (hamiltonian: Hamiltonian)
        requires
            world.wf(),
            self.wf::<C>(),
        ensures
            hamiltonian == self.hamiltonian_of(world, src, dest, src_idx, dest_idx),
    {
        let adhesion = adhesion_delta(world, src, dest, src_idx, dest_idx);
        let volume = volume_delta(&self.cell_volumes, src, dest, self.target_volume);
        let perimeter = perimeter_delta(
            &self.cell_perimeters,
            world,
            src,
            dest,
            src_idx,
            dest_idx,
            self.target_perimeter,
        );
        let act = act_delta(world, self.max_act, src, dest, src_idx, dest_idx);
        Hamiltonian { adhesion, volume, perimeter, act }
    }

    /// Takes the copy of `src` over the pixel of `dest` at `dest_idx` into both trackers,
    /// with `world` still as it was before the copy, and returns the cell to write there:
    /// `src` itself where it is background, else `src` with the largest activity.
    pub fn update<const W: usize, const H: usize, C: ActCell>(
        &mut self,
        world: &World<W, H, C>,
        src: C,
        dest: C,
        src_idx: Coord,
        dest_idx: Coord,
    ) -> (cell: C)
        requires
            world.wf(),
            old(self).wf::<C>(),
            old(self).volumes().fits_flip(src, dest),
            old(self).perimeters().fits_flip(world.neighbours_of(dest_idx), src, dest),
        ensures
            final(self).wf::<C>(),
            final(self).same_parameters(old(self)),
            final(self).spec_judge() == old(self).spec_judge(),
            final(self).copy_of(src, cell),
            final(self).followed(old(self), world, src, dest, dest_idx),
    {
        self.cell_volumes.update(world, src, dest, src_idx, dest_idx);
        self.cell_perimeters.update(world, src, dest, src_idx, dest_idx);
        if src.is_bg() {
            src
        } else {
            src.with_activity(self.max_act)
        }
    }

    /// While the trackers agree with the grid, any copy keeps their counts within `u32`.
    pub proof fn lemma_consistent_fits<const W: usize, const H: usize, C: ActCell>(
        &self,
        world: &World<W, H, C>,
        src: C,
        dest_idx: Coord,
    )
        requires
            world.wf(),
            W >= 2,
            H >= 2,
            8 * (W * H) <= u32::MAX,
            self.consistent(world),
        ensures
            self.volumes().fits_flip(src, world.at(dest_idx)),
            self.perimeters().fits_flip(world.neighbours_of(dest_idx), src, world.at(dest_idx)),
    {
        let cells = world@;
        let place = World::<W, H, C>::place(dest_idx);
        World::<W, H, C>::lemma_place_on_grid(dest_idx);
        assert(world.neighbours_of(dest_idx) =~= around(cells, place, W as int, H as int));
        self.volumes().lemma_counts_fit_flip(cells, place, src, cells[place]);
        self.perimeters().lemma_counts_fit_flip(cells, W as int, H as int, place, src, cells[place]);
    }

    /// Trackers that agreed with the grid and have followed a copy agree with the grid once
    /// the copy is written.
    pub proof fn lemma_followed_tracks<const W: usize, const H: usize, C: ActCell>(
        &self,
        before: &Self,
        world: &World<W, H, C>,
        src: C,
        dest_idx: Coord,
        cell: C,
    )
        requires
            world.wf(),
            W >= 2,
            H >= 2,
            before.consistent(world),
            self.wf::<C>(),
            self.followed(before, world, src, world.at(dest_idx), dest_idx),
            cell.spec_id() == src.spec_id(),
        ensures
            self.tracks(
                world@.update(World::<W, H, C>::place(dest_idx), cell),
                W as int,
                H as int,
            ),
    {
        let cells = world@;
        let place = World::<W, H, C>::place(dest_idx);
        World::<W, H, C>::lemma_place_on_grid(dest_idx);
        assert(world.neighbours_of(dest_idx) =~= around(cells, place, W as int, H as int));
        before.volumes().lemma_update_keeps_counts(&self.volumes(), cells, place, src, cell);
        before.perimeters().lemma_update_keeps_counts(
            &self.perimeters(),
            cells,
            W as int,
            H as int,
            place,
            src,
            cell,
        );
    }

    /// Weighs the copy of `src`, the cell at `src_idx`, over `dest`, the cell at `dest_idx`,
    /// and says whether it is made and which cell is to stand at `dest_idx`: the energy terms
    /// are computed, the judge is asked whether the energy rises, `verdict` is given, and
    /// `settle` carries it out. What holds then is `decision`.
    pub fn decide<const W: usize, const H: usize, C: ActCell>(
        &mut self,
        world: &World<W, H, C>,
        src: C,
        dest: C,
        src_idx: Coord,
        dest_idx: Coord,
        rng: &mut StdRng,
    ) -> (decision: (bool, C))
        requires
            world.wf(),
            W >= 2,
            H >= 2,
            8 * (W * H) <= u32::MAX,
            old(self).consistent(world),
            dest == world.at(dest_idx),
        ensures
            final(self).decision(
                old(self),
                world,
                src,
                dest,
                src_idx,
                dest_idx,
                decision.0,
                decision.1,
                *old(rng),
                *final(rng),
            ),
    {
        let hamiltonian = self.hamiltonian(world, src, dest, src_idx, dest_idx);
        let raises = self.judge.raises(&hamiltonian);
        let verdict = verdict(&hamiltonian, raises);
        let ghost before = *self;
        let ghost drawn = *rng;
        let decision = self.settle(world, verdict, &hamiltonian, src, dest, src_idx, dest_idx, rng);
        proof {
            self.lemma_settlement_decides(
                &before,
                world,
                src,
                dest,
                src_idx,
                dest_idx,
                decision.0,
                decision.1,
                drawn,
                *rng,
            );
        }
        decision
    }

    /// Carries out the verdict on the copy of `src` over `dest`, the cell at `dest_idx`: a
    /// copy that is accepted is made and one that is rejected is not, either without a draw,
    /// so that neither the generator nor the judge is touched; any other is left to the draw
    /// of the judge. A copy that is made is taken into both trackers and leaves `src` with the
    /// largest activity; for one that is not made the cell is `dest`. What holds then is
    /// `settlement`.
    pub fn settle<const W: usize, const H: usize, C: ActCell>(
        &mut self,
        world: &World<W, H, C>,
        verdict: Verdict,
        hamiltonian: &Hamiltonian,
        src: C,
        dest: C,
        src_idx: Coord,
        dest_idx: Coord,
        rng: &mut StdRng,
    ) -> (decision: (bool, C))
        requires
            world.wf(),
            W >= 2,
            H >= 2,
            8 * (W * H) <= u32::MAX,
            old(self).consistent(world),
            dest == world.at(dest_idx),
        ensures
            final(self).settlement(
                old(self),
                world,
                verdict,
                *hamiltonian,
                src,
                dest,
                dest_idx,
                decision.0,
                decision.1,
                *old(rng),
                *final(rng),
            ),
    {
        let accepted = match verdict {
            Verdict::Accept => true,
            Verdict::Reject => false,
            Verdict::Draw => self.judge.draw(hamiltonian, rng),
        };
        if !accepted {
            proof {
                World::<W, H, C>::lemma_place_on_grid(dest_idx);
                assert(world@.update(World::<W, H, C>::place(dest_idx), dest) =~= world@);
            }
            return (false, dest);
        }
        proof {
            self.lemma_consistent_fits(world, src, dest_idx);
        }
        let ghost before = *self;
        let cell = self.update(world, src, dest, src_idx, dest_idx);
        proof {
            self.lemma_followed_tracks(&before, world, src, dest_idx, cell);
        }
        (true, cell)
    }

    /// Attempts one copy, of the cell at `src_idx` over the cell at `dest_idx`, as a sweep
    /// does. Where both belong to the same instance the attempt is skipped, and nothing is
    /// weighed, drawn or changed. Else `decide` weighs the copy, and a copy that is made is
    /// written to the grid.
    pub fn attempt<const W: usize, const H: usize, C: ActCell>(
        &mut self,
        world: &mut World<W, H, C>,
        src_idx: Coord,
        dest_idx: Coord,
        rng: &mut StdRng,
    ) -> (outcome: Outcome)
        requires
            old(world).wf(),
            W >= 2,
            H >= 2,
            8 * (W * H) <= u32::MAX,
            old(self).consistent(old(world)),
        ensures
            final(world).wf(),
            final(self).consistent(final(world)),
            outcome == Outcome::Skipped <==> old(world).at(src_idx).spec_id() == old(world).at(
                dest_idx,
            ).spec_id(),
            outcome == Outcome::Skipped ==> *final(self) == *old(self) && *final(rng) == *old(rng),
            outcome != Outcome::Accepted ==> final(world)@ == old(world)@,
            outcome != Outcome::Skipped ==> final(self).decision(
                old(self),
                old(world),
                old(world).at(src_idx),
                old(world).at(dest_idx),
                src_idx,
                dest_idx,
                outcome == Outcome::Accepted,
                final(world).at(dest_idx),
                *old(rng),
                *final(rng),
            ),
            outcome == Outcome::Accepted ==> final(world)@ == old(world)@.update(
                World::<W, H, C>::place(dest_idx),
                final(world).at(dest_idx),
            ),
    {
        let src = world.get_cell(src_idx);
        let dest = world.get_cell(dest_idx);
        proof {
            C::lemma_identity(src, dest);
            World::<W, H, C>::lemma_place_on_grid(dest_idx);
        }
        match world.attempt(self, src_idx, dest_idx, rng) {
            None => Outcome::Skipped,
            Some(cell) => {
                proof {
                    C::lemma_identity(cell, dest);
                }
                if cell == dest {
                    proof {
                        assert(old(world)@.update(World::<W, H, C>::place(dest_idx), dest)
                            =~= old(world)@);
                    }
                    Outcome::Rejected
                } else {
                    Outcome::Accepted
                }
            },
        }
    }

    /// The end of a sweep: every activity above zero fades by one, on background pixels as on
    /// any other, and then both trackers are filled anew by a full scan.
    pub fn after_step<const W: usize, const H: usize, C: ActCell>(&mut self, world: &mut World<W, H, C>)
        requires
            old(world).wf(),
            8 * (W * H) <= u32::MAX,
        ensures
            final(world).wf(),
            final(self).same_parameters(old(self)),
            forall|p: int|
                0 <= p < W * H ==> faded(old(world)@[p], #[trigger] final(world)@[p]),
            final(self).consistent(final(world)),
            final(self).perimeters().scanned(final(world)@, W as int, H as int),
    {
        let mut y: usize = 0;
        while y < H
            invariant
                world.wf(),
                y <= H,
                forall|p: int| 0 <= p < y * W ==> faded(old(world)@[p], #[trigger] world@[p]),
                forall|p: int| y * W <= p < W * H ==> old(world)@[p] == #[trigger] world@[p],
            decreases H - y,
        {
            let mut x: usize = 0;
            while x < W
                invariant
                    world.wf(),
                    y < H,
                    x <= W,
                    forall|p: int|
                        0 <= p < y * W + x ==> faded(old(world)@[p], #[trigger] world@[p]),
                    forall|p: int|
                        y * W + x <= p < W * H ==> old(world)@[p] == #[trigger] world@[p],
                decreases W - x,
            {
                let idx: Coord = (x as u32, y as u32);
                proof {
                    lemma_place_coords(x as int, y as int, W as int, H as int);
                    vstd::arithmetic::div_mod::lemma_small_mod(x as nat, W as nat);
                    vstd::arithmetic::div_mod::lemma_small_mod(y as nat, H as nat);
                    assert(World::<W, H, C>::place(idx) == y * W + x);
                }
                let cell = world.get_cell(idx);
                let activity = cell.get_activity();
                if activity > 0 {
                    world.set_cell(idx, cell.with_activity(activity - 1));
                }
                x += 1;
            }
            proof {
                assert(y * W + W == (y + 1) * W) by (nonlinear_arith);
            }
            y += 1;
        }
        proof {
            assert(H * W == W * H) by (nonlinear_arith);
        }
        self.cell_volumes.recalculate(world);
        self.cell_perimeters.recalculate(world);
    }

    /// One sweep over `world`, and then the end of the sweep. Which copies are made hangs on
    /// `rng` and on the judge, and what is handed back tells how the sweep went, attempt by
    /// attempt. Whatever came of it, every pixel is, but for the fading of its activity, the
    /// pixel that it was or a copy of a pixel of the old grid, and the trackers are as a full
    /// scan gives them. Where the largest activity is 0 no copy is made, and the grid is the
    /// old one with its activities faded.
    pub fn step<const W: usize, const H: usize, C: ActCell>(
        &mut self,
        world: &mut World<W, H, C>,
        rng: &mut StdRng,
    ) -> (attempts: Ghost<Seq<Attempt<W, H, C, Self>>>)
        requires
            old(world).wf(),
            W >= 2,
            H >= 2,
            8 * (W * H) <= u32::MAX,
            old(self).consistent(old(world)),
        ensures
            final(world).wf(),
            final(self).same_parameters(old(self)),
            final(self).consistent(final(world)),
            final(self).perimeters().scanned(final(world)@, W as int, H as int),
            attempts@.len() == W * H,
            forall|i: int|
                0 <= i < attempts@.len() ==> World::<W, H, C>::went(#[trigger] attempts@[i])
                    && World::<W, H, C>::took_up(old(world)@, *old(self), attempts@, i),
            forall|p: int|
                0 <= p < W * H ==> faded(
                    World::<W, H, C>::after_attempts(old(world)@, attempts@)[p],
                    #[trigger] final(world)@[p],
                ),
            forall|p: int|
                0 <= p < W * H ==> swept(
                    old(self),
                    old(world)@[p],
                    #[trigger] final(world)@[p],
                    old(world)@,
                ),
            old(self).spec_max_act() == 0 ==> forall|p: int|
                0 <= p < W * H ==> faded(old(world)@[p], #[trigger] final(world)@[p]),
    {
        let attempts = world.metropolis(self, rng);
        let ghost after_sweep = world@;
        self.after_step(world);
        proof {
            assert forall|p: int| 0 <= p < W * H implies swept(
                old(self),
                old(world)@[p],
                #[trigger] world@[p],
                old(world)@,
            ) by {
                let c = after_sweep[p];
                assert(faded(c, world@[p]));
                assert(c == old(world)@[p] || has_ancestor::<W, H, C, Self>(
                    old(self),
                    c,
                    old(world)@,
                ));
                if c != old(world)@[p] {
                    let q = choose|q: int|
                        0 <= q < old(world)@.len() && old(self).copy_of(
                            #[trigger] old(world)@[q],
                            c,
                        );
                    assert(stems_from(old(self), c, old(world)@));
                }
            }
        }
        attempts
    }
}

impl<const W: usize, const H: usize, C: ActCell, M: Metropolis> Update<W, H, C> for ActCPM<M> {
    /// The grid has room for a sweep, and the trackers agree with it.
    open spec fn agrees(&self, cells: Seq<C>) -> bool {
        &&& W >= 2
        &&& H >= 2
        &&& 8 * (W * H) <= u32::MAX
        &&& self.tracks(cells, W as int, H as int)
    }

    /// The parameters are kept.
    open spec fn keeps(&self, before: &Self) -> bool {
        self.same_parameters(before)
    }

    /// A copy, and a chain of copies, hands on the instance, and the activity as a copy
    /// leaves it.
    open spec fn descends(&self, cell: C, from: C) -> bool {
        self.copy_of(from, cell)
    }

    /// Without activity every copy is refused.
    open spec fn refuses(&self) -> bool {
        self.spec_max_act() == 0
    }

    /// What `decide` ensures, the copy being made where the cell that is handed back is of
    /// another instance than `dest`.
    open spec fn decided(
        &self,
        before: &Self,
        world: &World<W, H, C>,
        src: C,
        dest: C,
        src_idx: Coord,
        dest_idx: Coord,
        cell: C,
        rng_before: StdRng,
        rng_after: StdRng,
    ) -> bool {
        self.decision(
            before,
            world,
            src,
            dest,
            src_idx,
            dest_idx,
            cell.spec_id() != dest.spec_id(),
            cell,
            rng_before,
            rng_after,
        )
    }

    proof fn lemma_keeps(first: &Self, second: &Self, third: &Self) {
    }

    proof fn lemma_kept(earlier: &Self, later: &Self, cell: C, from: C) {
    }

    proof fn lemma_descends(&self, first: C, second: C, third: C) {
    }

    proof fn lemma_compares() {
        let c = arbitrary::<C>();
        C::lemma_identity(c, c);
    }

    /// Weighs the copy as `decide` does.
    fn update(
        &mut self,
        world: &World<W, H, C>,
        src: C,
        dest: C,
        src_idx: Coord,
        dest_idx: Coord,
        rng: &mut StdRng,
    ) -> (cell: C) {
        proof {
            C::lemma_identity(src, dest);
        }
        let (_made, cell) = self.decide(world, src, dest, src_idx, dest_idx, rng);
        cell
    }
}

} // verus!
