use cellular_automata::act::ActDelta;
use cellular_automata::act::ActivityMean;
use cellular_automata::cell::ActCPMCell;
use cellular_automata::cell::CPMCell;
use cellular_automata::cell_perimeters::CellPerimeters;
use cellular_automata::cell_volumes::CellVolumes;
use cellular_automata::cpm::verdict;
use cellular_automata::cpm::ActCPM;
use cellular_automata::cpm::Hamiltonian;
use cellular_automata::cpm::Metropolis;
use cellular_automata::cpm::Outcome;
use cellular_automata::cpm::Verdict;
use cellular_automata::world::World;
use rand::rngs::StdRng;
use rand::Rng;
use rand::SeedableRng;

const CELL: ActCPMCell = ActCPMCell(1, 0, false);
const BG: ActCPMCell = ActCPMCell(0, 0, false);

type Grid = World<20, 20, ActCPMCell>;

/// The weights of the energy terms and the temperature.
struct Weights {
    temperature: f32,
    adhesion: f32,
    volume: f32,
    perimeter: f32,
    act: f32,
    max_act: u8,
    raised: u32,
    drawn: u32,
}

fn mean(m: &ActivityMean) -> f32 {
    (m.product as f32).powf(1.0 / m.count as f32)
}

impl Weights {
    fn new(temperature: f32, adhesion: f32, volume: f32, perimeter: f32, act: f32, max_act: u8) -> Self {
        Weights { temperature, adhesion, volume, perimeter, act, max_act, raised: 0, drawn: 0 }
    }

    fn energy(&self, h: &Hamiltonian) -> f32 {
        let act = match h.act {
            ActDelta::Forbidden => f32::INFINITY,
            ActDelta::Means { src, dest } => {
                -(self.act / self.max_act as f32) * (mean(&src) - mean(&dest))
            }
        };
        self.adhesion * h.adhesion as f32
            + self.volume * (h.volume as f32 / 4.0)
            + self.perimeter * h.perimeter as f32
            + act
    }
}

impl Metropolis for Weights {
    fn raises(&self, h: &Hamiltonian) -> bool {
        !(self.energy(h) <= 0.0)
    }

    fn draw(&mut self, h: &Hamiltonian, rng: &mut StdRng) -> bool {
        self.drawn += 1;
        let accepted = rng.gen::<f32>() < f32::exp(-self.energy(h) / self.temperature);
        if accepted {
            self.raised += 1;
        }
        accepted
    }
}

/// A judge with a fixed answer to each question.
struct Fixed {
    raises: bool,
    draw: bool,
    asked: std::cell::Cell<u32>,
    drawn: u32,
}

impl Metropolis for Fixed {
    fn raises(&self, _h: &Hamiltonian) -> bool {
        self.asked.set(self.asked.get() + 1);
        self.raises
    }

    fn draw(&mut self, _h: &Hamiltonian, _rng: &mut StdRng) -> bool {
        self.drawn += 1;
        self.draw
    }
}

fn fixed(raises: bool, draw: bool) -> Fixed {
    Fixed { raises, draw, asked: std::cell::Cell::new(0), drawn: 0 }
}

fn block_world() -> Grid {
    let mut world: Grid = World::default();
    for x in 5..8 {
        for y in 5..8 {
            world.set_cell((x, y), ActCPMCell(1, 0, false));
        }
    }
    world
}

fn assert_consistent<M: Metropolis>(engine: &ActCPM<M>, world: &Grid) {
    let volumes = CellVolumes::from_world(world);
    let perimeters = CellPerimeters::from_world(world);
    for id in 0..=255u8 {
        for obstacle in [false, true] {
            let cell = ActCPMCell(id, 0, obstacle);
            assert_eq!(engine.volume(cell), volumes.get(cell), "volume of {:?}", cell);
            if !cell.is_bg() {
                assert_eq!(engine.perimeter(cell), perimeters.get(cell), "perimeter of {:?}", cell);
            }
        }
    }
}

fn snapshot(world: &Grid) -> Vec<(u8, u8, bool)> {
    world.cells().iter().map(|c| (c.0, c.1, c.2)).collect()
}

#[test]
fn new_engine_scans_the_world() {
    let world = block_world();
    let engine = ActCPM::new(9, 32, 80, fixed(false, false), &world);
    assert_eq!(engine.volume(CELL), 9);
    assert_eq!(engine.perimeter(CELL), 32);
    assert_eq!(engine.perimeter(BG), 32);
    assert_eq!(engine.volume(BG), 0);
    assert_eq!(engine.max_act(), 80);
}

#[test]
fn hamiltonian_of_a_lost_corner() {
    let world = block_world();
    let engine = ActCPM::new(9, 32, 80, fixed(false, false), &world);
    let h = engine.hamiltonian(&world, BG, CELL, (4, 4), (5, 5));
    assert_eq!(
        h,
        Hamiltonian {
            adhesion: -2,
            volume: 4,
            perimeter: 4,
            act: ActDelta::Means {
                src: ActivityMean { count: 7, product: 0 },
                dest: ActivityMean { count: 3, product: 0 },
            },
        }
    );
}

#[test]
fn hamiltonian_of_a_gained_pixel() {
    let world = block_world();
    let engine = ActCPM::new(10, 36, 0, fixed(false, false), &world);
    let h = engine.hamiltonian(&world, CELL, BG, (5, 5), (4, 5));
    assert_eq!(h, Hamiltonian { adhesion: 4, volume: -4, perimeter: -16, act: ActDelta::Forbidden });
}

#[test]
fn verdict_accepts_what_does_not_raise_the_energy() {
    let means = ActDelta::Means {
        src: ActivityMean { count: 0, product: 1 },
        dest: ActivityMean { count: 0, product: 1 },
    };
    let h = Hamiltonian { adhesion: 1, volume: 2, perimeter: 3, act: means };
    assert_eq!(verdict(&h, false), Verdict::Accept);
    assert_eq!(verdict(&h, true), Verdict::Draw);
}

#[test]
fn verdict_rejects_what_is_forbidden() {
    let h = Hamiltonian { adhesion: -80, volume: -4, perimeter: -4, act: ActDelta::Forbidden };
    assert_eq!(verdict(&h, false), Verdict::Reject);
    assert_eq!(verdict(&h, true), Verdict::Reject);
}

#[test]
fn attempt_between_equal_cells_is_skipped() {
    let mut world = block_world();
    world.set_cell((6, 6), ActCPMCell(1, 33, false));
    let before = snapshot(&world);
    let mut engine = ActCPM::new(9, 32, 80, fixed(true, true), &world);
    let mut rng = StdRng::seed_from_u64(1);
    assert_eq!(engine.attempt(&mut world, (5, 5), (6, 6), &mut rng), Outcome::Skipped);
    assert_eq!(engine.attempt(&mut world, (0, 0), (1, 1), &mut rng), Outcome::Skipped);
    assert_eq!(snapshot(&world), before);
    assert_eq!(engine.volume(CELL), 9);
    assert_eq!(engine.perimeter(CELL), 32);
    assert_eq!(engine.judge().drawn, 0);
}

#[test]
fn a_copy_that_does_not_raise_the_energy_is_made_without_a_draw() {
    let mut world = block_world();
    let mut engine = ActCPM::new(9, 32, 80, fixed(false, false), &world);
    let mut rng = StdRng::seed_from_u64(1);
    let before = rng.clone();
    assert_eq!(engine.attempt(&mut world, (5, 5), (4, 5), &mut rng), Outcome::Accepted);
    assert_eq!(engine.judge().drawn, 0);
    assert!(rng == before);
    let cell = world.get_cell((4, 5));
    assert_eq!((cell.0, cell.1, cell.2), (1, 80, false));
    assert_eq!(engine.volume(CELL), 10);
    assert_eq!(engine.perimeter(CELL), 36);
    assert_consistent(&engine, &world);
}

#[test]
fn a_copy_that_raises_the_energy_is_left_to_the_draw() {
    let mut world = block_world();
    let before = snapshot(&world);
    let mut refuse = ActCPM::new(9, 32, 80, fixed(true, false), &world);
    let mut rng = StdRng::seed_from_u64(1);
    assert_eq!(refuse.attempt(&mut world, (5, 5), (4, 5), &mut rng), Outcome::Rejected);
    assert_eq!(refuse.judge().drawn, 1);
    assert_eq!(snapshot(&world), before);
    assert_eq!(refuse.volume(CELL), 9);
    assert_eq!(refuse.perimeter(CELL), 32);
    let mut allow = ActCPM::new(9, 32, 80, fixed(true, true), &world);
    assert_eq!(allow.attempt(&mut world, (5, 5), (4, 5), &mut rng), Outcome::Accepted);
    assert_eq!(allow.judge().drawn, 1);
    assert_eq!(allow.volume(CELL), 10);
}

#[test]
fn background_is_copied_as_it_is() {
    let mut world = block_world();
    world.set_cell((4, 4), ActCPMCell(0, 17, false));
    let mut engine = ActCPM::new(9, 32, 80, fixed(false, false), &world);
    let mut rng = StdRng::seed_from_u64(1);
    assert_eq!(engine.attempt(&mut world, (4, 4), (5, 5), &mut rng), Outcome::Accepted);
    let cell = world.get_cell((5, 5));
    assert_eq!((cell.0, cell.1, cell.2), (0, 17, false));
    assert_eq!(engine.volume(CELL), 8);
    assert_eq!(engine.perimeter(CELL), 30);
    assert_eq!(engine.volume(BG), 0);
    assert_eq!(engine.perimeter(BG), 32);
    assert_consistent(&engine, &world);
}

#[test]
fn without_activity_no_copy_is_ever_made() {
    let mut world = block_world();
    let before = snapshot(&world);
    let mut engine = ActCPM::new(9, 32, 0, fixed(false, true), &world);
    let mut rng = StdRng::seed_from_u64(7);
    assert_eq!(engine.attempt(&mut world, (5, 5), (4, 5), &mut rng), Outcome::Rejected);
    assert_eq!(engine.attempt(&mut world, (4, 4), (5, 5), &mut rng), Outcome::Rejected);
    for _ in 0..5 {
        engine.step(&mut world, &mut rng);
    }
    assert_eq!(snapshot(&world), before);
    assert_eq!(engine.judge().drawn, 0);
}

#[test]
fn without_activity_the_weighed_energy_is_infinite() {
    let world = block_world();
    let engine = ActCPM::new(9, 32, 0, Weights::new(1.0, 0.0, 0.0, 0.0, 300.0, 0), &world);
    let h = engine.hamiltonian(&world, CELL, BG, (5, 5), (4, 5));
    assert_eq!(engine.judge().energy(&h), f32::INFINITY);
    assert!(engine.judge().raises(&h));
}

#[test]
fn after_step_fades_activity_and_rescans() {
    let mut world = block_world();
    world.set_cell((5, 5), ActCPMCell(1, 2, false));
    world.set_cell((0, 0), ActCPMCell(0, 1, false));
    world.set_cell((1, 0), ActCPMCell(3, 255, true));
    let mut engine = ActCPM::new(9, 32, 80, fixed(false, false), &world);
    world.set_cell((19, 19), ActCPMCell(1, 9, false));
    engine.after_step(&mut world);
    assert_eq!(world.get_cell((5, 5)).1, 1);
    assert_eq!(world.get_cell((6, 6)).1, 0);
    assert_eq!(world.get_cell((0, 0)).1, 0);
    assert_eq!(world.get_cell((1, 0)).1, 254);
    assert_eq!(world.get_cell((19, 19)).1, 8);
    assert_eq!(engine.volume(CELL), 10);
    assert_eq!(engine.perimeter(CELL), 40);
    assert_consistent(&engine, &world);
    assert_eq!(engine.perimeter(BG), CellPerimeters::from_world(&world).get(BG));
}

#[test]
fn attempts_keep_the_trackers_right() {
    let mut world = block_world();
    world.set_cell((10, 10), ActCPMCell(2, 0, false));
    world.set_cell((10, 11), ActCPMCell(2, 0, true));
    let mut engine = ActCPM::new(9, 32, 80, fixed(false, false), &world);
    let mut rng = StdRng::seed_from_u64(3);
    let mut accepted = 0;
    for _ in 0..3000 {
        let src_idx = (rng.gen_range(0..20), rng.gen_range(0..20));
        let k = rng.gen_range(0..8);
        let dest_idx = Grid::get_neighbours_idx(src_idx)[k];
        let same = world.get_cell(src_idx) == world.get_cell(dest_idx);
        let outcome = engine.attempt(&mut world, src_idx, dest_idx, &mut rng);
        assert_eq!(outcome == Outcome::Skipped, same);
        if outcome == Outcome::Accepted {
            accepted += 1;
            assert_consistent(&engine, &world);
        }
    }
    assert!(accepted > 50);
}

#[test]
fn volume_constraint_holds_a_cell_near_its_target() {
    let mut world = block_world();
    let mut engine = ActCPM::new(9, 0, 80, Weights::new(1.0, 0.0, 1.0, 0.0, 0.0, 80), &world);
    let mut rng = StdRng::seed_from_u64(2024);
    let sweeps = 300;
    let mut total: u64 = 0;
    for _ in 0..sweeps {
        engine.step(&mut world, &mut rng);
        assert_consistent(&engine, &world);
        let volume = engine.volume(CELL);
        assert!(volume >= 4 && volume <= 16, "volume {}", volume);
        total += volume as u64;
    }
    let average = total as f64 / sweeps as f64;
    assert!(average > 7.5 && average < 12.5, "average volume {}", average);
    assert!(engine.judge().drawn > 0);
}

#[test]
fn acceptance_falls_with_the_temperature() {
    let world = block_world();
    let engine = ActCPM::new(9, 32, 80, fixed(false, false), &world);
    let h = engine.hamiltonian(&world, CELL, BG, (5, 5), (4, 5));
    let mut rng = StdRng::seed_from_u64(99);
    let mut rates = Vec::new();
    for temperature in [4.0f32, 1.0] {
        let mut judge = Weights::new(temperature, 0.0, 1.0, 0.0, 0.0, 80);
        assert!(judge.raises(&h));
        for _ in 0..20000 {
            judge.draw(&h, &mut rng);
        }
        rates.push(judge.raised as f64 / 20000.0);
    }
    // the energy rises by 1: exp(-1/4) is about 0.78, exp(-1) about 0.37
    assert!(rates[0] > rates[1]);
    assert!((rates[0] - 0.7788).abs() < 0.02, "rate {}", rates[0]);
    assert!((rates[1] - 0.3679).abs() < 0.02, "rate {}", rates[1]);
}

#[test]
fn step_makes_copies_and_stamps_activity() {
    let mut world = block_world();
    let mut engine = ActCPM::new(9, 32, 80, fixed(false, false), &world);
    let mut rng = StdRng::seed_from_u64(5);
    engine.step(&mut world, &mut rng);
    assert_consistent(&engine, &world);
    assert!(snapshot(&world) != snapshot(&block_world()));
    for cell in world.cells() {
        assert!(cell.1 <= 79);
        assert!(cell.0 <= 1 && !cell.2);
    }
}

fn striped() -> World<6, 5, ActCPMCell> {
    World::from_fn(|p| ActCPMCell((p % 3) as u8 + 1, 0, false))
}

#[test]
fn metropolis_asks_only_where_cells_differ() {
    let mut world = striped();
    let mut engine = ActCPM::new(9, 32, 80, fixed(true, false), &world);
    let mut rng = StdRng::seed_from_u64(11);
    for _ in 0..20 {
        world.metropolis(&mut engine, &mut rng);
    }
    let asked = engine.judge().asked.get();
    assert!(asked > 100 && asked <= 20 * 30, "asked {}", asked);
    assert_eq!(engine.judge().drawn, asked);
    let mut uniform: World<6, 5, ActCPMCell> = World::filled(ActCPMCell(4, 0, false));
    let mut engine = ActCPM::new(9, 32, 80, fixed(false, false), &uniform);
    uniform.metropolis(&mut engine, &mut rng);
    assert_eq!(engine.judge().asked.get(), 0);
}

#[test]
fn metropolis_writes_what_the_decider_returns() {
    let mut world = striped();
    let mut rng = StdRng::seed_from_u64(11);
    let mut never = ActCPM::new(9, 32, 80, fixed(true, false), &world);
    world.metropolis(&mut never, &mut rng);
    assert!(never.judge().asked.get() > 0);
    assert_eq!(
        world.cells().iter().map(|c| (c.0, c.1)).collect::<Vec<_>>(),
        striped().cells().iter().map(|c| (c.0, c.1)).collect::<Vec<_>>()
    );
    let mut always = ActCPM::new(9, 32, 80, fixed(false, false), &world);
    world.metropolis(&mut always, &mut rng);
    let changed = (0..30).filter(|&p| world.cells()[p].0 != striped().cells()[p].0).count();
    assert!(changed > 0);
    for cell in world.cells() {
        assert!(cell.1 == 0 || cell.1 == 80);
    }
    let volumes = CellVolumes::from_world(&world);
    for id in 1..=3 {
        assert_eq!(always.volume(ActCPMCell(id, 0, false)), volumes.get(ActCPMCell(id, 0, false)));
    }
}

#[test]
fn update_follows_a_copy_and_stamps_the_cell() {
    let world = block_world();
    let mut engine = ActCPM::new(9, 32, 33, fixed(false, false), &world);
    let cell = engine.update(&world, ActCPMCell(1, 5, false), BG, (5, 5), (4, 5));
    assert_eq!((cell.0, cell.1, cell.2), (1, 33, false));
    assert_eq!(engine.volume(CELL), 10);
    assert_eq!(engine.perimeter(CELL), 36);
    let cell = engine.update(&world, ActCPMCell(0, 5, false), CELL, (4, 4), (5, 5));
    assert_eq!((cell.0, cell.1, cell.2), (0, 5, false));
    assert_eq!(engine.volume(CELL), 9);
    assert_eq!(engine.perimeter(CELL), 34);
    assert_eq!(engine.volume(BG), 0);
}

#[test]
fn decide_returns_the_cell_to_write() {
    let world = block_world();
    let mut rng = StdRng::seed_from_u64(1);
    let mut refuse = ActCPM::new(9, 32, 80, fixed(true, false), &world);
    let (made, cell) = refuse.decide(&world, CELL, BG, (5, 5), (4, 5), &mut rng);
    assert!(!made);
    assert_eq!((cell.0, cell.1, cell.2), (0, 0, false));
    assert_eq!(refuse.volume(CELL), 9);
    let mut allow = ActCPM::new(9, 32, 80, fixed(true, true), &world);
    let (made, cell) = allow.decide(&world, CELL, BG, (5, 5), (4, 5), &mut rng);
    assert!(made);
    assert_eq!((cell.0, cell.1, cell.2), (1, 80, false));
    assert_eq!(allow.volume(CELL), 10);
    assert_eq!(allow.perimeter(CELL), 36);
}

#[test]
fn a_sweep_reaches_every_part_of_the_grid() {
    let start = |p: usize| ActCPMCell((p % 250) as u8 + 1, 0, false);
    let mut world: World<20, 20, ActCPMCell> = World::from_fn(start);
    let mut engine = ActCPM::new(9, 32, 80, fixed(false, false), &world);
    let mut rng = StdRng::seed_from_u64(8);
    for _ in 0..3 {
        world.metropolis(&mut engine, &mut rng);
    }
    let changed: Vec<usize> = (0..400).filter(|&p| world.cells()[p].0 != start(p).0).collect();
    for quarter in 0..4 {
        let (left, top) = ((quarter % 2) * 10, (quarter / 2) * 10);
        let inside = changed
            .iter()
            .filter(|&&p| (left..left + 10).contains(&(p % 20)) && (top..top + 10).contains(&(p / 20)))
            .count();
        assert!(inside > 20, "quarter {} has {} changes", quarter, inside);
    }
}

#[test]
fn a_growing_cell_spreads_to_all_sides() {
    let mut world: World<20, 20, ActCPMCell> = World::default();
    world.set_cell((10, 10), CELL);
    // with a target far above, growth lowers the energy and shrinking raises it
    let mut engine = ActCPM::new(1000, 0, 80, Weights::new(0.0001, 0.0, 1.0, 0.0, 0.0, 80), &world);
    let mut rng = StdRng::seed_from_u64(21);
    for _ in 0..12 {
        world.metropolis(&mut engine, &mut rng);
    }
    for (x, y) in [(9, 9), (10, 9), (11, 9), (9, 10), (11, 10), (9, 11), (10, 11), (11, 11)] {
        assert!(world.get_cell((x, y)) == CELL, "at {} {}", x, y);
    }
    assert!(engine.volume(CELL) > 30);
    assert_consistent(&engine, &world);
}

#[test]
fn settle_carries_out_a_verdict_without_a_draw() {
    let world = block_world();
    let mut rng = StdRng::seed_from_u64(1);
    let untouched = rng.clone();
    let mut engine = ActCPM::new(9, 32, 80, fixed(true, false), &world);
    let h = engine.hamiltonian(&world, CELL, BG, (5, 5), (4, 5));
    let (made, cell) = engine.settle(&world, Verdict::Accept, &h, CELL, BG, (5, 5), (4, 5), &mut rng);
    assert!(made);
    assert_eq!((cell.0, cell.1, cell.2), (1, 80, false));
    assert_eq!(engine.volume(CELL), 10);
    assert_eq!(engine.judge().drawn, 0);
    assert!(rng == untouched);
    let mut engine = ActCPM::new(9, 32, 80, fixed(false, true), &world);
    let (made, cell) = engine.settle(&world, Verdict::Reject, &h, CELL, BG, (5, 5), (4, 5), &mut rng);
    assert!(!made);
    assert_eq!((cell.0, cell.1, cell.2), (0, 0, false));
    assert_eq!(engine.volume(CELL), 9);
    assert_eq!(engine.judge().drawn, 0);
    assert!(rng == untouched);
}

#[test]
fn settle_leaves_a_draw_to_the_judge() {
    let world = block_world();
    let mut rng = StdRng::seed_from_u64(1);
    let mut engine = ActCPM::new(9, 32, 80, fixed(false, true), &world);
    let h = engine.hamiltonian(&world, CELL, BG, (5, 5), (4, 5));
    let (made, _) = engine.settle(&world, Verdict::Draw, &h, CELL, BG, (5, 5), (4, 5), &mut rng);
    assert!(made);
    assert_eq!(engine.judge().drawn, 1);
    let mut engine = ActCPM::new(9, 32, 80, fixed(false, false), &world);
    let (made, _) = engine.settle(&world, Verdict::Draw, &h, CELL, BG, (5, 5), (4, 5), &mut rng);
    assert!(!made);
    assert_eq!(engine.judge().drawn, 1);
}

#[test]
fn one_attempt_of_a_sweep_hands_back_what_it_wrote() {
    let mut world = block_world();
    world.set_cell((6, 6), ActCPMCell(1, 33, false));
    let before = snapshot(&world);
    let mut rng = StdRng::seed_from_u64(1);
    let untouched = rng.clone();
    let mut engine = ActCPM::new(9, 32, 80, fixed(false, false), &world);
    // equal cells: nothing is asked, drawn or written, whatever the activities
    assert!(world.attempt(&mut engine, (5, 5), (6, 6), &mut rng).is_none());
    assert_eq!(snapshot(&world), before);
    assert_eq!(engine.judge().asked.get(), 0);
    assert!(rng == untouched);
    // a copy that does not raise the energy is made and written
    let written = world.attempt(&mut engine, (5, 5), (4, 5), &mut rng).unwrap();
    assert_eq!((written.0, written.1, written.2), (1, 80, false));
    assert_eq!(world.get_cell((4, 5)).1, 80);
    assert_eq!(engine.judge().asked.get(), 1);
    assert_eq!(engine.judge().drawn, 0);
    assert!(rng == untouched);
    assert_eq!(engine.volume(CELL), 10);
    // a copy that is refused hands back the cell that stays
    let mut refuse = ActCPM::new(9, 32, 80, fixed(true, false), &world);
    let written = world.attempt(&mut refuse, (4, 4), (5, 5), &mut rng).unwrap();
    assert_eq!((written.0, written.1, written.2), (1, 0, false));
    assert_eq!(world.get_cell((5, 5)).0, 1);
    assert_eq!(refuse.judge().drawn, 1);
}

#[test]
fn without_activity_a_sweep_only_fades() {
    let mut world = block_world();
    world.set_cell((6, 6), ActCPMCell(1, 5, false));
    world.set_cell((0, 0), ActCPMCell(0, 3, false));
    let mut engine = ActCPM::new(9, 32, 0, fixed(false, true), &world);
    let mut rng = StdRng::seed_from_u64(4);
    engine.step(&mut world, &mut rng);
    let mut expected = block_world();
    expected.set_cell((6, 6), ActCPMCell(1, 4, false));
    expected.set_cell((0, 0), ActCPMCell(0, 2, false));
    assert_eq!(snapshot(&world), snapshot(&expected));
    assert_eq!(engine.judge().drawn, 0);
}

#[test]
fn a_sweep_leaves_old_cells_or_copies_of_them() {
    let start = |p: usize| ActCPMCell((p % 7) as u8, 9, p % 5 == 0);
    let mut world: World<20, 20, ActCPMCell> = World::from_fn(start);
    let mut engine = ActCPM::new(9, 32, 40, fixed(false, false), &world);
    let mut rng = StdRng::seed_from_u64(15);
    engine.step(&mut world, &mut rng);
    for p in 0..400 {
        let cell = world.cells()[p];
        let old = start(p);
        let kept = (cell.0, cell.1, cell.2) == (old.0, 8, old.2);
        let copied = (0..400).any(|q| {
            let from = start(q);
            let activity = if from.0 == 0 { 8 } else { 39 };
            (cell.0, cell.1, cell.2) == (from.0, activity, from.2)
        });
        assert!(kept || copied, "at {}: {:?}", p, cell);
    }
}
