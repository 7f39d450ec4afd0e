use cellular_automata::act::act_delta;
use cellular_automata::act::gm_act;
use cellular_automata::act::ActDelta;
use cellular_automata::act::ActivityMean;
use cellular_automata::adhesion::adhesion;
use cellular_automata::adhesion::adhesion_delta;
use cellular_automata::adhesion::get_adhesion_penalty;
use cellular_automata::cell::ActCPMCell;
use cellular_automata::cell::ActCell;
use cellular_automata::cell::CPMCell;
use cellular_automata::cell::Cell;
use cellular_automata::cell::ExampleCell;
use cellular_automata::cell_perimeters::CellPerimeters;
use cellular_automata::cell_volumes::CellVolumes;
use cellular_automata::perimeter::get_perimeter_penalty;
use cellular_automata::perimeter::perimeter_delta;
use cellular_automata::volume::get_volume_penalty;
use cellular_automata::volume::volume_delta;
use cellular_automata::world::World;

const CELL: ActCPMCell = ActCPMCell(1, 2, false);
const OTHER: ActCPMCell = ActCPMCell(2, 3, false);
const OBSTACLE: ActCPMCell = ActCPMCell(1, 5, true);
const BG: ActCPMCell = ActCPMCell(0, 0, false);

fn block_world() -> World<20, 20, ActCPMCell> {
    let mut world: World<20, 20, ActCPMCell> = World::default();
    for x in 5..8 {
        for y in 5..8 {
            world.set_cell((x, y), CELL);
        }
    }
    world
}

#[test]
fn cells_are_equal_by_number_and_kind() {
    assert!(ActCPMCell(3, 0, false) == ActCPMCell(3, 80, false));
    assert!(ActCPMCell(3, 0, false) != ActCPMCell(3, 0, true));
    assert!(ActCPMCell(3, 0, false) != ActCPMCell(4, 0, false));
    assert!(ExampleCell(3, 0, true) == ExampleCell(3, 9, true));
    assert!(ExampleCell(3, 0, true) != ExampleCell(2, 0, true));
}

#[test]
fn cell_fields_are_told_apart() {
    let cell = ActCPMCell(7, 40, true);
    assert!(cell.is_obstacle());
    assert!(!cell.is_bg());
    assert_eq!(cell.id(), 263);
    assert_eq!(cell.get_activity(), 40);
    assert!(!ActCPMCell(7, 40, false).is_obstacle());
    assert!(ActCPMCell(0, 40, false).is_bg());
    assert!(ActCPMCell(0, 40, true).is_bg());
    assert_eq!(ActCPMCell(0, 40, true).id(), 256);
    let example = ExampleCell(9, 1, false);
    assert!(!example.is_obstacle());
    assert!(ExampleCell(9, 1, true).is_obstacle());
    assert_eq!(example.id(), 9);
    assert_eq!(example.get_activity(), 1);
}

#[test]
fn with_activity_keeps_the_cell() {
    let cell = ActCPMCell(7, 40, true).with_activity(3);
    assert_eq!((cell.0, cell.1, cell.2), (7, 3, true));
    let cell = ExampleCell(2, 0, false).with_activity(80);
    assert_eq!((cell.0, cell.1, cell.2), (2, 80, false));
}

#[test]
fn default_cell_is_background() {
    let cell = ActCPMCell::default();
    assert_eq!((cell.0, cell.1, cell.2), (0, 0, false));
    let cell = ExampleCell::default();
    assert_eq!((cell.0, cell.1, cell.2), (0, 0, false));
}

#[test]
fn colours_of_cells() {
    assert_eq!(BG.colour(), [0xff, 0xff, 0xff, 0xff]);
    assert_eq!(ActCPMCell(0, 9, true).colour(), [0xff, 0xff, 0xff, 0xff]);
    assert_eq!(OBSTACLE.colour(), [0x88, 0x88, 0x88, 0xff]);
    assert_eq!(ActCPMCell(1, 0, false).colour(), [0, 0, 0, 0xff]);
    assert_eq!(ActCPMCell(1, 80, false).colour(), [240, 0, 0, 0xff]);
    assert_eq!(ActCPMCell(1, 85, false).colour(), [255, 0, 0, 0xff]);
    assert_eq!(ActCPMCell(1, 84, false).colour(), [252, 0, 0, 0xff]);
    assert_eq!(ActCPMCell(1, 86, false).colour(), [255, 0, 0, 0xff]);
    assert_eq!(ActCPMCell(1, 255, false).colour(), [255, 0, 0, 0xff]);
    assert_eq!(ExampleCell(1, 200, false).colour(), [255, 0, 0, 0xff]);
    assert_eq!(ExampleCell(1, 80, false).colour(), [240, 0, 0, 0xff]);
    assert_eq!(true.colour(), [0xff, 0xff, 0xff, 0xff]);
    assert_eq!(false.colour(), [0x00, 0x00, 0x00, 0xff]);
}

#[test]
fn adhesion_penalty_is_tenfold_between_obstacle_and_cell() {
    assert_eq!(get_adhesion_penalty(CELL, OTHER), 1);
    assert_eq!(get_adhesion_penalty(CELL, BG), 1);
    assert_eq!(get_adhesion_penalty(BG, OBSTACLE), 1);
    assert_eq!(get_adhesion_penalty(OBSTACLE, ActCPMCell(9, 0, true)), 1);
    assert_eq!(get_adhesion_penalty(CELL, OBSTACLE), 10);
    assert_eq!(get_adhesion_penalty(OBSTACLE, OTHER), 10);
    assert_eq!(get_adhesion_penalty(ActCPMCell(0, 0, true), CELL), 1);
}

#[test]
fn adhesion_counts_the_foreign_neighbours() {
    let world = block_world();
    assert_eq!(adhesion(&world, (5, 5), CELL), 5);
    assert_eq!(adhesion(&world, (6, 5), CELL), 3);
    assert_eq!(adhesion(&world, (6, 6), CELL), 0);
    assert_eq!(adhesion(&world, (6, 6), OTHER), 8);
    assert_eq!(adhesion(&world, (6, 6), OBSTACLE), 80);
    assert_eq!(adhesion(&world, (5, 5), BG), 3);
    assert_eq!(adhesion(&world, (5, 5), OBSTACLE), 35);
}

#[test]
fn adhesion_delta_is_after_less_before() {
    let world = block_world();
    assert_eq!(adhesion_delta(&world, BG, CELL, (4, 4), (5, 5)), -2);
    assert_eq!(adhesion_delta(&world, CELL, BG, (5, 5), (4, 5)), 4);
    assert_eq!(adhesion_delta(&world, OBSTACLE, CELL, (0, 0), (6, 6)), 80);
    assert_eq!(adhesion_delta(&world, CELL, OBSTACLE, (0, 0), (6, 6)), -80);
}

#[test]
fn volume_penalty_is_quadratic_in_quarters() {
    assert_eq!(get_volume_penalty(CELL, 9, 9), 0);
    assert_eq!(get_volume_penalty(CELL, 10, 9), 4);
    assert_eq!(get_volume_penalty(CELL, 7, 9), 16);
    assert_eq!(get_volume_penalty(CELL, 0, 9), 324);
    assert_eq!(get_volume_penalty(OBSTACLE, 10, 9), 121);
    assert_eq!(get_volume_penalty(OBSTACLE, 4, 8), 0);
    assert_eq!(get_volume_penalty(OBSTACLE, 0, 9), 81);
    assert_eq!(get_volume_penalty(BG, 10, 9), 0);
    assert_eq!(get_volume_penalty(ActCPMCell(0, 0, true), 10, 9), 0);
    assert_eq!(
        get_volume_penalty(CELL, u32::MAX, 0),
        4 * (u32::MAX as i128) * (u32::MAX as i128)
    );
    assert_eq!(
        get_volume_penalty(CELL, 0, u32::MAX),
        4 * (u32::MAX as i128) * (u32::MAX as i128)
    );
}

#[test]
fn volume_delta_prices_gain_and_loss() {
    let mut world = block_world();
    world.set_cell((0, 0), OTHER);
    let volumes = CellVolumes::from_world(&world);
    // the block of nine gains a pixel from the background
    assert_eq!(volume_delta(&volumes, CELL, BG, 9), 4);
    // the block of nine loses a pixel to the background
    assert_eq!(volume_delta(&volumes, BG, CELL, 9), 4);
    // one pixel moves from the single pixel to the block
    assert_eq!(volume_delta(&volumes, CELL, OTHER, 9), 4 + (324 - 256));
    // a target that is above both
    assert_eq!(volume_delta(&volumes, CELL, OTHER, 20), (400 - 484) + (1600 - 1444));
}

#[test]
fn volume_delta_never_prices_a_volume_below_zero() {
    let world = block_world();
    let volumes = CellVolumes::from_world(&world);
    assert_eq!(volume_delta(&volumes, BG, OTHER, 9), 0);
    assert_eq!(volume_delta(&volumes, OTHER, BG, 9), 256 - 324);
}

#[test]
fn perimeter_penalty_is_quadratic() {
    assert_eq!(get_perimeter_penalty(CELL, 32, 32), 0);
    assert_eq!(get_perimeter_penalty(CELL, 30, 32), 4);
    assert_eq!(get_perimeter_penalty(CELL, 36, 32), 16);
    assert_eq!(get_perimeter_penalty(OBSTACLE, 30, 32), 900);
    assert_eq!(get_perimeter_penalty(OBSTACLE, 0, 32), 0);
    assert_eq!(get_perimeter_penalty(BG, 30, 32), 0);
    assert_eq!(
        get_perimeter_penalty(CELL, 0, u32::MAX),
        (u32::MAX as i128) * (u32::MAX as i128)
    );
}

#[test]
fn perimeter_delta_accounts_for_the_flip() {
    let world = block_world();
    let perimeters = CellPerimeters::from_world(&world);
    // the block loses a corner: 32 edges become 30
    assert_eq!(perimeter_delta(&perimeters, &world, BG, CELL, (4, 4), (5, 5), 32), 4);
    assert_eq!(perimeter_delta(&perimeters, &world, BG, CELL, (4, 4), (5, 5), 30), -4);
    // the block gains a pixel beside a corner: 32 edges become 36
    assert_eq!(perimeter_delta(&perimeters, &world, CELL, BG, (5, 5), (4, 5), 32), 16);
    assert_eq!(perimeter_delta(&perimeters, &world, CELL, BG, (5, 5), (4, 5), 36), -16);
}

#[test]
fn perimeter_delta_between_a_cell_and_an_obstacle() {
    let mut world = block_world();
    for y in 5..8 {
        world.set_cell((8, y), OBSTACLE);
    }
    let perimeters = CellPerimeters::from_world(&world);
    let cell_before = perimeters.get(CELL) as i128;
    let obstacle_before = perimeters.get(OBSTACLE) as i128;
    let delta = perimeter_delta(&perimeters, &world, OBSTACLE, CELL, (8, 6), (7, 6), 20);
    let mut after = block_world();
    for y in 5..8 {
        after.set_cell((8, y), OBSTACLE);
    }
    after.set_cell((7, 6), OBSTACLE);
    let rescan = CellPerimeters::from_world(&after);
    let cell_after = rescan.get(CELL) as i128;
    let obstacle_after = rescan.get(OBSTACLE) as i128;
    assert_eq!(
        delta,
        obstacle_after * obstacle_after - obstacle_before * obstacle_before
            + (cell_after - 20) * (cell_after - 20)
            - (cell_before - 20) * (cell_before - 20)
    );
    assert_eq!((cell_before, cell_after), (32, 34));
    assert_eq!((obstacle_before, obstacle_after), (20, 22));
}

#[test]
fn gm_act_multiplies_the_activities_of_the_own_instance() {
    let mut world = block_world();
    assert_eq!(gm_act(&world, (6, 6)), ActivityMean { count: 8, product: 256 });
    assert_eq!(gm_act(&world, (5, 5)), ActivityMean { count: 3, product: 8 });
    assert_eq!(gm_act(&world, (6, 5)), ActivityMean { count: 5, product: 32 });
    world.set_cell((5, 5), ActCPMCell(1, 7, false));
    world.set_cell((7, 7), ActCPMCell(1, 0, false));
    assert_eq!(gm_act(&world, (5, 6)), ActivityMean { count: 5, product: 7 * 16 });
    assert_eq!(gm_act(&world, (6, 6)), ActivityMean { count: 8, product: 0 });
}

#[test]
fn gm_act_of_a_lone_pixel_is_the_empty_product() {
    let mut world: World<20, 20, ActCPMCell> = World::default();
    world.set_cell((3, 3), ActCPMCell(1, 50, false));
    assert_eq!(gm_act(&world, (3, 3)), ActivityMean { count: 0, product: 1 });
}

#[test]
fn gm_act_of_the_background_counts_background() {
    let world = block_world();
    assert_eq!(gm_act(&world, (4, 4)), ActivityMean { count: 7, product: 0 });
    assert_eq!(gm_act(&world, (0, 0)), ActivityMean { count: 8, product: 0 });
}

#[test]
fn gm_act_holds_the_largest_product() {
    let world: World<3, 3, ActCPMCell> = World::filled(ActCPMCell(1, 255, false));
    assert_eq!(
        gm_act(&world, (1, 1)),
        ActivityMean { count: 8, product: 17878103347812890625 }
    );
}

#[test]
fn act_delta_is_forbidden_without_activity() {
    let world = block_world();
    assert_eq!(act_delta(&world, 0, BG, CELL, (4, 4), (5, 5)), ActDelta::Forbidden);
    assert_eq!(
        act_delta(&world, 80, BG, CELL, (4, 4), (5, 5)),
        ActDelta::Means {
            src: ActivityMean { count: 7, product: 0 },
            dest: ActivityMean { count: 3, product: 8 },
        }
    );
}
