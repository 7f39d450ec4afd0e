use cellular_automata::cell::ActCPMCell;
use cellular_automata::cell::CPMCell;
use cellular_automata::layout::create_world;
use cellular_automata::world::World;

fn fields(world: &World<200, 200, ActCPMCell>, x: u32, y: u32) -> (u8, u8, bool) {
    let cell = world.get_cell((x, y));
    (cell.0, cell.1, cell.2)
}

#[test]
fn default_layout_places_obstacles_and_cells() {
    let world: World<200, 200, ActCPMCell> = create_world(5, 13);
    assert_eq!(fields(&world, 0, 0), (1, 80, true));
    assert_eq!(fields(&world, 0, 40), (2, 80, true));
    assert_eq!(fields(&world, 40, 80), (8, 80, true));
    assert_eq!(fields(&world, 160, 160), (25, 80, true));
    assert_eq!(fields(&world, 8, 8), (1, 80, false));
    assert_eq!(fields(&world, 8, 23), (2, 80, false));
    assert_eq!(fields(&world, 23, 8), (14, 80, false));
    assert_eq!(fields(&world, 192, 192), (169, 80, false));
    assert_eq!(fields(&world, 1, 1), (0, 0, false));
    let occupied = world.cells().iter().filter(|c| !c.is_bg()).count();
    assert_eq!(occupied, 25 + 169);
}

#[test]
fn empty_patterns_leave_the_background() {
    let world: World<20, 20, ActCPMCell> = create_world(0, 0);
    assert!(world.cells().iter().all(|c| (c.0, c.1, c.2) == (0, 0, false)));
}

#[test]
fn a_later_pixel_stays_where_two_fall_on_one_place() {
    // four columns of obstacles on three columns of pixels: columns 0 and 1 fall on pixel 0
    let world: World<3, 3, ActCPMCell> = create_world(4, 0);
    let cell = world.get_cell((0, 0));
    assert_eq!((cell.0, cell.1, cell.2), (6, 80, true));
    let cell = world.get_cell((2, 2));
    assert_eq!((cell.0, cell.1, cell.2), (16, 80, true));
    let cell = world.get_cell((1, 0));
    assert_eq!((cell.0, cell.1, cell.2), (10, 80, true));
}

#[test]
fn cells_are_written_over_obstacles() {
    let world: World<16, 16, ActCPMCell> = create_world(2, 1);
    let cell = world.get_cell((8, 8));
    assert_eq!((cell.0, cell.1, cell.2), (1, 80, false));
    let cell = world.get_cell((0, 8));
    assert_eq!((cell.0, cell.1, cell.2), (2, 80, true));
    let cell = world.get_cell((8, 0));
    assert_eq!((cell.0, cell.1, cell.2), (3, 80, true));
}

#[test]
fn numbers_are_cut_to_eight_bits() {
    let world: World<400, 400, ActCPMCell> = create_world(20, 0);
    // pixel 255 of the pattern, in column 12 and row 15, gets number 256, cut to 0
    let cell = world.get_cell((12 * 20, 15 * 20));
    assert_eq!((cell.0, cell.1, cell.2), (0, 80, true));
    let cell = world.get_cell((12 * 20, 16 * 20));
    assert_eq!((cell.0, cell.1, cell.2), (1, 80, true));
    let cell = world.get_cell((12 * 20, 14 * 20));
    assert_eq!((cell.0, cell.1, cell.2), (255, 80, true));
}

#[test]
fn place_pattern_writes_the_first_columns_only() {
    let mut world: World<12, 12, ActCPMCell> = World::default();
    cellular_automata::layout::place_pattern(&mut world, 2, 3, 0, true);
    let occupied: Vec<(usize, u8)> = world
        .cells()
        .iter()
        .enumerate()
        .filter(|(_, c)| !c.is_bg())
        .map(|(p, c)| (p, c.0))
        .collect();
    assert_eq!(occupied, vec![(0, 1), (4, 4), (48, 2), (52, 5), (96, 3), (100, 6)]);
    cellular_automata::layout::place_pattern(&mut world, 1, 1, 3, false);
    let cell = world.get_cell((3, 3));
    assert_eq!((cell.0, cell.1, cell.2), (1, 80, false));
}
