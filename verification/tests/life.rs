use cellular_automata::life::count_alive_neighbours;
use cellular_automata::life::draw_grid;
use cellular_automata::life::game_of_life;
use cellular_automata::life::grid_to_string;
use cellular_automata::life::LifeState;
use cellular_automata::life::LifeState::Alive;
use cellular_automata::life::LifeState::Dead;

fn block(alive: usize, beyond: usize) -> [[Option<&'static LifeState>; 3]; 3] {
    let mut cells: [[Option<&'static LifeState>; 3]; 3] = [[Some(&Dead); 3]; 3];
    let order = [0usize, 1, 2, 3, 5, 6, 7, 8];
    for k in 0..alive {
        cells[order[k] / 3][order[k] % 3] = Some(&Alive);
    }
    for k in 0..beyond {
        cells[order[7 - k] / 3][order[7 - k] % 3] = None;
    }
    cells[1][1] = None;
    cells
}

#[test]
fn life_state_tells_life() {
    assert!(Alive.is_alive());
    assert!(!Dead.is_alive());
    assert_eq!(LifeState::default(), Dead);
}

#[test]
fn life_state_colours() {
    assert_eq!(Alive.colour(), [0xff, 0xff, 0xff, 0xff]);
    assert_eq!(Dead.colour(), [0x00, 0x00, 0x00, 0xff]);
}

#[test]
fn life_state_symbols() {
    assert_eq!(Alive.symbol(), '#');
    assert_eq!(Dead.symbol(), '.');
}

#[test]
fn counts_the_living_among_nine() {
    assert_eq!(count_alive_neighbours([[None; 3]; 3]), 0);
    assert_eq!(count_alive_neighbours([[Some(&Dead); 3]; 3]), 0);
    assert_eq!(count_alive_neighbours([[Some(&Alive); 3]; 3]), 9);
    assert_eq!(count_alive_neighbours(block(5, 0)), 5);
    assert_eq!(count_alive_neighbours(block(5, 3)), 5);
    assert_eq!(count_alive_neighbours(block(8, 3)), 5);
    let mut cells = block(2, 0);
    cells[1][1] = Some(&Alive);
    assert_eq!(count_alive_neighbours(cells), 3);
}

#[test]
fn a_dead_cell_comes_to_life_among_three() {
    for n in 0..=8 {
        let expected = if n == 3 { Alive } else { Dead };
        assert_eq!(game_of_life(&Dead, block(n, 0)), expected, "among {}", n);
    }
}

#[test]
fn a_living_cell_stays_alive_among_two_or_three() {
    for n in 0..=8 {
        let expected = if n == 2 || n == 3 { Alive } else { Dead };
        assert_eq!(game_of_life(&Alive, block(n, 0)), expected, "among {}", n);
    }
}

#[test]
fn grid_is_written_row_by_row() {
    let grid = [[Alive, Dead, Dead], [Dead, Alive, Alive]];
    assert_eq!(grid_to_string(&grid), "#..\n.##\n");
    let empty: [[LifeState; 0]; 2] = [[], []];
    assert_eq!(grid_to_string(&empty), "\n\n");
    let none: [[LifeState; 3]; 0] = [];
    assert_eq!(grid_to_string(&none), "");
}

#[test]
fn grid_is_drawn_in_squares() {
    let grid = [[Alive, Dead], [Dead, Alive]];
    let mut frame = vec![9u8; 4 * 4 * 4];
    draw_grid(&grid, &mut frame, 4, 2);
    let pixel = |x: usize, y: usize| frame[(y * 4 + x) * 4..(y * 4 + x) * 4 + 4].to_vec();
    assert_eq!(pixel(0, 0), vec![255, 255, 255, 255]);
    assert_eq!(pixel(1, 1), vec![255, 255, 255, 255]);
    assert_eq!(pixel(2, 1), vec![0, 0, 0, 255]);
    assert_eq!(pixel(1, 2), vec![0, 0, 0, 255]);
    assert_eq!(pixel(3, 3), vec![255, 255, 255, 255]);
}

#[test]
fn drawing_leaves_what_no_cell_covers() {
    let grid = [[Alive]];
    let mut frame = vec![9u8; 2 * 2 * 4 + 2];
    draw_grid(&grid, &mut frame, 2, 1);
    assert_eq!(frame, vec![255, 255, 255, 255, 9, 9, 9, 9, 9, 9, 9, 9, 9, 9, 9, 9, 9, 9]);
}
