use game_of_life::{Cell, Universe};

fn blank(width: u32, height: u32) -> Universe {
    let mut u = Universe::new(&vec![true; 64 * 64]);
    u.set_width(width);
    u.set_height(height);
    u
}

fn live_positions(u: &Universe) -> Vec<(u32, u32)> {
    let mut out = Vec::new();
    for row in 0..u.height() {
        for col in 0..u.width() {
            if u.get_cells()[u.get_index(row, col)] == Cell::Alive {
                out.push((row, col));
            }
        }
    }
    out
}

#[test]
fn cell_codes_and_toggle() {
    assert_eq!(Cell::Dead.code(), 0);
    assert_eq!(Cell::Alive.code(), 1);
    let mut c = Cell::Dead;
    c.toggle();
    assert_eq!(c, Cell::Alive);
    c.toggle();
    assert_eq!(c, Cell::Dead);
}

#[test]
fn new_is_sixty_four_square_and_follows_the_samples() {
    let mut samples = vec![false; 64 * 64];
    samples[0] = true;
    samples[65] = true;
    let u = Universe::new(&samples);
    assert_eq!(u.width(), 64);
    assert_eq!(u.height(), 64);
    assert_eq!(u.get_cells().len(), 64 * 64);
    assert_eq!(u.get_cells()[0], Cell::Dead);
    assert_eq!(u.get_cells()[1], Cell::Alive);
    assert_eq!(u.get_cells()[65], Cell::Dead);
    assert_eq!(u.cells().iter().filter(|c| **c == Cell::Alive).count(), 64 * 64 - 2);
}

#[test]
fn resize_clears_content() {
    let mut u = Universe::new(&vec![false; 64 * 64]);
    u.set_width(5);
    assert_eq!(u.width(), 5);
    assert_eq!(u.height(), 64);
    assert_eq!(u.get_cells().len(), 5 * 64);
    assert!(u.get_cells().iter().all(|c| *c == Cell::Dead));
    u.toggle_cell(1, 1);
    u.set_height(3);
    assert_eq!(u.get_cells().len(), 15);
    assert!(u.get_cells().iter().all(|c| *c == Cell::Dead));
    u.set_width(0);
    assert_eq!(u.get_cells().len(), 0);
}

#[test]
fn kill_and_reset_keep_the_size() {
    let mut u = blank(4, 3);
    u.reset(&[false, true, true, true, true, true, true, true, true, true, true, false]);
    assert_eq!(u.get_cells().len(), 12);
    assert_eq!(live_positions(&u), vec![(0, 0), (2, 3)]);
    u.kill();
    assert_eq!(u.width(), 4);
    assert_eq!(u.height(), 3);
    assert_eq!(u.get_cells().len(), 12);
    assert!(u.get_cells().iter().all(|c| *c == Cell::Dead));
}

#[test]
fn index_is_row_major() {
    let u = blank(7, 5);
    assert_eq!(u.get_index(0, 0), 0);
    assert_eq!(u.get_index(0, 6), 6);
    assert_eq!(u.get_index(1, 0), 7);
    assert_eq!(u.get_index(4, 6), 34);
}

#[test]
fn toggle_twice_restores_the_grid() {
    let mut u = blank(4, 4);
    u.set_cells(&[(1, 2), (3, 3)]);
    let before: Vec<Cell> = u.get_cells().to_vec();
    u.toggle_cell(1, 2);
    assert_eq!(u.get_cells()[u.get_index(1, 2)], Cell::Dead);
    u.toggle_cell(1, 2);
    assert_eq!(u.get_cells().to_vec(), before);
    u.toggle_cell(0, 0);
    assert_eq!(u.get_cells()[0], Cell::Alive);
    u.toggle_cell(0, 0);
    assert_eq!(u.get_cells().to_vec(), before);
}

#[test]
fn set_cells_marks_each_pair() {
    let mut u = blank(5, 4);
    u.set_cells(&[(0, 4), (3, 0), (0, 4)]);
    assert_eq!(live_positions(&u), vec![(0, 4), (3, 0)]);
    u.set_cells(&[]);
    assert_eq!(live_positions(&u), vec![(0, 4), (3, 0)]);
}

#[test]
fn isolated_cell_dies_in_one_tick() {
    let mut u = blank(3, 3);
    u.set_cells(&[(1, 1)]);
    u.tick();
    assert!(u.get_cells().iter().all(|c| *c == Cell::Dead));
    assert_eq!(u.get_cells().len(), 9);
}

#[test]
fn corner_wraps_to_opposite_corners() {
    let mut u = blank(5, 4);
    u.set_cells(&[(0, 0)]);
    assert_eq!(u.live_neighbor_count(3, 4), 1);
    assert_eq!(u.live_neighbor_count(3, 0), 1);
    assert_eq!(u.live_neighbor_count(0, 4), 1);
    assert_eq!(u.live_neighbor_count(2, 2), 0);
    assert_eq!(u.live_neighbor_count(0, 0), 0);
    let mut v = blank(5, 4);
    v.set_cells(&[(3, 4), (3, 0), (0, 4)]);
    assert_eq!(v.live_neighbor_count(0, 0), 3);
}

#[test]
fn neighbor_count_of_a_full_grid_is_eight() {
    let mut u = blank(4, 4);
    u.reset(&vec![false; 16]);
    assert_eq!(u.live_neighbor_count(2, 1), 8);
}

#[test]
fn glider_moves_one_cell_diagonally_in_four_ticks() {
    let mut u = blank(8, 8);
    u.add_glider(2, 2);
    assert_eq!(live_positions(&u), vec![(1, 2), (2, 3), (3, 1), (3, 2), (3, 3)]);
    for _ in 0..4 {
        u.tick();
    }
    let mut expected = blank(8, 8);
    expected.add_glider(3, 3);
    assert_eq!(u.get_cells().to_vec(), expected.get_cells().to_vec());
}

#[test]
fn glider_wraps_across_the_edges() {
    let mut u = blank(6, 6);
    u.add_glider(0, -1);
    assert_eq!(live_positions(&u), vec![(0, 0), (1, 0), (1, 4), (1, 5), (5, 5)]);
    for _ in 0..4 {
        u.tick();
    }
    let mut expected = blank(6, 6);
    expected.add_glider(1, 0);
    assert_eq!(u.get_cells().to_vec(), expected.get_cells().to_vec());
}

#[test]
fn block_is_unchanged_by_tick() {
    let mut u = blank(6, 5);
    u.set_cells(&[(4, 5), (4, 0), (0, 5), (0, 0)]);
    let before: Vec<Cell> = u.get_cells().to_vec();
    u.tick();
    assert_eq!(u.get_cells().to_vec(), before);
    let mut small = blank(3, 3);
    small.set_cells(&[(1, 1), (1, 2), (2, 1), (2, 2)]);
    let before: Vec<Cell> = small.get_cells().to_vec();
    small.tick();
    assert_eq!(small.get_cells().to_vec(), before);
}

#[test]
fn blinker_oscillates() {
    let mut u = blank(5, 5);
    u.set_cells(&[(2, 1), (2, 2), (2, 3)]);
    u.tick();
    assert_eq!(live_positions(&u), vec![(1, 2), (2, 2), (3, 2)]);
    u.tick();
    assert_eq!(live_positions(&u), vec![(2, 1), (2, 2), (2, 3)]);
}

#[test]
fn pulsar_has_forty_eight_cells_and_period_three() {
    let mut u = blank(20, 20);
    u.add_pulsar(9, 9);
    assert_eq!(live_positions(&u).len(), 48);
    assert_eq!(u.get_cells()[u.get_index(3, 5)], Cell::Alive);
    assert_eq!(u.get_cells()[u.get_index(9, 9)], Cell::Dead);
    let start: Vec<Cell> = u.get_cells().to_vec();
    u.tick();
    assert_ne!(u.get_cells().to_vec(), start);
    u.tick();
    u.tick();
    assert_eq!(u.get_cells().to_vec(), start);
}

#[test]
fn pulsar_wraps_near_the_origin() {
    let mut u = blank(20, 20);
    u.add_pulsar(0, 0);
    assert_eq!(live_positions(&u).len(), 48);
    assert_eq!(u.get_cells()[u.get_index(14, 16)], Cell::Alive);
    assert_eq!(u.get_cells()[u.get_index(6, 4)], Cell::Alive);
}

#[test]
fn render_draws_rows_of_glyphs() {
    let mut u = blank(3, 2);
    u.set_cells(&[(0, 1), (1, 2)]);
    assert_eq!(u.render(), "\u{25FB}\u{25FC}\u{25FB}\n\u{25FB}\u{25FB}\u{25FC}\n");
    let empty = blank(0, 2);
    assert_eq!(empty.render(), "\n\n");
}

#[test]
fn tick_on_an_empty_grid_keeps_it_empty() {
    let mut u = blank(0, 0);
    u.tick();
    assert_eq!(u.get_cells().len(), 0);
    let mut v = blank(4, 4);
    v.tick();
    assert!(v.get_cells().iter().all(|c| *c == Cell::Dead));
}

#[test]
fn tick_is_deterministic() {
    let samples: Vec<bool> = (0..64 * 64).map(|i| (i * 7919) % 3 == 0).collect();
    let mut a = Universe::new(&samples);
    let mut b = Universe::new(&samples);
    a.tick();
    b.tick();
    assert_eq!(a.get_cells().to_vec(), b.get_cells().to_vec());
}
