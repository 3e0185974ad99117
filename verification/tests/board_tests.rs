use conways_game_of_life::board::{Cell, GameBoard, PIX_WIDTH};

fn live_cells(b: &GameBoard) -> Vec<(usize, usize)> {
    let mut out = Vec::new();
    for (r, row) in b.get_board().iter().enumerate() {
        for (c, &alive) in row.iter().enumerate() {
            if alive {
                out.push((r, c));
            }
        }
    }
    out
}

fn board_with(height: usize, width: usize, cells: &[(usize, usize)]) -> GameBoard {
    let mut b = GameBoard::new(height, width);
    for &(r, c) in cells {
        b.set_cell(true, r, c);
    }
    b
}

#[test]
fn new_board_has_size_and_no_live_cell() {
    let b = GameBoard::new(3, 4);
    assert_eq!(b.get_height(), 3);
    assert_eq!(b.get_width(), 4);
    assert_eq!(b.get_board(), &vec![vec![false; 4]; 3]);
}

#[test]
fn default_board_is_empty() {
    let b = GameBoard::default();
    assert_eq!(b.get_height(), 0);
    assert_eq!(b.get_width(), 0);
    assert!(b.get_board().is_empty());
}

#[test]
fn set_cell_returns_state_and_changes_only_that_cell() {
    let mut b = GameBoard::new(3, 4);
    assert!(b.set_cell(true, 1, 2));
    assert_eq!(live_cells(&b), vec![(1, 2)]);
    assert!(!b.set_cell(false, 1, 2));
    assert_eq!(live_cells(&b), vec![]);
}

#[test]
fn update_copies_every_cell() {
    let src = board_with(3, 3, &[(0, 0), (2, 1)]);
    let mut dst = board_with(3, 3, &[(1, 1)]);
    dst.update(&src);
    assert_eq!(dst.get_board(), src.get_board());
}

#[test]
fn count_live_neighbors_counts_the_eight_around() {
    let mut b = board_with(3, 3, &[(0, 0), (0, 1), (0, 2), (1, 0), (1, 1), (1, 2), (2, 0), (2, 1), (2, 2)]);
    assert_eq!(b.count_live_neighbors(1, 1), 8);
    assert_eq!(b.count_live_neighbors(0, 0), 3);
    assert_eq!(b.count_live_neighbors(0, 1), 5);
    assert_eq!(b.count_live_neighbors(2, 2), 3);
}

#[test]
fn count_live_neighbors_ignores_the_cell_itself() {
    let mut b = board_with(3, 3, &[(1, 1)]);
    assert_eq!(b.count_live_neighbors(1, 1), 0);
    assert_eq!(b.count_live_neighbors(0, 0), 1);
}

#[test]
fn live_cell_with_one_neighbor_dies() {
    let mut b = board_with(3, 3, &[(0, 0), (1, 1)]);
    b.evolve_live_cell(1, 1);
    assert_eq!(live_cells(&b), vec![(0, 0)]);
}

#[test]
fn live_cell_with_two_neighbors_survives() {
    let mut b = board_with(3, 3, &[(0, 0), (1, 1), (2, 2)]);
    b.evolve_live_cell(1, 1);
    assert_eq!(live_cells(&b), vec![(0, 0), (1, 1), (2, 2)]);
}

#[test]
fn live_cell_with_four_neighbors_dies() {
    let mut b = board_with(3, 3, &[(0, 0), (0, 2), (1, 1), (2, 0), (2, 2)]);
    b.evolve_live_cell(1, 1);
    assert_eq!(live_cells(&b), vec![(0, 0), (0, 2), (2, 0), (2, 2)]);
}

#[test]
fn dead_cell_with_three_neighbors_comes_alive() {
    let mut b = board_with(3, 3, &[(0, 0), (0, 1), (0, 2)]);
    b.evolve_dead_cell(1, 1);
    assert_eq!(live_cells(&b), vec![(0, 0), (0, 1), (0, 2), (1, 1)]);
}

#[test]
fn dead_cell_with_two_neighbors_stays_dead() {
    let mut b = board_with(3, 3, &[(0, 0), (0, 1)]);
    b.evolve_dead_cell(1, 1);
    assert_eq!(live_cells(&b), vec![(0, 0), (0, 1)]);
}

#[test]
fn evolve_settles_into_a_still_square() {
    let mut b = board_with(10, 20, &[(5, 5), (6, 5), (6, 6), (7, 7), (8, 8)]);
    b.evolve();
    assert_eq!(live_cells(&b), vec![(5, 5), (5, 6), (6, 5)]);
    b.evolve();
    assert_eq!(live_cells(&b), vec![(5, 5), (5, 6), (6, 5), (6, 6)]);
    b.evolve();
    assert_eq!(live_cells(&b), vec![(5, 5), (5, 6), (6, 5), (6, 6)]);
}

#[test]
fn evolve_decides_cells_in_place_in_row_major_order() {
    // A vertical bar of three: the top cell dies first, so the cells beside
    // the middle one then see two neighbours and stay dead, the middle cell
    // sees one and dies, and so does the bottom one: nothing is left.
    let mut b = board_with(5, 5, &[(1, 2), (2, 2), (3, 2)]);
    b.evolve();
    assert_eq!(live_cells(&b), vec![]);
}

#[test]
fn square_is_still() {
    let mut b = board_with(4, 4, &[(1, 1), (1, 2), (2, 1), (2, 2)]);
    b.evolve();
    assert_eq!(live_cells(&b), vec![(1, 1), (1, 2), (2, 1), (2, 2)]);
}

#[test]
fn dead_board_stays_dead() {
    let mut b = GameBoard::new(4, 6);
    b.evolve();
    assert_eq!(b.get_board(), &vec![vec![false; 6]; 4]);
}

#[test]
fn evolve_empty_board() {
    let mut b = GameBoard::new(0, 5);
    b.evolve();
    assert_eq!(b.get_height(), 0);
    assert_eq!(b.get_width(), 5);
}

#[test]
fn grid_idx_on_and_off_the_board() {
    let b = GameBoard::new(3, 4);
    assert_eq!(b.grid_idx(0, 0), Some(0));
    assert_eq!(b.grid_idx(3, 2), Some(11));
    assert_eq!(b.grid_idx(1, 2), Some(9));
    assert_eq!(b.grid_idx(4, 0), None);
    assert_eq!(b.grid_idx(0, 3), None);
    assert_eq!(b.grid_idx(-1, 0), None);
    assert_eq!(b.grid_idx(0, -1), None);
}

#[test]
fn draw_colours_each_pixel_by_its_cell() {
    let w = PIX_WIDTH as usize;
    let mut b = GameBoard::new(2, w);
    b.set_cell(true, 1, 3);
    let mut frame = vec![7u8; 4 * w * 2];
    b.draw(&mut frame);
    let alive = [0u8, 0xff, 0xff, 0xff];
    let dead = [0u8, 0, 0, 0xff];
    for k in 0..(w * 2) {
        let expected = if k == w + 3 { alive } else { dead };
        assert_eq!(&frame[4 * k..4 * k + 4], &expected, "pixel {}", k);
    }
}

#[test]
fn set_line_draws_a_diagonal() {
    let mut b = GameBoard::new(10, 10);
    b.set_line(0, 0, 5, 5, true);
    assert_eq!(live_cells(&b), vec![(0, 0), (1, 1), (2, 2), (3, 3), (4, 4), (5, 5)]);
}

#[test]
fn set_line_uses_x_as_column_and_y_as_row() {
    let mut b = GameBoard::new(10, 10);
    b.set_line(2, 1, 5, 1, true);
    assert_eq!(live_cells(&b), vec![(1, 2), (1, 3), (1, 4), (1, 5)]);
}

#[test]
fn set_line_stops_at_the_edge() {
    let mut b = GameBoard::new(3, 4);
    b.set_line(1, 0, 8, 0, true);
    assert_eq!(live_cells(&b), vec![(0, 1), (0, 2), (0, 3)]);
}

#[test]
fn set_line_clamps_the_start() {
    let mut b = GameBoard::new(4, 4);
    b.set_line(-5, -5, 2, 0, true);
    assert_eq!(live_cells(&b), vec![(0, 0), (0, 1), (0, 2)]);
}

#[test]
fn set_line_can_clear_cells() {
    let mut b = board_with(3, 3, &[(0, 0), (0, 1), (0, 2), (1, 1)]);
    b.set_line(0, 0, 2, 0, false);
    assert_eq!(live_cells(&b), vec![(1, 1)]);
}

#[test]
fn set_line_points_stops_at_first_point_off_the_board() {
    let mut b = GameBoard::new(3, 3);
    b.set_line_points(line_drawing::Bresenham::new((0, 1), (5, 1)), true);
    assert_eq!(live_cells(&b), vec![(1, 0), (1, 1), (1, 2)]);
}

#[test]
fn row_text_shows_ones_and_zeros() {
    let b = board_with(2, 3, &[(0, 1), (1, 0), (1, 2)]);
    assert_eq!(b.row_text(0), " 0 1 0 ");
    assert_eq!(b.row_text(1), " 1 0 1 ");
}

#[test]
fn row_text_of_a_zero_width_row() {
    let b = GameBoard::new(1, 0);
    assert_eq!(b.row_text(0), " ");
}

#[test]
fn cell_is_plain_data() {
    let c = Cell { alive: true, row: 2, col: 3 };
    assert_eq!(c.clone(), c);
    assert_eq!(Cell::default(), Cell { alive: false, row: 0, col: 0 });
}

#[test]
fn set_line_points_draws_what_is_left_of_a_line() {
    let mut b = GameBoard::new(3, 3);
    let mut line = line_drawing::Bresenham::new((0, 0), (2, 2));
    line.next();
    b.set_line_points(line, true);
    assert_eq!(live_cells(&b), vec![(1, 1), (2, 2)]);
}

#[test]
fn set_line_towards_a_far_end_stops_at_the_edge() {
    let mut b = GameBoard::new(2, 3);
    b.set_line(0, 0, isize::MAX / 2, 0, true);
    assert_eq!(live_cells(&b), vec![(0, 0), (0, 1), (0, 2)]);
}

#[test]
fn set_line_clamps_a_start_right_of_the_board_onto_its_last_column() {
    let mut b = GameBoard::new(3, 3);
    b.set_line(5, 1, 0, 1, true);
    assert_eq!(
        b.get_board(),
        &vec![vec![false, false, false], vec![true, true, true], vec![false, false, false]]
    );
}

#[test]
fn set_line_clamps_a_start_below_the_board_onto_its_last_row() {
    let mut b = board_with(3, 3, &[(1, 1)]);
    b.set_line(0, 9, 0, 0, true);
    assert_eq!(live_cells(&b), vec![(0, 0), (1, 0), (1, 1), (2, 0)]);
}

#[test]
fn set_line_towards_an_end_at_the_edge_of_isize() {
    let mut b = GameBoard::new(2, 3);
    b.set_line(0, 1, isize::MAX, 1, true);
    assert_eq!(live_cells(&b), vec![(1, 0), (1, 1), (1, 2)]);
}

#[test]
fn set_line_on_an_empty_board_does_nothing() {
    let mut b = GameBoard::new(0, 3);
    b.set_line(1, 1, 2, 2, true);
    assert_eq!(b.get_height(), 0);
    assert_eq!(b.get_width(), 3);
}

#[test]
fn square_at_the_corner_is_still() {
    let mut b = board_with(5, 6, &[(3, 4), (3, 5), (4, 4), (4, 5)]);
    b.evolve();
    assert_eq!(live_cells(&b), vec![(3, 4), (3, 5), (4, 4), (4, 5)]);
}
