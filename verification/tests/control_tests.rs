use conways_game_of_life::board::GameBoard;
use conways_game_of_life::control::{Action, GameControl, InputState};

fn idle() -> InputState {
    InputState {
        quit: false,
        toggle_pause: false,
        evolve: false,
        mouse_cell: (0, 0),
        mouse_prev_cell: (0, 0),
        mouse_pressed: false,
        mouse_released: false,
        mouse_held: false,
    }
}

fn live_cells(b: &GameBoard) -> Vec<(usize, usize)> {
    let mut out = Vec::new();
    for (r, row) in b.get_board().iter().enumerate() {
        for (c, &alive) in row.iter().enumerate() {
            if alive {
                out.push((r, c));
            }
        }
    }
    out
}

#[test]
fn new_control_is_running_and_not_drawing() {
    let c = GameControl::new();
    assert!(!c.paused);
    assert_eq!(c.draw_state, None);
}

#[test]
fn quit_exits_and_changes_nothing() {
    let mut c = GameControl::new();
    let mut b = GameBoard::new(4, 4);
    b.set_cell(true, 1, 1);
    let input = InputState { quit: true, evolve: true, mouse_pressed: true, ..idle() };
    let actions = c.handle_input(&mut b, &input);
    assert_eq!(actions, vec![Action::Exit]);
    assert_eq!(live_cells(&b), vec![(1, 1)]);
    assert_eq!(c, GameControl::new());
}

#[test]
fn space_toggles_pause() {
    let mut c = GameControl::new();
    let mut b = GameBoard::new(2, 2);
    let input = InputState { toggle_pause: true, ..idle() };
    assert_eq!(c.handle_input(&mut b, &input), vec![]);
    assert!(c.paused);
    c.handle_input(&mut b, &input);
    assert!(!c.paused);
}

#[test]
fn e_evolves_draws_and_renders() {
    let mut c = GameControl::new();
    let mut b = GameBoard::new(3, 3);
    b.set_cell(true, 1, 1);
    let input = InputState { evolve: true, ..idle() };
    assert_eq!(c.handle_input(&mut b, &input), vec![Action::Draw, Action::Render]);
    assert_eq!(live_cells(&b), vec![]);
}

#[test]
fn click_sets_a_cell_and_starts_a_stroke() {
    let mut c = GameControl::new();
    let mut b = GameBoard::new(5, 5);
    let input = InputState { mouse_pressed: true, mouse_cell: (3, 1), ..idle() };
    assert_eq!(c.handle_input(&mut b, &input), vec![Action::Draw, Action::Render]);
    assert_eq!(live_cells(&b), vec![(3, 1)]);
    assert_eq!(c.draw_state, Some(true));
}

#[test]
fn held_stroke_draws_a_line_and_release_ends_it() {
    let mut c = GameControl { paused: false, draw_state: Some(true) };
    let mut b = GameBoard::new(5, 5);
    let held = InputState { mouse_held: true, mouse_prev_cell: (0, 0), mouse_cell: (2, 0), ..idle() };
    assert_eq!(c.handle_input(&mut b, &held), vec![]);
    assert_eq!(live_cells(&b), vec![(0, 0), (0, 1), (0, 2)]);
    assert_eq!(c.draw_state, Some(true));
    let release = InputState { mouse_released: true, mouse_prev_cell: (2, 0), mouse_cell: (2, 2), ..idle() };
    assert_eq!(c.handle_input(&mut b, &release), vec![Action::Draw]);
    assert_eq!(live_cells(&b), vec![(0, 0), (0, 1), (0, 2), (1, 2), (2, 2)]);
    assert_eq!(c.draw_state, None);
}

#[test]
fn stroke_without_buttons_ends_without_drawing() {
    let mut c = GameControl { paused: false, draw_state: Some(true) };
    let mut b = GameBoard::new(3, 3);
    let input = InputState { mouse_prev_cell: (0, 0), mouse_cell: (2, 2), ..idle() };
    assert_eq!(c.handle_input(&mut b, &input), vec![Action::Draw]);
    assert_eq!(live_cells(&b), vec![]);
    assert_eq!(c.draw_state, None);
}

#[test]
fn no_stroke_no_drawing() {
    let mut c = GameControl::new();
    let mut b = GameBoard::new(3, 3);
    let input = InputState { mouse_held: true, mouse_cell: (2, 2), ..idle() };
    assert_eq!(c.handle_input(&mut b, &input), vec![]);
    assert_eq!(live_cells(&b), vec![]);
}
