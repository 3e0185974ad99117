//! The decisions of the interactive game: what one round of user input does
//! to the board and which outside work (drawing the frame, presenting it,
//! leaving the event loop) follows.

use vstd::prelude::*;

use crate::board::{line_drawn, line_fits, GameBoard};
use crate::rules::{evolved, is_rect, lemma_evolved_rect, lemma_set_cell_grid, set_cell_grid};

verus! {

/// Outside work that the event loop performs after a round of input.
#[derive(Debug, Clone, Copy, PartialEq, Eq)]
pub enum Action {
    /// Fill the frame with the board ([`GameBoard::draw`]).
    Draw,
    /// Present the frame on screen.
    Render,
    /// Leave the event loop.
    Exit,
}

/// One round of user input, as the input helper reports it.
#[derive(Debug, Clone, Copy, PartialEq, Eq)]
pub struct InputState {
    /// Escape was pressed, or the window was asked to close.
    pub quit: bool,
    /// Space was pressed.
    pub toggle_pause: bool,
    /// `E` was pressed.
    pub evolve: bool,
    /// The pixel under the mouse now, `(0, 0)` when the mouse is away.
    pub mouse_cell: (isize, isize),
    /// The pixel under the mouse at the previous round.
    pub mouse_prev_cell: (isize, isize),
    /// The left button went down in this round.
    pub mouse_pressed: bool,
    /// The left button went up in this round.
    pub mouse_released: bool,
    /// The left button is held down.
    pub mouse_held: bool,
}

/// The state of the interactive game besides the board.
#[derive(Debug, Clone, Copy, PartialEq, Eq)]
pub struct GameControl {
    /// Toggled by Space.
    pub paused: bool,
    /// While a mouse stroke is being drawn, the state it paints cells with.
    pub draw_state: Option<bool>,
}

/// The board after one round of input, when the round does not quit.
pub open spec fn next_cells(
    g: Seq<Seq<bool>>,
    height: nat,
    width: nat,
    control: GameControl,
    input: InputState,
) -> Seq<Seq<bool>> {
    let g1 = if input.evolve {
        evolved(g, height, width)
    } else {
        g
    };
    if input.mouse_pressed {
        set_cell_grid(g1, input.mouse_cell.0 as int, input.mouse_cell.1 as int, true)
    } else {
        match control.draw_state {
            Some(alive) => if input.mouse_released || input.mouse_held {
                line_drawn(
                    g1,
                    height,
                    width,
                    input.mouse_prev_cell.0,
                    input.mouse_prev_cell.1,
                    input.mouse_cell.0,
                    input.mouse_cell.1,
                    alive,
                )
            } else {
                g1
            },
            None => g1,
        }
    }
}

/// The control state after one round of input, when the round does not quit.
pub open spec fn next_control(control: GameControl, input: InputState) -> GameControl {
    GameControl {
        paused: if input.toggle_pause {
            !control.paused
        } else {
            control.paused
        },
        draw_state: if input.mouse_pressed {
            Some(true)
        } else {
            match control.draw_state {
                Some(alive) => if input.mouse_released || !input.mouse_held {
                    None
                } else {
                    Some(alive)
                },
                None => None,
            }
        },
    }
}

/// The outside work that follows one round of input, in order.
pub open spec fn next_actions(control: GameControl, input: InputState) -> Seq<Action> {
    if input.quit {
        seq![Action::Exit]
    } else {
        let a1 = if input.evolve {
            seq![Action::Draw, Action::Render]
        } else {
            Seq::empty()
        };
        if input.mouse_pressed {
            a1 + seq![Action::Draw, Action::Render]
        } else {
            match control.draw_state {
                Some(alive) => if input.mouse_released || !input.mouse_held {
                    a1.push(Action::Draw)
                } else {
                    a1
                },
                None => a1,
            }
        }
    }
}

/// What a round of input needs of the board so that no step of it fails.
pub open spec fn input_fits(height: nat, width: nat, control: GameControl, input: InputState) -> bool {
    !input.quit ==> {
        &&& input.evolve ==> (height * width == 0 || (height <= i32::MAX && width <= i32::MAX))
        &&& input.mouse_pressed ==> (0 <= input.mouse_cell.0 < height && 0 <= input.mouse_cell.1
            < width)
        &&& (!input.mouse_pressed && control.draw_state is Some && (input.mouse_released
            || input.mouse_held)) ==> line_fits(
            height,
            width,
            input.mouse_prev_cell.0,
            input.mouse_prev_cell.1,
            input.mouse_cell.0,
            input.mouse_cell.1,
        )
    }
}

impl GameControl {
    /// Not paused, and no stroke in progress.
    pub fn new() -> (c: GameControl)
        ensures
            !c.paused,
            c.draw_state is None,
    {
        GameControl { paused: false, draw_state: None }
    }

    /// Applies one round of input: quit, toggle the pause, evolve the board,
    /// start a stroke with a click (which sets the clicked cell alive; the
    /// mouse's `x` names the row and its `y` the column), or continue a
    /// stroke by drawing a line from the previous mouse position. Returns the
    /// outside work to do, in order.
    pub fn handle_input(&mut self, board: &mut GameBoard, input: &InputState) -> (actions: Vec<Action>)
        requires
            old(board).wf(),
            input_fits(old(board).rows(), old(board).cols(), *old(self), *input),
        ensures
            final(board).wf(),
            final(board).rows() == old(board).rows(),
            final(board).cols() == old(board).cols(),
            actions@ == next_actions(*old(self), *input),
            input.quit ==> *final(self) == *old(self) && final(board).cells() == old(board).cells(),
            !input.quit ==> *final(self) == next_control(*old(self), *input) && final(board).cells()
                == next_cells(
                old(board).cells(),
                old(board).rows(),
                old(board).cols(),
                *old(self),
                *input,
            ),
            // Without the mouse, E evolves the board exactly one step, and
            // a round without E leaves it as it was.
            !input.quit && !input.mouse_pressed && !(old(self).draw_state is Some && (input.mouse_released
                || input.mouse_held)) ==> final(board).cells() == if input.evolve {
                evolved(old(board).cells(), old(board).rows(), old(board).cols())
            } else {
                old(board).cells()
            },
            // Escape or a close request ends the loop and does nothing else.
            input.quit ==> actions@ == seq![Action::Exit],
            // Space flips the pause, and nothing else does.
            !input.quit ==> final(self).paused == (old(self).paused != input.toggle_pause),
            // E evolves, then the frame is drawn and shown; a click then draws
            // and shows it again.
            !input.quit && input.mouse_pressed ==> actions@ == if input.evolve {
                seq![Action::Draw, Action::Render, Action::Draw, Action::Render]
            } else {
                seq![Action::Draw, Action::Render]
            },
            !input.quit && !input.mouse_pressed && old(self).draw_state is None ==> actions@ == if input.evolve {
                seq![Action::Draw, Action::Render]
            } else {
                Seq::<Action>::empty()
            },
            // During a stroke, a held or released button draws a line from
            // the previous mouse position to the current one with the
            // stroke's state; releasing or letting go ends the stroke.
            !input.quit && !input.mouse_pressed && old(self).draw_state is Some ==> {
                let alive = old(self).draw_state->0;
                let g1 = if input.evolve {
                    evolved(old(board).cells(), old(board).rows(), old(board).cols())
                } else {
                    old(board).cells()
                };
                &&& (input.mouse_released || input.mouse_held) ==> final(board).cells() == line_drawn(
                    g1,
                    old(board).rows(),
                    old(board).cols(),
                    input.mouse_prev_cell.0,
                    input.mouse_prev_cell.1,
                    input.mouse_cell.0,
                    input.mouse_cell.1,
                    alive,
                )
                &&& !(input.mouse_released || input.mouse_held) ==> final(board).cells() == g1
                &&& (input.mouse_released || !input.mouse_held) ==> final(self).draw_state is None
                    && actions@.last() == Action::Draw
                &&& !(input.mouse_released || !input.mouse_held) ==> final(self).draw_state == Some(alive)
            },
            // A click makes the clicked cell alive, whatever it was, starts a
            // stroke that paints cells alive, and changes no other cell.
            !input.quit && input.mouse_pressed ==> {
                let g1 = if input.evolve {
                    evolved(old(board).cells(), old(board).rows(), old(board).cols())
                } else {
                    old(board).cells()
                };
                &&& final(board).cells()[input.mouse_cell.0 as int][input.mouse_cell.1 as int]
                &&& final(self).draw_state == Some(true)
                &&& forall|i: int, j: int|
                    0 <= i < old(board).rows() && 0 <= j < old(board).cols() && (i != input.mouse_cell.0
                        || j != input.mouse_cell.1) ==> #[trigger] final(board).cells()[i][j] == g1[i][j]
            },
    {
        proof {
            board.lemma_wf();
        }
        let mut actions: Vec<Action> = Vec::new();
        if input.quit {
            actions.push(Action::Exit);
            return actions;
        }
        if input.toggle_pause {
            self.paused = !self.paused;
        }
        if input.evolve {
            board.evolve();
            actions.push(Action::Draw);
            actions.push(Action::Render);
        }
        let ghost g1 = board.cells();
        proof {
            board.lemma_wf();
        }
        if input.mouse_pressed {
            self.draw_state = Some(
                board.set_cell(true, input.mouse_cell.0 as usize, input.mouse_cell.1 as usize),
            );
            proof {
                lemma_set_cell_grid(
                    g1,
                    old(board).rows() as int,
                    old(board).cols() as int,
                    input.mouse_cell.0 as int,
                    input.mouse_cell.1 as int,
                    true,
                );
            }
            actions.push(Action::Draw);
            actions.push(Action::Render);
        } else if let Some(draw_alive) = self.draw_state {
            let release = input.mouse_released;
            let held = input.mouse_held;
            if release || held {
                board.set_line(
                    input.mouse_prev_cell.0,
                    input.mouse_prev_cell.1,
                    input.mouse_cell.0,
                    input.mouse_cell.1,
                    draw_alive,
                );
            }
            if release || !held {
                actions.push(Action::Draw);
                self.draw_state = None;
            }
        }
        proof {
            let a1: Seq<Action> = if input.evolve {
                seq![Action::Draw, Action::Render]
            } else {
                Seq::empty()
            };
            if input.mouse_pressed {
                assert(actions@ =~= a1 + seq![Action::Draw, Action::Render]);
            } else {
                assert(actions@ =~= next_actions(*old(self), *input));
            }
        }
        actions
    }
}

} // verus!

verus! {

/// Law: a round that presses E, does not quit and leaves the mouse alone
/// (no click, no stroke being drawn) evolves the board exactly one step.
pub proof fn lemma_round_evolves_once(
    g: Seq<Seq<bool>>,
    height: nat,
    width: nat,
    control: GameControl,
    input: InputState,
)
    requires
        !input.quit,
        input.evolve,
        !input.mouse_pressed,
        control.draw_state is None,
    ensures
        next_cells(g, height, width, control, input) == evolved(g, height, width),
        next_actions(control, input) == seq![Action::Draw, Action::Render],
{
    assert(next_actions(control, input) =~= seq![Action::Draw, Action::Render]);
}

/// Law: a click that does not quit makes the clicked cell alive, whatever
/// it was, leaves every other cell as the round's evolution (if any) left
/// it, and starts a stroke that paints cells alive.
pub proof fn lemma_click_makes_cell_alive(
    g: Seq<Seq<bool>>,
    height: nat,
    width: nat,
    control: GameControl,
    input: InputState,
)
    requires
        is_rect(g, height as int, width as int),
        !input.quit,
        input.mouse_pressed,
        0 <= input.mouse_cell.0 < height,
        0 <= input.mouse_cell.1 < width,
    ensures
        next_cells(g, height, width, control, input)[input.mouse_cell.0 as int][input.mouse_cell.1 as int],
        next_control(control, input).draw_state == Some(true),
        forall|i: int, j: int|
            0 <= i < height && 0 <= j < width && (i != input.mouse_cell.0 || j != input.mouse_cell.1)
                ==> #[trigger] next_cells(g, height, width, control, input)[i][j] == (if input.evolve {
                evolved(g, height, width)
            } else {
                g
            })[i][j],
{
    let g1 = if input.evolve {
        evolved(g, height, width)
    } else {
        g
    };
    if input.evolve {
        lemma_evolved_rect(g, height, width);
    }
    lemma_set_cell_grid(g1, height as int, width as int, input.mouse_cell.0 as int, input.mouse_cell.1 as int, true);
}

} // verus!
