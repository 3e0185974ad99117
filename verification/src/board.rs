//! The game board: a rectangle of cells that are alive or dead.

use vstd::prelude::*;
use vstd::string::StringExecFns;

use crate::line::{
    bresenham_points, line_end_ok, line_ends_ok, line_next, line_points_left, line_start,
    steps_to_neighbor,
};
use crate::rules::{
    all_dead, clamp_coord, dead_grid, drawn_at, drawn_prefix, evolved, is_rect, lemma_drawn_prefix, lemma_drawn_prefix_at_least,
    lemma_drawn_prefix_on_grid, board_when_reached, is_still, lemma_dead_board_is_still, lemma_evolved_birth_and_survival,
    lemma_evolved_row_major, lemma_grid_position_inverse, lemma_still_board_is_fixed, lemma_paint_cells, lemma_paint_rect, lemma_set_cell_grid, lemma_evolved_rect,
    lemma_sweep_rect, lemma_sweep_unvisited,
    live_bit, neighbor_count, next_cell, paint, point_on_grid, set_cell_grid, sweep,
};

verus! {

/// The contribution of the offset `(di, dj)` to a neighbour count: the
/// centre offset contributes nothing.
spec fn offset_bit(g: Seq<Seq<bool>>, h: int, w: int, r: int, c: int, di: int, dj: int) -> int {
    if di == 0 && dj == 0 {
        0
    } else {
        live_bit(g, h, w, r, c, di, dj)
    }
}

/// The contributions of the offsets `(di, -1) .. (di, j - 1)`.
spec fn row_partial(g: Seq<Seq<bool>>, h: int, w: int, r: int, c: int, di: int, j: int) -> int {
    if j <= -1 {
        0
    } else if j == 0 {
        offset_bit(g, h, w, r, c, di, -1)
    } else if j == 1 {
        offset_bit(g, h, w, r, c, di, -1) + offset_bit(g, h, w, r, c, di, 0)
    } else {
        offset_bit(g, h, w, r, c, di, -1) + offset_bit(g, h, w, r, c, di, 0) + offset_bit(
            g,
            h,
            w,
            r,
            c,
            di,
            1,
        )
    }
}

/// The contributions of every offset before `(i, j)` in row-major order.
spec fn count_partial(g: Seq<Seq<bool>>, h: int, w: int, r: int, c: int, i: int, j: int) -> int {
    let before = if i <= -1 {
        0
    } else if i == 0 {
        row_partial(g, h, w, r, c, -1, 2)
    } else if i == 1 {
        row_partial(g, h, w, r, c, -1, 2) + row_partial(g, h, w, r, c, 0, 2)
    } else {
        row_partial(g, h, w, r, c, -1, 2) + row_partial(g, h, w, r, c, 0, 2) + row_partial(
            g,
            h,
            w,
            r,
            c,
            1,
            2,
        )
    };
    if i <= 1 {
        before + row_partial(g, h, w, r, c, i, j)
    } else {
        before
    }
}


/// The width, in pixels, of the frame that [`GameBoard::draw`] fills; pixel
/// `k` of the frame shows the cell in row `k / PIX_WIDTH`, column
/// `k % PIX_WIDTH`.
pub const PIX_WIDTH: u32 = 150;

/// The height, in pixels, of the frame shown on screen.
pub const PIX_HEIGHT: u32 = 100;

/// The RGBA colour of a cell: light blue when alive, black when dead.
pub open spec fn pixel_color(alive: bool) -> Seq<u8> {
    if alive {
        seq![0u8, 0xffu8, 0xffu8, 0xffu8]
    } else {
        seq![0u8, 0u8, 0u8, 0xffu8]
    }
}

/// Pixel `k` of the frame falls on a cell of a board of the given size.
pub open spec fn pixel_on_board(height: int, width: int, k: int) -> bool {
    k / (PIX_WIDTH as int) < height && k % (PIX_WIDTH as int) < width
}

/// The four RGBA bytes of pixel `k` of a frame.
pub open spec fn pixel_bytes(frame: Seq<u8>, k: int) -> Seq<u8> {
    frame.subrange(4 * k, 4 * k + 4)
}

/// Byte `i` of the frame that shows the cells `g`.
pub open spec fn frame_byte(g: Seq<Seq<bool>>, i: int) -> u8 {
    let k = i / 4;
    pixel_color(g[k / (PIX_WIDTH as int)][k % (PIX_WIDTH as int)])[i % 4]
}

/// The text of a row of cells: a space, then `1 ` for each live cell and
/// `0 ` for each dead one.
pub open spec fn row_chars(cells: Seq<bool>) -> Seq<char>
    decreases cells.len(),
{
    if cells.len() == 0 {
        seq![' ']
    } else {
        row_chars(cells.drop_last()) + if cells.last() {
            seq!['1', ' ']
        } else {
            seq!['0', ' ']
        }
    }
}

/// The index of the last of `n` rows or columns, or 0 when there are none.
pub open spec fn last_index(n: nat) -> isize {
    if n == 0 {
        0
    } else {
        (n - 1) as isize
    }
}

/// Where a line drawn from `(x0, y0)` starts: the point clamped onto a board
/// of the given size (onto its first column or row when it has none).
pub open spec fn line_start_point(height: nat, width: nat, x0: isize, y0: isize) -> (isize, isize) {
    (clamp_coord(x0, last_index(width)), clamp_coord(y0, last_index(height)))
}

/// The point lies on the board or next to it.
pub open spec fn near_board(p: (isize, isize), height: nat, width: nat) -> bool {
    -1 <= p.0 <= width && -1 <= p.1 <= height
}

/// Law: the text of a row shows its cells left to right, column `c` at
/// index `1 + 2c`.
pub proof fn lemma_row_chars_layout(cells: Seq<bool>)
    ensures
        row_chars(cells).len() == 1 + 2 * cells.len(),
        row_chars(cells)[0] == ' ',
        forall|c: int|
            0 <= c < cells.len() ==> row_chars(cells)[1 + 2 * c] == (if #[trigger] cells[c] {
                '1'
            } else {
                '0'
            }) && row_chars(cells)[2 + 2 * c] == ' ',
    decreases cells.len(),
{
    if cells.len() > 0 {
        let rest = cells.drop_last();
        lemma_row_chars_layout(rest);
        let t = row_chars(cells);
        let tr = row_chars(rest);
        assert forall|c: int| 0 <= c < cells.len() implies t[1 + 2 * c] == (if #[trigger] cells[c] {
            '1'
        } else {
            '0'
        }) && t[2 + 2 * c] == ' ' by {
            if c < rest.len() {
                assert(rest[c] == cells[c]);
                assert(t[1 + 2 * c] == tr[1 + 2 * c]);
                assert(t[2 + 2 * c] == tr[2 + 2 * c]);
            }
        }
    }
}

/// The cells of `g` (of the given size) after a line is drawn from
/// `(x0, y0)` to `(x1, y1)` with `alive`, as [`GameBoard::set_line`] does:
/// the points from the clamped start up to the first point off the board.
pub open spec fn line_drawn(
    g: Seq<Seq<bool>>,
    height: nat,
    width: nat,
    x0: isize,
    y0: isize,
    x1: isize,
    y1: isize,
    alive: bool,
) -> Seq<Seq<bool>> {
    let s = line_start_point(height, width, x0, y0);
    let pts = bresenham_points(s.0, s.1, x1, y1);
    paint(g, pts.take(drawn_prefix(pts, height as int, width as int) as int), alive)
}

/// The line algorithm can start a line from the clamped start to the end
/// (see [`line_ends_ok`]), and, should the drawing reach the end (which it
/// can only do when the end lies on or next to the board), can step past
/// it (see [`line_end_ok`]).
pub open spec fn line_fits(height: nat, width: nat, x0: isize, y0: isize, x1: isize, y1: isize) -> bool {
    let s = line_start_point(height, width, x0, y0);
    &&& line_ends_ok(s.0, s.1, x1, y1)
    &&& near_board((x1, y1), height, width) ==> line_end_ok((x1, y1))
}

/// One change a caller can make to a board: setting a cell, copying in the
/// cells of a board of the same size, evolving, or drawing a line (as
/// [`GameBoard::set_cell`], [`GameBoard::update`], [`GameBoard::evolve`] and
/// [`GameBoard::set_line`] do).
pub ghost enum BoardChange {
    SetCell { alive: bool, row: int, col: int },
    CopyFrom { cells: Seq<Seq<bool>> },
    Evolve,
    SetLine { x0: isize, y0: isize, x1: isize, y1: isize, alive: bool },
}

/// The change is one the corresponding method accepts on a well-formed
/// board of the given size.
pub open spec fn change_fits(height: nat, width: nat, change: BoardChange) -> bool {
    match change {
        BoardChange::SetCell { alive, row, col } => 0 <= row < height && 0 <= col < width,
        BoardChange::CopyFrom { cells } => is_rect(cells, height as int, width as int),
        BoardChange::Evolve => height * width == 0 || (height <= i32::MAX && width <= i32::MAX),
        BoardChange::SetLine { x0, y0, x1, y1, alive } => line_fits(height, width, x0, y0, x1, y1),
    }
}

/// The cells after the change, as the corresponding method's contract
/// states them.
pub open spec fn apply_change(g: Seq<Seq<bool>>, height: nat, width: nat, change: BoardChange) -> Seq<
    Seq<bool>,
> {
    match change {
        BoardChange::SetCell { alive, row, col } => set_cell_grid(g, row, col, alive),
        BoardChange::CopyFrom { cells } => cells,
        BoardChange::Evolve => evolved(g, height, width),
        BoardChange::SetLine { x0, y0, x1, y1, alive } => line_drawn(g, height, width, x0, y0, x1, y1, alive),
    }
}

/// The cells after the changes, in order.
pub open spec fn apply_changes(g: Seq<Seq<bool>>, height: nat, width: nat, changes: Seq<BoardChange>) -> Seq<
    Seq<bool>,
>
    decreases changes.len(),
{
    if changes.len() == 0 {
        g
    } else {
        apply_change(apply_changes(g, height, width, changes.drop_last()), height, width, changes.last())
    }
}

/// Law: whatever sequence of cell settings, copies, evolutions and line
/// drawings a board goes through, it keeps its height and width: the cells stay a
/// rectangle of the same size. (Each method also ensures that `rows()` and
/// `cols()` are unchanged.)
pub proof fn lemma_changes_keep_size(g: Seq<Seq<bool>>, height: nat, width: nat, changes: Seq<BoardChange>)
    requires
        is_rect(g, height as int, width as int),
        forall|k: int| 0 <= k < changes.len() ==> change_fits(height, width, #[trigger] changes[k]),
    ensures
        is_rect(apply_changes(g, height, width, changes), height as int, width as int),
    decreases changes.len(),
{
    if changes.len() > 0 {
        let rest = changes.drop_last();
        assert forall|k: int| 0 <= k < rest.len() implies change_fits(height, width, #[trigger] rest[k]) by {
            assert(rest[k] == changes[k]);
        }
        lemma_changes_keep_size(g, height, width, rest);
        let before = apply_changes(g, height, width, rest);
        assert(change_fits(height, width, changes[changes.len() - 1]));
        match changes.last() {
            BoardChange::SetCell { alive, row, col } => {
                lemma_set_cell_grid(before, height as int, width as int, row, col, alive);
            },
            BoardChange::CopyFrom { cells } => {},
            BoardChange::Evolve => {
                lemma_evolved_rect(before, height, width);
            },
            BoardChange::SetLine { x0, y0, x1, y1, alive } => {
                let st = line_start_point(height, width, x0, y0);
                let pts = bresenham_points(st.0, st.1, x1, y1);
                let n = drawn_prefix(pts, height as int, width as int);
                lemma_drawn_prefix_on_grid(pts, height as int, width as int);
                let drawn = pts.take(n as int);
                assert forall|k: int| 0 <= k < drawn.len() implies point_on_grid(
                    #[trigger] drawn[k],
                    height as int,
                    width as int,
                ) by {
                    assert(drawn[k] == pts[k]);
                }
                lemma_paint_rect(before, drawn, alive, height as int, width as int);
            },
        }
    }
}

/// One cell of a board, by position.
#[derive(Debug, Default, Clone, PartialEq)]
pub struct Cell {
    pub alive: bool,
    pub row: usize,
    pub col: usize,
}

/// A board of `height` rows and `width` columns; `board[i][j]` is the cell
/// in row `i`, column `j`.
#[derive(Debug)]
pub struct GameBoard {
    height: usize,
    width: usize,
    board: Vec<Vec<bool>>,
}

impl GameBoard {
    /// The number of rows.
    pub closed spec fn rows(&self) -> nat {
        self.height as nat
    }

    /// The number of columns.
    pub closed spec fn cols(&self) -> nat {
        self.width as nat
    }

    /// The cells, row by row.
    pub closed spec fn cells(&self) -> Seq<Seq<bool>> {
        self.board.deep_view()
    }

    /// The board holds `rows()` rows of `cols()` cells, its cell count fits
    /// in a `usize`, and neither side exceeds `isize::MAX` (no `Vec` can be
    /// longer).
    pub closed spec fn wf(&self) -> bool {
        &&& is_rect(self.cells(), self.height as int, self.width as int)
        &&& self.height * self.width <= usize::MAX
        &&& self.height <= isize::MAX
        &&& self.width <= isize::MAX
    }

    /// What a well-formed board holds: `rows()` rows of `cols()` cells each,
    /// a cell count that fits in a `usize`, and sides of at most
    /// `isize::MAX`.
    pub proof fn lemma_wf(&self)
        requires
            self.wf(),
        ensures
            is_rect(self.cells(), self.rows() as int, self.cols() as int),
            self.rows() * self.cols() <= usize::MAX,
            self.rows() <= isize::MAX,
            self.cols() <= isize::MAX,
    {
    }

    /// The cells are the views of the rows of `board`.
    proof fn lemma_cells(&self)
        ensures
            self.cells().len() == self.board@.len(),
            forall|r: int| 0 <= r < self.board@.len() ==> #[trigger] self.cells()[r] == self.board@[r]@,
    {
        assert forall|r: int| 0 <= r < self.board@.len() implies #[trigger] self.cells()[r]
            == self.board@[r]@ by {
            assert(self.cells()[r] =~= self.board@[r]@);
        }
    }

    /// A board of the given size with every cell dead.
    pub fn new(height: usize, width: usize) -> (b: GameBoard)
        requires
            height * width <= usize::MAX,
            height <= isize::MAX,
            width <= isize::MAX,
        ensures
            b.wf(),
            b.rows() == height,
            b.cols() == width,
            b.cells() == dead_grid(height as nat, width as nat),
    {
        let mut board: Vec<Vec<bool>> = Vec::new();
        let mut i: usize = 0;
        while i < height
            invariant
                i <= height,
                board@.len() == i,
                forall|r: int| 0 <= r < i ==> (#[trigger] board@[r])@ == Seq::new(width as nat, |c: int| false),
            decreases height - i,
        {
            let mut row: Vec<bool> = Vec::new();
            let mut j: usize = 0;
            while j < width
                invariant
                    j <= width,
                    row@ == Seq::new(j as nat, |c: int| false),
                decreases width - j,
            {
                row.push(false);
                j = j + 1;
            }
            board.push(row);
            i = i + 1;
        }
        let b = GameBoard { height, width, board };
        assert forall|r: int| 0 <= r < height implies #[trigger] b.cells()[r] =~= dead_grid(
            height as nat,
            width as nat,
        )[r] by {
            assert(b.board@[r]@ == Seq::new(width as nat, |c: int| false));
        }
        assert(b.cells() =~= dead_grid(height as nat, width as nat));
        b
    }

    /// The cells, row by row.
    pub fn get_board(&self) -> (b: &Vec<Vec<bool>>)
        ensures
            b.deep_view() == self.cells(),
            self.wf() ==> b@.len() == self.rows(),
            self.wf() ==> forall|r: int| 0 <= r < self.rows() ==> (#[trigger] b@[r])@.len() == self.cols(),
    {
        proof {
            self.lemma_cells();
            if self.wf() {
                assert forall|r: int| 0 <= r < self.rows() implies (#[trigger] self.board@[r])@.len() == self.cols() by {
                    assert(self.cells()[r].len() == self.cols());
                }
            }
        }
        &self.board
    }

    /// The number of rows.
    pub fn get_height(&self) -> (h: usize)
        ensures
            h == self.rows(),
    {
        self.height
    }

    /// The number of columns.
    pub fn get_width(&self) -> (w: usize)
        ensures
            w == self.cols(),
    {
        self.width
    }

    /// Copies every cell of `board_from` into this board; both boards must
    /// have the same size.
    pub fn update(&mut self, board_from: &GameBoard)
        requires
            old(self).wf(),
            board_from.wf(),
            board_from.rows() == old(self).rows(),
            board_from.cols() == old(self).cols(),
        ensures
            final(self).wf(),
            final(self).rows() == old(self).rows(),
            final(self).cols() == old(self).cols(),
            final(self).cells() == board_from.cells(),
    {
        let ghost h = self.height as int;
        let ghost w = self.width as int;
        let mut row: usize = 0;
        while row < board_from.height
            invariant
                self.height == h,
                self.width == w,
                board_from.height == h,
                board_from.width == w,
                board_from.wf(),
                self.wf(),
                0 <= row <= h,
                forall|r: int| 0 <= r < row ==> #[trigger] self.cells()[r] == board_from.cells()[r],
            decreases h - row,
        {
            let mut col: usize = 0;
            while col < board_from.width
                invariant
                    self.height == h,
                    self.width == w,
                    board_from.height == h,
                    board_from.width == w,
                    board_from.wf(),
                    self.wf(),
                    0 <= row < h,
                    0 <= col <= w,
                    forall|r: int| 0 <= r < row ==> #[trigger] self.cells()[r] == board_from.cells()[r],
                    forall|c: int| 0 <= c < col ==> #[trigger] self.cells()[row as int][c] == board_from.cells()[row as int][c],
                decreases w - col,
            {
                proof {
                    board_from.lemma_cells();
                    assert(board_from.cells()[row as int].len() == w);
                }
                let v = board_from.board[row][col];
                self.set_cell(v, row, col);
                col = col + 1;
            }
            assert(self.cells()[row as int] =~= board_from.cells()[row as int]);
            row = row + 1;
        }
        assert(self.cells() =~= board_from.cells());
    }

    /// The number of live cells among the eight cells around `(row, col)`;
    /// cells off the board count as dead. The board is left as it was.
    pub fn count_live_neighbors(&mut self, row: usize, col: usize) -> (n: usize)
        requires
            old(self).wf(),
            row < i32::MAX,
            col < i32::MAX,
            old(self).rows() <= i32::MAX,
            old(self).cols() <= i32::MAX,
        ensures
            *final(self) == *old(self),
            n == neighbor_count(old(self).cells(), old(self).rows() as int, old(self).cols() as int, row as int, col as int),
    {
        let ghost g = self.cells();
        let ghost hh = self.height as int;
        let ghost ww = self.width as int;
        proof {
            self.lemma_cells();
        }
        let mut n: usize = 0;
        let mut i: i32 = -1;
        let mut j: i32 = -1;
        let r: i32 = row as i32;
        let c: i32 = col as i32;
        let height: i32 = self.height as i32;
        let width: i32 = self.width as i32;
        while i < 2
            invariant
                -1 <= i <= 2,
                j == -1,
                r == row,
                c == col,
                row < i32::MAX,
                col < i32::MAX,
                height == hh,
                width == ww,
                self.wf(),
                g == self.cells(),
                hh == self.height,
                ww == self.width,
                self.cells().len() == self.board@.len(),
                forall|q: int| 0 <= q < self.board@.len() ==> #[trigger] self.cells()[q] == self.board@[q]@,
                n == count_partial(g, hh, ww, r as int, c as int, i as int, -1),
                0 <= n <= 8,
            decreases 2 - i,
        {
            while j < 2
                invariant
                    -1 <= i <= 1,
                    -1 <= j <= 2,
                    r == row,
                    c == col,
                    row < i32::MAX,
                    col < i32::MAX,
                    height == hh,
                    width == ww,
                    self.wf(),
                    g == self.cells(),
                    hh == self.height,
                    ww == self.width,
                    self.cells().len() == self.board@.len(),
                    forall|q: int| 0 <= q < self.board@.len() ==> #[trigger] self.cells()[q] == self.board@[q]@,
                    n == count_partial(g, hh, ww, r as int, c as int, i as int, j as int),
                    0 <= n <= 3 * (i + 1) + (j + 1),
                decreases 2 - j,
            {
                if i == 0 && j == 0 {
                } else {
                    if r + i >= 0 && r + i < height && c + j >= 0 && c + j < width {
                        assert(g[(r + i) as int].len() == ww);
                        if self.board[(r + i) as usize][(c + j) as usize] == true {
                            n += 1;
                        }
                    }
                }
                j += 1;
            }
            i += 1;
            j = -1;
        }
        n
    }

    /// Decides a live cell: it dies when fewer than two or more than three
    /// of its neighbours are alive, and is left alive otherwise.
    pub fn evolve_live_cell(&mut self, row: usize, col: usize)
        requires
            old(self).wf(),
            row < old(self).rows(),
            col < old(self).cols(),
            old(self).rows() <= i32::MAX,
            old(self).cols() <= i32::MAX,
        ensures
            final(self).wf(),
            final(self).rows() == old(self).rows(),
            final(self).cols() == old(self).cols(),
            ({
                let n = neighbor_count(old(self).cells(), old(self).rows() as int, old(self).cols() as int, row as int, col as int);
                final(self).cells() == if n < 2 || n > 3 {
                    set_cell_grid(old(self).cells(), row as int, col as int, false)
                } else {
                    old(self).cells()
                }
            }),
            forall|r: int, c: int|
                0 <= r < old(self).rows() && 0 <= c < old(self).cols() && #[trigger] final(self).cells()[r][c]
                    ==> old(self).cells()[r][c],
            ({
                let n = neighbor_count(old(self).cells(), old(self).rows() as int, old(self).cols() as int, row as int, col as int);
                final(self).cells()[row as int][col as int] == (old(self).cells()[row as int][col as int] && (n == 2
                    || n == 3))
            }),
    {
        proof {
            self.lemma_wf();
        }
        let n: usize = self.count_live_neighbors(row, col);
        if n < 2 || n > 3 {
            self.set_cell(false, row, col);
        }
    }

    /// Decides a dead cell: it comes alive when exactly three of its
    /// neighbours are alive, and is left dead otherwise.
    pub fn evolve_dead_cell(&mut self, row: usize, col: usize)
        requires
            old(self).wf(),
            row < old(self).rows(),
            col < old(self).cols(),
            old(self).rows() <= i32::MAX,
            old(self).cols() <= i32::MAX,
        ensures
            final(self).wf(),
            final(self).rows() == old(self).rows(),
            final(self).cols() == old(self).cols(),
            ({
                let n = neighbor_count(old(self).cells(), old(self).rows() as int, old(self).cols() as int, row as int, col as int);
                final(self).cells() == if n == 3 {
                    set_cell_grid(old(self).cells(), row as int, col as int, true)
                } else {
                    old(self).cells()
                }
            }),
            forall|r: int, c: int|
                0 <= r < old(self).rows() && 0 <= c < old(self).cols() && #[trigger] old(self).cells()[r][c]
                    ==> final(self).cells()[r][c],
            ({
                let n = neighbor_count(old(self).cells(), old(self).rows() as int, old(self).cols() as int, row as int, col as int);
                final(self).cells()[row as int][col as int] == (old(self).cells()[row as int][col as int] || n == 3)
            }),
    {
        proof {
            self.lemma_wf();
        }
        let n: usize = self.count_live_neighbors(row, col);
        if n == 3 {
            self.set_cell(true, row, col);
        }
    }

    /// One evolution step. The cells are visited in row-major order on a
    /// copy of the board; each is decided from its state before the step
    /// and from the neighbour count on the copy as it stands when the cell
    /// is reached (see [`crate::rules::sweep`]).
    pub fn evolve(&mut self)
        requires
            old(self).wf(),
            old(self).rows() * old(self).cols() == 0 || (old(self).rows() <= i32::MAX
                && old(self).cols() <= i32::MAX),
        ensures
            final(self).wf(),
            final(self).rows() == old(self).rows(),
            final(self).cols() == old(self).cols(),
            final(self).cells() == evolved(old(self).cells(), old(self).rows(), old(self).cols()),
            all_dead(old(self).cells()) ==> final(self).cells() == old(self).cells(),
            is_still(old(self).cells(), old(self).rows(), old(self).cols()) ==> final(self).cells()
                == old(self).cells(),
            forall|i: int, j: int|
                0 <= i < old(self).rows() && 0 <= j < old(self).cols() ==> #[trigger] final(self).cells()[i][j]
                    == ({
                    let n = neighbor_count(
                        sweep(old(self).cells(), old(self).rows(), old(self).cols(), i as nat, j as nat),
                        old(self).rows() as int,
                        old(self).cols() as int,
                        i,
                        j,
                    );
                    if old(self).cells()[i][j] {
                        n == 2 || n == 3
                    } else {
                        n == 3
                    }
                }),
            // Cells are decided in row-major order, in place: each cell's
            // neighbours are counted with the cells before it already holding
            // their new state and the others their old one.
            forall|i: int, j: int|
                0 <= i < old(self).rows() && 0 <= j < old(self).cols() ==> #[trigger] final(self).cells()[i][j]
                    == ({
                    let n = neighbor_count(
                        board_when_reached(old(self).cells(), final(self).cells(), old(self).rows(), old(self).cols(), i, j),
                        old(self).rows() as int,
                        old(self).cols() as int,
                        i,
                        j,
                    );
                    if old(self).cells()[i][j] {
                        n == 2 || n == 3
                    } else {
                        n == 3
                    }
                }),
    {
        let ghost g0 = self.cells();
        let ghost h = self.height as nat;
        let ghost w = self.width as nat;
        proof {
            self.lemma_cells();
        }
        let mut future = GameBoard::new(self.height, self.width);
        future.update(self);
        let mut i: usize = 0;
        while i < future.height
            invariant
                self.wf(),
                future.wf(),
                self.cells() == g0,
                self.height == h,
                self.width == w,
                future.height == h,
                future.width == w,
                h * w == 0 || (h <= i32::MAX && w <= i32::MAX),
                0 <= i <= h,
                future.cells() == sweep(g0, h, w, i as nat, 0),
                self.cells().len() == self.board@.len(),
                forall|q: int| 0 <= q < self.board@.len() ==> #[trigger] self.cells()[q] == self.board@[q]@,
            decreases h - i,
        {
            let mut j: usize = 0;
            while j < future.width
                invariant
                    self.wf(),
                    future.wf(),
                    self.cells() == g0,
                    self.height == h,
                    self.width == w,
                    future.height == h,
                    future.width == w,
                    h * w == 0 || (h <= i32::MAX && w <= i32::MAX),
                    0 <= i < h,
                    0 <= j <= w,
                    future.cells() == sweep(g0, h, w, i as nat, j as nat),
                    self.cells().len() == self.board@.len(),
                    forall|q: int| 0 <= q < self.board@.len() ==> #[trigger] self.cells()[q] == self.board@[q]@,
                decreases w - j,
            {
                proof {
                    assert(h * w != 0) by (nonlinear_arith)
                        requires
                            i < h,
                            j < w,
                    ;
                    lemma_sweep_rect(g0, h, w, i as nat, j as nat);
                    lemma_sweep_unvisited(g0, h, w, i as nat, j as nat, i as int, j as int);
                    assert(g0[i as int].len() == w);
                }
                let ghost prev = future.cells();
                if self.board[i][j] == true {
                    future.evolve_live_cell(i, j);
                    proof {
                        let n = neighbor_count(prev, h as int, w as int, i as int, j as int);
                        if !(n < 2 || n > 3) {
                            assert(set_cell_grid(prev, i as int, j as int, true) =~= prev) by {
                                assert(prev[i as int].update(j as int, true) =~= prev[i as int]);
                            }
                        }
                    }
                } else {
                    future.evolve_dead_cell(i, j);
                    proof {
                        let n = neighbor_count(prev, h as int, w as int, i as int, j as int);
                        if n != 3 {
                            assert(set_cell_grid(prev, i as int, j as int, false) =~= prev) by {
                                assert(prev[i as int].update(j as int, false) =~= prev[i as int]);
                            }
                        }
                    }
                }
                j = j + 1;
            }
            i = i + 1;
        }
        self.update(&future);
        proof {
            if all_dead(g0) {
                lemma_dead_board_is_still(g0, h, w);
            }
            if is_still(g0, h, w) {
                lemma_still_board_is_fixed(g0, h, w);
            }
            lemma_evolved_birth_and_survival(g0, h, w);
            lemma_evolved_row_major(g0, h, w);
        }
    }

    /// The text that shows row `row` (see [`row_chars`]).
    #[verifier::spinoff_prover]
    pub fn row_text(&self, row: usize) -> (text: String)
        requires
            self.wf(),
            row < self.rows(),
        ensures
            text@ == row_chars(self.cells()[row as int]),
            // A space, then for each column c, at index 1 + 2c, `1` for a
            // live cell or `0` for a dead one, followed by a space.
            text@.len() == 1 + 2 * self.cols(),
            text@[0] == ' ',
            forall|c: int|
                #![trigger self.cells()[row as int][c]]
                0 <= c < self.cols() ==> text@[1 + 2 * c] == (if self.cells()[row as int][c] {
                    '1'
                } else {
                    '0'
                }) && text@[2 + 2 * c] == ' ',
    {
        proof {
            self.lemma_cells();
            reveal_strlit(" ");
            reveal_strlit("1 ");
            reveal_strlit("0 ");
        }
        let ghost cells = self.cells()[row as int];
        let mut row_str: String = String::from_str(" ");
        let mut col: usize = 0;
        while col < self.width
            invariant
                self.wf(),
                cells == self.cells()[row as int],
                cells == self.board@[row as int]@,
                cells.len() == self.width,
                row < self.board@.len(),
                0 <= col <= self.width,
                row_str@ == row_chars(cells.take(col as int)),
                " "@ == seq![' '],
                "1 "@ == seq!['1', ' '],
                "0 "@ == seq!['0', ' '],
            decreases self.width - col,
        {
            proof {
                assert(cells.take(col + 1).drop_last() =~= cells.take(col as int));
            }
            if self.board[row][col] {
                row_str.append("1 ");
            } else {
                row_str.append("0 ");
            }
            col = col + 1;
        }
        proof {
            assert(cells.take(col as int) =~= cells);
            lemma_row_chars_layout(self.cells()[row as int]);
            assert(row_str@ == row_chars(self.cells()[row as int]));
            assert(self.cells()[row as int].len() == self.cols());
        }
        row_str
    }

    /// Fills `frame`, four RGBA bytes per pixel, with the colours of the
    /// cells (see [`pixel_color`] and [`PIX_WIDTH`]).
    pub fn draw(&self, frame: &mut [u8])
        requires
            self.wf(),
            old(frame)@.len() == 4 * (self.cols() * self.rows()),
            forall|k: int|
                0 <= k < self.cols() * self.rows() ==> #[trigger] pixel_on_board(
                    self.rows() as int,
                    self.cols() as int,
                    k,
                ),
        ensures
            final(frame)@.len() == old(frame)@.len(),
            forall|i: int| 0 <= i < final(frame)@.len() ==> #[trigger] final(frame)@[i] == frame_byte(self.cells(), i),
            // Pixel k shows the cell in row k / PIX_WIDTH, column k % PIX_WIDTH:
            // light blue when it is alive, opaque black when it is dead.
            forall|k: int|
                0 <= k < self.cols() * self.rows() ==> #[trigger] pixel_bytes(final(frame)@, k) == if self.cells()[k
                    / (PIX_WIDTH as int)][k % (PIX_WIDTH as int)] {
                    seq![0u8, 0xffu8, 0xffu8, 0xffu8]
                } else {
                    seq![0u8, 0u8, 0u8, 0xffu8]
                },
    {
        let ghost g = self.cells();
        proof {
            self.lemma_cells();
        }
        let n: usize = frame.len() / 4;
        let mut count: usize = 0;
        while count < n
            invariant
                self.wf(),
                g == self.cells(),
                self.cells().len() == self.board@.len(),
                forall|q: int| 0 <= q < self.board@.len() ==> #[trigger] self.cells()[q] == self.board@[q]@,
                frame@.len() == 4 * (self.cols() * self.rows()),
                frame@.len() <= usize::MAX,
                n == self.cols() * self.rows(),
                forall|k: int|
                    0 <= k < self.cols() * self.rows() ==> #[trigger] pixel_on_board(
                        self.rows() as int,
                        self.cols() as int,
                        k,
                    ),
                0 <= count <= n,
                forall|i: int| 0 <= i < 4 * count ==> #[trigger] frame@[i] == frame_byte(g, i),
            decreases n - count,
        {
            let col: usize = count % (PIX_WIDTH as usize);
            let row: usize = count / (PIX_WIDTH as usize);
            proof {
                assert(pixel_on_board(self.rows() as int, self.cols() as int, count as int));
                assert(g[row as int].len() == self.cols());
            }
            let alive = self.board[row][col];
            let b: usize = 4 * count;
            if alive {
                frame[b] = 0;
                frame[b + 1] = 0xff;
                frame[b + 2] = 0xff;
                frame[b + 3] = 0xff;
            } else {
                frame[b] = 0;
                frame[b + 1] = 0;
                frame[b + 2] = 0;
                frame[b + 3] = 0xff;
            }
            proof {
                assert forall|i: int| 0 <= i < 4 * (count + 1) implies #[trigger] frame@[i] == frame_byte(g, i) by {
                    if i >= b {
                        let q = i - b;
                        assert(i / 4 == count && i % 4 == q) by (nonlinear_arith)
                            requires
                                i == 4 * count + q,
                                0 <= q < 4,
                        ;
                    }
                }
            }
            count = count + 1;
        }
        proof {
            assert forall|k: int| 0 <= k < self.cols() * self.rows() implies #[trigger] pixel_bytes(frame@, k)
                == if g[k / (PIX_WIDTH as int)][k % (PIX_WIDTH as int)] {
                seq![0u8, 0xffu8, 0xffu8, 0xffu8]
            } else {
                seq![0u8, 0u8, 0u8, 0xffu8]
            } by {
                assert((4 * k) / 4 == k && (4 * k) % 4 == 0) by (nonlinear_arith);
                assert((4 * k + 1) / 4 == k && (4 * k + 1) % 4 == 1) by (nonlinear_arith);
                assert((4 * k + 2) / 4 == k && (4 * k + 2) % 4 == 2) by (nonlinear_arith);
                assert((4 * k + 3) / 4 == k && (4 * k + 3) % 4 == 3) by (nonlinear_arith);
                assert(4 * k + 3 < frame@.len()) by (nonlinear_arith)
                    requires
                        0 <= k < self.cols() * self.rows(),
                        frame@.len() == 4 * (self.cols() * self.rows()),
                ;
                assert(frame@[4 * k] == frame_byte(g, 4 * k));
                assert(frame@[4 * k + 1] == frame_byte(g, 4 * k + 1));
                assert(frame@[4 * k + 2] == frame_byte(g, 4 * k + 2));
                assert(frame@[4 * k + 3] == frame_byte(g, 4 * k + 3));
                assert(pixel_bytes(frame@, k) =~= if g[k / (PIX_WIDTH as int)][k % (PIX_WIDTH as int)] {
                    seq![0u8, 0xffu8, 0xffu8, 0xffu8]
                } else {
                    seq![0u8, 0u8, 0u8, 0xffu8]
                });
            }
        }
    }

    /// Sets the points that `line` has still to yield (column, row), in
    /// order, to `alive`, stopping at the first point that lies off the
    /// board.
    pub fn set_line_points(&mut self, line: line_drawing::Bresenham<isize>, alive: bool)
        requires
            old(self).wf(),
            ({
                let pts = line_points_left(line);
                pts.len() > 0 && drawn_prefix(pts, old(self).rows() as int, old(self).cols() as int)
                    >= pts.len() - 1 ==> line_end_ok(pts.last())
            }),
        ensures
            final(self).wf(),
            final(self).rows() == old(self).rows(),
            final(self).cols() == old(self).cols(),
            final(self).cells() == paint(
                old(self).cells(),
                line_points_left(line).take(
                    drawn_prefix(line_points_left(line), old(self).rows() as int, old(self).cols() as int) as int,
                ),
                alive,
            ),
    {
        let ghost g0 = self.cells();
        let ghost h = self.height as int;
        let ghost w = self.width as int;
        let ghost pts = line_points_left(line);
        let ghost mut k: nat = 0;
        let mut line = line;
        loop
            invariant_except_break
                line_points_left(line) == pts.skip(k as int),
            invariant
                self.wf(),
                self.height == h,
                self.width == w,
                pts.len() > 0 && drawn_prefix(pts, h, w) >= pts.len() - 1 ==> line_end_ok(pts.last()),
                k <= pts.len(),
                forall|j: int| 0 <= j < k ==> point_on_grid(#[trigger] pts[j], h, w),
                self.cells() == paint(g0, pts.take(k as int), alive),
            ensures
                self.wf(),
                self.height == h,
                self.width == w,
                self.cells() == paint(g0, pts.take(drawn_prefix(pts, h, w) as int), alive),
            decreases pts.len() - k,
        {
            proof {
                if k + 1 == pts.len() {
                    lemma_drawn_prefix_at_least(pts, h, w, k);
                    assert(pts.skip(k as int)[0] == pts.last());
                }
            }
            match line_next(&mut line) {
                None => {
                    proof {
                        lemma_drawn_prefix(pts, h, w, k);
                    }
                    break;
                },
                Some((x, y)) => {
                    proof {
                        assert(pts.skip(k as int)[0] == pts[k as int]);
                        assert(pts.skip(k as int).drop_first() =~= pts.skip(k as int + 1));
                    }
                    if let Some(_i) = self.grid_idx(x, y) {
                        self.set_cell(alive, y as usize, x as usize);
                        proof {
                            let next = pts.take(k as int + 1);
                            assert(next.drop_last() =~= pts.take(k as int));
                            assert(next.last() == (x, y));
                            k = k + 1;
                        }
                    } else {
                        proof {
                            lemma_drawn_prefix(pts, h, w, k);
                        }
                        break;
                    }
                },
            }
        }
    }

    /// Sets to `alive` the cells on the line from `(x0, y0)` to `(x1, y1)`
    /// (column, row) that `line_drawing`'s Bresenham algorithm traces. The
    /// start is first clamped onto the board; drawing goes on towards the
    /// end until a point falls off the board.
    pub fn set_line(&mut self, x0: isize, y0: isize, x1: isize, y1: isize, alive: bool)
        requires
            old(self).wf(),
            line_fits(old(self).rows(), old(self).cols(), x0, y0, x1, y1),
        ensures
            final(self).wf(),
            final(self).rows() == old(self).rows(),
            final(self).cols() == old(self).cols(),
            final(self).cells() == line_drawn(
                old(self).cells(),
                old(self).rows(),
                old(self).cols(),
                x0,
                y0,
                x1,
                y1,
                alive,
            ),
            ({
                let start = line_start_point(old(self).rows(), old(self).cols(), x0, y0);
                let pts = bresenham_points(start.0, start.1, x1, y1);
                &&& pts.len() >= 1
                &&& pts[0] == start
                &&& pts.last() == (x1, y1)
                &&& old(self).rows() > 0 && old(self).cols() > 0 ==> point_on_grid(
                    start,
                    old(self).rows() as int,
                    old(self).cols() as int,
                ) && final(self).cells()[start.1 as int][start.0 as int] == alive
                &&& old(self).rows() == 0 || old(self).cols() == 0 ==> final(self).cells()
                    == old(self).cells()
            }),
    {
        let last_col: isize = if self.width == 0 {
            0
        } else {
            (self.width - 1) as isize
        };
        let last_row: isize = if self.height == 0 {
            0
        } else {
            (self.height - 1) as isize
        };
        let x0 = if x0 > 0 { x0 } else { 0 };
        let x0 = if x0 < last_col { x0 } else { last_col };
        let y0 = if y0 > 0 { y0 } else { 0 };
        let y0 = if y0 < last_row { y0 } else { last_row };
        let line = line_start(x0, y0, x1, y1);
        let ghost g0 = self.cells();
        let ghost pts = line_points_left(line);
        proof {
            let hh = self.height as int;
            let ww = self.width as int;
            lemma_drawn_prefix_on_grid(pts, hh, ww);
            if pts.len() >= 2 && drawn_prefix(pts, hh, ww) >= pts.len() - 1 {
                let k = pts.len() - 2;
                assert(point_on_grid(pts[k], hh, ww));
                assert(steps_to_neighbor(pts, k));
            }
        }
        self.set_line_points(line, alive);
        proof {
            let hh = self.height as int;
            let ww = self.width as int;
            if hh > 0 && ww > 0 {
                assert(point_on_grid((x0, y0), hh, ww));
                let n = drawn_prefix(pts, hh, ww);
                let drawn = pts.take(n as int);
                assert(n >= 1);
                assert forall|k: int| 0 <= k < drawn.len() implies point_on_grid(#[trigger] drawn[k], hh, ww) by {
                    assert(drawn[k] == pts[k]);
                }
                lemma_paint_cells(g0, drawn, alive, hh, ww);
                assert(drawn[0] == (x0, y0));
                assert(drawn_at(drawn, y0 as int, x0 as int));
            } else {
                assert(drawn_prefix(pts, hh, ww) == 0);
                assert(pts.take(0) =~= Seq::<(isize, isize)>::empty());
            }
        }
    }

    /// The position `x + y * width` of the cell in column `x`, row `y` when
    /// that cell lies on the board, and `None` otherwise.
    pub fn grid_idx(&self, x: isize, y: isize) -> (idx: Option<usize>)
        requires
            self.wf(),
        ensures
            idx == if 0 <= x < self.cols() && 0 <= y < self.rows() {
                Some((x + y * self.cols()) as usize)
            } else {
                None::<usize>
            },
            idx matches Some(i) ==> i < self.cols() * self.rows() && (i as int) % (self.cols() as int) == x && (i as int) / (self.cols() as int) == y,
    {
        if x >= 0 && y >= 0 {
            let xu = x as usize;
            let yu = y as usize;
            if xu < self.width && yu < self.height {
                proof {
                    let h = self.height as int;
                    let w = self.width as int;
                    assert(xu + yu * w < h * w) by (nonlinear_arith)
                        requires
                            0 <= xu < w,
                            0 <= yu < h,
                    ;
                    assert(w * h == h * w) by (nonlinear_arith);
                    lemma_grid_position_inverse(xu as int, yu as int, w);
                }
                Some(xu + yu * self.width)
            } else {
                None
            }
        } else {
            None
        }
    }

    /// Sets the cell in row `row`, column `col` to `alive`, and returns `alive`.
    pub fn set_cell(&mut self, alive: bool, row: usize, col: usize) -> (r: bool)
        requires
            old(self).wf(),
            row < old(self).rows(),
            col < old(self).cols(),
        ensures
            r == alive,
            final(self).wf(),
            final(self).rows() == old(self).rows(),
            final(self).cols() == old(self).cols(),
            final(self).cells() == set_cell_grid(old(self).cells(), row as int, col as int, alive),
    {
        proof {
            self.lemma_cells();
            assert(self.cells()[row as int].len() == self.width);
        }
        self.board[row][col] = alive;
        proof {
            self.lemma_cells();
        }
        assert(self.cells() =~= set_cell_grid(old(self).cells(), row as int, col as int, alive)) by {
            assert(self.cells()[row as int] =~= old(self).cells()[row as int].update(col as int, alive));
        }
        alive
    }
}

impl Default for GameBoard {
    /// The empty board: no rows, no columns.
    fn default() -> (b: GameBoard)
        ensures
            b.wf(),
            b.rows() == 0,
            b.cols() == 0,
            b.cells() == Seq::<Seq<bool>>::empty(),
    {
        let b = GameBoard { height: 0, width: 0, board: Vec::new() };
        assert(b.cells() =~= Seq::<Seq<bool>>::empty());
        b
    }
}

} // verus!
