//! The mathematical model of a board and of one evolution step.
//!
//! A board is a `Seq<Seq<bool>>` of `height` rows, each `width` cells long;
//! `true` is a live cell. One evolution step visits the cells in row-major
//! order and decides each one in place, so a cell visited later sees the
//! already-decided state of the neighbours visited before it.

use vstd::prelude::*;

verus! {

/// `g` has `height` rows of `width` cells each.
pub open spec fn is_rect(g: Seq<Seq<bool>>, height: int, width: int) -> bool {
    &&& g.len() == height
    &&& forall|r: int| 0 <= r < height ==> #[trigger] g[r].len() == width
}

/// The board of the given size with every cell dead.
pub open spec fn dead_grid(height: nat, width: nat) -> Seq<Seq<bool>> {
    Seq::new(height, |r: int| Seq::new(width, |c: int| false))
}

/// Every cell of `g` is dead.
pub open spec fn all_dead(g: Seq<Seq<bool>>) -> bool {
    forall|r: int, c: int| 0 <= r < g.len() && 0 <= c < g[r].len() ==> !#[trigger] g[r][c]
}

/// The cell at `(r, c)` lies on the board and is alive.
pub open spec fn live_at(g: Seq<Seq<bool>>, height: int, width: int, r: int, c: int) -> bool {
    0 <= r < height && 0 <= c < width && g[r][c]
}

/// 1 when the cell at offset `(dr, dc)` from `(r, c)` is a live cell of the board, else 0.
pub open spec fn live_bit(
    g: Seq<Seq<bool>>,
    height: int,
    width: int,
    r: int,
    c: int,
    dr: int,
    dc: int,
) -> int {
    if live_at(g, height, width, r + dr, c + dc) {
        1
    } else {
        0
    }
}

/// The number of live cells among the (up to) eight cells around `(r, c)`;
/// cells off the board count as dead.
pub open spec fn neighbor_count(g: Seq<Seq<bool>>, height: int, width: int, r: int, c: int) -> int {
    live_bit(g, height, width, r, c, -1, -1) + live_bit(g, height, width, r, c, -1, 0)
        + live_bit(g, height, width, r, c, -1, 1) + live_bit(g, height, width, r, c, 0, -1)
        + live_bit(g, height, width, r, c, 0, 1) + live_bit(g, height, width, r, c, 1, -1)
        + live_bit(g, height, width, r, c, 1, 0) + live_bit(g, height, width, r, c, 1, 1)
}

/// The life rule: a live cell survives with two or three live neighbours,
/// a dead cell comes alive with exactly three.
pub open spec fn next_cell(alive: bool, neighbors: int) -> bool {
    if alive {
        !(neighbors < 2 || neighbors > 3)
    } else {
        neighbors == 3
    }
}

/// `g` with the cell at `(r, c)` set to `v`.
pub open spec fn set_cell_grid(g: Seq<Seq<bool>>, r: int, c: int, v: bool) -> Seq<Seq<bool>> {
    g.update(r, g[r].update(c, v))
}

/// The board part way through one evolution step of `g0`: every cell of the
/// rows before `r`, and the first `c` cells of row `r`, have been decided.
/// Each cell is decided from its state in `g0` and the neighbour count on
/// the board as it stands when the cell is reached.
pub open spec fn sweep(g0: Seq<Seq<bool>>, height: nat, width: nat, r: nat, c: nat) -> Seq<Seq<bool>>
    decreases r, c,
{
    if c == 0 {
        if r == 0 {
            g0
        } else {
            sweep(g0, height, width, (r - 1) as nat, width)
        }
    } else {
        let prev = sweep(g0, height, width, r, (c - 1) as nat);
        let j = c - 1;
        set_cell_grid(
            prev,
            r as int,
            j,
            next_cell(g0[r as int][j], neighbor_count(prev, height as int, width as int, r as int, j)),
        )
    }
}

/// The board after one full evolution step of `g0`.
pub open spec fn evolved(g0: Seq<Seq<bool>>, height: nat, width: nat) -> Seq<Seq<bool>> {
    sweep(g0, height, width, height, 0)
}

/// The cell `(i, j)` has been reached by the time the sweep stands at `(r, c)`.
pub open spec fn visited(r: int, c: int, i: int, j: int) -> bool {
    i < r || (i == r && j < c)
}

/// A sweep keeps the board's shape.
pub proof fn lemma_sweep_rect(g0: Seq<Seq<bool>>, height: nat, width: nat, r: nat, c: nat)
    requires
        is_rect(g0, height as int, width as int),
        r < height && c <= width || r == height && c == 0,
    ensures
        is_rect(sweep(g0, height, width, r, c), height as int, width as int),
    decreases r, c,
{
    if c == 0 {
        if r > 0 {
            lemma_sweep_rect(g0, height, width, (r - 1) as nat, width);
        }
    } else {
        lemma_sweep_rect(g0, height, width, r, (c - 1) as nat);
    }
}

/// A cell not yet reached by a sweep still holds its starting state.
pub proof fn lemma_sweep_unvisited(
    g0: Seq<Seq<bool>>,
    height: nat,
    width: nat,
    r: nat,
    c: nat,
    i: int,
    j: int,
)
    requires
        is_rect(g0, height as int, width as int),
        r < height && c <= width || r == height && c == 0,
        0 <= i < height,
        0 <= j < width,
        !visited(r as int, c as int, i, j),
    ensures
        sweep(g0, height, width, r, c)[i][j] == g0[i][j],
    decreases r, c,
{
    if c == 0 {
        if r > 0 {
            lemma_sweep_unvisited(g0, height, width, (r - 1) as nat, width, i, j);
        }
    } else {
        lemma_sweep_rect(g0, height, width, r, (c - 1) as nat);
        lemma_sweep_unvisited(g0, height, width, r, (c - 1) as nat, i, j);
    }
}

/// The neighbour count of a cell is between 0 and 8.
pub proof fn lemma_neighbor_count_bounds(g: Seq<Seq<bool>>, height: int, width: int, r: int, c: int)
    ensures
        0 <= neighbor_count(g, height, width, r, c) <= 8,
{
}


/// The point `(x, y)` (column `x`, row `y`) lies on a board of the given size.
pub open spec fn point_on_grid(p: (isize, isize), height: int, width: int) -> bool {
    0 <= p.0 < width && 0 <= p.1 < height
}

/// How many points at the start of `pts` lie on the board: drawing a line
/// stops at the first point off the board.
pub open spec fn drawn_prefix(pts: Seq<(isize, isize)>, height: int, width: int) -> nat
    decreases pts.len(),
{
    if pts.len() > 0 && point_on_grid(pts[0], height, width) {
        1 + drawn_prefix(pts.drop_first(), height, width)
    } else {
        0
    }
}

/// `g` with every point of `pts` (column, row) set to `v`, in order.
pub open spec fn paint(g: Seq<Seq<bool>>, pts: Seq<(isize, isize)>, v: bool) -> Seq<Seq<bool>>
    decreases pts.len(),
{
    if pts.len() == 0 {
        g
    } else {
        let p = pts.last();
        set_cell_grid(paint(g, pts.drop_last(), v), p.1 as int, p.0 as int, v)
    }
}

/// `drawn_prefix` is the index of the first point off the board, or the
/// number of points when all lie on it.
pub proof fn lemma_drawn_prefix(pts: Seq<(isize, isize)>, height: int, width: int, k: nat)
    requires
        k <= pts.len(),
        forall|j: int| 0 <= j < k ==> point_on_grid(#[trigger] pts[j], height, width),
        k == pts.len() || !point_on_grid(pts[k as int], height, width),
    ensures
        drawn_prefix(pts, height, width) == k,
    decreases k,
{
    if k > 0 {
        assert(point_on_grid(pts[0], height, width));
        let rest = pts.drop_first();
        assert forall|j: int| 0 <= j < k - 1 implies point_on_grid(#[trigger] rest[j], height, width) by {
            assert(rest[j] == pts[j + 1]);
        }
        lemma_drawn_prefix(rest, height, width, (k - 1) as nat);
    }
}

/// When the first `k` points lie on the board, at least `k` are drawn.
pub proof fn lemma_drawn_prefix_at_least(pts: Seq<(isize, isize)>, height: int, width: int, k: nat)
    requires
        k <= pts.len(),
        forall|j: int| 0 <= j < k ==> point_on_grid(#[trigger] pts[j], height, width),
    ensures
        drawn_prefix(pts, height, width) >= k,
    decreases k,
{
    if k > 0 {
        assert(point_on_grid(pts[0], height, width));
        let rest = pts.drop_first();
        assert forall|j: int| 0 <= j < k - 1 implies point_on_grid(#[trigger] rest[j], height, width) by {
            assert(rest[j] == pts[j + 1]);
        }
        lemma_drawn_prefix_at_least(rest, height, width, (k - 1) as nat);
    }
}

/// Every point before `drawn_prefix` lies on the board.
pub proof fn lemma_drawn_prefix_on_grid(pts: Seq<(isize, isize)>, height: int, width: int)
    ensures
        drawn_prefix(pts, height, width) <= pts.len(),
        forall|j: int|
            0 <= j < drawn_prefix(pts, height, width) ==> point_on_grid(#[trigger] pts[j], height, width),
    decreases pts.len(),
{
    if pts.len() > 0 && point_on_grid(pts[0], height, width) {
        let rest = pts.drop_first();
        lemma_drawn_prefix_on_grid(rest, height, width);
        assert forall|j: int| 0 <= j < drawn_prefix(pts, height, width) implies point_on_grid(
            #[trigger] pts[j],
            height,
            width,
        ) by {
            if j > 0 {
                assert(pts[j] == rest[j - 1]);
            }
        }
    }
}

/// Painting points that lie on the board keeps the board's shape.
pub proof fn lemma_paint_rect(g: Seq<Seq<bool>>, pts: Seq<(isize, isize)>, v: bool, height: int, width: int)
    requires
        is_rect(g, height, width),
        forall|j: int| 0 <= j < pts.len() ==> point_on_grid(#[trigger] pts[j], height, width),
    ensures
        is_rect(paint(g, pts, v), height, width),
    decreases pts.len(),
{
    if pts.len() > 0 {
        let rest = pts.drop_last();
        assert forall|j: int| 0 <= j < rest.len() implies point_on_grid(#[trigger] rest[j], height, width) by {
            assert(rest[j] == pts[j]);
        }
        lemma_paint_rect(g, rest, v, height, width);
    }
}

/// `v` clamped below at 0 and then above at `hi`, as `v.max(0).min(hi)`.
pub open spec fn clamp_coord(v: isize, hi: isize) -> isize {
    let a = if v > 0 {
        v
    } else {
        0
    };
    if a < hi {
        a
    } else {
        hi
    }
}


/// Law: one evolution step keeps the board's size.
pub proof fn lemma_evolved_rect(g: Seq<Seq<bool>>, height: nat, width: nat)
    requires
        is_rect(g, height as int, width as int),
    ensures
        is_rect(evolved(g, height, width), height as int, width as int),
{
    lemma_sweep_rect(g, height, width, height, 0);
}

/// Once a sweep has decided a cell, later steps of the sweep leave it alone.
proof fn lemma_sweep_visited_stable(
    g0: Seq<Seq<bool>>,
    height: nat,
    width: nat,
    r: nat,
    c: nat,
    i: int,
    j: int,
)
    requires
        is_rect(g0, height as int, width as int),
        r < height && c <= width || r == height && c == 0,
        0 <= i < height,
        0 <= j < width,
        visited(r as int, c as int, i, j),
    ensures
        sweep(g0, height, width, r, c)[i][j] == sweep(g0, height, width, i as nat, (j + 1) as nat)[i][j],
    decreases r, c,
{
    if c == 0 {
        if r > 0 {
            if i == r - 1 && j == width - 1 {
                // sweep(r, 0) is sweep(r - 1, width): the very state after deciding (i, j).
            } else {
                lemma_sweep_visited_stable(g0, height, width, (r - 1) as nat, width, i, j);
            }
        }
    } else if i == r && j == c - 1 {
    } else {
        lemma_sweep_rect(g0, height, width, r, (c - 1) as nat);
        lemma_sweep_visited_stable(g0, height, width, r, (c - 1) as nat, i, j);
    }
}

/// Law: in one evolution step every cell is decided exactly once, when the
/// sweep reaches it, from its state before the step and the neighbour count
/// at that moment; nothing changes it afterwards.
pub proof fn lemma_evolved_cell(g: Seq<Seq<bool>>, height: nat, width: nat, i: int, j: int)
    requires
        is_rect(g, height as int, width as int),
        0 <= i < height,
        0 <= j < width,
    ensures
        evolved(g, height, width)[i][j] == next_cell(
            g[i][j],
            neighbor_count(sweep(g, height, width, i as nat, j as nat), height as int, width as int, i, j),
        ),
{
    lemma_sweep_visited_stable(g, height, width, height, 0, i, j);
    lemma_sweep_rect(g, height, width, i as nat, j as nat);
}

/// Law: the life rule in numbers: a dead cell is born with exactly three
/// live neighbours, and a live cell survives with two or three.
pub proof fn lemma_life_rule(alive: bool, neighbors: int)
    ensures
        !alive ==> (next_cell(alive, neighbors) <==> neighbors == 3),
        alive ==> (next_cell(alive, neighbors) <==> (neighbors == 2 || neighbors == 3)),
{
}

/// Law: after one evolution step, a cell that was dead is alive exactly when
/// three of its neighbours were alive on the board as the sweep reached it,
/// and a cell that was alive is alive exactly when two or three were.
pub proof fn lemma_evolved_birth_and_survival(g: Seq<Seq<bool>>, height: nat, width: nat)
    requires
        is_rect(g, height as int, width as int),
    ensures
        forall|i: int, j: int|
            0 <= i < height && 0 <= j < width ==> #[trigger] evolved(g, height, width)[i][j] == ({
                let n = neighbor_count(sweep(g, height, width, i as nat, j as nat), height as int, width as int, i, j);
                if g[i][j] {
                    n == 2 || n == 3
                } else {
                    n == 3
                }
            }),
{
    assert forall|i: int, j: int| 0 <= i < height && 0 <= j < width implies #[trigger] evolved(g, height, width)[i][j]
        == ({
        let n = neighbor_count(sweep(g, height, width, i as nat, j as nat), height as int, width as int, i, j);
        if g[i][j] {
            n == 2 || n == 3
        } else {
            n == 3
        }
    }) by {
        lemma_evolved_cell(g, height, width, i, j);
        let n = neighbor_count(sweep(g, height, width, i as nat, j as nat), height as int, width as int, i, j);
        lemma_life_rule(g[i][j], n);
    }
}

/// Every cell of `g` keeps its state under the life rule when its
/// neighbours are counted on `g` itself.
pub open spec fn is_still(g: Seq<Seq<bool>>, height: nat, width: nat) -> bool {
    forall|i: int, j: int|
        0 <= i < height && 0 <= j < width ==> next_cell(
            #[trigger] g[i][j],
            neighbor_count(g, height as int, width as int, i, j),
        ) == g[i][j]
}

/// A sweep over a still board changes nothing.
proof fn lemma_sweep_still(g0: Seq<Seq<bool>>, height: nat, width: nat, r: nat, c: nat)
    requires
        is_rect(g0, height as int, width as int),
        is_still(g0, height, width),
        r < height && c <= width || r == height && c == 0,
    ensures
        sweep(g0, height, width, r, c) == g0,
    decreases r, c,
{
    if c == 0 {
        if r > 0 {
            lemma_sweep_still(g0, height, width, (r - 1) as nat, width);
        }
    } else {
        lemma_sweep_still(g0, height, width, r, (c - 1) as nat);
        let j = c - 1;
        let v = g0[r as int][j];
        assert(next_cell(v, neighbor_count(g0, height as int, width as int, r as int, j)) == v);
        assert(g0[r as int].update(j, v) =~= g0[r as int]);
        assert(set_cell_grid(g0, r as int, j, v) =~= g0);
    }
}

/// Law: a still board (every cell keeps its state under the rule, counted
/// on the board itself) does not change when it evolves, even though the
/// step decides cells in place.
pub proof fn lemma_still_board_is_fixed(g: Seq<Seq<bool>>, height: nat, width: nat)
    requires
        is_rect(g, height as int, width as int),
        is_still(g, height, width),
    ensures
        evolved(g, height, width) == g,
{
    lemma_sweep_still(g, height, width, height, 0);
}

/// Law: a board with no live cell stays so; in particular a fresh board
/// does not change when it evolves.
pub proof fn lemma_dead_board_is_still(g: Seq<Seq<bool>>, height: nat, width: nat)
    requires
        is_rect(g, height as int, width as int),
        all_dead(g),
    ensures
        evolved(g, height, width) == g,
        evolved(dead_grid(height, width), height, width) == dead_grid(height, width),
{
    assert forall|i: int, j: int| 0 <= i < height && 0 <= j < width implies next_cell(
        #[trigger] g[i][j],
        neighbor_count(g, height as int, width as int, i, j),
    ) == g[i][j] by {
        assert(neighbor_count(g, height as int, width as int, i, j) == 0);
    }
    lemma_still_board_is_fixed(g, height, width);
    let d = dead_grid(height, width);
    assert(is_rect(d, height as int, width as int));
    assert forall|i: int, j: int| 0 <= i < height && 0 <= j < width implies next_cell(
        #[trigger] d[i][j],
        neighbor_count(d, height as int, width as int, i, j),
    ) == d[i][j] by {
        assert(neighbor_count(d, height as int, width as int, i, j) == 0);
    }
    lemma_still_board_is_fixed(d, height, width);
}

/// The live cells of `g` are exactly the 2x2 square whose top-left cell is
/// `(r, c)`, and the square lies on the board.
pub open spec fn is_lone_square(g: Seq<Seq<bool>>, height: nat, width: nat, r: int, c: int) -> bool {
    &&& 0 <= r && r + 1 < height
    &&& 0 <= c && c + 1 < width
    &&& forall|i: int, j: int|
        0 <= i < height && 0 <= j < width ==> (#[trigger] g[i][j] <==> (r <= i <= r + 1 && c <= j <= c
            + 1))
}

/// Law: a lone 2x2 square is still wherever it lies on the board, edges
/// included.
pub proof fn lemma_square_is_fixed(g: Seq<Seq<bool>>, height: nat, width: nat, r: int, c: int)
    requires
        is_rect(g, height as int, width as int),
        is_lone_square(g, height, width, r, c),
    ensures
        evolved(g, height, width) == g,
{
    assert forall|i: int, j: int| 0 <= i < height && 0 <= j < width implies next_cell(
        #[trigger] g[i][j],
        neighbor_count(g, height as int, width as int, i, j),
    ) == g[i][j] by {
        let h = height as int;
        let w = width as int;
        assert forall|di: int, dj: int| -1 <= di <= 1 && -1 <= dj <= 1 implies #[trigger] live_bit(
            g,
            h,
            w,
            i,
            j,
            di,
            dj,
        ) == if r <= i + di <= r + 1 && c <= j + dj <= c + 1 {
            1int
        } else {
            0int
        } by {
            if 0 <= i + di < h && 0 <= j + dj < w {
                assert(g[i + di][j + dj] <==> (r <= i + di <= r + 1 && c <= j + dj <= c + 1));
            }
        }
        assert(live_bit(g, h, w, i, j, -1, -1) + live_bit(g, h, w, i, j, -1, 0) + live_bit(g, h, w, i, j, -1, 1)
            + live_bit(g, h, w, i, j, 0, -1) + live_bit(g, h, w, i, j, 0, 1) + live_bit(g, h, w, i, j, 1, -1)
            + live_bit(g, h, w, i, j, 1, 0) + live_bit(g, h, w, i, j, 1, 1) == neighbor_count(g, h, w, i, j));
    }
    lemma_still_board_is_fixed(g, height, width);
}

/// Law: setting a cell twice to the same state is the same as setting it
/// once.
pub proof fn lemma_set_cell_grid_twice(g: Seq<Seq<bool>>, height: int, width: int, r: int, c: int, v: bool)
    requires
        is_rect(g, height, width),
        0 <= r < height,
        0 <= c < width,
    ensures
        set_cell_grid(set_cell_grid(g, r, c, v), r, c, v) == set_cell_grid(g, r, c, v),
{
    let once = set_cell_grid(g, r, c, v);
    assert(once[r].update(c, v) =~= once[r]);
    assert(set_cell_grid(once, r, c, v) =~= once);
}

/// Law: setting a cell gives that cell the new state and leaves every other
/// cell and the board's size as they were.
pub proof fn lemma_set_cell_grid(g: Seq<Seq<bool>>, height: int, width: int, r: int, c: int, v: bool)
    requires
        is_rect(g, height, width),
        0 <= r < height,
        0 <= c < width,
    ensures
        is_rect(set_cell_grid(g, r, c, v), height, width),
        set_cell_grid(g, r, c, v)[r][c] == v,
        forall|i: int, j: int|
            0 <= i < height && 0 <= j < width && (i != r || j != c) ==> #[trigger] set_cell_grid(
                g,
                r,
                c,
                v,
            )[i][j] == g[i][j],
{
}

/// Some point of `pts` is the cell in row `i`, column `j`.
pub open spec fn drawn_at(pts: Seq<(isize, isize)>, i: int, j: int) -> bool {
    exists|k: int| 0 <= k < pts.len() && #[trigger] pts[k].1 as int == i && pts[k].0 as int == j
}

/// Law: drawing points gives each drawn point the drawn state and leaves
/// every other cell as it was.
pub proof fn lemma_paint_cells(g: Seq<Seq<bool>>, pts: Seq<(isize, isize)>, v: bool, height: int, width: int)
    requires
        is_rect(g, height, width),
        forall|k: int| 0 <= k < pts.len() ==> point_on_grid(#[trigger] pts[k], height, width),
    ensures
        is_rect(paint(g, pts, v), height, width),
        forall|i: int, j: int|
            0 <= i < height && 0 <= j < width ==> #[trigger] paint(g, pts, v)[i][j] == if drawn_at(
                pts,
                i,
                j,
            ) {
                v
            } else {
                g[i][j]
            },
    decreases pts.len(),
{
    lemma_paint_rect(g, pts, v, height, width);
    if pts.len() > 0 {
        let rest = pts.drop_last();
        assert forall|k: int| 0 <= k < rest.len() implies point_on_grid(#[trigger] rest[k], height, width) by {
            assert(rest[k] == pts[k]);
        }
        lemma_paint_cells(g, rest, v, height, width);
        lemma_paint_rect(g, rest, v, height, width);
        let p = pts.last();
        assert(point_on_grid(pts[pts.len() - 1], height, width));
        assert forall|i: int, j: int| 0 <= i < height && 0 <= j < width implies #[trigger] paint(
            g,
            pts,
            v,
        )[i][j] == if drawn_at(pts, i, j) {
            v
        } else {
            g[i][j]
        } by {
            if p.1 as int == i && p.0 as int == j {
                assert(pts[pts.len() - 1].1 as int == i);
            } else {
                if drawn_at(pts, i, j) {
                    let k = choose|k: int| 0 <= k < pts.len() && #[trigger] pts[k].1 as int == i && pts[k].0 as int == j;
                    assert(k < rest.len());
                    assert(rest[k] == pts[k]);
                }
                if drawn_at(rest, i, j) {
                    let k = choose|k: int| 0 <= k < rest.len() && #[trigger] rest[k].1 as int == i && rest[k].0 as int == j;
                    assert(rest[k] == pts[k]);
                }
            }
        }
    }
}


/// Law: the position `x + y * width` of a cell determines the cell: its
/// column is the remainder and its row the quotient by `width`.
pub proof fn lemma_grid_position_inverse(x: int, y: int, width: int)
    requires
        0 <= x < width,
        0 <= y,
    ensures
        (x + y * width) % width == x,
        (x + y * width) / width == y,
{
    vstd::arithmetic::div_mod::lemma_fundamental_div_mod_converse(x + y * width, width, y, x);
}

} // verus!

verus! {

/// The board a row-major, in-place step from `before` to `after` shows when
/// it reaches cell `(i, j)`: the cells before `(i, j)` in row-major order
/// already hold their new state from `after`, the others still hold their
/// old state from `before`.
pub open spec fn board_when_reached(
    before: Seq<Seq<bool>>,
    after: Seq<Seq<bool>>,
    height: nat,
    width: nat,
    i: int,
    j: int,
) -> Seq<Seq<bool>> {
    Seq::new(
        height,
        |a: int|
            Seq::new(
                width,
                |b: int|
                    if a < i || (a == i && b < j) {
                        after[a][b]
                    } else {
                        before[a][b]
                    },
            ),
    )
}

/// The sweep part way through a step is the board that the step shows when
/// it reaches the next cell.
proof fn lemma_sweep_is_board_when_reached(g: Seq<Seq<bool>>, height: nat, width: nat, i: int, j: int)
    requires
        is_rect(g, height as int, width as int),
        0 <= i < height,
        0 <= j < width,
    ensures
        sweep(g, height, width, i as nat, j as nat) == board_when_reached(
            g,
            evolved(g, height, width),
            height,
            width,
            i,
            j,
        ),
{
    let s = sweep(g, height, width, i as nat, j as nat);
    let m = board_when_reached(g, evolved(g, height, width), height, width, i, j);
    lemma_sweep_rect(g, height, width, i as nat, j as nat);
    assert forall|a: int| 0 <= a < height implies #[trigger] s[a] =~= m[a] by {
        assert forall|b: int| 0 <= b < width implies s[a][b] == m[a][b] by {
            if visited(i, j, a, b) {
                lemma_sweep_visited_stable(g, height, width, i as nat, j as nat, a, b);
                lemma_sweep_visited_stable(g, height, width, height, 0, a, b);
            } else {
                lemma_sweep_unvisited(g, height, width, i as nat, j as nat, a, b);
            }
        }
    }
    assert(s =~= m);
}

/// Law: one evolution step decides the cells in row-major order, in place:
/// each cell of the result is the life rule (born with exactly three live
/// neighbours, surviving with two or three) applied to the cell's old state
/// and to its neighbours on the board as the step reaches it, where the
/// cells before it already hold their new state and the others their old.
pub proof fn lemma_evolved_row_major(g: Seq<Seq<bool>>, height: nat, width: nat)
    requires
        is_rect(g, height as int, width as int),
    ensures
        forall|i: int, j: int|
            0 <= i < height && 0 <= j < width ==> #[trigger] evolved(g, height, width)[i][j] == ({
                let n = neighbor_count(
                    board_when_reached(g, evolved(g, height, width), height, width, i, j),
                    height as int,
                    width as int,
                    i,
                    j,
                );
                if g[i][j] {
                    n == 2 || n == 3
                } else {
                    n == 3
                }
            }),
{
    lemma_evolved_birth_and_survival(g, height, width);
    assert forall|i: int, j: int| 0 <= i < height && 0 <= j < width implies #[trigger] evolved(
        g,
        height,
        width,
    )[i][j] == ({
        let n = neighbor_count(
            board_when_reached(g, evolved(g, height, width), height, width, i, j),
            height as int,
            width as int,
            i,
            j,
        );
        if g[i][j] {
            n == 2 || n == 3
        } else {
            n == 3
        }
    }) by {
        lemma_sweep_is_board_when_reached(g, height, width, i, j);
    }
}

/// Law: what the neighbour count of `(r, c)` sees. Changing a cell next to
/// `(r, c)` changes the count by the change in that cell; changing `(r, c)`
/// itself or a cell farther away leaves it as it was.
pub proof fn lemma_neighbor_count_local(
    g: Seq<Seq<bool>>,
    height: int,
    width: int,
    r: int,
    c: int,
    i: int,
    j: int,
    v: bool,
)
    requires
        is_rect(g, height, width),
        0 <= i < height,
        0 <= j < width,
    ensures
        neighbor_count(set_cell_grid(g, i, j, v), height, width, r, c) == neighbor_count(g, height, width, r, c)
            + if (i != r || j != c) && -1 <= i - r <= 1 && -1 <= j - c <= 1 {
            (if v {
                1int
            } else {
                0int
            }) - (if g[i][j] {
                1int
            } else {
                0int
            })
        } else {
            0int
        },
{
    let g2 = set_cell_grid(g, i, j, v);
    assert forall|di: int, dj: int| -1 <= di <= 1 && -1 <= dj <= 1 implies #[trigger] live_bit(
        g2,
        height,
        width,
        r,
        c,
        di,
        dj,
    ) == if r + di == i && c + dj == j {
        if v {
            1int
        } else {
            0int
        }
    } else {
        live_bit(g, height, width, r, c, di, dj)
    } by {
        if 0 <= r + di < height && 0 <= c + dj < width {
            assert(g2[r + di][c + dj] == if r + di == i && c + dj == j {
                v
            } else {
                g[r + di][c + dj]
            });
        }
    }
}

/// Law: on a board with no live cell every neighbour count is 0.
pub proof fn lemma_neighbor_count_dead(g: Seq<Seq<bool>>, height: int, width: int, r: int, c: int)
    requires
        is_rect(g, height, width),
        all_dead(g),
    ensures
        neighbor_count(g, height, width, r, c) == 0,
{
}

} // verus!
