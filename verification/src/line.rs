//! Straight lines of grid points, as `line_drawing`'s Bresenham iterator
//! traces them.

use vstd::prelude::*;

verus! {

/// `line_drawing::Bresenham`, carried through verified code as an opaque
/// iterator over `(x, y)` points.
#[verifier::external_type_specification]
#[verifier::external_body]
#[verifier::reject_recursive_types(T)]
pub struct ExBresenham<T>(line_drawing::Bresenham<T>);

/// The points, in order, that `line_drawing::Bresenham::new((x0, y0), (x1, y1))`
/// yields.
pub uninterp spec fn bresenham_points(x0: isize, y0: isize, x1: isize, y1: isize) -> Seq<(isize, isize)>;

/// The points, in order, that a `line_drawing::Bresenham` iterator has still
/// to yield.
pub uninterp spec fn line_points_left(line: line_drawing::Bresenham<isize>) -> Seq<(isize, isize)>;

/// End points for which `Bresenham::new` computes its differences and
/// negations without leaving `isize`: no coordinate is `isize::MIN` and both
/// differences lie within `-isize::MAX ..= isize::MAX`.
pub open spec fn line_ends_ok(x0: isize, y0: isize, x1: isize, y1: isize) -> bool {
    &&& x0 > isize::MIN
    &&& y0 > isize::MIN
    &&& x1 > isize::MIN
    &&& y1 > isize::MIN
    &&& -isize::MAX <= x1 - x0 <= isize::MAX
    &&& -isize::MAX <= y1 - y0 <= isize::MAX
}

/// The end of a line is one that `Bresenham::next` can step past without
/// overflow when it yields it.
pub open spec fn line_end_ok(p: (isize, isize)) -> bool {
    &&& -isize::MAX < p.0 < isize::MAX
    &&& -isize::MAX < p.1 < isize::MAX
}

/// Points `k` and `k + 1` of `pts` differ by at most one in each coordinate.
pub open spec fn steps_to_neighbor(pts: Seq<(isize, isize)>, k: int) -> bool {
    &&& -1 <= pts[k + 1].0 - pts[k].0 <= 1
    &&& -1 <= pts[k + 1].1 - pts[k].1 <= 1
}

/// Calls `line_drawing::Bresenham::new((x0, y0), (x1, y1))`.
///
/// Claimed of the outside code: the iterator will yield `bresenham_points`
/// of the two end points; there is at least one point, the first is the
/// start, the last is the end (the crate documents that the line includes
/// both end points), and each point is a neighbour of the one before (in
/// the crate's octant space every step adds one to x and zero or one to y,
/// and the octant transform only swaps and negates coordinates). Which
/// points lie in between is left unsaid. `line_ends_ok` keeps the
/// constructor's `isize` arithmetic from overflowing.
#[verifier::external_body]
pub(crate) fn line_start(x0: isize, y0: isize, x1: isize, y1: isize) -> (line: line_drawing::Bresenham<isize>)
    requires
        line_ends_ok(x0, y0, x1, y1),
    ensures
        line_points_left(line) == bresenham_points(x0, y0, x1, y1),
        line_points_left(line).len() >= 1,
        line_points_left(line)[0] == (x0, y0),
        line_points_left(line).last() == (x1, y1),
        forall|k: int|
            0 <= k < line_points_left(line).len() - 1 ==> #[trigger] steps_to_neighbor(
                line_points_left(line),
                k,
            ),
{
    line_drawing::Bresenham::new((x0, y0), (x1, y1))
}

/// Calls `Iterator::next` on a `line_drawing::Bresenham` iterator.
///
/// Claimed of the outside code: it yields the first of the points left and
/// drops it from them, or, when none is left, yields `None` and stays
/// exhausted. Only the call that yields the line's end (the last point
/// left) can overflow, since it also steps one past that end; so the end
/// must lie strictly inside `isize` when it is the one point left. Other
/// calls stay between the line's points, and when nothing is left the call
/// only compares.
#[verifier::external_body]
pub(crate) fn line_next(line: &mut line_drawing::Bresenham<isize>) -> (p: Option<(isize, isize)>)
    requires
        line_points_left(*old(line)).len() == 1 ==> line_end_ok(line_points_left(*old(line))[0]),
    ensures
        line_points_left(*old(line)).len() == 0 ==> p is None && line_points_left(*final(line))
            == line_points_left(*old(line)),
        line_points_left(*old(line)).len() > 0 ==> p == Some(line_points_left(*old(line))[0])
            && line_points_left(*final(line)) == line_points_left(*old(line)).drop_first(),
{
    line.next()
}

} // verus!
