//! Coordinate geometry of the 8x8 board: squares, files, ranks, and the
//! "strictly between on a shared rank, file or diagonal" relation that the
//! pathway checker and the threat detector are built on.
use vstd::prelude::*;

verus! {

/// Absolute difference of two coordinates.
pub open spec fn dist(a: int, b: int) -> int {
    if a >= b {
        a - b
    } else {
        b - a
    }
}

/// `x` lies strictly inside the open interval with endpoints `a` and `b`.
pub open spec fn strict_mid(x: int, a: int, b: int) -> bool {
    (a < x && x < b) || (b < x && x < a)
}

/// The two points share a file or a rank without coinciding.
pub open spec fn straight_xy(ax: int, ay: int, bx: int, by: int) -> bool {
    (ax == bx && ay != by) || (ay == by && ax != bx)
}

/// The two points lie on a common 45-degree diagonal (a pair of equal
/// points counts as trivially diagonal).
pub open spec fn diag_xy(ax: int, ay: int, bx: int, by: int) -> bool {
    dist(ax, bx) == dist(ay, by)
}

/// The two points are related by a knight's leap.
pub open spec fn gamma_xy(ax: int, ay: int, bx: int, by: int) -> bool {
    (dist(ax, bx) == 2 && dist(ay, by) == 1) || (dist(ax, bx) == 1 && dist(ay, by) == 2)
}

/// The two points share a rank, a file, or a 45-degree diagonal.
pub open spec fn colinear_xy(ax: int, ay: int, bx: int, by: int) -> bool {
    straight_xy(ax, ay, bx, by) || diag_xy(ax, ay, bx, by)
}

/// Point `p` lies strictly inside the open segment from `a` to `b`, where
/// the segment runs along a rank, a file, or a 45-degree diagonal.  For a
/// pair of endpoints that is not colinear in one of those three ways no
/// point qualifies.
pub open spec fn between_xy(px: int, py: int, ax: int, ay: int, bx: int, by: int) -> bool {
    ||| (ay == by && py == ay && strict_mid(px, ax, bx))
    ||| (ax == bx && px == ax && strict_mid(py, ay, by))
    ||| (diag_xy(ax, ay, bx, by) && dist(ax, px) == dist(ay, py) && dist(px, bx) == dist(py, by)
        && strict_mid(px, ax, bx) && strict_mid(py, ay, by))
}

/// File (column) of a square index.
pub open spec fn file_of(s: int) -> int {
    s % 8
}

/// Rank (row) of a square index.
pub open spec fn rank_of(s: int) -> int {
    s / 8
}

/// Square index of a (file, rank) pair.
pub open spec fn square_at(x: int, y: int) -> int {
    y * 8 + x
}

/// The (file, rank) pair denotes a cell of the 8x8 board.
pub open spec fn on_board(x: int, y: int) -> bool {
    0 <= x < 8 && 0 <= y < 8
}

/// The square index denotes a cell of the 8x8 board.
pub open spec fn valid_sq(s: int) -> bool {
    0 <= s < 64
}

pub open spec fn straight_sq(a: int, b: int) -> bool {
    straight_xy(file_of(a), rank_of(a), file_of(b), rank_of(b))
}

pub open spec fn diag_sq(a: int, b: int) -> bool {
    diag_xy(file_of(a), rank_of(a), file_of(b), rank_of(b))
}

pub open spec fn gamma_sq(a: int, b: int) -> bool {
    gamma_xy(file_of(a), rank_of(a), file_of(b), rank_of(b))
}

pub open spec fn between_sq(p: int, a: int, b: int) -> bool {
    between_xy(file_of(p), rank_of(p), file_of(a), rank_of(a), file_of(b), rank_of(b))
}

/// The square reached from `(x, y)` after `k` steps in direction `(dx, dy)`.
pub open spec fn stepped(x: int, y: int, dx: int, dy: int, k: int) -> int {
    square_at(x + k * dx, y + k * dy)
}

/// A square decomposes into its file and rank, and they are in range.
pub proof fn lemma_sq_decompose(s: int)
    requires
        valid_sq(s),
    ensures
        square_at(file_of(s), rank_of(s)) == s,
        on_board(file_of(s), rank_of(s)),
{
}

/// Composing a valid (file, rank) pair into a square and back is the identity.
pub proof fn lemma_sq_compose(x: int, y: int)
    requires
        on_board(x, y),
    ensures
        valid_sq(square_at(x, y)),
        file_of(square_at(x, y)) == x,
        rank_of(square_at(x, y)) == y,
{
}

/// Multiplying by a factor from {-1, 0, 1} is negation, zero, or identity.
pub proof fn lemma_mul_sign(k: int, d: int)
    requires
        -1 <= d <= 1,
    ensures
        d == 1 ==> k * d == k,
        d == 0 ==> k * d == 0,
        d == -1 ==> k * d == -k,
{
    assert(d == 1 ==> k * d == k) by (nonlinear_arith);
    assert(d == 0 ==> k * d == 0) by (nonlinear_arith);
    assert(d == -1 ==> k * d == -k) by (nonlinear_arith);
}

/// Betweenness does not depend on the order of the two endpoints.
pub proof fn lemma_between_sym(px: int, py: int, ax: int, ay: int, bx: int, by: int)
    ensures
        between_xy(px, py, ax, ay, bx, by) == between_xy(px, py, bx, by, ax, ay),
{
}

/// The endpoints themselves never lie strictly between.
pub proof fn lemma_between_endpoints(ax: int, ay: int, bx: int, by: int)
    ensures
        !between_xy(ax, ay, ax, ay, bx, by),
        !between_xy(bx, by, ax, ay, bx, by),
{
}

/// Only colinear endpoint pairs admit a point strictly between them.
pub proof fn lemma_between_needs_colinear(px: int, py: int, ax: int, ay: int, bx: int, by: int)
    ensures
        between_xy(px, py, ax, ay, bx, by) ==> colinear_xy(ax, ay, bx, by),
{
}

/// Walking `k` of `n` steps from `a` toward `a + n*d` lands strictly between
/// the two, on the board whenever both endpoints are.
pub proof fn lemma_step_between(ax: int, ay: int, dx: int, dy: int, n: int, k: int)
    requires
        -1 <= dx <= 1,
        -1 <= dy <= 1,
        !(dx == 0 && dy == 0),
        1 <= k < n,
    ensures
        between_xy(ax + k * dx, ay + k * dy, ax, ay, ax + n * dx, ay + n * dy),
        on_board(ax, ay) && on_board(ax + n * dx, ay + n * dy) ==> on_board(
            ax + k * dx,
            ay + k * dy,
        ),
{
    lemma_mul_sign(k, dx);
    lemma_mul_sign(k, dy);
    lemma_mul_sign(n, dx);
    lemma_mul_sign(n, dy);
}

/// A point strictly between `a` and `a + n*d` is one of the intermediate
/// steps along the direction `d`; returns which step it is.
pub proof fn lemma_between_step(
    px: int,
    py: int,
    ax: int,
    ay: int,
    dx: int,
    dy: int,
    n: int,
) -> (k: int)
    requires
        -1 <= dx <= 1,
        -1 <= dy <= 1,
        !(dx == 0 && dy == 0),
        n >= 1,
        between_xy(px, py, ax, ay, ax + n * dx, ay + n * dy),
    ensures
        1 <= k < n,
        px == ax + k * dx,
        py == ay + k * dy,
{
    lemma_mul_sign(n, dx);
    lemma_mul_sign(n, dy);
    let k: int = if dx != 0 {
        dist(ax, px)
    } else {
        dist(ay, py)
    };
    lemma_mul_sign(k, dx);
    lemma_mul_sign(k, dy);
    k
}

} // verus!
