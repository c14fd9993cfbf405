//! The threat detector: whether a square is attacked by a piece of a given
//! colour, found by casting rays in the eight directions and probing the
//! eight knight leaps, in a fixed scan order.
use vstd::prelude::*;

use crate::geometry::{
    diag_sq, dist, file_of, gamma_sq, lemma_between_step, lemma_between_sym, lemma_mul_sign,
    lemma_sq_compose, lemma_sq_decompose, lemma_step_between, on_board, rank_of, square_at,
    stepped, straight_sq, valid_sq,
};
use crate::moves::path_open;
use crate::piece::{
    bishop_of, king_of, knight_of, pawn_dir, pawn_of, queen_of, rook_of, ChessPiece,
};

verus! {

/// The piece on square `a` attacks square `t`: a rook or queen along a
/// clear rank or file, a bishop or queen along a clear diagonal, a knight
/// a leap away, a king one step away, or a pawn one forward-diagonal step
/// behind `t` (forward as seen by the attacking colour).
pub open spec fn attacks(board: Seq<ChessPiece>, a: int, t: int, by_white: bool) -> bool {
    &&& valid_sq(a)
    &&& valid_sq(t)
    &&& a != t
    &&& {
        ||| (straight_sq(a, t) && path_open(board, a, t) && (board[a] == rook_of(by_white)
            || board[a] == queen_of(by_white)))
        ||| (diag_sq(a, t) && path_open(board, a, t) && (board[a] == bishop_of(by_white)
            || board[a] == queen_of(by_white)))
        ||| (gamma_sq(a, t) && board[a] == knight_of(by_white))
        ||| (dist(file_of(a), file_of(t)) <= 1 && dist(rank_of(a), rank_of(t)) <= 1 && board[a]
            == king_of(by_white))
        ||| (board[a] == pawn_of(by_white) && dist(file_of(a), file_of(t)) == 1 && rank_of(t)
            == rank_of(a) + pawn_dir(by_white))
    }
}

/// Some square attacks `t` for the given colour.
pub open spec fn under_attack(board: Seq<ChessPiece>, t: int, by_white: bool) -> bool {
    exists|a: int| #[trigger] attacks(board, a, t, by_white)
}

/// Whether the piece found at distance `k` along a ray of direction
/// `(dx, dy)` attacks the ray's origin.
pub open spec fn ray_hit(p: ChessPiece, by_white: bool, dx: int, dy: int, k: int) -> bool {
    if dx != 0 && dy != 0 {
        ||| p == bishop_of(by_white)
        ||| p == queen_of(by_white)
        ||| (k == 1 && p == king_of(by_white))
        ||| (k == 1 && p == pawn_of(by_white) && dy == -pawn_dir(by_white))
    } else {
        ||| p == rook_of(by_white)
        ||| p == queen_of(by_white)
        ||| (k == 1 && p == king_of(by_white))
    }
}

/// Coordinates `k` steps along the ray lie on the board.
pub open spec fn step_on_board(tx: int, ty: int, dx: int, dy: int, k: int) -> bool {
    on_board(tx + k * dx, ty + k * dy)
}

/// The attacking square a ray finds: walking outward from `(tx, ty)` in
/// direction `(dx, dy)` starting at distance `k`, past empty squares, the
/// first occupied square if the piece there attacks the origin.
pub open spec fn ray_scan(
    board: Seq<ChessPiece>,
    tx: int,
    ty: int,
    dx: int,
    dy: int,
    by_white: bool,
    k: int,
) -> Option<int>
    decreases 9 - k,
{
    if k < 1 || k > 8 || !on_board(tx + k * dx, ty + k * dy) {
        None
    } else {
        let s: int = square_at(tx + k * dx, ty + k * dy);
        if board[s] is Empty {
            ray_scan(board, tx, ty, dx, dy, by_white, k + 1)
        } else if ray_hit(board[s], by_white, dx, dy, k) {
            Some(s)
        } else {
            None
        }
    }
}

/// A knight of the attacking colour stands on the given coordinates.
pub open spec fn knight_at(board: Seq<ChessPiece>, x: int, y: int, by_white: bool) -> bool {
    on_board(x, y) && board[square_at(x, y)] == knight_of(by_white)
}

/// The first of the eight knight-leap squares around `(tx, ty)`, in scan
/// order, that holds a knight of the attacking colour.
pub open spec fn knight_first(board: Seq<ChessPiece>, tx: int, ty: int, by_white: bool) -> Option<
    int,
> {
    if knight_at(board, tx + 2, ty + 1, by_white) {
        Some(square_at(tx + 2, ty + 1))
    } else if knight_at(board, tx + 2, ty - 1, by_white) {
        Some(square_at(tx + 2, ty - 1))
    } else if knight_at(board, tx - 2, ty + 1, by_white) {
        Some(square_at(tx - 2, ty + 1))
    } else if knight_at(board, tx - 2, ty - 1, by_white) {
        Some(square_at(tx - 2, ty - 1))
    } else if knight_at(board, tx + 1, ty + 2, by_white) {
        Some(square_at(tx + 1, ty + 2))
    } else if knight_at(board, tx - 1, ty + 2, by_white) {
        Some(square_at(tx - 1, ty + 2))
    } else if knight_at(board, tx + 1, ty - 2, by_white) {
        Some(square_at(tx + 1, ty - 2))
    } else if knight_at(board, tx - 1, ty - 2, by_white) {
        Some(square_at(tx - 1, ty - 2))
    } else {
        None
    }
}

/// The attacker the detector reports for square `t`: the eight rays are
/// scanned first (east, west, south, north, then the four diagonals), the
/// eight knight leaps after; the first find wins.
pub open spec fn spec_first_attacker(board: Seq<ChessPiece>, t: int, by_white: bool) -> Option<
    int,
> {
    let tx: int = file_of(t);
    let ty: int = rank_of(t);
    if ray_scan(board, tx, ty, 1, 0, by_white, 1) is Some {
        ray_scan(board, tx, ty, 1, 0, by_white, 1)
    } else if ray_scan(board, tx, ty, -1, 0, by_white, 1) is Some {
        ray_scan(board, tx, ty, -1, 0, by_white, 1)
    } else if ray_scan(board, tx, ty, 0, -1, by_white, 1) is Some {
        ray_scan(board, tx, ty, 0, -1, by_white, 1)
    } else if ray_scan(board, tx, ty, 0, 1, by_white, 1) is Some {
        ray_scan(board, tx, ty, 0, 1, by_white, 1)
    } else if ray_scan(board, tx, ty, -1, 1, by_white, 1) is Some {
        ray_scan(board, tx, ty, -1, 1, by_white, 1)
    } else if ray_scan(board, tx, ty, 1, -1, by_white, 1) is Some {
        ray_scan(board, tx, ty, 1, -1, by_white, 1)
    } else if ray_scan(board, tx, ty, 1, 1, by_white, 1) is Some {
        ray_scan(board, tx, ty, 1, 1, by_white, 1)
    } else if ray_scan(board, tx, ty, -1, -1, by_white, 1) is Some {
        ray_scan(board, tx, ty, -1, -1, by_white, 1)
    } else {
        knight_first(board, tx, ty, by_white)
    }
}

/// All ray squares nearer than `k` are on the board and empty.
pub open spec fn ray_prefix_empty(
    board: Seq<ChessPiece>,
    tx: int,
    ty: int,
    dx: int,
    dy: int,
    k: int,
) -> bool {
    forall|j: int|
        #![trigger stepped(tx, ty, dx, dy, j)]
        #![trigger step_on_board(tx, ty, dx, dy, j)]
        1 <= j < k ==> step_on_board(tx, ty, dx, dy, j) && board[stepped(tx, ty, dx, dy, j)]
            is Empty
}

/// What a ray reports, it reports rightly: the square it returns attacks
/// the ray's origin.
proof fn lemma_ray_sound(
    board: Seq<ChessPiece>,
    tx: int,
    ty: int,
    dx: int,
    dy: int,
    by_white: bool,
    k: int,
    s: int,
)
    requires
        board.len() == 64,
        on_board(tx, ty),
        -1 <= dx <= 1,
        -1 <= dy <= 1,
        !(dx == 0 && dy == 0),
        1 <= k,
        ray_prefix_empty(board, tx, ty, dx, dy, k),
        ray_scan(board, tx, ty, dx, dy, by_white, k) == Some(s),
    ensures
        attacks(board, s, square_at(tx, ty), by_white),
    decreases 9 - k,
{
    let x: int = tx + k * dx;
    let y: int = ty + k * dy;
    lemma_mul_sign(k, dx);
    lemma_mul_sign(k, dy);
    let s0: int = square_at(x, y);
    lemma_sq_compose(x, y);
    lemma_sq_compose(tx, ty);
    let t: int = square_at(tx, ty);
    assert(on_board(x, y) && 1 <= k <= 8);
    if board[s0] is Empty {
        assert(ray_prefix_empty(board, tx, ty, dx, dy, k + 1)) by {
            assert forall|j: int| 1 <= j < k + 1 implies #[trigger] step_on_board(
                tx,
                ty,
                dx,
                dy,
                j,
            ) && board[stepped(tx, ty, dx, dy, j)] is Empty by {
                if j == k {
                    assert(stepped(tx, ty, dx, dy, k) == s0);
                    assert(step_on_board(tx, ty, dx, dy, k));
                } else {
                    assert(step_on_board(tx, ty, dx, dy, j) && board[stepped(
                        tx,
                        ty,
                        dx,
                        dy,
                        j,
                    )] is Empty);
                }
            }
        }
        lemma_ray_sound(board, tx, ty, dx, dy, by_white, k + 1, s);
    } else {
        assert(s == s0);
        assert(path_open(board, s, t)) by {
            assert forall|p: int| valid_sq(p) && #[trigger] crate::geometry::between_sq(
                p,
                s,
                t,
            ) implies board[p] is Empty by {
                lemma_sq_decompose(p);
                lemma_between_sym(file_of(p), rank_of(p), x, y, tx, ty);
                let j = lemma_between_step(file_of(p), rank_of(p), tx, ty, dx, dy, k);
                assert(step_on_board(tx, ty, dx, dy, j));
                assert(p == stepped(tx, ty, dx, dy, j));
            }
        }
    }
}

/// A ray that reports nothing starting at distance `k`, all nearer squares
/// empty, rules out an attack from any ray square at distance `m >= k`.
proof fn lemma_ray_none(
    board: Seq<ChessPiece>,
    tx: int,
    ty: int,
    dx: int,
    dy: int,
    by_white: bool,
    k: int,
    m: int,
)
    requires
        board.len() == 64,
        on_board(tx, ty),
        -1 <= dx <= 1,
        -1 <= dy <= 1,
        !(dx == 0 && dy == 0),
        1 <= k <= m,
        ray_prefix_empty(board, tx, ty, dx, dy, k),
        ray_scan(board, tx, ty, dx, dy, by_white, k) is None,
        step_on_board(tx, ty, dx, dy, m),
    ensures
        !attacks(board, stepped(tx, ty, dx, dy, m), square_at(tx, ty), by_white),
    decreases 9 - k,
{
    let x: int = tx + k * dx;
    let y: int = ty + k * dy;
    lemma_mul_sign(k, dx);
    lemma_mul_sign(k, dy);
    lemma_mul_sign(m, dx);
    lemma_mul_sign(m, dy);
    let xm: int = tx + m * dx;
    let ym: int = ty + m * dy;
    lemma_sq_compose(xm, ym);
    lemma_sq_compose(tx, ty);
    let a: int = stepped(tx, ty, dx, dy, m);
    let t: int = square_at(tx, ty);
    let s0: int = square_at(x, y);
    if k > 8 {
        assert(false);
    } else if !on_board(x, y) {
        assert(false);
    } else {
        lemma_sq_compose(x, y);
        if board[s0] is Empty {
            if m == k {
                assert(a == s0);
                assert(board[a] is Empty);
                assert(!attacks(board, a, t, by_white));
            } else {
                assert(ray_prefix_empty(board, tx, ty, dx, dy, k + 1)) by {
                    assert forall|j: int| 1 <= j < k + 1 implies #[trigger] step_on_board(
                        tx,
                        ty,
                        dx,
                        dy,
                        j,
                    ) && board[stepped(tx, ty, dx, dy, j)] is Empty by {
                        if j == k {
                            assert(stepped(tx, ty, dx, dy, k) == s0);
                            assert(step_on_board(tx, ty, dx, dy, k));
                        } else {
                            assert(step_on_board(tx, ty, dx, dy, j) && board[stepped(
                                tx,
                                ty,
                                dx,
                                dy,
                                j,
                            )] is Empty);
                        }
                    }
                }
                lemma_ray_none(board, tx, ty, dx, dy, by_white, k + 1, m);
            }
        } else {
            if m == k {
                assert(!ray_hit(board[s0], by_white, dx, dy, k));
                assert(!attacks(board, a, t, by_white));
            } else {
                lemma_step_between(tx, ty, dx, dy, m, k);
                lemma_between_sym(x, y, tx, ty, xm, ym);
                assert(crate::geometry::between_sq(s0, a, t));
                assert(!path_open(board, a, t));
                assert(!attacks(board, a, t, by_white));
            }
        }
    }
}

/// If none of the eight knight-leap probes found a knight, no square a
/// knight's leap away from `t` holds a knight of the attacking colour.
proof fn lemma_knight_none(board: Seq<ChessPiece>, t: int, by_white: bool)
    requires
        board.len() == 64,
        valid_sq(t),
        knight_first(board, file_of(t), rank_of(t), by_white) is None,
    ensures
        forall|a: int|
            valid_sq(a) && #[trigger] gamma_sq(a, t) ==> board[a] != knight_of(by_white),
{
    let tx: int = file_of(t);
    let ty: int = rank_of(t);
    assert forall|a: int| valid_sq(a) && #[trigger] gamma_sq(a, t) implies board[a] != knight_of(
        by_white,
    ) by {
        lemma_sq_decompose(a);
        lemma_sq_decompose(t);
        let ax: int = file_of(a);
        let ay: int = rank_of(a);
        assert(a == square_at(ax, ay));
        assert(!knight_at(board, ax, ay, by_white));
    }
}

/// The square the scan reports attacks `t`.
pub proof fn lemma_first_attacker_sound(board: Seq<ChessPiece>, t: int, by_white: bool, s: int)
    requires
        board.len() == 64,
        valid_sq(t),
        spec_first_attacker(board, t, by_white) == Some(s),
    ensures
        attacks(board, s, t, by_white),
{
    let tx: int = file_of(t);
    let ty: int = rank_of(t);
    lemma_sq_decompose(t);
    if ray_scan(board, tx, ty, 1, 0, by_white, 1) is Some {
        lemma_ray_sound(board, tx, ty, 1, 0, by_white, 1, s);
    } else if ray_scan(board, tx, ty, -1, 0, by_white, 1) is Some {
        lemma_ray_sound(board, tx, ty, -1, 0, by_white, 1, s);
    } else if ray_scan(board, tx, ty, 0, -1, by_white, 1) is Some {
        lemma_ray_sound(board, tx, ty, 0, -1, by_white, 1, s);
    } else if ray_scan(board, tx, ty, 0, 1, by_white, 1) is Some {
        lemma_ray_sound(board, tx, ty, 0, 1, by_white, 1, s);
    } else if ray_scan(board, tx, ty, -1, 1, by_white, 1) is Some {
        lemma_ray_sound(board, tx, ty, -1, 1, by_white, 1, s);
    } else if ray_scan(board, tx, ty, 1, -1, by_white, 1) is Some {
        lemma_ray_sound(board, tx, ty, 1, -1, by_white, 1, s);
    } else if ray_scan(board, tx, ty, 1, 1, by_white, 1) is Some {
        lemma_ray_sound(board, tx, ty, 1, 1, by_white, 1, s);
    } else if ray_scan(board, tx, ty, -1, -1, by_white, 1) is Some {
        lemma_ray_sound(board, tx, ty, -1, -1, by_white, 1, s);
    } else {
        assert(knight_first(board, tx, ty, by_white) == Some(s));
    }
}

/// If the scan reports nothing, no square at all attacks `t`.
pub proof fn lemma_first_attacker_none(board: Seq<ChessPiece>, t: int, by_white: bool)
    requires
        board.len() == 64,
        valid_sq(t),
        spec_first_attacker(board, t, by_white) is None,
    ensures
        !under_attack(board, t, by_white),
{
    let tx: int = file_of(t);
    let ty: int = rank_of(t);
    lemma_sq_decompose(t);
    lemma_knight_none(board, t, by_white);
    assert forall|a: int| !attacks(board, a, t, by_white) by {
        if attacks(board, a, t, by_white) {
            lemma_sq_decompose(a);
            let ax: int = file_of(a);
            let ay: int = rank_of(a);
            if gamma_sq(a, t) {
                assert(board[a] != knight_of(by_white));
                assert(false);
            } else {
                assert(straight_sq(a, t) || diag_sq(a, t));
                let sxv: int = if ax > tx {
                    1
                } else if ax < tx {
                    -1
                } else {
                    0
                };
                let syv: int = if ay > ty {
                    1
                } else if ay < ty {
                    -1
                } else {
                    0
                };
                let m: int = if ax != tx {
                    dist(ax, tx)
                } else {
                    dist(ay, ty)
                };
                lemma_mul_sign(m, sxv);
                lemma_mul_sign(m, syv);
                assert(ax == tx + m * sxv);
                assert(ay == ty + m * syv);
                assert(a == stepped(tx, ty, sxv, syv, m));
                assert(step_on_board(tx, ty, sxv, syv, m));
                assert(ray_scan(board, tx, ty, sxv, syv, by_white, 1) is None);
                lemma_ray_none(board, tx, ty, sxv, syv, by_white, 1, m);
                assert(false);
            }
        }
    }
}

/// One ray of the detector: walks outward from `(tx, ty)` in direction
/// `(dx, dy)` past empty squares and reports the first occupied square if
/// the piece there attacks the origin.
fn ray_probe(
    board: &Vec<ChessPiece>,
    tx: u8,
    ty: u8,
    dx: i8,
    dy: i8,
    by_white: bool,
) -> (r: Option<u8>)
    requires
        board@.len() == 64,
        tx < 8,
        ty < 8,
        -1 <= dx <= 1,
        -1 <= dy <= 1,
        !(dx == 0 && dy == 0),
    ensures
        match r {
            Some(s) => s < 64 && ray_scan(
                board@,
                tx as int,
                ty as int,
                dx as int,
                dy as int,
                by_white,
                1,
            ) == Some(s as int),
            None => ray_scan(board@, tx as int, ty as int, dx as int, dy as int, by_white, 1)
                is None,
        },
{
    let diag_ray: bool = dx != 0 && dy != 0;
    let mut k: u8 = 1;
    loop
        invariant
            board@.len() == 64,
            tx < 8,
            ty < 8,
            -1 <= dx <= 1,
            -1 <= dy <= 1,
            !(dx == 0 && dy == 0),
            diag_ray == (dx != 0 && dy != 0),
            1 <= k <= 9,
            ray_scan(board@, tx as int, ty as int, dx as int, dy as int, by_white, 1) == ray_scan(
                board@,
                tx as int,
                ty as int,
                dx as int,
                dy as int,
                by_white,
                k as int,
            ),
        decreases 10 - k as int,
    {
        proof {
            lemma_mul_sign(k as int, dx as int);
            lemma_mul_sign(k as int, dy as int);
        }
        let cx: i16 = tx as i16 + (k as i16) * (dx as i16);
        let cy: i16 = ty as i16 + (k as i16) * (dy as i16);
        if cx < 0 || cx > 7 || cy < 0 || cy > 7 {
            return None;
        }
        proof {
            assert(k <= 8);
            lemma_sq_compose(cx as int, cy as int);
        }
        let s: u8 = (cy as u8) * 8 + (cx as u8);
        let p: ChessPiece = board[s as usize];
        if p.is_empty() {
            proof {
                assert(ray_scan(board@, tx as int, ty as int, dx as int, dy as int, by_white, k as int)
                    == ray_scan(
                    board@,
                    tx as int,
                    ty as int,
                    dx as int,
                    dy as int,
                    by_white,
                    k as int + 1,
                ));
            }
            k = k + 1;
        } else {
            let hit: bool = if diag_ray {
                let bishop: ChessPiece = if by_white {
                    ChessPiece::WBishop
                } else {
                    ChessPiece::BBishop
                };
                let queen: ChessPiece = if by_white {
                    ChessPiece::WQueen
                } else {
                    ChessPiece::BQueen
                };
                let king: ChessPiece = if by_white {
                    ChessPiece::WKing
                } else {
                    ChessPiece::BKing
                };
                let pawn: ChessPiece = if by_white {
                    ChessPiece::WPawn
                } else {
                    ChessPiece::BPawn
                };
                let pawn_step: i8 = if by_white {
                    -1
                } else {
                    1
                };
                p == bishop || p == queen || (k == 1 && p == king) || (k == 1 && p == pawn && dy
                    == pawn_step)
            } else {
                let rook: ChessPiece = if by_white {
                    ChessPiece::WRook
                } else {
                    ChessPiece::BRook
                };
                let queen: ChessPiece = if by_white {
                    ChessPiece::WQueen
                } else {
                    ChessPiece::BQueen
                };
                let king: ChessPiece = if by_white {
                    ChessPiece::WKing
                } else {
                    ChessPiece::BKing
                };
                p == rook || p == queen || (k == 1 && p == king)
            };
            if hit {
                return Some(s);
            } else {
                return None;
            }
        }
    }
}

/// Finds an attacker of `target` for the attacking colour `by_white`,
/// scanning the eight rays and then the eight knight leaps in a fixed
/// order, and returns the first attacking square found, or nothing when no
/// piece of that colour attacks the square.
pub fn square_under_attack(board: &Vec<ChessPiece>, target: u8, by_white: bool) -> (r: Option<u8>)
    requires
        board@.len() == 64,
        target < 64,
    ensures
        match r {
            Some(s) => s < 64 && spec_first_attacker(board@, target as int, by_white) == Some(
                s as int,
            ) && attacks(board@, s as int, target as int, by_white),
            None => spec_first_attacker(board@, target as int, by_white) is None,
        },
        (r is Some) == under_attack(board@, target as int, by_white),
{
    proof {
        lemma_sq_decompose(target as int);
    }
    let tx: u8 = target % 8;
    let ty: u8 = target / 8;
    let ghost tgt: int = target as int;
    let mut found: Option<u8> = ray_probe(board, tx, ty, 1, 0, by_white);
    if found.is_none() {
        found = ray_probe(board, tx, ty, -1, 0, by_white);
    }
    if found.is_none() {
        found = ray_probe(board, tx, ty, 0, -1, by_white);
    }
    if found.is_none() {
        found = ray_probe(board, tx, ty, 0, 1, by_white);
    }
    if found.is_none() {
        found = ray_probe(board, tx, ty, -1, 1, by_white);
    }
    if found.is_none() {
        found = ray_probe(board, tx, ty, 1, -1, by_white);
    }
    if found.is_none() {
        found = ray_probe(board, tx, ty, 1, 1, by_white);
    }
    if found.is_none() {
        found = ray_probe(board, tx, ty, -1, -1, by_white);
    }
    if found.is_none() {
        found = knight_probe(board, tx, ty, by_white);
        proof {
            assert(spec_first_attacker(board@, tgt, by_white) == knight_first(
                board@,
                tx as int,
                ty as int,
                by_white,
            ));
        }
    }
    proof {
        match found {
            Some(s) => {
                lemma_first_attacker_sound(board@, tgt, by_white, s as int);
                assert(under_attack(board@, tgt, by_white));
            },
            None => {
                lemma_first_attacker_none(board@, tgt, by_white);
            },
        }
    }
    found
}

/// Probes the eight knight-leap squares around `(tx, ty)` in scan order
/// for a knight of the attacking colour.
fn knight_probe(board: &Vec<ChessPiece>, tx: u8, ty: u8, by_white: bool) -> (r: Option<u8>)
    requires
        board@.len() == 64,
        tx < 8,
        ty < 8,
    ensures
        match r {
            Some(s) => s < 64 && knight_first(board@, tx as int, ty as int, by_white) == Some(
                s as int,
            ),
            None => knight_first(board@, tx as int, ty as int, by_white) is None,
        },
{
    let knight: ChessPiece = if by_white {
        ChessPiece::WKnight
    } else {
        ChessPiece::BKnight
    };
    let mut r: Option<u8> = leap_check(board, tx as i16 + 2, ty as i16 + 1, knight);
    if r.is_none() {
        r = leap_check(board, tx as i16 + 2, ty as i16 - 1, knight);
    }
    if r.is_none() {
        r = leap_check(board, tx as i16 - 2, ty as i16 + 1, knight);
    }
    if r.is_none() {
        r = leap_check(board, tx as i16 - 2, ty as i16 - 1, knight);
    }
    if r.is_none() {
        r = leap_check(board, tx as i16 + 1, ty as i16 + 2, knight);
    }
    if r.is_none() {
        r = leap_check(board, tx as i16 - 1, ty as i16 + 2, knight);
    }
    if r.is_none() {
        r = leap_check(board, tx as i16 + 1, ty as i16 - 2, knight);
    }
    if r.is_none() {
        r = leap_check(board, tx as i16 - 1, ty as i16 - 2, knight);
    }
    r
}

/// Reports the square at the given coordinates when it is on the board and
/// holds the given piece.
fn leap_check(board: &Vec<ChessPiece>, x: i16, y: i16, piece: ChessPiece) -> (r: Option<u8>)
    requires
        board@.len() == 64,
        -2 <= x <= 9,
        -2 <= y <= 9,
    ensures
        match r {
            Some(s) => s < 64 && on_board(x as int, y as int) && s as int == square_at(
                x as int,
                y as int,
            ) && board@[s as int] == piece,
            None => !(on_board(x as int, y as int) && board@[square_at(x as int, y as int)]
                == piece),
        },
{
    if x < 0 || x > 7 || y < 0 || y > 7 {
        return None;
    }
    proof {
        lemma_sq_compose(x as int, y as int);
    }
    let s: u8 = (y as u8) * 8 + (x as u8);
    if board[s as usize] == piece {
        Some(s)
    } else {
        None
    }
}

} // verus!
