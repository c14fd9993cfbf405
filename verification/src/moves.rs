//! The pathway checker and the per-piece move legality checker.  Both are
//! lenient: a request that does not fit the claimed shape, or any other
//! rule, is answered with `false`, never with a failure.
use vstd::prelude::*;

use crate::geometry::{
    between_sq, diag_sq, dist, file_of, gamma_sq, lemma_between_step, lemma_mul_sign,
    lemma_sq_compose, lemma_sq_decompose, lemma_step_between, rank_of, square_at, stepped,
    straight_sq, valid_sq,
};
use crate::piece::{
    color_matches, pawn_dir, spec_is_enemy, ChessPathway, ChessPiece,
};

verus! {

/// Every square strictly between `f` and `t` is empty.  (For a pair of
/// squares that shares no rank, file or diagonal there is no such square,
/// so the condition holds trivially.)
pub open spec fn path_open(board: Seq<ChessPiece>, f: int, t: int) -> bool {
    forall|s: int| valid_sq(s) && #[trigger] between_sq(s, f, t) ==> board[s] is Empty
}

/// What the pathway checker answers: the two squares differ and fit the
/// claimed shape, every intermediate square is empty, and the destination
/// is empty (when capture is not allowed) or enterable by the moving piece
/// (when it is).
pub open spec fn spec_path_clear(
    board: Seq<ChessPiece>,
    f: int,
    t: int,
    allow_capture: bool,
    path: ChessPathway,
) -> bool {
    if f == t {
        false
    } else {
        let dest_ok = if allow_capture {
            spec_is_enemy(board[f], board[t])
        } else {
            board[t] is Empty
        };
        match path {
            ChessPathway::Diagonal => diag_sq(f, t) && path_open(board, f, t) && dest_ok,
            ChessPathway::Straight => straight_sq(f, t) && path_open(board, f, t) && dest_ok,
            ChessPathway::Gamma => gamma_sq(f, t) && dest_ok,
        }
    }
}

/// The pawn rules: one step forward onto an empty square, two steps from
/// the colour's starting rank across an empty path onto an empty square,
/// or a one-step diagonal capture of an enemy piece.
pub open spec fn pawn_rule(board: Seq<ChessPiece>, f: int, t: int, white: bool) -> bool {
    let d: int = pawn_dir(white);
    let start: int = if white {
        1
    } else {
        6
    };
    ||| (file_of(t) == file_of(f) && rank_of(t) == rank_of(f) + d && board[t] is Empty)
    ||| (file_of(t) == file_of(f) && rank_of(t) == rank_of(f) + 2 * d && rank_of(f) == start
        && board[t] is Empty && path_open(board, f, t))
    ||| (dist(file_of(t), file_of(f)) == 1 && rank_of(t) == rank_of(f) + d && spec_is_enemy(
        board[t],
        board[f],
    ))
}

/// The full move legality relation: the source square holds a piece of the
/// side to move, and the move fits that piece's movement rule, with the
/// destination empty or holding an enemy piece.
pub open spec fn spec_legal_move(
    board: Seq<ChessPiece>,
    white_turn: bool,
    f: int,
    t: int,
) -> bool {
    &&& valid_sq(f)
    &&& valid_sq(t)
    &&& f != t
    &&& color_matches(board[f], white_turn)
    &&& match board[f] {
        ChessPiece::Empty => false,
        ChessPiece::WPawn => pawn_rule(board, f, t, true),
        ChessPiece::BPawn => pawn_rule(board, f, t, false),
        ChessPiece::WRook | ChessPiece::BRook => straight_sq(f, t) && path_open(board, f, t)
            && spec_is_enemy(board[f], board[t]),
        ChessPiece::WBishop | ChessPiece::BBishop => diag_sq(f, t) && path_open(board, f, t)
            && spec_is_enemy(board[f], board[t]),
        ChessPiece::WKnight | ChessPiece::BKnight => gamma_sq(f, t) && spec_is_enemy(
            board[f],
            board[t],
        ),
        ChessPiece::WKing | ChessPiece::BKing => dist(file_of(f), file_of(t)) <= 1 && dist(
            rank_of(f),
            rank_of(t),
        ) <= 1 && spec_is_enemy(board[f], board[t]),
        ChessPiece::WQueen | ChessPiece::BQueen => (diag_sq(f, t) || straight_sq(f, t))
            && path_open(board, f, t) && spec_is_enemy(board[f], board[t]),
    }
}

/// Walks the squares strictly between `from` and `to` along their shared
/// rank, file or diagonal, and reports whether all of them are empty.
fn open_along(board: &Vec<ChessPiece>, from: u8, to: u8) -> (r: bool)
    requires
        board@.len() == 64,
        from < 64,
        to < 64,
        from != to,
        straight_sq(from as int, to as int) || diag_sq(from as int, to as int),
    ensures
        r == path_open(board@, from as int, to as int),
{
    let fx: u8 = from % 8;
    let fy: u8 = from / 8;
    let tx: u8 = to % 8;
    let ty: u8 = to / 8;
    let dx: u8 = if tx >= fx {
        tx - fx
    } else {
        fx - tx
    };
    let dy: u8 = if ty >= fy {
        ty - fy
    } else {
        fy - ty
    };
    let sx: i8 = if tx > fx {
        1
    } else if tx < fx {
        -1
    } else {
        0
    };
    let sy: i8 = if ty > fy {
        1
    } else if ty < fy {
        -1
    } else {
        0
    };
    let steps: u8 = if dx > dy {
        dx
    } else {
        dy
    };
    proof {
        lemma_sq_decompose(from as int);
        lemma_sq_decompose(to as int);
        lemma_mul_sign(steps as int, sx as int);
        lemma_mul_sign(steps as int, sy as int);
        assert(tx as int == fx as int + steps as int * sx as int);
        assert(ty as int == fy as int + steps as int * sy as int);
    }
    let mut i: u8 = 1;
    while i < steps
        invariant
            board@.len() == 64,
            1 <= i <= steps,
            steps <= 7,
            -1 <= sx <= 1,
            -1 <= sy <= 1,
            !(sx == 0 && sy == 0),
            fx as int == file_of(from as int),
            fy as int == rank_of(from as int),
            fx < 8,
            fy < 8,
            tx as int == fx as int + steps as int * sx as int,
            ty as int == fy as int + steps as int * sy as int,
            tx as int == file_of(to as int),
            ty as int == rank_of(to as int),
            tx < 8,
            ty < 8,
            forall|k: int|
                1 <= k < i ==> board@[#[trigger] stepped(
                    fx as int,
                    fy as int,
                    sx as int,
                    sy as int,
                    k,
                )] is Empty,
        decreases steps - i,
    {
        proof {
            lemma_step_between(fx as int, fy as int, sx as int, sy as int, steps as int, i as int);
        }
        let cx: i16 = fx as i16 + (i as i16) * (sx as i16);
        let cy: i16 = fy as i16 + (i as i16) * (sy as i16);
        proof {
            lemma_sq_compose(cx as int, cy as int);
        }
        let s: u8 = (cy as u8) * 8 + (cx as u8);
        if !board[s as usize].is_empty() {
            proof {
                assert(s as int == square_at(cx as int, cy as int));
                assert(between_sq(s as int, from as int, to as int));
                assert(!path_open(board@, from as int, to as int));
            }
            return false;
        }
        assert(board@[stepped(fx as int, fy as int, sx as int, sy as int, i as int)] is Empty);
        i = i + 1;
    }
    proof {
        assert forall|s: int| valid_sq(s) && #[trigger] between_sq(
            s,
            from as int,
            to as int,
        ) implies board@[s] is Empty by {
            lemma_sq_decompose(s);
            let k = lemma_between_step(
                file_of(s),
                rank_of(s),
                fx as int,
                fy as int,
                sx as int,
                sy as int,
                steps as int,
            );
            assert(s == stepped(fx as int, fy as int, sx as int, sy as int, k));
        }
    }
    true
}

/// The pathway checker: `from` and `to` must differ and fit the claimed
/// shape, every square strictly between them must be empty (a knight's
/// leap has none), and the destination must be empty, or hold an enemy
/// piece when `allow_capture` permits a capture.  Any violated condition
/// yields `false`.
pub fn path_clear(
    board: &Vec<ChessPiece>,
    from: u8,
    to: u8,
    allow_capture: bool,
    path: ChessPathway,
) -> (r: bool)
    requires
        board@.len() == 64,
        from < 64,
        to < 64,
    ensures
        r == spec_path_clear(board@, from as int, to as int, allow_capture, path),
{
    if from == to {
        return false;
    }
    proof {
        lemma_sq_decompose(from as int);
        lemma_sq_decompose(to as int);
    }
    let fx: u8 = from % 8;
    let fy: u8 = from / 8;
    let tx: u8 = to % 8;
    let ty: u8 = to / 8;
    let dx: u8 = if tx >= fx {
        tx - fx
    } else {
        fx - tx
    };
    let dy: u8 = if ty >= fy {
        ty - fy
    } else {
        fy - ty
    };
    let from_el: ChessPiece = board[from as usize];
    let to_el: ChessPiece = board[to as usize];
    let dest_ok: bool = if allow_capture {
        from_el.is_enemy_to(to_el)
    } else {
        to_el.is_empty()
    };
    match path {
        ChessPathway::Diagonal => {
            if dx != dy {
                return false;
            }
            if !open_along(board, from, to) {
                return false;
            }
            dest_ok
        },
        ChessPathway::Straight => {
            let v_case: bool = dx == 0 && dy > 0;
            let h_case: bool = dx > 0 && dy == 0;
            if !(v_case || h_case) {
                return false;
            }
            if !open_along(board, from, to) {
                return false;
            }
            dest_ok
        },
        ChessPathway::Gamma => {
            let gamma_check: bool = (dx == 2 && dy == 1) || (dx == 1 && dy == 2);
            if !gamma_check {
                return false;
            }
            dest_ok
        },
    }
}

/// The move legality checker: dispatches on the piece standing on `from`
/// and applies that piece's movement rule, with all pathway and capture
/// conditions checked by `path_clear`.  An illegal request of any kind is
/// answered with `false`.
#[verifier::rlimit(60)]
pub fn legal_move(board: &Vec<ChessPiece>, white_turn: bool, from: u8, to: u8) -> (r: bool)
    requires
        board@.len() == 64,
        from < 64,
        to < 64,
    ensures
        r == spec_legal_move(board@, white_turn, from as int, to as int),
{
    if from == to {
        return false;
    }
    proof {
        lemma_sq_decompose(from as int);
        lemma_sq_decompose(to as int);
    }
    let from_el: ChessPiece = board[from as usize];
    let right_color: bool = if white_turn {
        from_el.is_white()
    } else {
        from_el.is_black()
    };
    if !right_color {
        return false;
    }
    let to_el: ChessPiece = board[to as usize];
    let fx: u8 = from % 8;
    let fy: u8 = from / 8;
    let tx: u8 = to % 8;
    let ty: u8 = to / 8;
    let dx: u8 = if tx >= fx {
        tx - fx
    } else {
        fx - tx
    };
    let dy: u8 = if ty >= fy {
        ty - fy
    } else {
        fy - ty
    };
    match from_el {
        ChessPiece::Empty => false,
        ChessPiece::WPawn => {
            let one_up: bool = fx == tx && ty == fy + 1;
            let two_up: bool = fx == tx && ty == fy + 2;
            let diag_step: bool = dx == 1 && ty == fy + 1;
            let v_one: bool = one_up && to_el.is_empty();
            let v_two: bool = two_up && fy == 1 && path_clear(
                board,
                from,
                to,
                false,
                ChessPathway::Straight,
            );
            let v_diag: bool = diag_step && to_el.is_enemy_to(from_el);
            v_one || v_two || v_diag
        },
        ChessPiece::BPawn => {
            let one_down: bool = fx == tx && ty + 1 == fy;
            let two_down: bool = fx == tx && ty + 2 == fy;
            let diag_step: bool = dx == 1 && ty + 1 == fy;
            let v_one: bool = one_down && to_el.is_empty();
            let v_two: bool = two_down && fy == 6 && path_clear(
                board,
                from,
                to,
                false,
                ChessPathway::Straight,
            );
            let v_diag: bool = diag_step && to_el.is_enemy_to(from_el);
            v_one || v_two || v_diag
        },
        ChessPiece::WRook | ChessPiece::BRook => path_clear(
            board,
            from,
            to,
            true,
            ChessPathway::Straight,
        ),
        ChessPiece::WBishop | ChessPiece::BBishop => path_clear(
            board,
            from,
            to,
            true,
            ChessPathway::Diagonal,
        ),
        ChessPiece::WKnight | ChessPiece::BKnight => path_clear(
            board,
            from,
            to,
            true,
            ChessPathway::Gamma,
        ),
        ChessPiece::WKing | ChessPiece::BKing => dx < 2 && dy < 2 && from_el.is_enemy_to(to_el),
        ChessPiece::WQueen | ChessPiece::BQueen => {
            if dx == dy {
                path_clear(board, from, to, true, ChessPathway::Diagonal)
            } else {
                path_clear(board, from, to, true, ChessPathway::Straight)
            }
        },
    }
}

/// A rook whose on-board rank and file neighbours all hold pieces of its
/// own colour has no legal move at all: every candidate destination is
/// blocked at the first step or occupied by a friendly piece.
pub proof fn lemma_enclosed_rook(board: Seq<ChessPiece>, turn: bool, f: int)
    requires
        board.len() == 64,
        valid_sq(f),
        board[f] == crate::piece::rook_of(turn),
        forall|s: int|
            valid_sq(s) && #[trigger] straight_sq(f, s) && dist(file_of(f), file_of(s)) + dist(
                rank_of(f),
                rank_of(s),
            ) == 1 ==> color_matches(board[s], turn),
    ensures
        forall|t: int| !spec_legal_move(board, turn, f, t),
{
    assert forall|t: int| !spec_legal_move(board, turn, f, t) by {
        if spec_legal_move(board, turn, f, t) {
            lemma_sq_decompose(f);
            lemma_sq_decompose(t);
            let fxv = file_of(f);
            let fyv = rank_of(f);
            let sxv: int = if file_of(t) > fxv {
                1
            } else if file_of(t) < fxv {
                -1
            } else {
                0
            };
            let syv: int = if rank_of(t) > fyv {
                1
            } else if rank_of(t) < fyv {
                -1
            } else {
                0
            };
            let n: int = dist(fxv, file_of(t)) + dist(fyv, rank_of(t));
            lemma_mul_sign(n, sxv);
            lemma_mul_sign(n, syv);
            assert(file_of(t) == fxv + n * sxv);
            assert(rank_of(t) == fyv + n * syv);
            if n == 1 {
                assert(color_matches(board[t], turn));
            } else {
                crate::geometry::lemma_step_between(fxv, fyv, sxv, syv, n, 1);
                lemma_mul_sign(1, sxv);
                lemma_mul_sign(1, syv);
                let s1 = square_at(fxv + sxv, fyv + syv);
                lemma_sq_compose(fxv + sxv, fyv + syv);
                assert(between_sq(s1, f, t));
                assert(valid_sq(s1));
                assert(straight_sq(f, s1));
                assert(dist(file_of(f), file_of(s1)) + dist(rank_of(f), rank_of(s1)) == 1);
                assert(color_matches(board[s1], turn));
            }
        }
    }
}

} // verus!
