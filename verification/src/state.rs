//! The game-state evaluator: after a move, classifies the position for the
//! side about to move next as ongoing, stalemate, or checkmate, from the
//! threat detector's answer, the king's escape squares, whether the
//! attacker can be captured, and whether the attack can be blocked by
//! interposition.
use vstd::prelude::*;

use crate::geometry::{
    between_sq, file_of, lemma_sq_compose, lemma_sq_decompose, on_board, rank_of, square_at,
    valid_sq,
};
use crate::moves::{legal_move, spec_legal_move};
use crate::piece::{color_matches, is_king, is_knight, is_pawn, pawn_dir, ChessPiece, ChessState};
use crate::pos::ChessPos;
use crate::threat::{spec_first_attacker, square_under_attack, under_attack};

verus! {

/// The king's neighbour at offset `(i, j)` offers no escape: it is off the
/// board, occupied by a piece of the king's own colour, or attacked by the
/// enemy.
pub open spec fn spec_neighbor_unsafe(
    board: Seq<ChessPiece>,
    kx: int,
    ky: int,
    i: int,
    j: int,
    def_white: bool,
) -> bool {
    let x: int = kx + i;
    let y: int = ky + j;
    ||| !on_board(x, y)
    ||| (!(board[square_at(x, y)] is Empty) && color_matches(board[square_at(x, y)], def_white))
    ||| under_attack(board, square_at(x, y), !def_white)
}

/// None of the king's eight neighbouring squares offers an escape.
pub open spec fn spec_king_trapped(board: Seq<ChessPiece>, k: int, def_white: bool) -> bool {
    forall|i: int, j: int|
        -1 <= i <= 1 && -1 <= j <= 1 && !(i == 0 && j == 0) ==> #[trigger] spec_neighbor_unsafe(
            board,
            file_of(k),
            rank_of(k),
            i,
            j,
            def_white,
        )
}

/// The defending piece on `f` can legally move to `t`, a square strictly
/// between the king on `k` and the attacker on `a`, blocking the attack.
/// Kings do not interpose, and a pawn interposes only by its single
/// forward step.
pub open spec fn spec_interposes(
    board: Seq<ChessPiece>,
    def_white: bool,
    k: int,
    a: int,
    f: int,
    t: int,
) -> bool {
    &&& valid_sq(f)
    &&& valid_sq(t)
    &&& color_matches(board[f], def_white)
    &&& !is_king(board[f])
    &&& (is_pawn(board[f]) ==> file_of(t) == file_of(f) && rank_of(t) == rank_of(f) + pawn_dir(
        def_white,
    ))
    &&& between_sq(t, k, a)
    &&& spec_legal_move(board, def_white, f, t)
}

/// The defending piece on `f`, not a king, can legally move to `t`.  King
/// mobility is judged separately, square by square, by the escape check.
pub open spec fn spec_defender_move(
    board: Seq<ChessPiece>,
    def_white: bool,
    f: int,
    t: int,
) -> bool {
    &&& valid_sq(f)
    &&& valid_sq(t)
    &&& !is_king(board[f])
    &&& spec_legal_move(board, def_white, f, t)
}

/// Some defending piece other than the king has a legal move.
pub open spec fn spec_any_defender_move(board: Seq<ChessPiece>, def_white: bool) -> bool {
    exists|f: int, t: int| #[trigger] spec_defender_move(board, def_white, f, t)
}

/// Some defending piece can block the attack by interposition.
pub open spec fn spec_can_interpose(
    board: Seq<ChessPiece>,
    def_white: bool,
    k: int,
    a: int,
) -> bool {
    exists|f: int, t: int| #[trigger] spec_interposes(board, def_white, k, a, f, t)
}

/// The status of the position for the defender whose king stands on `k`:
/// with no attacker, stalemate when the king is trapped on its square and
/// no other defending piece has a legal move, else ongoing; with an
/// attacker, ongoing when the attacker can itself be captured or the
/// attack blocked by interposition, and checkmate otherwise — a knight's
/// or pawn's attack cannot be blocked at all.
pub open spec fn spec_evaluate(board: Seq<ChessPiece>, def_white: bool, k: int) -> ChessState {
    match spec_first_attacker(board, k, !def_white) {
        Option::None => {
            if spec_king_trapped(board, k, def_white) && !spec_any_defender_move(
                board,
                def_white,
            ) {
                ChessState::Stalemate
            } else {
                ChessState::On
            }
        },
        Option::Some(a) => {
            if under_attack(board, a, def_white) {
                ChessState::On
            } else if is_knight(board[a]) || is_pawn(board[a]) {
                ChessState::Checkmate
            } else if spec_can_interpose(board, def_white, k, a) {
                ChessState::On
            } else {
                ChessState::Checkmate
            }
        },
    }
}

/// Whether `p` lies strictly between `a` and `b` on a shared rank, file or
/// diagonal.
fn between_squares(p: u8, a: u8, b: u8) -> (r: bool)
    requires
        p < 64,
        a < 64,
        b < 64,
    ensures
        r == between_sq(p as int, a as int, b as int),
{
    let pp: ChessPos = ChessPos::from(p, false);
    let pa: ChessPos = ChessPos::from(a, false);
    let pb: ChessPos = ChessPos::from(b, false);
    pp.between(pa, pb, true)
}

/// Whether the king's neighbour at offset `(i, j)` offers no escape.
fn neighbor_unsafe(
    board: &Vec<ChessPiece>,
    kx: u8,
    ky: u8,
    i: i8,
    j: i8,
    def_white: bool,
) -> (r: bool)
    requires
        board@.len() == 64,
        kx < 8,
        ky < 8,
        -1 <= i <= 1,
        -1 <= j <= 1,
    ensures
        r == spec_neighbor_unsafe(board@, kx as int, ky as int, i as int, j as int, def_white),
{
    let x: i16 = kx as i16 + i as i16;
    let y: i16 = ky as i16 + j as i16;
    if x < 0 || x > 7 || y < 0 || y > 7 {
        return true;
    }
    proof {
        lemma_sq_compose(x as int, y as int);
    }
    let s: u8 = (y as u8) * 8 + (x as u8);
    let p: ChessPiece = board[s as usize];
    let friendly: bool = !p.is_empty() && (if def_white {
        p.is_white()
    } else {
        p.is_black()
    });
    if friendly {
        return true;
    }
    let threat: Option<u8> = square_under_attack(board, s, !def_white);
    threat.is_some()
}

/// Whether none of the eight squares around the king on `k` offers an
/// escape.
fn king_trapped(board: &Vec<ChessPiece>, k: u8, def_white: bool) -> (r: bool)
    requires
        board@.len() == 64,
        k < 64,
    ensures
        r == spec_king_trapped(board@, k as int, def_white),
{
    proof {
        lemma_sq_decompose(k as int);
    }
    let kx: u8 = k % 8;
    let ky: u8 = k / 8;
    let n1: bool = neighbor_unsafe(board, kx, ky, -1, -1, def_white);
    let n2: bool = neighbor_unsafe(board, kx, ky, -1, 0, def_white);
    let n3: bool = neighbor_unsafe(board, kx, ky, -1, 1, def_white);
    let n4: bool = neighbor_unsafe(board, kx, ky, 0, -1, def_white);
    let n5: bool = neighbor_unsafe(board, kx, ky, 0, 1, def_white);
    let n6: bool = neighbor_unsafe(board, kx, ky, 1, -1, def_white);
    let n7: bool = neighbor_unsafe(board, kx, ky, 1, 0, def_white);
    let n8: bool = neighbor_unsafe(board, kx, ky, 1, 1, def_white);
    let all: bool = n1 && n2 && n3 && n4 && n5 && n6 && n7 && n8;
    proof {
        if all {
            assert forall|i: int, j: int|
                -1 <= i <= 1 && -1 <= j <= 1 && !(i == 0 && j
                    == 0) implies #[trigger] spec_neighbor_unsafe(
                board@,
                file_of(k as int),
                rank_of(k as int),
                i,
                j,
                def_white,
            ) by {
                assert(kx as int == file_of(k as int) && ky as int == rank_of(k as int));
            }
        } else {
            if !n1 {
                assert(!spec_neighbor_unsafe(board@, kx as int, ky as int, -1, -1, def_white));
            } else if !n2 {
                assert(!spec_neighbor_unsafe(board@, kx as int, ky as int, -1, 0, def_white));
            } else if !n3 {
                assert(!spec_neighbor_unsafe(board@, kx as int, ky as int, -1, 1, def_white));
            } else if !n4 {
                assert(!spec_neighbor_unsafe(board@, kx as int, ky as int, 0, -1, def_white));
            } else if !n5 {
                assert(!spec_neighbor_unsafe(board@, kx as int, ky as int, 0, 1, def_white));
            } else if !n6 {
                assert(!spec_neighbor_unsafe(board@, kx as int, ky as int, 1, -1, def_white));
            } else if !n7 {
                assert(!spec_neighbor_unsafe(board@, kx as int, ky as int, 1, 0, def_white));
            } else {
                assert(!spec_neighbor_unsafe(board@, kx as int, ky as int, 1, 1, def_white));
            }
            assert(!spec_king_trapped(board@, k as int, def_white));
        }
    }
    all
}

/// Whether some defending piece other than the king has a legal move.
fn any_defender_move(board: &Vec<ChessPiece>, def_white: bool) -> (r: bool)
    requires
        board@.len() == 64,
    ensures
        r == spec_any_defender_move(board@, def_white),
{
    let mut f: u8 = 0;
    while f < 64
        invariant
            board@.len() == 64,
            f <= 64,
            forall|ff: int, tt: int|
                #[trigger] spec_defender_move(board@, def_white, ff, tt) ==> ff >= f,
        decreases 64 - f,
    {
        let p: ChessPiece = board[f as usize];
        if !(p == ChessPiece::WKing || p == ChessPiece::BKing) {
            let mut t: u8 = 0;
            while t < 64
                invariant
                    board@.len() == 64,
                    f < 64,
                    t <= 64,
                    !is_king(board@[f as int]),
                    forall|tt: int|
                        0 <= tt < t ==> !#[trigger] spec_defender_move(
                            board@,
                            def_white,
                            f as int,
                            tt,
                        ),
                decreases 64 - t,
            {
                if legal_move(board, def_white, f, t) {
                    proof {
                        assert(spec_defender_move(board@, def_white, f as int, t as int));
                    }
                    return true;
                }
                t = t + 1;
            }
        }
        proof {
            assert forall|ff: int, tt: int|
                #[trigger] spec_defender_move(board@, def_white, ff, tt) implies ff >= f + 1 by {
                if ff == f as int {
                    assert(!spec_defender_move(board@, def_white, f as int, tt));
                }
            }
        }
        f = f + 1;
    }
    proof {
        if spec_any_defender_move(board@, def_white) {
            let (ff, tt) = choose|ff: int, tt: int|
                #[trigger] spec_defender_move(board@, def_white, ff, tt);
        }
    }
    false
}

/// Whether some defending piece can legally move onto a square strictly
/// between the king on `ksq` and the attacker on `asq`.
fn can_block(board: &Vec<ChessPiece>, def_white: bool, ksq: u8, asq: u8) -> (r: bool)
    requires
        board@.len() == 64,
        ksq < 64,
        asq < 64,
    ensures
        r == spec_can_interpose(board@, def_white, ksq as int, asq as int),
{
    let ghost kk: int = ksq as int;
    let ghost aa: int = asq as int;
    let mut f: u8 = 0;
    while f < 64
        invariant
            board@.len() == 64,
            ksq < 64,
            asq < 64,
            f <= 64,
            kk == ksq as int,
            aa == asq as int,
            forall|ff: int, tt: int|
                #[trigger] spec_interposes(board@, def_white, kk, aa, ff, tt) ==> ff >= f,
        decreases 64 - f,
    {
        let p: ChessPiece = board[f as usize];
        let colored: bool = if def_white {
            p.is_white()
        } else {
            p.is_black()
        };
        let fits: bool = colored && !(p == ChessPiece::WKing || p == ChessPiece::BKing);
        if fits {
            if p == ChessPiece::WPawn || p == ChessPiece::BPawn {
                proof {
                    lemma_sq_decompose(f as int);
                }
                let fx: u8 = f % 8;
                let fy: u8 = f / 8;
                let ty: i16 = fy as i16 + (if def_white {
                    1
                } else {
                    -1
                });
                if 0 <= ty && ty <= 7 {
                    proof {
                        lemma_sq_compose(fx as int, ty as int);
                    }
                    let t: u8 = (ty as u8) * 8 + fx;
                    if between_squares(t, ksq, asq) && legal_move(board, def_white, f, t) {
                        proof {
                            assert(spec_interposes(board@, def_white, kk, aa, f as int, t as int));
                        }
                        return true;
                    }
                    proof {
                        assert forall|tt: int| !spec_interposes(
                            board@,
                            def_white,
                            kk,
                            aa,
                            f as int,
                            tt,
                        ) by {
                            if spec_interposes(board@, def_white, kk, aa, f as int, tt) {
                                lemma_sq_decompose(tt);
                                assert(tt == square_at(fx as int, ty as int));
                            }
                        }
                    }
                } else {
                    proof {
                        assert forall|tt: int| !spec_interposes(
                            board@,
                            def_white,
                            kk,
                            aa,
                            f as int,
                            tt,
                        ) by {
                            if spec_interposes(board@, def_white, kk, aa, f as int, tt) {
                                lemma_sq_decompose(tt);
                            }
                        }
                    }
                }
            } else {
                let mut t: u8 = 0;
                while t < 64
                    invariant
                        board@.len() == 64,
                        ksq < 64,
                        asq < 64,
                        f < 64,
                        t <= 64,
                        kk == ksq as int,
                        aa == asq as int,
                        color_matches(board@[f as int], def_white),
                        !is_king(board@[f as int]),
                        !is_pawn(board@[f as int]),
                        forall|tt: int|
                            0 <= tt < t ==> !#[trigger] spec_interposes(
                                board@,
                                def_white,
                                kk,
                                aa,
                                f as int,
                                tt,
                            ),
                    decreases 64 - t,
                {
                    if between_squares(t, ksq, asq) && legal_move(board, def_white, f, t) {
                        proof {
                            assert(spec_interposes(board@, def_white, kk, aa, f as int, t as int));
                        }
                        return true;
                    }
                    t = t + 1;
                }
            }
        }
        proof {
            assert forall|ff: int, tt: int|
                #[trigger] spec_interposes(board@, def_white, kk, aa, ff, tt) implies ff >= f + 1 by {
                if ff == f as int {
                    assert(!spec_interposes(board@, def_white, kk, aa, f as int, tt));
                }
            }
        }
        f = f + 1;
    }
    proof {
        if spec_can_interpose(board@, def_white, kk, aa) {
            let (ff, tt) = choose|ff: int, tt: int|
                #[trigger] spec_interposes(board@, def_white, kk, aa, ff, tt);
        }
    }
    false
}

/// Classifies the position for the defending side whose king stands on
/// `king_sq`: `Stalemate` when there is no check but the king is trapped
/// and no other defending piece can move, `Checkmate` when a check can
/// neither be answered by capturing the attacker nor blocked by
/// interposition, and `On` otherwise.
pub fn evaluate_status(board: &Vec<ChessPiece>, def_white: bool, king_sq: u8) -> (st: ChessState)
    requires
        board@.len() == 64,
        king_sq < 64,
    ensures
        st == spec_evaluate(board@, def_white, king_sq as int),
{
    let threat: Option<u8> = square_under_attack(board, king_sq, !def_white);
    match threat {
        Option::None => {
            if king_trapped(board, king_sq, def_white) && !any_defender_move(board, def_white) {
                ChessState::Stalemate
            } else {
                ChessState::On
            }
        },
        Option::Some(a) => {
            let counter: Option<u8> = square_under_attack(board, a, def_white);
            if counter.is_some() {
                ChessState::On
            } else {
                let p: ChessPiece = board[a as usize];
                if p == ChessPiece::WKnight || p == ChessPiece::BKnight || p == ChessPiece::WPawn
                    || p == ChessPiece::BPawn {
                    ChessState::Checkmate
                } else if can_block(board, def_white, king_sq, a) {
                    ChessState::On
                } else {
                    ChessState::Checkmate
                }
            }
        },
    }
}

} // verus!
