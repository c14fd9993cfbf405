//! The session controller: owns the 64-square board, the turn flag, the
//! cached king squares, the remaining-piece tally and the game state, and
//! applies moves through a single operation that validates, mutates,
//! re-evaluates the state and flips the turn.
use vstd::prelude::*;

use crate::geometry::{lemma_sq_decompose, rank_of, valid_sq};
use crate::moves::{legal_move, spec_legal_move};
use crate::piece::{
    bishop_of, king_of, knight_of, pawn_of, piece_index, queen_of, rook_of, spec_piece_index,
    ChessPiece, ChessPieceType, ChessState,
};
use crate::state::{evaluate_status, spec_evaluate};

verus! {

/// The mathematical model of a game session: the board as a sequence of
/// 64 cells, whose turn it is, the cached king squares, the configured
/// promotion piece, the game state, and the per-piece remaining count
/// indexed by `spec_piece_index`.
#[verifier::ext_equal]
pub ghost struct BoardState {
    pub board: Seq<ChessPiece>,
    pub white_turn: bool,
    pub w_king: int,
    pub b_king: int,
    pub promotion: ChessPieceType,
    pub state: ChessState,
    pub counts: Seq<u8>,
}

/// Well-formedness of a session model: the board holds 64 cells, the
/// tally 13 counters, the cached king squares are in range, and the
/// configured promotion piece is not a king.
pub open spec fn state_inv(s: BoardState) -> bool {
    &&& s.board.len() == 64
    &&& s.counts.len() == 13
    &&& valid_sq(s.w_king)
    &&& valid_sq(s.b_king)
    &&& s.promotion != ChessPieceType::King
}

/// The piece a pawn of the given colour turns into under the configured
/// promotion kind.  A `Pawn` configuration leaves the pawn as it is; a
/// `King` configuration is rejected by the session invariant and is given
/// the same harmless reading here only to keep the function total.
pub open spec fn spec_promoted(t: ChessPieceType, white: bool) -> ChessPiece {
    match t {
        ChessPieceType::Queen => queen_of(white),
        ChessPieceType::Rook => rook_of(white),
        ChessPieceType::Bishop => bishop_of(white),
        ChessPieceType::Knight => knight_of(white),
        ChessPieceType::Pawn => pawn_of(white),
        ChessPieceType::King => pawn_of(white),
    }
}

/// The tally after a capture of a piece with index `i`: that counter goes
/// down by one, stopping at zero.
pub open spec fn dec_sat(counts: Seq<u8>, i: int) -> Seq<u8> {
    counts.update(
        i,
        if counts[i] > 0 {
            (counts[i] - 1) as u8
        } else {
            0u8
        },
    )
}

/// The complete effect of one move request on a session.  A request while
/// the game is over, or one that the legality checker rejects, changes
/// nothing.  An accepted move empties the source square, places the moved
/// piece on the destination, substitutes the promotion piece when a pawn
/// reaches the far rank, decrements the tally of a captured piece,
/// refreshes the cached king squares, re-evaluates the game state for the
/// side about to move next, and flips the turn.
pub open spec fn spec_drag(s: BoardState, from: int, to: int) -> BoardState {
    if s.state != ChessState::On || !spec_legal_move(s.board, s.white_turn, from, to) {
        s
    } else {
        let from_el: ChessPiece = s.board[from];
        let to_el: ChessPiece = s.board[to];
        let moved: Seq<ChessPiece> = s.board.update(from, ChessPiece::Empty).update(to, from_el);
        let promoted: Seq<ChessPiece> = if from_el == ChessPiece::WPawn && rank_of(to) == 7 {
            moved.update(to, spec_promoted(s.promotion, true))
        } else if from_el == ChessPiece::BPawn && rank_of(to) == 0 {
            moved.update(to, spec_promoted(s.promotion, false))
        } else {
            moved
        };
        let counts: Seq<u8> = if to_el is Empty {
            s.counts
        } else {
            dec_sat(s.counts, spec_piece_index(to_el))
        };
        let wk: int = if from_el == ChessPiece::WKing {
            to
        } else {
            s.w_king
        };
        let bk: int = if from_el == ChessPiece::BKing {
            to
        } else {
            s.b_king
        };
        let def_white: bool = !s.white_turn;
        let ksq: int = if def_white {
            wk
        } else {
            bk
        };
        BoardState {
            board: promoted,
            white_turn: !s.white_turn,
            w_king: wk,
            b_king: bk,
            promotion: s.promotion,
            state: spec_evaluate(promoted, def_white, ksq),
            counts: counts,
        }
    }
}

/// The piece standing on square `s` in the standard starting position:
/// white's back rank and pawns on ranks 0 and 1, black's on ranks 7 and 6.
pub open spec fn init_piece_at(s: int) -> ChessPiece {
    let x: int = crate::geometry::file_of(s);
    let y: int = rank_of(s);
    if y == 1 {
        ChessPiece::WPawn
    } else if y == 6 {
        ChessPiece::BPawn
    } else if y == 0 || y == 7 {
        let white: bool = y == 0;
        if x == 0 || x == 7 {
            rook_of(white)
        } else if x == 1 || x == 6 {
            knight_of(white)
        } else if x == 2 || x == 5 {
            bishop_of(white)
        } else if x == 3 {
            queen_of(white)
        } else {
            king_of(white)
        }
    } else {
        ChessPiece::Empty
    }
}

/// The standard starting board.
pub open spec fn spec_init_board() -> Seq<ChessPiece> {
    Seq::new(64, |i: int| init_piece_at(i))
}

/// The starting remaining-piece tally, in `spec_piece_index` order: one
/// king, one queen, two rooks, two bishops, two knights and eight pawns
/// per side, and a zero for the empty cell.
pub open spec fn spec_init_counts() -> Seq<u8> {
    seq![0u8, 1u8, 1u8, 2u8, 2u8, 2u8, 8u8, 1u8, 1u8, 2u8, 2u8, 2u8, 8u8]
}

/// The freshly initialized session: the standard starting position, white
/// to move, the kings on their home squares, queen promotion, and the
/// game on.
pub open spec fn spec_init_session() -> BoardState {
    BoardState {
        board: spec_init_board(),
        white_turn: true,
        w_king: 4,
        b_king: 60,
        promotion: ChessPieceType::Queen,
        state: ChessState::On,
        counts: spec_init_counts(),
    }
}

/// The inverse of `spec_piece_index`.
pub open spec fn piece_of_index(i: int) -> ChessPiece {
    if i == 1 {
        ChessPiece::BKing
    } else if i == 2 {
        ChessPiece::BQueen
    } else if i == 3 {
        ChessPiece::BRook
    } else if i == 4 {
        ChessPiece::BBishop
    } else if i == 5 {
        ChessPiece::BKnight
    } else if i == 6 {
        ChessPiece::BPawn
    } else if i == 7 {
        ChessPiece::WKing
    } else if i == 8 {
        ChessPiece::WQueen
    } else if i == 9 {
        ChessPiece::WRook
    } else if i == 10 {
        ChessPiece::WBishop
    } else if i == 11 {
        ChessPiece::WKnight
    } else if i == 12 {
        ChessPiece::WPawn
    } else {
        ChessPiece::Empty
    }
}

/// How many of the first `n` squares of `board` hold the piece `p`.
pub open spec fn count_up_to(board: Seq<ChessPiece>, p: ChessPiece, n: int) -> int
    decreases n,
{
    if n <= 0 {
        0
    } else {
        count_up_to(board, p, n - 1) + if board[n - 1] == p {
            1int
        } else {
            0int
        }
    }
}

/// The remaining-piece tally read off a board by counting.
pub open spec fn spec_counted(board: Seq<ChessPiece>) -> Seq<u8> {
    Seq::new(13, |i: int| count_up_to(board, piece_of_index(i), 64) as u8)
}

proof fn lemma_count_bound(board: Seq<ChessPiece>, p: ChessPiece, n: int)
    ensures
        0 <= count_up_to(board, p, n) <= (if n >= 0 {
            n
        } else {
            0
        }),
    decreases n,
{
    if n > 0 {
        lemma_count_bound(board, p, n - 1);
    }
}

/// A game session: the sole owner of its board.  All mutation goes
/// through `drag`.
pub struct ChessBoard {
    board: Vec<ChessPiece>,
    white_to_move: bool,
    w_king: u8,
    b_king: u8,
    default_promotion: ChessPieceType,
    state: ChessState,
    piece_count: Vec<u8>,
}

impl View for ChessBoard {
    type V = BoardState;

    closed spec fn view(&self) -> BoardState {
        BoardState {
            board: self.board@,
            white_turn: self.white_to_move,
            w_king: self.w_king as int,
            b_king: self.b_king as int,
            promotion: self.default_promotion,
            state: self.state,
            counts: self.piece_count@,
        }
    }
}

impl ChessBoard {
    /// The session is well formed.
    pub open spec fn wf(&self) -> bool {
        state_inv(self@)
    }

    /// The piece of the standard starting position on square `s`.
    fn init_piece(s: u8) -> (p: ChessPiece)
        requires
            s < 64,
        ensures
            p == init_piece_at(s as int),
    {
        let x: u8 = s % 8;
        let y: u8 = s / 8;
        if y == 1 {
            ChessPiece::WPawn
        } else if y == 6 {
            ChessPiece::BPawn
        } else if y == 0 || y == 7 {
            let white: bool = y == 0;
            if x == 0 || x == 7 {
                if white {
                    ChessPiece::WRook
                } else {
                    ChessPiece::BRook
                }
            } else if x == 1 || x == 6 {
                if white {
                    ChessPiece::WKnight
                } else {
                    ChessPiece::BKnight
                }
            } else if x == 2 || x == 5 {
                if white {
                    ChessPiece::WBishop
                } else {
                    ChessPiece::BBishop
                }
            } else if x == 3 {
                if white {
                    ChessPiece::WQueen
                } else {
                    ChessPiece::BQueen
                }
            } else {
                if white {
                    ChessPiece::WKing
                } else {
                    ChessPiece::BKing
                }
            }
        } else {
            ChessPiece::Empty
        }
    }

    /// A new session holding the standard starting position, with white
    /// to move, the game on, and queen promotion configured.
    pub fn init_position() -> (r: ChessBoard)
        ensures
            r@ == spec_init_session(),
            r.wf(),
    {
        let mut board: Vec<ChessPiece> = Vec::new();
        let mut s: u8 = 0;
        while s < 64
            invariant
                board@.len() == s as int,
                s <= 64,
                forall|j: int| 0 <= j < s as int ==> board@[j] == init_piece_at(j),
            decreases 64 - s,
        {
            board.push(Self::init_piece(s));
            s = s + 1;
        }
        let mut piece_count: Vec<u8> = Vec::new();
        piece_count.push(0);
        piece_count.push(1);
        piece_count.push(1);
        piece_count.push(2);
        piece_count.push(2);
        piece_count.push(2);
        piece_count.push(8);
        piece_count.push(1);
        piece_count.push(1);
        piece_count.push(2);
        piece_count.push(2);
        piece_count.push(2);
        piece_count.push(8);
        let r = ChessBoard {
            board,
            white_to_move: true,
            w_king: 4,
            b_king: 60,
            default_promotion: ChessPieceType::Queen,
            state: ChessState::On,
            piece_count,
        };
        proof {
            assert(r@.board =~= spec_init_board());
            assert(r@.counts =~= spec_init_counts());
            assert(r@ =~= spec_init_session());
        }
        r
    }

    /// A session built from an arbitrary position: the board must hold 64
    /// cells with the two kings standing on the named squares.  The game
    /// starts on, with queen promotion and the tally counted off the
    /// board.
    pub fn from_position(
        board: Vec<ChessPiece>,
        white_turn: bool,
        w_king: u8,
        b_king: u8,
    ) -> (r: Option<ChessBoard>)
        ensures
            (r is Some) == (board@.len() == 64 && w_king < 64 && b_king < 64 && board@[
                w_king as int
            ] == ChessPiece::WKing && board@[b_king as int] == ChessPiece::BKing),
            r matches Some(cb) ==> cb@ == (BoardState {
                board: board@,
                white_turn: white_turn,
                w_king: w_king as int,
                b_king: b_king as int,
                promotion: ChessPieceType::Queen,
                state: ChessState::On,
                counts: spec_counted(board@),
            }) && cb.wf(),
    {
        if board.len() != 64 {
            return None;
        }
        if w_king >= 64 || b_king >= 64 {
            return None;
        }
        if !(board[w_king as usize] == ChessPiece::WKing && board[b_king as usize]
            == ChessPiece::BKing) {
            return None;
        }
        let mut piece_count: Vec<u8> = Vec::new();
        let mut i: u8 = 0;
        while i < 13
            invariant
                piece_count@.len() == i as int,
                i <= 13,
                forall|j: int| 0 <= j < i as int ==> piece_count@[j] == 0,
            decreases 13 - i,
        {
            piece_count.push(0);
            i = i + 1;
        }
        let mut s: u8 = 0;
        while s < 64
            invariant
                board@.len() == 64,
                piece_count@.len() == 13,
                s <= 64,
                forall|j: int|
                    0 <= j < 13 ==> piece_count@[j] == count_up_to(
                        board@,
                        #[trigger] piece_of_index(j),
                        s as int,
                    ),
            decreases 64 - s,
        {
            let idx: usize = piece_index(board[s as usize]);
            proof {
                lemma_count_bound(board@, piece_of_index(idx as int), s as int);
                assert(piece_of_index(spec_piece_index(board@[s as int])) == board@[s as int]);
            }
            let c: u8 = piece_count[idx];
            piece_count.set(idx, c + 1);
            proof {
                assert forall|j: int|
                    0 <= j < 13 implies piece_count@[j] == count_up_to(
                    board@,
                    #[trigger] piece_of_index(j),
                    s as int + 1,
                ) by {
                    if j != idx as int {
                        assert(piece_of_index(j) != board@[s as int]);
                    }
                }
            }
            s = s + 1;
        }
        let r = ChessBoard {
            board,
            white_to_move: white_turn,
            w_king,
            b_king,
            default_promotion: ChessPieceType::Queen,
            state: ChessState::On,
            piece_count,
        };
        proof {
            assert(r@.counts =~= spec_counted(r@.board));
        }
        Some(r)
    }

    /// The current game state.
    pub fn get_state(&self) -> (st: ChessState)
        ensures
            st == self@.state,
    {
        self.state
    }

    /// A read-only copy of the 64-cell board.
    pub fn get_board(&self) -> (b: Vec<ChessPiece>)
        requires
            self.wf(),
        ensures
            b@ == self@.board,
    {
        let mut b: Vec<ChessPiece> = Vec::new();
        let mut s: u8 = 0;
        while s < 64
            invariant
                self.wf(),
                b@.len() == s as int,
                s <= 64,
                forall|j: int| 0 <= j < s as int ==> b@[j] == self@.board[j],
            decreases 64 - s,
        {
            b.push(self.board[s as usize]);
            s = s + 1;
        }
        proof {
            assert(b@ =~= self@.board);
        }
        b
    }

    /// Whether it is white's turn to move.
    pub fn white_turn(&self) -> (r: bool)
        ensures
            r == self@.white_turn,
    {
        self.white_to_move
    }

    /// The piece standing on the given square.
    pub fn get_piece(&self, coords: u8) -> (p: ChessPiece)
        requires
            self.wf(),
            coords < 64,
        ensures
            p == self@.board[coords as int],
    {
        self.board[coords as usize]
    }

    /// Whether the pending move would be answerable by a promotion
    /// choice: a pawn moving onto an empty square of the far rank.  A
    /// caller wanting to offer the choice asks this before `drag`; the
    /// engine itself always substitutes the configured default piece.
    pub fn promotion_check(&self, from: u8, to: u8) -> (r: bool)
        requires
            self.wf(),
            from < 64,
            to < 64,
        ensures
            r == (self@.board[to as int] is Empty && ((self@.board[from as int]
                == ChessPiece::WPawn && rank_of(to as int) == 7) || (self@.board[from as int]
                == ChessPiece::BPawn && rank_of(to as int) == 0))),
    {
        let from_el: ChessPiece = self.board[from as usize];
        let to_el: ChessPiece = self.board[to as usize];
        if !to_el.is_empty() {
            return false;
        }
        let case1: bool = from_el == ChessPiece::WPawn && to / 8 == 7;
        let case2: bool = from_el == ChessPiece::BPawn && to / 8 == 0;
        case1 || case2
    }

    /// Applies the move request `from -> to`: exactly the transition
    /// `spec_drag` describes.  A request while the game is over, or an
    /// illegal one, is silently ignored; an accepted move mutates the
    /// board, the tally and the king caches, re-evaluates the game state
    /// for the side about to move next, and flips the turn.
    pub fn drag(&mut self, from: u8, to: u8)
        requires
            old(self).wf(),
            from < 64,
            to < 64,
        ensures
            final(self)@ == spec_drag(old(self)@, from as int, to as int),
            final(self).wf(),
    {
        if !(self.state == ChessState::On) {
            return;
        }
        if !legal_move(&self.board, self.white_to_move, from, to) {
            return;
        }
        let from_el: ChessPiece = self.board[from as usize];
        let to_el: ChessPiece = self.board[to as usize];
        self.board.set(from as usize, ChessPiece::Empty);
        self.board.set(to as usize, from_el);
        if !to_el.is_empty() {
            let idx: usize = piece_index(to_el);
            let c: u8 = self.piece_count[idx];
            if c > 0 {
                self.piece_count.set(idx, c - 1);
            }
        }
        if from_el == ChessPiece::WPawn && to / 8 == 7 {
            match self.default_promotion {
                ChessPieceType::King => {},
                ChessPieceType::Queen => self.board.set(to as usize, ChessPiece::WQueen),
                ChessPieceType::Rook => self.board.set(to as usize, ChessPiece::WRook),
                ChessPieceType::Bishop => self.board.set(to as usize, ChessPiece::WBishop),
                ChessPieceType::Knight => self.board.set(to as usize, ChessPiece::WKnight),
                ChessPieceType::Pawn => {},
            }
        }
        if from_el == ChessPiece::BPawn && to / 8 == 0 {
            match self.default_promotion {
                ChessPieceType::King => {},
                ChessPieceType::Queen => self.board.set(to as usize, ChessPiece::BQueen),
                ChessPieceType::Rook => self.board.set(to as usize, ChessPiece::BRook),
                ChessPieceType::Bishop => self.board.set(to as usize, ChessPiece::BBishop),
                ChessPieceType::Knight => self.board.set(to as usize, ChessPiece::BKnight),
                ChessPieceType::Pawn => {},
            }
        }
        if from_el == ChessPiece::WKing {
            self.w_king = to;
        }
        if from_el == ChessPiece::BKing {
            self.b_king = to;
        }
        let def_white: bool = !self.white_to_move;
        let king_sq: u8 = if def_white {
            self.w_king
        } else {
            self.b_king
        };
        let st: ChessState = evaluate_status(&self.board, def_white, king_sq);
        self.state = st;
        self.white_to_move = !self.white_to_move;
        proof {
            assert(self@.board =~= spec_drag(old(self)@, from as int, to as int).board);
            assert(self@.counts =~= spec_drag(old(self)@, from as int, to as int).counts);
            assert(self@ =~= spec_drag(old(self)@, from as int, to as int));
        }
    }
}

/// A request made after the game has ended, or one the legality checker
/// rejects, leaves the whole session unchanged.
pub proof fn lemma_rejected_drag_unchanged(s: BoardState, from: int, to: int)
    requires
        s.state != ChessState::On || !spec_legal_move(s.board, s.white_turn, from, to),
    ensures
        spec_drag(s, from, to) == s,
{
}

/// An accepted move flips the turn exactly once, empties the source
/// square, and places the moved piece on the destination (substituted by
/// the promotion rule when a pawn reaches the far rank).
pub proof fn lemma_accepted_drag_effects(s: BoardState, from: int, to: int)
    requires
        state_inv(s),
        s.state == ChessState::On,
        spec_legal_move(s.board, s.white_turn, from, to),
    ensures
        spec_drag(s, from, to).white_turn == !s.white_turn,
        spec_drag(s, from, to).board[from] is Empty,
        (!(s.board[from] == ChessPiece::WPawn && rank_of(to) == 7) && !(s.board[from]
            == ChessPiece::BPawn && rank_of(to) == 0)) ==> spec_drag(s, from, to).board[to]
            == s.board[from],
{
}

/// Each cached king square holds its king.
pub open spec fn kings_synced(s: BoardState) -> bool {
    &&& s.board[s.w_king] == ChessPiece::WKing
    &&& s.board[s.b_king] == ChessPiece::BKing
}

/// As long as no king is captured, the cached king squares stay in sync
/// with the board across every move request.
pub proof fn lemma_kings_stay_synced(s: BoardState, from: int, to: int)
    requires
        state_inv(s),
        kings_synced(s),
        valid_sq(from),
        valid_sq(to),
        !crate::piece::is_king(s.board[to]),
    ensures
        kings_synced(spec_drag(s, from, to)),
{
    if s.state == ChessState::On && spec_legal_move(s.board, s.white_turn, from, to) {
        let r = spec_drag(s, from, to);
        assert(s.board[s.w_king] != s.board[s.b_king]);
        if s.board[from] == ChessPiece::WKing {
            assert(r.board[r.w_king] == ChessPiece::WKing);
            assert(s.b_king != from && s.b_king != to);
            assert(r.board[r.b_king] == ChessPiece::BKing);
        } else if s.board[from] == ChessPiece::BKing {
            assert(r.board[r.b_king] == ChessPiece::BKing);
            assert(s.w_king != from && s.w_king != to);
            assert(r.board[r.w_king] == ChessPiece::WKing);
        } else {
            assert(s.w_king != from && s.w_king != to);
            assert(s.b_king != from && s.b_king != to);
        }
    }
}

} // verus!
