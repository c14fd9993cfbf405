//! The piece model: a closed enumeration of the thirteen board-cell values
//! (empty plus six piece kinds per colour), with the colour, emptiness and
//! enmity predicates the rest of the engine is phrased in.
use vstd::prelude::*;

verus! {

/// A piece kind without a colour; used to configure the promotion piece.
#[derive(Debug, Clone, Copy, PartialEq, Eq, Structural)]
pub enum ChessPieceType {
    King,
    Queen,
    Rook,
    Bishop,
    Knight,
    Pawn,
}

/// A board cell: empty, or a piece of one of the two colours.
#[derive(Debug, Clone, Copy, PartialEq, Eq, Hash, Structural)]
pub enum ChessPiece {
    Empty,
    BKing,
    BQueen,
    BRook,
    BBishop,
    BKnight,
    BPawn,
    WKing,
    WQueen,
    WRook,
    WBishop,
    WKnight,
    WPawn,
}

/// The three movement shapes the pathway checker understands.
#[derive(Debug, Clone, Copy, PartialEq, Eq, Structural)]
pub enum ChessPathway {
    Diagonal,
    Straight,
    Gamma,
}

/// The state of a game session.
#[derive(Debug, Clone, Copy, PartialEq, Eq, Structural)]
pub enum ChessState {
    On,
    Stalemate,
    Checkmate,
    Aborted,
}

pub open spec fn spec_is_white(p: ChessPiece) -> bool {
    match p {
        ChessPiece::WKing
        | ChessPiece::WQueen
        | ChessPiece::WRook
        | ChessPiece::WBishop
        | ChessPiece::WKnight
        | ChessPiece::WPawn => true,
        _ => false,
    }
}

pub open spec fn spec_is_black(p: ChessPiece) -> bool {
    match p {
        ChessPiece::BKing
        | ChessPiece::BQueen
        | ChessPiece::BRook
        | ChessPiece::BBishop
        | ChessPiece::BKnight
        | ChessPiece::BPawn => true,
        _ => false,
    }
}

/// The piece belongs to the side given by `white`.
pub open spec fn color_matches(p: ChessPiece, white: bool) -> bool {
    if white {
        spec_is_white(p)
    } else {
        spec_is_black(p)
    }
}

/// `target` may be entered by `p`: it is empty, or the two are pieces of
/// opposite colours.  An empty target counting as "enemy" is the capture
/// compatibility shortcut used throughout the move rules; callers that mean
/// literal vacancy test emptiness separately.
pub open spec fn spec_is_enemy(p: ChessPiece, target: ChessPiece) -> bool {
    ||| target is Empty
    ||| (spec_is_black(p) && spec_is_white(target))
    ||| (spec_is_white(p) && spec_is_black(target))
}

pub open spec fn is_king(p: ChessPiece) -> bool {
    p is BKing || p is WKing
}

pub open spec fn is_pawn(p: ChessPiece) -> bool {
    p is BPawn || p is WPawn
}

pub open spec fn is_knight(p: ChessPiece) -> bool {
    p is BKnight || p is WKnight
}

pub open spec fn king_of(white: bool) -> ChessPiece {
    if white {
        ChessPiece::WKing
    } else {
        ChessPiece::BKing
    }
}

pub open spec fn queen_of(white: bool) -> ChessPiece {
    if white {
        ChessPiece::WQueen
    } else {
        ChessPiece::BQueen
    }
}

pub open spec fn rook_of(white: bool) -> ChessPiece {
    if white {
        ChessPiece::WRook
    } else {
        ChessPiece::BRook
    }
}

pub open spec fn bishop_of(white: bool) -> ChessPiece {
    if white {
        ChessPiece::WBishop
    } else {
        ChessPiece::BBishop
    }
}

pub open spec fn knight_of(white: bool) -> ChessPiece {
    if white {
        ChessPiece::WKnight
    } else {
        ChessPiece::BKnight
    }
}

pub open spec fn pawn_of(white: bool) -> ChessPiece {
    if white {
        ChessPiece::WPawn
    } else {
        ChessPiece::BPawn
    }
}

/// The rank direction a pawn of the given colour advances in.
pub open spec fn pawn_dir(white: bool) -> int {
    if white {
        1
    } else {
        -1
    }
}

/// A stable index for each of the thirteen cell values; used to key the
/// per-piece remaining-count table.
pub open spec fn spec_piece_index(p: ChessPiece) -> int {
    match p {
        ChessPiece::Empty => 0,
        ChessPiece::BKing => 1,
        ChessPiece::BQueen => 2,
        ChessPiece::BRook => 3,
        ChessPiece::BBishop => 4,
        ChessPiece::BKnight => 5,
        ChessPiece::BPawn => 6,
        ChessPiece::WKing => 7,
        ChessPiece::WQueen => 8,
        ChessPiece::WRook => 9,
        ChessPiece::WBishop => 10,
        ChessPiece::WKnight => 11,
        ChessPiece::WPawn => 12,
    }
}

impl ChessPiece {
    pub fn is_white(self) -> (r: bool)
        ensures
            r == spec_is_white(self),
    {
        match self {
            ChessPiece::WKing
            | ChessPiece::WQueen
            | ChessPiece::WRook
            | ChessPiece::WBishop
            | ChessPiece::WKnight
            | ChessPiece::WPawn => true,
            _ => false,
        }
    }

    pub fn is_black(self) -> (r: bool)
        ensures
            r == spec_is_black(self),
    {
        match self {
            ChessPiece::BKing
            | ChessPiece::BQueen
            | ChessPiece::BRook
            | ChessPiece::BBishop
            | ChessPiece::BKnight
            | ChessPiece::BPawn => true,
            _ => false,
        }
    }

    pub fn is_empty(self) -> (r: bool)
        ensures
            r == (self is Empty),
    {
        self == ChessPiece::Empty
    }

    pub fn is_enemy_to(self, target: ChessPiece) -> (r: bool)
        ensures
            r == spec_is_enemy(self, target),
    {
        let case1: bool = target.is_empty();
        let case2: bool = self.is_black() && target.is_white();
        let case3: bool = self.is_white() && target.is_black();
        case1 || case2 || case3
    }
}

/// The index of each cell value, for the remaining-count table.
pub fn piece_index(p: ChessPiece) -> (r: usize)
    ensures
        r == spec_piece_index(p),
        r < 13,
{
    match p {
        ChessPiece::Empty => 0,
        ChessPiece::BKing => 1,
        ChessPiece::BQueen => 2,
        ChessPiece::BRook => 3,
        ChessPiece::BBishop => 4,
        ChessPiece::BKnight => 5,
        ChessPiece::BPawn => 6,
        ChessPiece::WKing => 7,
        ChessPiece::WQueen => 8,
        ChessPiece::WRook => 9,
        ChessPiece::WBishop => 10,
        ChessPiece::WKnight => 11,
        ChessPiece::WPawn => 12,
    }
}

/// The enmity laws: an empty target is enemy to every piece, no non-empty
/// piece is its own enemy, and pieces of opposite colours are enemies in
/// both directions.
pub proof fn lemma_enemy_laws()
    ensures
        forall|p: ChessPiece| #[trigger] spec_is_enemy(p, ChessPiece::Empty),
        forall|p: ChessPiece| !(p is Empty) ==> !#[trigger] spec_is_enemy(p, p),
        forall|p: ChessPiece, q: ChessPiece|
            spec_is_white(p) && spec_is_black(q) ==> #[trigger] spec_is_enemy(p, q)
                && #[trigger] spec_is_enemy(q, p),
{
}

} // verus!
