//! Board positions as (file, rank) pairs, conversions to and from linear
//! square indices, and the strict betweenness test used by the pathway
//! checker and the interposition search.
use vstd::prelude::*;

use crate::geometry::{
    between_xy, colinear_xy, file_of, rank_of, square_at, strict_mid, valid_sq,
};
use crate::geometry::{lemma_between_endpoints, lemma_between_needs_colinear, lemma_between_sym};

verus! {

/// A position on (or, when bounds are bypassed, off) the 8x8 board,
/// as a file `x` and a rank `y`.
#[derive(Debug, Clone, Copy, PartialEq, Eq, Structural)]
pub struct ChessPos {
    pub x: u8,
    pub y: u8,
}

impl ChessPos {
    /// Splits a linear square index into its file and rank.  An index
    /// beyond 63 is a caller error unless `ignore_bounds` explicitly
    /// bypasses the range check.
    pub fn from(pos: u8, ignore_bounds: bool) -> (r: ChessPos)
        requires
            ignore_bounds || pos <= 63,
        ensures
            r.x as int == (pos as int) % 8,
            r.y as int == (pos as int) / 8,
    {
        ChessPos { x: pos % 8, y: pos / 8 }
    }

    /// The linear square index of this position.  The index must fit the
    /// return type; every on-board position does, as does every position
    /// produced by `from`.
    pub fn raw(self) -> (r: u8)
        requires
            square_at(self.x as int, self.y as int) <= 255,
        ensures
            r as int == square_at(self.x as int, self.y as int),
    {
        self.y * 8 + self.x
    }

    /// The linear square index of a (file, rank) pair; both coordinates
    /// must lie on the board.
    pub fn conv(x: u8, y: u8) -> (r: u8)
        requires
            x <= 7,
            y <= 7,
        ensures
            r as int == square_at(x as int, y as int),
            r < 64,
    {
        y * 8 + x
    }

    /// Whether this position lies strictly inside the open segment from
    /// `a` to `b`.  The endpoints must be colinear along a rank, file or
    /// diagonal; a non-colinear pair is a caller error unless
    /// `ignore_shape` asks for a plain `false` instead.
    pub fn between(&self, a: ChessPos, b: ChessPos, ignore_shape: bool) -> (r: bool)
        requires
            ignore_shape || colinear_xy(a.x as int, a.y as int, b.x as int, b.y as int),
        ensures
            r == between_xy(
                self.x as int,
                self.y as int,
                a.x as int,
                a.y as int,
                b.x as int,
                b.y as int,
            ),
    {
        let dx: u8 = if a.x >= b.x {
            a.x - b.x
        } else {
            b.x - a.x
        };
        let dy: u8 = if a.y >= b.y {
            a.y - b.y
        } else {
            b.y - a.y
        };
        let hor: bool = a.y == b.y && self.y == a.y && Self::mid(self.x, a.x, b.x);
        let ver: bool = a.x == b.x && self.x == a.x && Self::mid(self.y, a.y, b.y);
        let dax: u8 = if a.x >= self.x {
            a.x - self.x
        } else {
            self.x - a.x
        };
        let day: u8 = if a.y >= self.y {
            a.y - self.y
        } else {
            self.y - a.y
        };
        let dbx: u8 = if b.x >= self.x {
            b.x - self.x
        } else {
            self.x - b.x
        };
        let dby: u8 = if b.y >= self.y {
            b.y - self.y
        } else {
            self.y - b.y
        };
        let dia: bool = dx == dy && dax == day && dbx == dby && Self::mid(self.x, a.x, b.x)
            && Self::mid(self.y, a.y, b.y);
        hor || ver || dia
    }

    /// Strictly inside the open interval with endpoints `a` and `b`.
    fn mid(x: u8, a: u8, b: u8) -> (r: bool)
        ensures
            r == strict_mid(x as int, a as int, b as int),
    {
        (a < x && x < b) || (b < x && x < a)
    }
}

/// Splitting a square index into file and rank and recombining them gives
/// the index back.
pub proof fn lemma_square_roundtrip(s: int)
    requires
        valid_sq(s),
    ensures
        square_at(file_of(s), rank_of(s)) == s,
        0 <= file_of(s) <= 7,
        0 <= rank_of(s) <= 7,
{
}

/// The betweenness laws: the relation is symmetric in its endpoints, the
/// endpoints themselves never qualify, and a pair of endpoints that shares
/// no rank, file or diagonal admits no point between them.
pub proof fn lemma_between_laws(p: ChessPos, a: ChessPos, b: ChessPos)
    ensures
        between_xy(p.x as int, p.y as int, a.x as int, a.y as int, b.x as int, b.y as int)
            == between_xy(p.x as int, p.y as int, b.x as int, b.y as int, a.x as int, a.y as int),
        !between_xy(a.x as int, a.y as int, a.x as int, a.y as int, b.x as int, b.y as int),
        !between_xy(b.x as int, b.y as int, a.x as int, a.y as int, b.x as int, b.y as int),
        !colinear_xy(a.x as int, a.y as int, b.x as int, b.y as int) ==> !between_xy(
            p.x as int,
            p.y as int,
            a.x as int,
            a.y as int,
            b.x as int,
            b.y as int,
        ),
{
    lemma_between_sym(p.x as int, p.y as int, a.x as int, a.y as int, b.x as int, b.y as int);
    lemma_between_endpoints(a.x as int, a.y as int, b.x as int, b.y as int);
    lemma_between_needs_colinear(
        p.x as int,
        p.y as int,
        a.x as int,
        a.y as int,
        b.x as int,
        b.y as int,
    );
}

} // verus!
