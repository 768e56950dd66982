use vstd::prelude::*;
use crate::board::{Board, Square};
use crate::path::{
    abs, aligned, all_empty, diagonal, horizontal, is_diagonal, is_horizontal, is_vertical, on_board,
    path, vertical,
};

verus! {

/// The two sides.
#[derive(Copy, Clone, Debug, PartialEq, Eq, Structural)]
pub enum Color {
    White,
    Black,
}

/// The six kinds of chess piece.
#[derive(Copy, Clone, Debug, PartialEq, Eq, Structural)]
pub enum PieceType {
    Pawn,
    Rook,
    Knight,
    Bishop,
    Queen,
    King,
}

/// A piece: its kind and the side it belongs to.
#[derive(Copy, Clone, Debug, PartialEq, Eq, Structural)]
pub struct Piece(pub PieceType, pub Color);

pub open spec fn other_color(c: Color) -> Color {
    match c {
        Color::White => Color::Black,
        Color::Black => Color::White,
    }
}

impl Color {
    /// The opposing side.
    pub fn other(&self) -> (r: Color)
        ensures
            r == other_color(*self),
            r != *self,
    {
        match self {
            Color::White => Color::Black,
            Color::Black => Color::White,
        }
    }
}

/// The one message for a move that the piece's own movement rules forbid.
pub open spec fn invalid_move_text() -> Seq<char> {
    "Invalid move."@
}

/// Whether the squares between `from` and `to` are empty.
pub open spec fn clear_between(b: Board, from: Square, to: Square) -> bool {
    all_empty(b, path(from, to).unwrap())
}

/// The movement rule of piece `p` from `from` to `to` on `b`, with check and pins left aside.
pub open spec fn moves_like(p: Piece, b: Board, from: Square, to: Square) -> bool {
    let dr = to.0 - from.0;
    let dc = to.1 - from.1;
    let empty = b.at(to.0 as int, to.1 as int) is None;
    match p {
        Piece(PieceType::Pawn, Color::White) => if empty {
            (dc == 0 && dr == 1) || (dc == 0 && from.0 == 1 && dr == 2)
        } else {
            abs(dc) == 1 && dr == 1
        },
        Piece(PieceType::Pawn, Color::Black) => if empty {
            (dc == 0 && dr == -1) || (dc == 0 && from.0 == 6 && dr == -2)
        } else {
            abs(dc) == 1 && dr == -1
        },
        Piece(PieceType::Rook, _) => (horizontal(from, to) || vertical(from, to)) && clear_between(
            b,
            from,
            to,
        ),
        Piece(PieceType::Bishop, _) => diagonal(from, to) && clear_between(b, from, to),
        Piece(PieceType::Queen, _) => aligned(from, to) && clear_between(b, from, to),
        Piece(PieceType::Knight, _) => (abs(dr) == 2 && abs(dc) == 1) || (abs(dr) == 1 && abs(dc)
            == 2),
        Piece(PieceType::King, _) => abs(dr) <= 1 && abs(dc) <= 1 && (dr != 0 || dc != 0),
    }
}

/// Rooks, bishops and queens move along lines, which need two distinct ends.
pub open spec fn slides(t: PieceType) -> bool {
    t == PieceType::Rook || t == PieceType::Bishop || t == PieceType::Queen
}

impl Piece {
    pub fn piece_type(&self) -> (r: PieceType)
        ensures
            r == self.0,
    {
        self.0
    }

    pub fn color(&self) -> (r: Color)
        ensures
            r == self.1,
    {
        self.1
    }

    /// Whether the movement rules of this piece allow `from` to `to` on `board`.
    pub fn can_move(&self, board: &Board, from: Square, to: Square) -> (r: Result<(), String>)
        requires
            on_board(from),
            on_board(to),
            slides(self.0) ==> from != to,
        ensures
            r is Ok <==> moves_like(*self, *board, from, to),
            r matches Err(e) ==> e@ == invalid_move_text(),
    {
        let capturing_piece = board.get(to);
        let dr: isize = to.0 - from.0;
        let dc: isize = to.1 - from.1;
        let adr: isize = if dr < 0 { -dr } else { dr };
        let adc: isize = if dc < 0 { -dc } else { dc };
        let ok = match self {
            Piece(PieceType::Pawn, Color::White) => {
                if capturing_piece.is_none() {
                    (dc == 0 && dr == 1) || (dc == 0 && from.0 == 1 && dr == 2)
                } else {
                    adc == 1 && dr == 1
                }
            },
            Piece(PieceType::Pawn, Color::Black) => {
                if capturing_piece.is_none() {
                    (dc == 0 && dr == -1) || (dc == 0 && from.0 == 6 && dr == -2)
                } else {
                    adc == 1 && dr == -1
                }
            },
            Piece(PieceType::Rook, _) => {
                (is_horizontal(from, to) && board.clear_path(from, to)) || (is_vertical(from, to)
                    && board.clear_path(from, to))
            },
            Piece(PieceType::Bishop, _) => is_diagonal(from, to) && board.clear_path(from, to),
            Piece(PieceType::Queen, _) => {
                (is_diagonal(from, to) && board.clear_path(from, to)) || (is_vertical(from, to)
                    && board.clear_path(from, to)) || (is_horizontal(from, to) && board.clear_path(
                    from,
                    to,
                ))
            },
            Piece(PieceType::Knight, _) => (adr == 2 && adc == 1) || (adr == 1 && adc == 2),
            Piece(PieceType::King, _) => adr <= 1 && adc <= 1 && (dr != 0 || dc != 0),
        };
        if ok {
            Ok(())
        } else {
            Err("Invalid move.".to_owned())
        }
    }

    pub fn is_king(&self) -> (r: bool)
        ensures
            r == (self.0 == PieceType::King),
    {
        self.0 == PieceType::King
    }
}

} // verus!
