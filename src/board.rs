use vstd::prelude::*;
use crate::check::{all_on_board, attackers, lemma_attackers_on_board, pin, side};
use crate::path::{direction, in_bounds, on_board, path, Direction};
use crate::piece::{moves_like, other_color, Color, Piece, PieceType};
use crate::text::{decimal, push_decimal, push_str, string_of};

verus! {

/// A square as (row, column); on the board when both lie in 0..8.
pub type Square = (isize, isize);

/// A position: the 8x8 grid, the side to move and the turn counter.
#[derive(Copy, Clone)]
pub struct Board {
    data: [[Option<Piece>; 8]; 8],
    player: Color,
    turn_no: u8,
}

/// The square with row-major index `i` (0..64).
pub open spec fn square_at(i: int) -> Square {
    ((i / 8) as isize, (i % 8) as isize)
}

/// The first square, in row-major order from index `i`, that holds the king of side `c`.
pub open spec fn king_from(b: Board, c: Color, i: int) -> Option<Square>
    decreases 64 - i,
{
    if i < 0 || i >= 64 {
        None
    } else if b.at(i / 8, i % 8) == Some(Piece(PieceType::King, c)) {
        Some(square_at(i))
    } else {
        king_from(b, c, i + 1)
    }
}

/// Where the king of side `c` stands (the first one in row-major order).
pub open spec fn king_square(b: Board, c: Color) -> Option<Square> {
    king_from(b, c, 0)
}

/// The square `s` holds a piece of side `c`.
pub open spec fn owns(b: Board, s: Square, c: Color) -> bool {
    on_board(s) && (b.at(s.0 as int, s.1 as int) matches Some(p) && p.1 == c)
}

/// All 64 squares in row-major order.
pub open spec fn all_squares() -> Seq<Square> {
    Seq::new(64, |i: int| square_at(i))
}

/// The squares holding pieces of side `c`, in row-major order.
pub open spec fn owned_squares(b: Board, c: Color) -> Seq<Square> {
    all_squares().filter(|s: Square| owns(b, s, c))
}

/// What the back rank holds in column `c` at the start of a game.
pub open spec fn back_rank(c: int) -> PieceType {
    if c == 0 || c == 7 {
        PieceType::Rook
    } else if c == 1 || c == 6 {
        PieceType::Knight
    } else if c == 2 || c == 5 {
        PieceType::Bishop
    } else if c == 3 {
        PieceType::Queen
    } else {
        PieceType::King
    }
}

/// The standard starting layout.
pub open spec fn initial_at(r: int, c: int) -> Option<Piece> {
    if r == 0 {
        Some(Piece(back_rank(c), Color::White))
    } else if r == 1 {
        Some(Piece(PieceType::Pawn, Color::White))
    } else if r == 6 {
        Some(Piece(PieceType::Pawn, Color::Black))
    } else if r == 7 {
        Some(Piece(back_rank(c), Color::Black))
    } else {
        None
    }
}

/// What lands on `to` when `p` moves there: a pawn reaching the far row becomes a queen.
pub open spec fn promoted(p: Option<Piece>, to: Square) -> Option<Piece> {
    match p {
        Some(Piece(PieceType::Pawn, Color::White)) if to.0 == 7 => Some(
            Piece(PieceType::Queen, Color::White),
        ),
        Some(Piece(PieceType::Pawn, Color::Black)) if to.0 == 0 => Some(
            Piece(PieceType::Queen, Color::Black),
        ),
        _ => p,
    }
}

/// The message for a square off the board, counting rows and columns from 1.
pub open spec fn out_of_bounds_text(s: Square) -> Seq<char> {
    decimal(s.0 + 1) + " "@ + decimal(s.1 + 1) + " is out of bounds."@
}

/// An outcome with the error message as its characters.
pub open spec fn verdict(r: Result<(), String>) -> Result<(), Seq<char>> {
    match r {
        Ok(_) => Ok(()),
        Err(e) => Err(e@),
    }
}

/// Whether side `c` may pick up the piece on `from`.
pub open spec fn from_verdict(b: Board, from: Square, c: Color) -> Result<(), Seq<char>> {
    if !on_board(from) {
        Err(out_of_bounds_text(from))
    } else if b.at(from.0 as int, from.1 as int) is None {
        Err("No piece exists in this location."@)
    } else if b.at(from.0 as int, from.1 as int).unwrap().1 != c {
        Err("This piece does not belong to you."@)
    } else {
        Ok(())
    }
}

/// Some attacker of the king on `from` lies on the line the king moves along.
pub open spec fn retreats_along_attack(atk: Seq<Square>, from: Square, to: Square) -> bool {
    exists|i: int|
        0 <= i < atk.len() && (#[trigger] direction(atk[i], from)) is Some && direction(atk[i], from)
            == direction(from, to)
}

/// The outcome of a move by the king of side `c` from `from` to `to`.
pub open spec fn king_move_verdict(b: Board, from: Square, to: Square, c: Color) -> Result<(), Seq<char>> {
    let atk = attackers(b, from, c);
    if attackers(b, to, c).len() > 0 {
        if atk.len() > 0 {
            Err("King is still in check"@)
        } else {
            Err("King cannot place himself in check."@)
        }
    } else if retreats_along_attack(atk, from, to) {
        Err("King is still in check"@)
    } else {
        Ok(())
    }
}

/// The outcome of a move of a piece other than the king, given where the king
/// stands, what attacks it, and the pin on the piece.
pub open spec fn piece_move_verdict(
    from: Square,
    to: Square,
    k: Square,
    atk: Seq<Square>,
    pinned: Option<Direction>,
) -> Result<(), Seq<char>> {
    match pinned {
        Some(d) => if atk.len() == 0 {
            if direction(from, to) is None {
                Err("This Knight is pinned. It cannot be moved."@)
            } else if direction(from, to) == Some(d) {
                Ok(())
            } else {
                Err("This piece is pinned. It cannot be moved in this direction."@)
            }
        } else {
            Err("This piece is pinned. Move another piece to get King out of check."@)
        },
        None => if atk.len() == 0 {
            Ok(())
        } else if atk.len() == 1 {
            if to == atk[0] || (path(atk[0], k) matches Some(p) && p.contains(to)) {
                Ok(())
            } else {
                Err("King is still in check"@)
            }
        } else {
            Err("Must move King out of check"@)
        },
    }
}

/// The checks that look only at the two squares and the piece's own movement
/// rule, in order: the piece on `from` must be on the board, present and of side
/// `c`; `to` must be on the board and hold neither a king nor a piece of side `c`;
/// and the piece must move that way.
pub open spec fn square_verdict(b: Board, from: Square, to: Square, c: Color) -> Result<(), Seq<char>> {
    let target = b.at(to.0 as int, to.1 as int);
    if from_verdict(b, from, c) is Err {
        from_verdict(b, from, c)
    } else if !on_board(to) {
        Err(out_of_bounds_text(to))
    } else if target matches Some(q) && q.0 == PieceType::King {
        Err("Cannot capture the King."@)
    } else if target matches Some(q) && q.1 == c {
        Err("Can't move here. Square occupied."@)
    } else if !moves_like(b.at(from.0 as int, from.1 as int).unwrap(), b, from, to) {
        Err("Invalid move."@)
    } else {
        Ok(())
    }
}

/// The outcome of moving the piece on `from` to `to` for side `c`: the square
/// checks first, then the rules of check and pins around the king of side `c`.
pub open spec fn move_verdict(b: Board, from: Square, to: Square, c: Color) -> Result<(), Seq<char>> {
    if square_verdict(b, from, to, c) is Err {
        square_verdict(b, from, to, c)
    } else {
        let k = king_square(b, c).unwrap();
        if from == k {
            king_move_verdict(b, from, to, c)
        } else {
            piece_move_verdict(from, to, k, attackers(b, k, c), pin(b, from, k, c))
        }
    }
}

/// Some move of side `c` passes the square checks, so that its king must be looked for.
pub open spec fn king_needed(b: Board, c: Color) -> bool {
    exists|f: Square, t: Square| (#[trigger] square_verdict(b, f, t, c)) is Ok
}

fn bounds_message(s: Square) -> (r: String)
    ensures
        r@ == out_of_bounds_text(s),
{
    let mut out: Vec<char> = Vec::new();
    push_decimal(&mut out, s.0 as i128 + 1);
    push_str(&mut out, " ");
    push_decimal(&mut out, s.1 as i128 + 1);
    push_str(&mut out, " is out of bounds.");
    assert(out@ =~= out_of_bounds_text(s));
    string_of(&out)
}

fn same_direction(a: Option<Direction>, b: Option<Direction>) -> (r: bool)
    ensures
        r == (a == b),
{
    match (a, b) {
        (Some(x), Some(y)) => x.0 == y.0 && x.1 == y.1,
        (None, None) => true,
        _ => false,
    }
}

fn holds(v: &Vec<Square>, s: Square) -> (r: bool)
    ensures
        r == v@.contains(s),
{
    let mut i: usize = 0;
    while i < v.len()
        invariant
            i <= v.len(),
            forall|j: int| 0 <= j < i ==> v@[j] != s,
        decreases v.len() - i,
    {
        if v[i].0 == s.0 && v[i].1 == s.1 {
            return true;
        }
        i = i + 1;
    }
    false
}

impl Board {
    /// The occupant of row `r`, column `c`.
    pub closed spec fn at(&self, r: int, c: int) -> Option<Piece> {
        self.data@[r]@[c]
    }

    pub fn get(&self, loc: Square) -> (r: Option<Piece>)
        requires
            0 <= loc.0 < 8,
            0 <= loc.1 < 8,
        ensures
            r == self.at(loc.0 as int, loc.1 as int),
    {
        self.data[loc.0 as usize][loc.1 as usize]
    }

    /// The side to move.
    pub closed spec fn to_move(&self) -> Color {
        self.player
    }

    /// The turn counter.
    pub closed spec fn turn_count(&self) -> u8 {
        self.turn_no
    }

    /// `self` with `piece` placed on `loc` and everything else unchanged.
    pub open spec fn placed(&self, after: Board, loc: Square, piece: Option<Piece>) -> bool {
        &&& after.to_move() == self.to_move()
        &&& after.turn_count() == self.turn_count()
        &&& forall|r: int, c: int|
            0 <= r < 8 && 0 <= c < 8 ==> #[trigger] after.at(r, c) == if r == loc.0 && c == loc.1 {
                piece
            } else {
                self.at(r, c)
            }
    }

    /// Puts `piece` (or nothing) on `loc`; returns the board for chaining.
    pub fn set(&mut self, loc: Square, piece: Option<Piece>) -> (r: &mut Self)
        requires
            0 <= loc.0 < 8,
            0 <= loc.1 < 8,
        ensures
            old(self).placed(*r, loc, piece),
            *final(self) == *final(r),
    {
        self.data[loc.0 as usize][loc.1 as usize] = piece;
        self
    }

    /// The standard starting position: White to move, turn 0.
    pub fn new() -> (r: Board)
        ensures
            r.to_move() == Color::White,
            r.turn_count() == 0,
            forall|i: int, j: int| 0 <= i < 8 && 0 <= j < 8 ==> #[trigger] r.at(i, j) == initial_at(i, j),
    {
        let mut b = Board::empty(Color::White, 0);
        let mut c: usize = 0;
        while c < 8
            invariant
                c <= 8,
                b.to_move() == Color::White,
                b.turn_count() == 0,
                forall|i: int, j: int| 0 <= i < 8 && 0 <= j < 8 ==> #[trigger] b.at(i, j) == if j < c {
                    initial_at(i, j)
                } else {
                    None
                },
            decreases 8 - c,
        {
            let kind = if c == 0 || c == 7 {
                PieceType::Rook
            } else if c == 1 || c == 6 {
                PieceType::Knight
            } else if c == 2 || c == 5 {
                PieceType::Bishop
            } else if c == 3 {
                PieceType::Queen
            } else {
                PieceType::King
            };
            let col = c as isize;
            b.set((0, col), Some(Piece(kind, Color::White)));
            b.set((1, col), Some(Piece(PieceType::Pawn, Color::White)));
            b.set((6, col), Some(Piece(PieceType::Pawn, Color::Black)));
            b.set((7, col), Some(Piece(kind, Color::Black)));
            c = c + 1;
        }
        b
    }

    /// A position with no pieces, `player` to move, at turn `turn_no`.
    pub fn empty(player: Color, turn_no: u8) -> (r: Board)
        ensures
            r.to_move() == player,
            r.turn_count() == turn_no,
            forall|i: int, j: int| 0 <= i < 8 && 0 <= j < 8 ==> (#[trigger] r.at(i, j)) is None,
    {
        Board { player: player, turn_no: turn_no, data: [[None;8];8] }
    }

    pub fn player(&self) -> (r: Color)
        ensures
            r == self.to_move(),
    {
        self.player
    }

    pub fn turn(&self) -> (r: u8)
        ensures
            r == self.turn_count(),
    {
        self.turn_no
    }

    /// Whether side `player` (the side to move when `None`) may move the piece on `from`.
    pub fn validate_from(&self, from: Square, player: Option<Color>) -> (r: Result<(), String>)
        ensures
            verdict(r) == from_verdict(*self, from, side(*self, player)),
    {
        let player = match player {
            Some(c) => c,
            None => self.player(),
        };
        if !in_bounds(from) {
            Err(bounds_message(from))
        } else {
            match self.get(from) {
                None => Err("No piece exists in this location.".to_owned()),
                Some(p) => if p.color() != player {
                    Err("This piece does not belong to you.".to_owned())
                } else {
                    Ok(())
                },
            }
        }
    }

    /// The checks of `square_verdict`: the two squares and the piece's own rule.
    fn square_checks(&self, from: Square, to: Square, player: Color) -> (r: Result<(), String>)
        ensures
            verdict(r) == square_verdict(*self, from, to, player),
    {
        if !in_bounds(from) {
            return Err(bounds_message(from));
        }
        let piece = match self.get(from) {
            None => return Err("No piece exists in this location.".to_owned()),
            Some(p) => p,
        };
        if piece.color() != player {
            return Err("This piece does not belong to you.".to_owned());
        }
        if !in_bounds(to) {
            return Err(bounds_message(to));
        }
        match self.get(to) {
            Some(q) => {
                if q.is_king() {
                    return Err("Cannot capture the King.".to_owned());
                } else if q.color() == player {
                    return Err("Can't move here. Square occupied.".to_owned());
                }
            },
            None => {},
        }
        piece.can_move(self, from, to)
    }

    /// Whether side `player` (the side to move when `None`) may move the piece on
    /// `from` to `to`, by the piece's own rules and the rules of check and pins.
    #[verifier::loop_isolation(false)]
    pub fn validate_move(&self, from: Square, to: Square, player: Option<Color>) -> (r: Result<
        (),
        String,
    >)
        requires
            square_verdict(*self, from, to, side(*self, player)) is Ok ==> king_square(
                *self,
                side(*self, player),
            ) is Some,
        ensures
            verdict(r) == move_verdict(*self, from, to, side(*self, player)),
    {
        let player = match player {
            Some(c) => c,
            None => self.player(),
        };
        match self.square_checks(from, to, player) {
            Err(e) => return Err(e),
            Ok(()) => {},
        }
        let king_position = self.find_king(Some(player)).unwrap();
        proof {
            lemma_king_square_on_board(*self, player, 0);
        }
        let squares_checking = self.squares_checking(king_position, Some(player));
        let move_dir = Self::get_direction(from, to);
        proof {
            lemma_attackers_on_board(*self, king_position, player);
        }
        if from.0 == king_position.0 && from.1 == king_position.1 {
            if self.num_checking(to, Some(player)) > 0 {
                if squares_checking.len() > 0 {
                    Err("King is still in check".to_owned())
                } else {
                    Err("King cannot place himself in check.".to_owned())
                }
            } else {
                assert(from == king_position);
                let ghost atk = squares_checking@;
                let mut i: usize = 0;
                while i < squares_checking.len()
                    invariant
                        atk == squares_checking@,
                        all_on_board(atk),
                        on_board(from),
                        move_dir == direction(from, to),
                        i <= atk.len(),
                        forall|j: int| 0 <= j < i ==> !((#[trigger] direction(atk[j], from)) is Some && direction(atk[j], from) == move_dir),
                    decreases atk.len() - i,
                {
                    let attack_dir = Self::get_direction(squares_checking[i], from);
                    if attack_dir.is_some() && same_direction(attack_dir, move_dir) {
                        assert(direction(atk[i as int], from) is Some);
                        return Err("King is still in check".to_owned());
                    }
                    i = i + 1;
                }
                Ok(())
            }
        } else {
            let pinned = self.is_pinned(from, king_position, Some(player));
            let n = squares_checking.len();
            match pinned {
                Some(pin_dir) => {
                    if n == 0 {
                        match move_dir {
                            None => Err("This Knight is pinned. It cannot be moved.".to_owned()),
                            Some(d) => if d.0 == pin_dir.0 && d.1 == pin_dir.1 {
                                Ok(())
                            } else {
                                Err(
                                    "This piece is pinned. It cannot be moved in this direction.".to_owned(),
                                )
                            },
                        }
                    } else {
                        Err(
                            "This piece is pinned. Move another piece to get King out of check.".to_owned(),
                        )
                    }
                },
                None => {
                    if n == 0 {
                        Ok(())
                    } else if n == 1 {
                        let attacker = squares_checking[0];
                        if to.0 == attacker.0 && to.1 == attacker.1 {
                            Ok(())
                        } else {
                            let blocks = match Self::get_path(attacker, king_position) {
                                Some(p) => holds(&p, to),
                                None => false,
                            };
                            if blocks {
                                Ok(())
                            } else {
                                Err("King is still in check".to_owned())
                            }
                        }
                    } else {
                        Err("Must move King out of check".to_owned())
                    }
                },
            }
        }
    }

    /// The position after the piece on `from` moves to `to`: `from` is emptied, a
    /// pawn reaching the far row becomes a queen, the other side is to move and the
    /// turn counter goes up by one. Legality is the caller's affair.
    pub fn execute_move(&self, from: Square, to: Square) -> (r: Board)
        requires
            on_board(from),
            on_board(to),
            self.at(from.0 as int, from.1 as int) is Some,
            self.turn_count() < 255,
        ensures
            r.to_move() == other_color(self.to_move()),
            r.turn_count() == self.turn_count() + 1,
            forall|i: int, j: int| 0 <= i < 8 && 0 <= j < 8 ==> #[trigger] r.at(i, j) == if i == to.0 && j == to.1 {
                promoted(self.at(from.0 as int, from.1 as int), to)
            } else if i == from.0 && j == from.1 {
                None
            } else {
                self.at(i, j)
            },
    {
        let mut new_board = *self;
        new_board.set(from, None);
        let moving = self.get(from);
        let piece = match moving {
            Some(Piece(PieceType::Pawn, Color::White)) if to.0 == 7 => Some(Piece(PieceType::Queen, Color::White)),
            Some(Piece(PieceType::Pawn, Color::Black)) if to.0 == 0 => Some(Piece(PieceType::Queen, Color::Black)),
            p => p,
        };
        assert(piece == promoted(moving, to));
        let ghost mid = new_board;
        new_board.set(to, piece);
        assert(mid.placed(new_board, to, piece));
        let ghost mid2 = new_board;
        new_board.player = self.player.other();
        new_board.turn_no = self.turn_no + 1;
        assert forall|i: int, j: int| 0 <= i < 8 && 0 <= j < 8 implies #[trigger] new_board.at(i, j) == if i == to.0 && j == to.1 {
                promoted(self.at(from.0 as int, from.1 as int), to)
            } else if i == from.0 && j == from.1 {
                None
            } else {
                self.at(i, j)
            } by {
            assert(new_board.at(i, j) == mid2.at(i, j));
            assert(mid2.at(i, j) == if i == to.0 && j == to.1 { piece } else { mid.at(i, j) });
            assert(mid.at(i, j) == if i == from.0 && j == from.1 { None } else { self.at(i, j) });
        }
        new_board
    }

    /// Where the king of side `player` (the side to move when `None`) stands.
    #[verifier::loop_isolation(false)]
    pub fn find_king(&self, player: Option<Color>) -> (r: Option<Square>)
        ensures
            r == king_square(*self, side(*self, player)),
    {
        let player = match player {
            Some(c) => c,
            None => self.player(),
        };
        let mut i: isize = 0;
        while i < 64
            invariant
                0 <= i <= 64,
                king_square(*self, player) == king_from(*self, player, i as int),
            decreases 64 - i,
        {
            let loc: Square = (i / 8, i % 8);
            match self.get(loc) {
                Some(Piece(PieceType::King, c)) => {
                    if c == player {
                        assert(loc == square_at(i as int));
                        assert(king_from(*self, player, i as int) == Some(square_at(i as int)));
                        return Some(loc);
                    }
                },
                _ => {},
            }
            i = i + 1;
        }
        None
    }

    /// The squares holding pieces of side `player` (the side to move when `None`),
    /// in row-major order.
    pub fn find_pieces(&self, player: Option<Color>) -> (r: Vec<Square>)
        ensures
            r@ == owned_squares(*self, side(*self, player)),
    {
        let player = match player {
            Some(c) => c,
            None => self.player(),
        };
        let mut found: Vec<Square> = Vec::new();
        let mut i: isize = 0;
        while i < 64
            invariant
                0 <= i <= 64,
                found@ == all_squares().subrange(0, i as int).filter(|s: Square| owns(*self, s, player)),
            decreases 64 - i,
        {
            let loc: Square = (i / 8, i % 8);
            proof {
                let pre = all_squares().subrange(0, i + 1);
                assert(pre.drop_last() =~= all_squares().subrange(0, i as int));
                assert(pre.last() == loc);
            }
            let ghost pre = all_squares().subrange(0, i + 1);
            let ghost before = found@;
            proof {
                let f = |s: Square| owns(*self, s, player);
                reveal(Seq::filter);
                assert(pre.drop_last() =~= all_squares().subrange(0, i as int));
                assert(pre.len() > 0);
                assert(pre.filter(f) == if f(pre.last()) {
                    pre.drop_last().filter(f).push(pre.last())
                } else {
                    pre.drop_last().filter(f)
                });
                assert(before == pre.drop_last().filter(f));
            }
            match self.get(loc) {
                Some(p) => {
                    if p.color() == player {
                        found.push(loc);
                    }
                },
                None => {},
            }
            assert(found@ =~= pre.filter(|s: Square| owns(*self, s, player)));
            i = i + 1;
        }
        assert(all_squares().subrange(0, 64) =~= all_squares());
        found
    }
}

/// A king found by the scan stands on the board.
proof fn lemma_king_square_on_board(b: Board, c: Color, i: int)
    ensures
        king_from(b, c, i) matches Some(s) ==> on_board(s),
    decreases 64 - i,
{
    if 0 <= i < 64 {
        lemma_king_square_on_board(b, c, i + 1);
    }
}

} // verus!
