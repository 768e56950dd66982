use vstd::prelude::*;
use crate::board::{
    all_squares, initial_at, king_needed, king_square, move_verdict, owned_squares, owns, square_at,
    square_verdict, Board, Square,
};
use crate::path::{direction, on_board, ray, ray_len, Direction, Sign};
use crate::piece::{clear_between, other_color, Color, Piece, PieceType};

verus! {

/// The pieces a scan is looking for.
#[derive(Copy, Clone, Debug, PartialEq, Eq, Structural)]
pub enum Threat {
    /// A rook or queen of the given side: attacks along rows and columns.
    Straight(Color),
    /// A bishop or queen of the given side: attacks along diagonals.
    Slanted(Color),
    /// Exactly this piece.
    Exactly(Piece),
}

pub open spec fn threatens(t: Threat, p: Piece) -> bool {
    match t {
        Threat::Straight(c) => p == Piece(PieceType::Rook, c) || p == Piece(PieceType::Queen, c),
        Threat::Slanted(c) => p == Piece(PieceType::Bishop, c) || p == Piece(PieceType::Queen, c),
        Threat::Exactly(q) => p == q,
    }
}

/// The pieces of side `c` that attack along direction `d`.
pub open spec fn line_threat(d: Direction, c: Color) -> Threat {
    if d.0 == Sign::Zero || d.1 == Sign::Zero {
        Threat::Straight(c)
    } else {
        Threat::Slanted(c)
    }
}

/// Scanning `squares` in order and skipping those off the board, the first
/// occupied square decides: it is the result when its piece is one that `t`
/// looks for, and the scan ends with nothing otherwise.
pub open spec fn first_hit(b: Board, squares: Seq<Square>, t: Threat) -> Option<Square>
    decreases squares.len(),
{
    if squares.len() == 0 {
        None
    } else if !on_board(squares[0]) {
        first_hit(b, squares.drop_first(), t)
    } else {
        match b.at(squares[0].0 as int, squares[0].1 as int) {
            None => first_hit(b, squares.drop_first(), t),
            Some(p) => if threatens(t, p) {
                Some(squares[0])
            } else {
                None
            },
        }
    }
}

pub open spec fn opt_seq(o: Option<Square>) -> Seq<Square> {
    match o {
        Some(s) => seq![s],
        None => Seq::empty(),
    }
}

/// The eight directions, in the order the ranged scan visits them.
pub open spec fn compass(i: int) -> Direction {
    if i == 0 {
        (Sign::Increasing, Sign::Zero)
    } else if i == 1 {
        (Sign::Decreasing, Sign::Zero)
    } else if i == 2 {
        (Sign::Zero, Sign::Increasing)
    } else if i == 3 {
        (Sign::Zero, Sign::Decreasing)
    } else if i == 4 {
        (Sign::Increasing, Sign::Increasing)
    } else if i == 5 {
        (Sign::Decreasing, Sign::Decreasing)
    } else if i == 6 {
        (Sign::Decreasing, Sign::Increasing)
    } else {
        (Sign::Increasing, Sign::Decreasing)
    }
}

/// The enemy rook, bishop or queen that attacks square `k` along `d`, if any.
pub open spec fn ray_attacker(b: Board, k: Square, d: Direction, c: Color) -> Option<Square> {
    first_hit(b, ray(k, d), line_threat(d, other_color(c)))
}

/// The ranged attackers found along the first `n` compass directions.
pub open spec fn ranged_upto(b: Board, k: Square, c: Color, n: int) -> Seq<Square>
    decreases n,
{
    if n <= 0 {
        Seq::empty()
    } else {
        ranged_upto(b, k, c, n - 1) + opt_seq(ray_attacker(b, k, compass(n - 1), c))
    }
}

pub open spec fn offset(k: Square, o: (isize, isize)) -> Square {
    ((k.0 + o.0) as isize, (k.1 + o.1) as isize)
}

/// The squares `k + o`, for `o` in `offs` in order, that are on the board and
/// hold a piece that `t` looks for.
pub open spec fn near_hits(b: Board, k: Square, offs: Seq<(isize, isize)>, t: Threat) -> Seq<Square>
    decreases offs.len(),
{
    if offs.len() == 0 {
        Seq::empty()
    } else {
        near_hits(b, k, offs.drop_last(), t) + opt_seq(
            first_hit(b, seq![offset(k, offs.last())], t),
        )
    }
}

/// Where an enemy pawn would stand to capture onto the square of a king of side `c`.
pub open spec fn pawn_offsets(c: Color) -> Seq<(isize, isize)> {
    match c {
        Color::White => seq![(1isize, 1isize), (1isize, -1isize)],
        Color::Black => seq![(-1isize, 1isize), (-1isize, -1isize)],
    }
}

pub open spec fn knight_offsets() -> Seq<(isize, isize)> {
    seq![
        (1isize, 2isize),
        (1isize, -2isize),
        (-1isize, 2isize),
        (-1isize, -2isize),
        (2isize, 1isize),
        (2isize, -1isize),
        (-2isize, 1isize),
        (-2isize, -1isize),
    ]
}

pub open spec fn king_offsets() -> Seq<(isize, isize)> {
    seq![
        (1isize, -1isize),
        (1isize, 0isize),
        (1isize, 1isize),
        (0isize, -1isize),
        (0isize, 1isize),
        (-1isize, -1isize),
        (-1isize, 0isize),
        (-1isize, 1isize),
    ]
}

/// Every square whose piece attacks a king of side `c` standing on `k`:
/// ranged attackers first, then pawns, knights and the enemy king.
pub open spec fn attackers(b: Board, k: Square, c: Color) -> Seq<Square> {
    let e = other_color(c);
    ranged_upto(b, k, c, 8) + near_hits(b, k, pawn_offsets(c), Threat::Exactly(
        Piece(PieceType::Pawn, e),
    )) + near_hits(b, k, knight_offsets(), Threat::Exactly(Piece(PieceType::Knight, e)))
        + near_hits(b, k, king_offsets(), Threat::Exactly(Piece(PieceType::King, e)))
}

/// When the piece on `blocking` alone shields `shielded` from an enemy of side
/// `c`'s opponent along a line, the direction from `shielded` to `blocking`.
pub open spec fn pin(b: Board, blocking: Square, shielded: Square, c: Color) -> Option<Direction> {
    match direction(shielded, blocking) {
        None => None,
        Some(d) => if clear_between(b, blocking, shielded) && first_hit(
            b,
            ray(blocking, d),
            line_threat(d, other_color(c)),
        ) is Some {
            Some(d)
        } else {
            None
        },
    }
}

/// The side named, or the side to move when none is.
pub open spec fn side(b: Board, player: Option<Color>) -> Color {
    match player {
        Some(c) => c,
        None => b.to_move(),
    }
}

pub open spec fn all_on_board(s: Seq<Square>) -> bool {
    forall|i: int| 0 <= i < s.len() ==> on_board(#[trigger] s[i])
}

proof fn lemma_first_hit_on_board(b: Board, squares: Seq<Square>, t: Threat)
    ensures
        first_hit(b, squares, t) matches Some(q) ==> on_board(q),
    decreases squares.len(),
{
    if squares.len() > 0 {
        lemma_first_hit_on_board(b, squares.drop_first(), t);
    }
}

proof fn lemma_ranged_on_board(b: Board, k: Square, c: Color, n: int)
    ensures
        all_on_board(ranged_upto(b, k, c, n)),
    decreases n,
{
    if n > 0 {
        lemma_ranged_on_board(b, k, c, n - 1);
        lemma_first_hit_on_board(b, ray(k, compass(n - 1)), line_threat(compass(n - 1), other_color(c)));
    }
}

proof fn lemma_near_on_board(b: Board, k: Square, offs: Seq<(isize, isize)>, t: Threat)
    ensures
        all_on_board(near_hits(b, k, offs, t)),
    decreases offs.len(),
{
    if offs.len() > 0 {
        lemma_near_on_board(b, k, offs.drop_last(), t);
        lemma_first_hit_on_board(b, seq![offset(k, offs.last())], t);
    }
}

/// Every attacker found stands on the board.
pub proof fn lemma_attackers_on_board(b: Board, k: Square, c: Color)
    ensures
        all_on_board(attackers(b, k, c)),
{
    let e = other_color(c);
    lemma_ranged_on_board(b, k, c, 8);
    lemma_near_on_board(b, k, pawn_offsets(c), Threat::Exactly(Piece(PieceType::Pawn, e)));
    lemma_near_on_board(b, k, knight_offsets(), Threat::Exactly(Piece(PieceType::Knight, e)));
    lemma_near_on_board(b, k, king_offsets(), Threat::Exactly(Piece(PieceType::King, e)));
}

/// Side `c` has a legal move: some piece of theirs may go to some square.
pub open spec fn has_legal_move(b: Board, c: Color) -> bool {
    exists|i: int, j: int|
        0 <= i < owned_squares(b, c).len() && 0 <= j < 64 && (#[trigger] move_verdict(
            b,
            owned_squares(b, c)[i],
            square_at(j),
            c,
        )) is Ok
}

/// Where each side's king stands at the start of a game.
pub open spec fn home_king(c: Color) -> Square {
    match c {
        Color::White => (0, 4),
        Color::Black => (7, 4),
    }
}

pub open spec fn is_start(b: Board) -> bool {
    forall|i: int, j: int| 0 <= i < 8 && 0 <= j < 8 ==> #[trigger] b.at(i, j) == initial_at(i, j)
}

/// From the first square on, a ray of the starting position that stays clear of
/// the enemy's back rank until it has passed the enemy's pawn row meets no
/// enemy rook, bishop or queen first.
proof fn lemma_start_ray(b: Board, st: Square, d: Direction, c: Color, t: Threat, k: int)
    requires
        is_start(b),
        on_board(st),
        d != (Sign::Zero, Sign::Zero),
        0 <= k <= ray_len(st, d),
        t == Threat::Straight(other_color(c)) || t == Threat::Slanted(other_color(c)),
        k < ray_len(st, d) && c == Color::White ==> ray(st, d)[k].0 <= 6,
        k < ray_len(st, d) && c == Color::Black ==> ray(st, d)[k].0 >= 1,
    ensures
        first_hit(b, ray(st, d).subrange(k, ray_len(st, d)), t) is None,
    decreases ray_len(st, d) - k,
{
    let r = ray(st, d);
    let s = r.subrange(k, ray_len(st, d));
    if k < ray_len(st, d) {
        let q = r[k];
        assert(s[0] == q);
        assert(on_board(q));
        assert(s.drop_first() =~= r.subrange(k + 1, ray_len(st, d)));
        if b.at(q.0 as int, q.1 as int) is None {
            lemma_start_ray(b, st, d, c, t, k + 1);
        }
    }
}

/// In the starting position no piece is pinned against its own king.
pub proof fn lemma_no_pins_at_start(b: Board, sq: Square)
    requires
        is_start(b),
        on_board(sq),
        b.at(sq.0 as int, sq.1 as int) is Some,
    ensures
        ({
            let c = b.at(sq.0 as int, sq.1 as int).unwrap().1;
            pin(b, sq, home_king(c), c) is None
        }),
{
    let c = b.at(sq.0 as int, sq.1 as int).unwrap().1;
    let k = home_king(c);
    if let Some(d) = direction(k, sq) {
        let t = line_threat(d, other_color(c));
        if ray_len(sq, d) > 0 {
            assert(ray(sq, d)[0] == ray(sq, d)[0]);
        }
        lemma_start_ray(b, sq, d, c, t, 0);
        assert(ray(sq, d).subrange(0, ray_len(sq, d)) =~= ray(sq, d));
    }
}

fn threat_matches(t: Threat, p: Piece) -> (r: bool)
    ensures
        r == threatens(t, p),
{
    match t {
        Threat::Straight(c) => p == Piece(PieceType::Rook, c) || p == Piece(PieceType::Queen, c),
        Threat::Slanted(c) => p == Piece(PieceType::Bishop, c) || p == Piece(PieceType::Queen, c),
        Threat::Exactly(q) => p == q,
    }
}

fn compass_direction(i: usize) -> (r: Direction)
    requires
        i < 8,
    ensures
        r == compass(i as int),
{
    if i == 0 {
        (Sign::Increasing, Sign::Zero)
    } else if i == 1 {
        (Sign::Decreasing, Sign::Zero)
    } else if i == 2 {
        (Sign::Zero, Sign::Increasing)
    } else if i == 3 {
        (Sign::Zero, Sign::Decreasing)
    } else if i == 4 {
        (Sign::Increasing, Sign::Increasing)
    } else if i == 5 {
        (Sign::Decreasing, Sign::Decreasing)
    } else if i == 6 {
        (Sign::Decreasing, Sign::Increasing)
    } else {
        (Sign::Increasing, Sign::Decreasing)
    }
}

impl Board {
    /// Whether side `player` (the side to move when `None`) has no legal move at
    /// all. In check this is checkmate, otherwise stalemate.
    #[verifier::loop_isolation(false)]
    pub fn check_mate(&self, player: Option<Color>) -> (r: bool)
        requires
            king_needed(*self, side(*self, player)) ==> king_square(*self, side(*self, player)) is Some,
        ensures
            r == !has_legal_move(*self, side(*self, player)),
    {
        let ghost c = side(*self, player);
        let pieces = self.find_pieces(player);
        let ghost f = |s: Square| owns(*self, s, c);
        proof {
            assert(pieces@ == all_squares().filter(f));
            assert forall|i: int| 0 <= i < pieces@.len() implies owns(*self, #[trigger] pieces@[i], c) by {
                all_squares().lemma_filter_pred(f, i);
            }
        }
        let mut i: usize = 0;
        while i < pieces.len()
            invariant
                i <= pieces.len(),
                forall|a: int, j: int| 0 <= a < i && 0 <= j < 64 ==> !(#[trigger] move_verdict(*self, pieces@[a], square_at(j), c) is Ok),
            decreases pieces.len() - i,
        {
            let from = pieces[i];
            let mut j: isize = 0;
            while j < 64
                invariant
                    0 <= j <= 64,
                    from == pieces@[i as int],
                    forall|a: int, t: int| 0 <= a < i && 0 <= t < 64 ==> !(#[trigger] move_verdict(*self, pieces@[a], square_at(t), c) is Ok),
                    forall|t: int| 0 <= t < j ==> !(#[trigger] move_verdict(*self, from, square_at(t), c) is Ok),
                decreases 64 - j,
            {
                let to: Square = (j / 8, j % 8);
                assert(to == square_at(j as int));
                proof {
                    if square_verdict(*self, from, to, c) is Ok {
                        assert(king_needed(*self, c));
                    }
                }
                if self.validate_move(from, to, player).is_ok() {
                    assert(move_verdict(*self, pieces@[i as int], square_at(j as int), c) is Ok);
                    return false;
                }
                j = j + 1;
            }
            i = i + 1;
        }
        true
    }

    /// The number of squares whose piece would attack a king of side `king_color`
    /// (the side to move when `None`) standing on `king_position`.
    pub fn num_checking(&self, king_position: Square, king_color: Option<Color>) -> (r: usize)
        requires
            on_board(king_position),
        ensures
            r == attackers(*self, king_position, side(*self, king_color)).len(),
    {
        self.squares_checking(king_position, king_color).len()
    }

    /// The squares whose piece would attack a king of side `king_color` (the side
    /// to move when `None`) standing on `king_position`.
    pub fn squares_checking(&self, king_position: Square, king_color: Option<Color>) -> (r: Vec<
        Square,
    >)
        requires
            on_board(king_position),
        ensures
            r@ == attackers(*self, king_position, side(*self, king_color)),
    {
        let king_color = match king_color {
            Some(c) => c,
            None => self.player(),
        };
        let mut all = self.ranged_checking(king_position, king_color);
        let mut pawns = self.pawns_checking(king_position, king_color);
        let mut knights = self.knights_checking(king_position, king_color);
        let mut kings = self.kings_checking(king_position, king_color);
        all.append(&mut pawns);
        all.append(&mut knights);
        all.append(&mut kings);
        all
    }

    /// The direction from `shielded_square` to `blocking_square` when the piece on
    /// `blocking_square` is pinned against `shielded_square`; `None` otherwise.
    /// `player` is the side of both (the side to move when `None`).
    pub fn is_pinned(
        &self,
        blocking_square: Square,
        shielded_square: Square,
        player: Option<Color>,
    ) -> (r: Option<Direction>)
        requires
            on_board(blocking_square),
            on_board(shielded_square),
        ensures
            r == pin(*self, blocking_square, shielded_square, side(*self, player)),
    {
        let player = match player {
            Some(c) => c,
            None => self.player(),
        };
        let direction = match Self::get_direction(shielded_square, blocking_square) {
            Some(d) => d,
            None => return None,
        };
        if self.clear_path(blocking_square, shielded_square) {
            let path = Self::get_directed_path(blocking_square, direction);
            let threat = Self::get_directed_closure(direction, player.other());
            if self.check_squares(path, threat).is_some() {
                return Some(direction);
            }
        }
        None
    }

    /// The first occupied square of `squares` that is on the board, when its piece
    /// is one that `threat` looks for.
    fn check_squares(&self, squares: Vec<Square>, threat: Threat) -> (r: Option<Square>)
        ensures
            r == first_hit(*self, squares@, threat),
    {
        let mut i: usize = 0;
        assert(squares@.subrange(0, squares@.len() as int) =~= squares@);
        while i < squares.len()
            invariant
                i <= squares.len(),
                first_hit(*self, squares@, threat) == first_hit(
                    *self,
                    squares@.subrange(i as int, squares@.len() as int),
                    threat,
                ),
            decreases squares.len() - i,
        {
            let loc = squares[i];
            let ghost rest = squares@.subrange(i as int, squares@.len() as int);
            assert(rest.drop_first() =~= squares@.subrange(i + 1, squares@.len() as int));
            if 0 <= loc.0 && loc.0 < 8 && 0 <= loc.1 && loc.1 < 8 {
                match self.get(loc) {
                    None => {},
                    Some(piece) => {
                        if threat_matches(threat, piece) {
                            return Some(loc);
                        } else {
                            return None;
                        }
                    },
                }
            }
            i = i + 1;
        }
        assert(squares@.subrange(i as int, squares@.len() as int).len() == 0);
        None
    }

    /// Rooks, bishops and queens of the other side that attack `king_position`.
    fn ranged_checking(&self, king_position: Square, king_color: Color) -> (r: Vec<Square>)
        requires
            on_board(king_position),
        ensures
            r@ == ranged_upto(*self, king_position, king_color, 8),
    {
        let mut found: Vec<Square> = Vec::new();
        let mut i: usize = 0;
        while i < 8
            invariant
                on_board(king_position),
                i <= 8,
                found@ == ranged_upto(*self, king_position, king_color, i as int),
            decreases 8 - i,
        {
            let direction = compass_direction(i);
            let path = Self::get_directed_path(king_position, direction);
            let threat = Self::get_directed_closure(direction, king_color.other());
            let hit = self.check_squares(path, threat);
            match hit {
                Some(s) => found.push(s),
                None => {},
            }
            assert(found@ =~= ranged_upto(*self, king_position, king_color, i + 1));
            i = i + 1;
        }
        found
    }

    /// The squares `king_position + o`, for each offset `o` in order, that are on
    /// the board and hold a piece that `threat` looks for.
    fn relative_checking(&self, king_position: Square, squares: Vec<(isize, isize)>, threat: Threat) -> (r: Vec<Square>)
        requires
            on_board(king_position),
            forall|j: int| 0 <= j < squares@.len() ==> -2 <= (#[trigger] squares@[j]).0 <= 2 && -2 <= squares@[j].1 <= 2,
        ensures
            r@ == near_hits(*self, king_position, squares@, threat),
    {
        let mut found: Vec<Square> = Vec::new();
        let mut i: usize = 0;
        while i < squares.len()
            invariant
                on_board(king_position),
                forall|j: int| 0 <= j < squares@.len() ==> -2 <= (#[trigger] squares@[j]).0 <= 2 && -2 <= squares@[j].1 <= 2,
                i <= squares.len(),
                found@ == near_hits(*self, king_position, squares@.subrange(0, i as int), threat),
            decreases squares.len() - i,
        {
            let o = squares[i];
            let sq: Square = (king_position.0 + o.0, king_position.1 + o.1);
            let single = vec![sq];
            assert(single@ =~= seq![offset(king_position, o)]);
            let hit = self.check_squares(single, threat);
            proof {
                let pre = squares@.subrange(0, i + 1);
                assert(pre.drop_last() =~= squares@.subrange(0, i as int));
                assert(pre.last() == o);
            }
            match hit {
                Some(s) => found.push(s),
                None => {},
            }
            assert(found@ =~= near_hits(*self, king_position, squares@.subrange(0, i + 1), threat));
            i = i + 1;
        }
        assert(squares@.subrange(0, squares@.len() as int) =~= squares@);
        found
    }

    /// Enemy pawns placed to capture onto `king_position`.
    fn pawns_checking(&self, king_position: Square, king_color: Color) -> (r: Vec<Square>)
        requires
            on_board(king_position),
        ensures
            r@ == near_hits(*self, king_position, pawn_offsets(king_color), Threat::Exactly(
                Piece(PieceType::Pawn, other_color(king_color)),
            )),
    {
        let threat = Threat::Exactly(Piece(PieceType::Pawn, king_color.other()));
        let squares: Vec<(isize, isize)> = match king_color {
            Color::White => vec![(1, 1), (1, -1)],
            Color::Black => vec![(-1, 1), (-1, -1)],
        };
        assert(squares@ =~= pawn_offsets(king_color));
        self.relative_checking(king_position, squares, threat)
    }

    /// Enemy knights a knight's jump away from `king_position`.
    fn knights_checking(&self, king_position: Square, king_color: Color) -> (r: Vec<Square>)
        requires
            on_board(king_position),
        ensures
            r@ == near_hits(*self, king_position, knight_offsets(), Threat::Exactly(
                Piece(PieceType::Knight, other_color(king_color)),
            )),
    {
        let threat = Threat::Exactly(Piece(PieceType::Knight, king_color.other()));
        let squares: Vec<(isize, isize)> = vec![
            (1, 2),
            (1, -2),
            (-1, 2),
            (-1, -2),
            (2, 1),
            (2, -1),
            (-2, 1),
            (-2, -1),
        ];
        assert(squares@ =~= knight_offsets());
        self.relative_checking(king_position, squares, threat)
    }

    /// The enemy king, when it stands next to `king_position`.
    fn kings_checking(&self, king_position: Square, king_color: Color) -> (r: Vec<Square>)
        requires
            on_board(king_position),
        ensures
            r@ == near_hits(*self, king_position, king_offsets(), Threat::Exactly(
                Piece(PieceType::King, other_color(king_color)),
            )),
    {
        let threat = Threat::Exactly(Piece(PieceType::King, king_color.other()));
        let squares: Vec<(isize, isize)> = vec![
            (1, -1),
            (1, 0),
            (1, 1),
            (0, -1),
            (0, 1),
            (-1, -1),
            (-1, 0),
            (-1, 1),
        ];
        assert(squares@ =~= king_offsets());
        self.relative_checking(king_position, squares, threat)
    }

    /// The pieces of side `color` that attack along `dir`.
    fn get_directed_closure(dir: Direction, color: Color) -> (r: Threat)
        requires
            dir != (Sign::Zero, Sign::Zero),
        ensures
            r == line_threat(dir, color),
    {
        match dir {
            (Sign::Zero, _) | (_, Sign::Zero) => Threat::Straight(color),
            _ => Threat::Slanted(color),
        }
    }
}

} // verus!
