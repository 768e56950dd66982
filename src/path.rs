use vstd::prelude::*;
use crate::board::{Board, Square};

verus! {

/// The sign of a coordinate difference.
#[derive(Copy, Clone, Debug, PartialEq, Eq, Structural)]
pub enum Sign {
    Increasing,
    Decreasing,
    Zero,
}

/// One of the eight compass directions, as the signs of the row and column steps.
/// `(Zero, Zero)` is no direction.
pub type Direction = (Sign, Sign);

pub open spec fn sign_of(x: int) -> Sign {
    if x < 0 {
        Sign::Decreasing
    } else if x > 0 {
        Sign::Increasing
    } else {
        Sign::Zero
    }
}

impl Sign {
    pub fn from_int(x: isize) -> (r: Sign)
        ensures
            r == sign_of(x as int),
    {
        if x < 0 {
            Sign::Decreasing
        } else if x > 0 {
            Sign::Increasing
        } else {
            Sign::Zero
        }
    }
}

pub open spec fn on_board(loc: Square) -> bool {
    0 <= loc.0 < 8 && 0 <= loc.1 < 8
}

pub open spec fn horizontal(a: Square, b: Square) -> bool {
    a.0 == b.0
}

pub open spec fn vertical(a: Square, b: Square) -> bool {
    a.1 == b.1
}

pub open spec fn diagonal(a: Square, b: Square) -> bool {
    b.0 - a.0 == b.1 - a.1 || b.0 - a.0 == -(b.1 - a.1)
}

/// `a` and `b` share a row, a column or a diagonal.
pub open spec fn aligned(a: Square, b: Square) -> bool {
    horizontal(a, b) || vertical(a, b) || diagonal(a, b)
}

/// The direction from `a` to `b`, when they are distinct and aligned.
pub open spec fn direction(a: Square, b: Square) -> Option<Direction> {
    if a != b && aligned(a, b) {
        Some((sign_of(b.0 - a.0), sign_of(b.1 - a.1)))
    } else {
        None
    }
}

pub open spec fn abs(x: int) -> int {
    if x < 0 {
        -x
    } else {
        x
    }
}

/// The number of king steps from `a` to `b`.
pub open spec fn distance(a: Square, b: Square) -> int {
    let dr = abs(b.0 - a.0);
    let dc = abs(b.1 - a.1);
    if dr < dc {
        dc
    } else {
        dr
    }
}

pub open spec fn advance(x: int, s: Sign, k: int) -> int {
    match s {
        Sign::Increasing => x + k,
        Sign::Decreasing => x - k,
        Sign::Zero => x,
    }
}

/// The square `k` steps from `a` in direction `d`.
pub open spec fn shift(a: Square, d: Direction, k: int) -> Square {
    (advance(a.0 as int, d.0, k) as isize, advance(a.1 as int, d.1, k) as isize)
}

/// The squares strictly between two aligned, distinct squares, in order from `a`.
pub open spec fn path(a: Square, b: Square) -> Option<Seq<Square>> {
    match direction(a, b) {
        Some(d) => Some(Seq::new((distance(a, b) - 1) as nat, |i: int| shift(a, d, i + 1))),
        None => None,
    }
}

/// How many steps one coordinate can take from `x` before leaving 0..8.
pub open spec fn room(x: int, s: Sign) -> int {
    match s {
        Sign::Increasing => 7 - x,
        Sign::Decreasing => x,
        Sign::Zero => 8,
    }
}

pub open spec fn ray_len(start: Square, d: Direction) -> int {
    let a = room(start.0 as int, d.0);
    let b = room(start.1 as int, d.1);
    if a < b {
        a
    } else {
        b
    }
}

/// The squares from just after `start` to the edge of the board along `d`.
pub open spec fn ray(start: Square, d: Direction) -> Seq<Square> {
    Seq::new(ray_len(start, d) as nat, |i: int| shift(start, d, i + 1))
}

/// Every square of `squares` is empty on `b`.
pub open spec fn all_empty(b: Board, squares: Seq<Square>) -> bool {
    forall|i: int| 0 <= i < squares.len() ==> (#[trigger] b.at(squares[i].0 as int, squares[i].1 as int)) is None
}

pub fn is_horizontal(from: Square, to: Square) -> (r: bool)
    ensures
        r == horizontal(from, to),
{
    from.0 == to.0
}

pub fn is_vertical(from: Square, to: Square) -> (r: bool)
    ensures
        r == vertical(from, to),
{
    from.1 == to.1
}

pub fn is_diagonal(from: Square, to: Square) -> (r: bool)
    ensures
        r == diagonal(from, to),
{
    let dr: i128 = to.0 as i128 - from.0 as i128;
    let dc: i128 = to.1 as i128 - from.1 as i128;
    dr == dc || dr == -dc
}

pub fn in_bounds(loc: Square) -> (r: bool)
    ensures
        r == on_board(loc),
        r <==> (0 <= loc.0 < 8 && 0 <= loc.1 < 8),
{
    0 <= loc.0 && loc.0 < 8 && 0 <= loc.1 && loc.1 < 8
}

fn advance_exec(x: isize, s: Sign, k: isize) -> (r: isize)
    requires
        -8 <= x <= 16,
        0 <= k <= 8,
    ensures
        r == advance(x as int, s, k as int),
{
    match s {
        Sign::Increasing => x + k,
        Sign::Decreasing => x - k,
        Sign::Zero => x,
    }
}

fn shift_exec(a: Square, d: Direction, k: isize) -> (r: Square)
    requires
        on_board(a),
        0 <= k <= 8,
    ensures
        r == shift(a, d, k as int),
{
    (advance_exec(a.0, d.0, k), advance_exec(a.1, d.1, k))
}

/// Along an aligned pair, each coordinate that moves at all moves by the full distance.
proof fn lemma_aligned_steps(a: Square, b: Square)
    requires
        direction(a, b) is Some,
    ensures
        ({
            let d = direction(a, b).unwrap();
            &&& advance(a.0 as int, d.0, distance(a, b)) == b.0
            &&& advance(a.1 as int, d.1, distance(a, b)) == b.1
            &&& distance(a, b) >= 1
            &&& d != (Sign::Zero, Sign::Zero)
        }),
{
}

/// The squares strictly between two aligned squares are on the board when both ends are.
proof fn lemma_path_on_board(a: Square, b: Square, k: int)
    requires
        on_board(a),
        on_board(b),
        direction(a, b) is Some,
        0 <= k <= distance(a, b),
    ensures
        on_board(shift(a, direction(a, b).unwrap(), k)),
        distance(a, b) <= 7,
{
    lemma_aligned_steps(a, b);
}

/// Between two distinct aligned squares the path holds one square fewer than
/// their distance, and holds neither of the two.
pub proof fn lemma_path_between(a: Square, b: Square)
    requires
        on_board(a),
        on_board(b),
        direction(a, b) is Some,
    ensures
        path(a, b).unwrap().len() == distance(a, b) - 1,
        !path(a, b).unwrap().contains(a),
        !path(a, b).unwrap().contains(b),
{
    lemma_aligned_steps(a, b);
    let p = path(a, b).unwrap();
    let d = direction(a, b).unwrap();
    assert forall|i: int| 0 <= i < p.len() implies p[i] != a && p[i] != b by {
        lemma_path_on_board(a, b, i + 1);
        assert(p[i] == shift(a, d, i + 1));
    }
}

impl Board {
    /// The direction from `from` to `to`; `None` when they are equal or share
    /// no row, column or diagonal.
    pub fn get_direction(from: Square, to: Square) -> (r: Option<Direction>)
        requires
            on_board(from),
            on_board(to),
        ensures
            r == direction(from, to),
            r is None <==> (from == to || !aligned(from, to)),
    {
        if (from.0 != to.0 || from.1 != to.1) && (is_horizontal(from, to) || is_vertical(from, to)
            || is_diagonal(from, to)) {
            Some((Sign::from_int(to.0 - from.0), Sign::from_int(to.1 - from.1)))
        } else {
            None
        }
    }

    /// The squares strictly between `from` and `to`, in order from `from`;
    /// `None` when they are equal or not aligned.
    pub fn get_path(from: Square, to: Square) -> (r: Option<Vec<Square>>)
        requires
            on_board(from),
            on_board(to),
        ensures
            match r {
                Some(v) => path(from, to) == Some(v@),
                None => path(from, to) is None,
            },
    {
        let d = match Self::get_direction(from, to) {
            Some(d) => d,
            None => return None,
        };
        proof {
            lemma_path_on_board(from, to, 0);
        }
        let dr: isize = if to.0 < from.0 { from.0 - to.0 } else { to.0 - from.0 };
        let dc: isize = if to.1 < from.1 { from.1 - to.1 } else { to.1 - from.1 };
        let n: isize = if dr < dc { dc } else { dr };
        let ghost expected = path(from, to).unwrap();
        let mut v: Vec<Square> = Vec::new();
        let mut k: isize = 1;
        while k < n
            invariant
                on_board(from),
                on_board(to),
                direction(from, to) is Some,
                1 <= k <= n,
                n == distance(from, to),
                n <= 7,
                expected == Seq::new((n - 1) as nat, |i: int| shift(from, d, i + 1)),
                d == direction(from, to).unwrap(),
                v@ == expected.subrange(0, k - 1),
            decreases n - k,
        {
            let sq = shift_exec(from, d, k);
            v.push(sq);
            assert(v@ =~= expected.subrange(0, k as int));
            k = k + 1;
        }
        assert(v@ =~= expected);
        Some(v)
    }

    /// The squares from just after `start` to the edge of the board along `direction`.
    pub fn get_directed_path(start: Square, direction: Direction) -> (r: Vec<Square>)
        requires
            on_board(start),
            direction != (Sign::Zero, Sign::Zero),
        ensures
            r@ == ray(start, direction),
    {
        let a: isize = match direction.0 {
            Sign::Increasing => 7 - start.0,
            Sign::Decreasing => start.0,
            Sign::Zero => 8,
        };
        let b: isize = match direction.1 {
            Sign::Increasing => 7 - start.1,
            Sign::Decreasing => start.1,
            Sign::Zero => 8,
        };
        let n: isize = if a < b { a } else { b };
        let ghost expected = ray(start, direction);
        let mut v: Vec<Square> = Vec::new();
        let mut k: isize = 0;
        while k < n
            invariant
                on_board(start),
                0 <= k <= n,
                n == ray_len(start, direction),
                0 <= n <= 7,
                expected == ray(start, direction),
                v@ == expected.subrange(0, k as int),
            decreases n - k,
        {
            let sq = shift_exec(start, direction, k + 1);
            v.push(sq);
            assert(v@ =~= expected.subrange(0, k + 1));
            k = k + 1;
        }
        assert(v@ =~= expected);
        v
    }

    /// Whether every square strictly between `from` and `to` is empty.
    pub fn clear_path(&self, from: Square, to: Square) -> (r: bool)
        requires
            on_board(from),
            on_board(to),
            from != to,
            aligned(from, to),
        ensures
            r == all_empty(*self, path(from, to).unwrap()),
    {
        let squares = Self::get_path(from, to).unwrap();
        proof {
            lemma_aligned_steps(from, to);
        }
        let ghost expected = path(from, to).unwrap();
        let mut i: usize = 0;
        while i < squares.len()
            invariant
                on_board(from),
                on_board(to),
                direction(from, to) is Some,
                expected == path(from, to).unwrap(),
                squares@ == expected,
                i <= squares.len(),
                forall|j: int| 0 <= j < i ==> (#[trigger] self.at(expected[j].0 as int, expected[j].1 as int)) is None,
            decreases squares.len() - i,
        {
            proof {
                lemma_path_on_board(from, to, i + 1);
            }
            if self.get(squares[i]).is_some() {
                return false;
            }
            i = i + 1;
        }
        true
    }
}

} // verus!
