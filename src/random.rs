use vstd::prelude::*;
use rand::seq::SliceRandom;
use crate::board::{
    all_squares, king_square, move_verdict, owned_squares, owns, square_at, Board, Square,
};
use crate::check::has_legal_move;
use crate::path::on_board;
use crate::piece::Color;

verus! {

/// Relies on rand's `SliceRandom::shuffle` with the thread-local generator,
/// which only swaps elements: the result is a reordering of the input.
#[verifier::external_body]
fn shuffle_squares(v: &mut Vec<Square>)
    ensures
        final(v)@.to_multiset() == old(v)@.to_multiset(),
{
    v.shuffle(&mut rand::thread_rng());
}

/// Relies on rand's `SliceRandom::choose` with the thread-local generator:
/// `None` for an empty slice, otherwise one of its elements.
#[verifier::external_body]
fn choose_square(v: &Vec<Square>) -> (r: Option<Square>)
    ensures
        r is None <==> v@.len() == 0,
        r matches Some(s) ==> v@.contains(s),
{
    v.choose(&mut rand::thread_rng()).copied()
}

/// The legal move from `from` to `t` for side `c`.
pub open spec fn legal(b: Board, from: Square, t: Square, c: Color) -> bool {
    move_verdict(b, from, t, c) is Ok
}

impl Board {
    /// A legal move for the side to move, picked at random: the pieces are tried
    /// in a random order, and the first one with a legal move goes to one of its
    /// legal destinations, picked at random.
    #[verifier::loop_isolation(false)]
    pub fn random_move(board: &Board) -> (r: (Square, Square))
        requires
            king_square(*board, board.to_move()) is Some,
            has_legal_move(*board, board.to_move()),
        ensures
            owns(*board, r.0, board.to_move()),
            on_board(r.1),
            legal(*board, r.0, r.1, board.to_move()),
    {
        let ghost c = board.to_move();
        let ghost owned = owned_squares(*board, c);
        let mut from_squares = board.find_pieces(None);
        let ghost before = from_squares@;
        shuffle_squares(&mut from_squares);
        proof {
            broadcast use vstd::seq_lib::group_to_multiset_ensures;
            let f = |s: Square| owns(*board, s, c);
            assert forall|a: int| 0 <= a < from_squares@.len() implies owns(*board, #[trigger] from_squares@[a], c) by {
                assert(from_squares@.contains(from_squares@[a]));
                assert(before.to_multiset().count(from_squares@[a]) > 0);
                let k = choose|k: int| 0 <= k < before.len() && before[k] == from_squares@[a];
                all_squares().lemma_filter_pred(f, k);
            }
        }
        let mut i: usize = 0;
        while i < from_squares.len()
            invariant
                forall|a: int| 0 <= a < from_squares@.len() ==> owns(*board, #[trigger] from_squares@[a], c),
                i <= from_squares.len(),
                forall|a: int, t: int| 0 <= a < i && 0 <= t < 64 ==> !(#[trigger] legal(*board, from_squares@[a], square_at(t), c)),
            decreases from_squares.len() - i,
        {
            let from = from_squares[i];
            let mut to_squares: Vec<Square> = Vec::new();
            let mut j: isize = 0;
            while j < 64
                invariant
                    0 <= j <= 64,
                    from == from_squares@[i as int],
                    owns(*board, from, c),
                    forall|x: Square| to_squares@.contains(x) ==> on_board(x) && legal(*board, from, x, c),
                    forall|t: int| 0 <= t < j && legal(*board, from, #[trigger] square_at(t), c) ==> to_squares@.len() > 0,
                decreases 64 - j,
            {
                let to: Square = (j / 8, j % 8);
                assert(to == square_at(j as int));
                if board.validate_move(from, to, None).is_ok() {
                    to_squares.push(to);
                    assert(to_squares@.last() == to);
                }
                j = j + 1;
            }
            match choose_square(&to_squares) {
                Some(to) => {
                    return (from, to);
                },
                None => {},
            }
            i = i + 1;
        }
        proof {
            broadcast use vstd::seq_lib::group_to_multiset_ensures;
            let (wi, wj) = choose|wi: int, wj: int|
                0 <= wi < owned.len() && 0 <= wj < 64 && (#[trigger] move_verdict(*board, owned[wi], square_at(wj), c)) is Ok;
            assert(before.contains(owned[wi]));
            assert(from_squares@.to_multiset().count(owned[wi]) > 0);
            let k = choose|k: int| 0 <= k < from_squares@.len() && from_squares@[k] == owned[wi];
            assert(!legal(*board, from_squares@[k], square_at(wj), c));
        }
        // Not reached: the proof above shows that some piece has a legal move.
        (from_squares[0], from_squares[0])
    }
}

} // verus!
