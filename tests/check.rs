use chess::board::Board;
use chess::path::Sign::{Decreasing, Increasing};
use chess::piece::Color::{Black, White};
use chess::piece::Piece;
use chess::piece::PieceType::{Bishop, King, Knight, Pawn, Queen, Rook};

#[test]
fn test_num_checking() {
    let mut board = Board::empty(White, 0);
    let king_position = (0, 4);
    board.set(king_position, Some(Piece(King, White)));
    board.set((0, 0), Some(Piece(Rook, Black)));
    board.set((0, 6), Some(Piece(Queen, Black)));
    board.set((1, 3), Some(Piece(Pawn, Black)));
    board.set((2, 6), Some(Piece(Bishop, Black)));
    board.set((3, 7), Some(Piece(Rook, Black)));
    board.set((4, 0), Some(Piece(Queen, Black)));
    board.set((5, 4), Some(Piece(Queen, White)));
    assert_eq!(board.num_checking(king_position, None), 4);
}

#[test]
fn test_horizonal_check() {
    let mut board = Board::empty(Black, 0);
    let king_position = (4, 6);
    board.set(king_position, Some(Piece(King, Black)));
    assert_eq!(board.num_checking(king_position, None), 0);
    board.set((4, 1), Some(Piece(Rook, White)));
    assert_eq!(board.num_checking(king_position, None), 1);
    board.set((4, 3), Some(Piece(Pawn, Black)));
    assert_eq!(board.num_checking(king_position, None), 0);
    board.set((4, 4), Some(Piece(Queen, White)));
    assert_eq!(board.num_checking(king_position, None), 1);
    board.set((4, 7), Some(Piece(Rook, White)));
    assert_eq!(board.num_checking(king_position, None), 2);
}

#[test]
fn test_vertical_check() {
    let mut board = Board::empty(Black, 0);
    let king_position = (6, 4);
    board.set(king_position, Some(Piece(King, Black)));
    assert_eq!(board.num_checking(king_position, None), 0);
    board.set((1, 4), Some(Piece(Rook, White)));
    assert_eq!(board.num_checking(king_position, None), 1);
    board.set((3, 4), Some(Piece(Pawn, Black)));
    assert_eq!(board.num_checking(king_position, None), 0);
    board.set((4, 4), Some(Piece(Queen, White)));
    assert_eq!(board.num_checking(king_position, None), 1);
    board.set((7, 4), Some(Piece(Queen, White)));
    assert_eq!(board.num_checking(king_position, None), 2);
}

#[test]
fn test_diagonal_check() {
    let mut board = Board::empty(White, 0);
    let king_position = (4, 4);
    board.set(king_position, Some(Piece(King, White)));
    assert_eq!(board.num_checking(king_position, None), 0);
    board.set((0, 0), Some(Piece(Bishop, Black)));
    assert_eq!(board.num_checking(king_position, None), 1);
    board.set((7, 1), Some(Piece(Queen, Black)));
    assert_eq!(board.num_checking(king_position, None), 2);
    board.set((5, 5), Some(Piece(Bishop, Black)));
    assert_eq!(board.num_checking(king_position, None), 3);
    board.set((2, 6), Some(Piece(Bishop, Black)));
    assert_eq!(board.num_checking(king_position, None), 4);
    board.set((3, 5), Some(Piece(Pawn, White)));
    assert_eq!(board.num_checking(king_position, None), 3);
}

#[test]
fn test_pawns_check_white() {
    let mut board = Board::empty(White, 0);
    let king_position = (4, 4);
    board.set(king_position, Some(Piece(King, White)));
    assert_eq!(board.num_checking(king_position, None), 0);
    let pawn_row = king_position.0 + 1;
    board.set((pawn_row, king_position.1 - 1), Some(Piece(Pawn, Black)));
    assert_eq!(board.num_checking(king_position, None), 1);
    board.set((pawn_row, king_position.1), Some(Piece(Pawn, Black)));
    assert_eq!(board.num_checking(king_position, None), 1);
    board.set((pawn_row, king_position.1 + 1), Some(Piece(Pawn, Black)));
    assert_eq!(board.num_checking(king_position, None), 2);
}

#[test]
fn test_pawns_check_black() {
    let mut board = Board::empty(Black, 0);
    let king_position = (4, 4);
    board.set(king_position, Some(Piece(King, Black)));
    assert_eq!(board.num_checking(king_position, None), 0);
    let pawn_row = king_position.0 - 1;
    board.set((pawn_row, king_position.1 - 1), Some(Piece(Pawn, White)));
    assert_eq!(board.num_checking(king_position, None), 1);
    board.set((pawn_row, king_position.1), Some(Piece(Pawn, White)));
    assert_eq!(board.num_checking(king_position, None), 1);
    board.set((pawn_row, king_position.1 + 1), Some(Piece(Pawn, White)));
    assert_eq!(board.num_checking(king_position, None), 2);
}

#[test]
fn test_knights_check() {
    let mut board = Board::empty(Black, 0);
    let king_position = (4, 4);
    board.set(king_position, Some(Piece(King, Black)));
    assert_eq!(board.num_checking(king_position, None), 0);
    board.set((6, 3), Some(Piece(Knight, White)));
    assert_eq!(board.num_checking(king_position, None), 1);
    board.set((2, 1), Some(Piece(Knight, White)));
    assert_eq!(board.num_checking(king_position, None), 1);
}

#[test]
fn test_kings_check() {
    let mut board = Board::empty(White, 0);
    let king_position = (4, 4);
    board.set(king_position, Some(Piece(King, White)));
    assert_eq!(board.num_checking(king_position, None), 0);
    board.set((4, 5), Some(Piece(King, Black)));
    assert_eq!(board.num_checking(king_position, None), 1);
    board.set((4, 6), Some(Piece(King, Black)));
    assert_eq!(board.num_checking(king_position, None), 1);
    board.set((5, 5), Some(Piece(King, Black)));
    assert_eq!(board.num_checking(king_position, None), 2);
}

#[test]
fn test_pinning_single() {
    let mut board = Board::empty(White, 0);
    let (king, attacker, blocker) = ((4, 2), (0, 6), (3, 3));
    board.set(king, Some(Piece(King, White)));
    board.set(attacker, Some(Piece(Queen, Black)));
    board.set(blocker, Some(Piece(Pawn, White)));
    assert_eq!(board.is_pinned(blocker, king, None), Some((Decreasing, Increasing)));
}

#[test]
fn test_pinning_double() {
    let mut board = Board::empty(White, 0);
    let (king, attacker, blocker_1, blocker_2) = ((4, 2), (0, 6), (3, 3), (2, 4));
    board.set(king, Some(Piece(King, White)));
    board.set(attacker, Some(Piece(Queen, Black)));
    board.set(blocker_1, Some(Piece(Pawn, White)));
    board.set(blocker_2, Some(Piece(Pawn, White)));
    assert!(board.is_pinned(blocker_1, king, None).is_none());
    assert!(board.is_pinned(blocker_2, king, None).is_none());
}

#[test]
fn integration_test() {
    let board = *Board::empty(White, 25)
        .set((0, 0), Some(Piece(Rook, White)))
        .set((0, 4), Some(Piece(King, White)))
        .set((1, 0), Some(Piece(Pawn, White)))
        .set((2, 4), Some(Piece(Pawn, White)))
        .set((1, 5), Some(Piece(Queen, Black)))
        .set((4, 2), Some(Piece(King, Black)))
        .set((3, 2), Some(Piece(Pawn, Black)))
        .set((3, 5), Some(Piece(Pawn, Black)))
        .set((3, 7), Some(Piece(Bishop, Black)))
        .set((2, 6), Some(Piece(Rook, Black)));
    board.validate_move((0, 4), (1, 5), None).unwrap();
    assert!(!board.check_mate(None));
}

#[test]
fn initial_position_has_no_checks_or_pins() {
    let board = Board::new();
    assert!(board.squares_checking((0, 4), Some(White)).is_empty());
    assert!(board.squares_checking((7, 4), Some(Black)).is_empty());
    for row in 0..8 {
        for col in 0..8 {
            if let Some(p) = board.get((row, col)) {
                let king = if p.color() == White { (0, 4) } else { (7, 4) };
                assert_eq!(board.is_pinned((row, col), king, Some(p.color())), None);
            }
        }
    }
}

#[test]
fn attackers_listed_and_bystanders_ignored() {
    let mut board = Board::empty(White, 0);
    board.set((0, 4), Some(Piece(King, White)));
    board.set((0, 0), Some(Piece(Rook, Black)));
    board.set((0, 6), Some(Piece(Queen, Black)));
    board.set((1, 3), Some(Piece(Pawn, Black)));
    board.set((2, 6), Some(Piece(Bishop, Black)));
    board.set((3, 7), Some(Piece(Rook, Black)));
    board.set((4, 0), Some(Piece(Queen, Black)));
    let found = board.squares_checking((0, 4), None);
    assert_eq!(found.len(), 4);
    for s in [(0, 0), (0, 6), (1, 3), (2, 6)] {
        assert!(found.contains(&s));
    }
    assert!(!found.contains(&(3, 7)));
    assert!(!found.contains(&(4, 0)));
}

#[test]
fn play_on_after_capturing_the_queen() {
    let board = *Board::empty(White, 25)
        .set((0, 0), Some(Piece(Rook, White)))
        .set((0, 4), Some(Piece(King, White)))
        .set((1, 0), Some(Piece(Pawn, White)))
        .set((2, 4), Some(Piece(Pawn, White)))
        .set((1, 5), Some(Piece(Queen, Black)))
        .set((4, 2), Some(Piece(King, Black)))
        .set((3, 2), Some(Piece(Pawn, Black)))
        .set((3, 5), Some(Piece(Pawn, Black)))
        .set((3, 7), Some(Piece(Bishop, Black)))
        .set((2, 6), Some(Piece(Rook, Black)));
    assert!(board.validate_move((0, 4), (1, 5), None).is_ok());
    let after = board.execute_move((0, 4), (1, 5));
    assert_eq!(after.player(), Black);
    assert_eq!(after.get((1, 5)), Some(Piece(King, White)));
    assert!(!after.check_mate(None));
    assert!(!after.check_mate(Some(Black)));
}

#[test]
fn fools_mate_is_checkmate() {
    let mut board = Board::new();
    for (from, to) in [((1, 5), (2, 5)), ((6, 4), (4, 4)), ((1, 6), (3, 6)), ((7, 3), (3, 7))] {
        assert!(board.validate_move(from, to, None).is_ok());
        board = board.execute_move(from, to);
    }
    assert_eq!(board.num_checking((0, 4), None), 1);
    assert!(board.check_mate(None));
    assert!(!board.check_mate(Some(Black)));
}

#[test]
fn stalemate_has_no_legal_move() {
    let mut board = Board::empty(Black, 40);
    board.set((7, 0), Some(Piece(King, Black)));
    board.set((5, 1), Some(Piece(Queen, White)));
    board.set((0, 7), Some(Piece(King, White)));
    assert_eq!(board.num_checking((7, 0), None), 0);
    assert!(board.check_mate(None));
}
