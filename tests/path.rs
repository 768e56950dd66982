use chess::board::Board;
use chess::path::{in_bounds, is_diagonal, is_horizontal, is_vertical, Sign};
use chess::path::Sign::{Decreasing, Increasing, Zero};

#[test]
fn empty_rows_are_clear() {
    let board = Board::new();
    assert!(board.clear_path((2, 0), (2, 7)));
    assert!(board.clear_path((3, 0), (3, 7)));
    assert!(board.clear_path((4, 0), (4, 7)));
    assert!(board.clear_path((5, 0), (5, 7)));
}

#[test]
fn occupied_rows_are_not_clear() {
    let board = Board::new();
    assert!(!board.clear_path((0, 0), (0, 7)));
    assert!(!board.clear_path((1, 0), (1, 7)));
    assert!(!board.clear_path((6, 0), (6, 7)));
    assert!(!board.clear_path((7, 0), (7, 7)));
}

#[test]
fn pawns_have_clear_paths() {
    let board = Board::new();
    assert!(board.clear_path((1, 1), (5, 1)));
    assert!(board.clear_path((1, 1), (6, 1)));
    assert!(!board.clear_path((0, 1), (4, 1)));
}

#[test]
fn diagonal_increasing_increasing() {
    let board = Board::new();
    assert!(board.clear_path((2, 0), (6, 4)));
    assert!(!board.clear_path((2, 0), (7, 5)));
}

#[test]
fn diagonal_increasing_decreasing() {
    let mut board = Board::new();
    assert!(board.clear_path((1, 6), (6, 1)));
    assert!(!board.clear_path((1, 6), (7, 0)));
    board.set((1, 2), None);
    assert!(board.clear_path((0, 3), (3, 0)));
}

#[test]
fn diagonal_decreasing_increasing() {
    let board = Board::new();
    assert!(board.clear_path((6, 0), (1, 5)));
    assert!(!board.clear_path((2, 4), (0, 6)));
}

#[test]
fn diagonal_decreasing_decreasing() {
    let board = Board::new();
    assert!(board.clear_path((3, 7), (1, 5)));
    assert!(!board.clear_path((7, 7), (4, 4)));
    assert!(!board.clear_path((4, 4), (0, 0)));
}

#[test]
fn diagonal_not_diagonal() {
    assert!(!is_diagonal((2, 7), (0, 6)));
    assert!(!is_diagonal((1, 7), (4, 6)));
    assert!(!is_diagonal((7, 3), (1, 1)));
    assert!(!is_diagonal((2, 7), (6, 7)));
}

#[test]
fn test_diagonal_path() {
    assert_eq!(Board::get_path((0, 1), (2, 3)), Some(vec![(1, 2)]));
    assert_eq!(Board::get_path((3, 2), (1, 0)), Some(vec![(2, 1)]));
    assert_eq!(Board::get_path((3, 0), (0, 3)), Some(vec![(2, 1), (1, 2)]));
    assert_eq!(Board::get_path((1, 3), (3, 1)), Some(vec![(2, 2)]));
}

#[test]
fn test_directed_path() {
    let start = (4, 4);
    assert_eq!(*Board::get_directed_path(start, (Increasing, Zero)).last().unwrap(), (7, 4));
    assert_eq!(*Board::get_directed_path(start, (Decreasing, Zero)).last().unwrap(), (0, 4));
    assert_eq!(*Board::get_directed_path(start, (Zero, Increasing)).last().unwrap(), (4, 7));
    assert_eq!(*Board::get_directed_path(start, (Zero, Decreasing)).last().unwrap(), (4, 0));
    assert_eq!(*Board::get_directed_path(start, (Increasing, Increasing)).last().unwrap(), (7, 7));
    assert_eq!(*Board::get_directed_path(start, (Decreasing, Decreasing)).last().unwrap(), (0, 0));
    assert_eq!(*Board::get_directed_path(start, (Increasing, Decreasing)).last().unwrap(), (7, 1));
    assert_eq!(*Board::get_directed_path(start, (Decreasing, Increasing)).last().unwrap(), (1, 7));
    assert_eq!(Board::get_directed_path((7, 4), (Increasing, Zero)).len(), 0);
    assert_eq!(Board::get_directed_path((7, 7), (Increasing, Increasing)).len(), 0);
    assert_eq!(Board::get_directed_path((0, 0), (Decreasing, Decreasing)).len(), 0);
}

#[test]
fn in_bounds_edges() {
    assert!(in_bounds((0, 0)));
    assert!(in_bounds((7, 7)));
    assert!(in_bounds((3, 5)));
    assert!(!in_bounds((-1, 0)));
    assert!(!in_bounds((0, -1)));
    assert!(!in_bounds((8, 0)));
    assert!(!in_bounds((0, 8)));
    assert!(!in_bounds((-5, 12)));
    assert!(!in_bounds((isize::MIN, isize::MAX)));
}

#[test]
fn direction_none_iff_equal_or_unaligned() {
    assert_eq!(Board::get_direction((3, 3), (3, 3)), None);
    assert_eq!(Board::get_direction((0, 0), (1, 2)), None);
    assert_eq!(Board::get_direction((2, 7), (0, 6)), None);
    assert_eq!(Board::get_direction((3, 3), (3, 0)), Some((Zero, Decreasing)));
    assert_eq!(Board::get_direction((3, 3), (7, 3)), Some((Increasing, Zero)));
    assert_eq!(Board::get_direction((3, 3), (0, 6)), Some((Decreasing, Increasing)));
    assert_eq!(Board::get_direction((3, 3), (5, 1)), Some((Increasing, Decreasing)));
}

#[test]
fn path_length_is_distance_less_one() {
    assert_eq!(Board::get_path((0, 0), (0, 7)).unwrap().len(), 6);
    assert_eq!(Board::get_path((0, 0), (7, 7)).unwrap().len(), 6);
    assert_eq!(Board::get_path((4, 4), (4, 5)).unwrap().len(), 0);
    assert_eq!(Board::get_path((6, 2), (2, 2)), Some(vec![(5, 2), (4, 2), (3, 2)]));
    assert_eq!(Board::get_path((0, 0), (1, 2)), None);
    assert_eq!(Board::get_path((5, 5), (5, 5)), None);
    let p = Board::get_path((7, 0), (0, 7)).unwrap();
    assert!(!p.contains(&(7, 0)));
    assert!(!p.contains(&(0, 7)));
}

#[test]
fn sign_from_int_and_lines() {
    assert_eq!(Sign::from_int(-4), Decreasing);
    assert_eq!(Sign::from_int(0), Zero);
    assert_eq!(Sign::from_int(9), Increasing);
    assert!(is_horizontal((2, 1), (2, 6)));
    assert!(!is_horizontal((2, 1), (3, 1)));
    assert!(is_vertical((2, 1), (6, 1)));
    assert!(!is_vertical((2, 1), (2, 2)));
    assert!(is_diagonal((2, 2), (5, 5)));
    assert!(is_diagonal((2, 2), (0, 4)));
}
