use chess::board::Board;
use chess::piece::Color::{Black, White};
use chess::piece::Piece;
use chess::piece::PieceType::{Bishop, King, Knight, Pawn, Queen, Rook};

fn same_position(a: &Board, b: &Board) -> bool {
    if a.player() != b.player() || a.turn() != b.turn() {
        return false;
    }
    for r in 0..8 {
        for c in 0..8 {
            if a.get((r, c)) != b.get((r, c)) {
                return false;
            }
        }
    }
    true
}

#[test]
fn starting_position_round_trip() {
    let board = Board::new();
    let text = board.to_text();
    let back = Board::from_text(&text).unwrap();
    assert!(same_position(&board, &back));
}

#[test]
fn scenario_round_trip() {
    let board = *Board::empty(Black, 255)
        .set((0, 0), Some(Piece(Rook, White)))
        .set((0, 4), Some(Piece(King, White)))
        .set((1, 5), Some(Piece(Queen, Black)))
        .set((4, 2), Some(Piece(King, Black)))
        .set((3, 7), Some(Piece(Bishop, Black)))
        .set((7, 7), Some(Piece(Knight, White)))
        .set((6, 1), Some(Piece(Pawn, White)));
    let back = Board::from_text(&board.to_text()).unwrap();
    assert!(same_position(&board, &back));
    assert_eq!(back.turn(), 255);
    assert_eq!(back.player(), Black);
}

#[test]
fn written_text_layout() {
    let mut board = Board::empty(White, 7);
    board.set((0, 0), Some(Piece(King, White)));
    board.set((7, 7), Some(Piece(King, Black)));
    let text = board.to_text();
    let lines: Vec<&str> = text.lines().collect();
    assert_eq!(lines.len(), 10);
    assert_eq!(lines[0], "White");
    assert_eq!(lines[1], "7");
    assert_eq!(lines[2], " \u{2654}  _  _  _  _  _  _  _ ");
    assert_eq!(lines[9], " _  _  _  _  _  _  _  \u{265A} ");
    assert!(text.ends_with('\n'));
}

#[test]
fn reading_errors() {
    assert_eq!(Board::from_text("").err(), Some("Couldn't parse player!".to_string()));
    assert_eq!(Board::from_text("white\n0\n").err(), Some("Couldn't parse player!".to_string()));
    assert_eq!(Board::from_text("White").err(), Some("Couldn't parse turn number!".to_string()));
    assert_eq!(Board::from_text("White\n256\n").err(), Some("Couldn't parse turn number!".to_string()));
    assert_eq!(Board::from_text("White\n-1\n").err(), Some("Couldn't parse turn number!".to_string()));
    assert_eq!(Board::from_text("White\n+\n").err(), Some("Couldn't parse turn number!".to_string()));
    assert_eq!(Board::from_text("White\n 3\n").err(), Some("Couldn't parse turn number!".to_string()));
    assert_eq!(
        Board::from_text("White\n3\n").err(),
        Some("Wrong number of Kings on the board.".to_string())
    );
    assert_eq!(
        Board::from_text("Black\n3\n\u{2654} \u{265A} \u{265A}\n").err(),
        Some("Wrong number of Kings on the board.".to_string())
    );
}

#[test]
fn reading_is_lenient_about_layout() {
    let text = "Black\r\n+042\r\n\u{2654}\t x \u{2659}\u{2659} \u{2656} a b c d e \u{265A}\r\n\n   \u{265B} \u{265A}\n";
    let b = Board::from_text(text).unwrap();
    assert_eq!(b.player(), Black);
    assert_eq!(b.turn(), 42);
    assert_eq!(b.get((0, 0)), Some(Piece(King, White)));
    assert_eq!(b.get((0, 1)), None);
    assert_eq!(b.get((0, 2)), None);
    assert_eq!(b.get((0, 3)), Some(Piece(Rook, White)));
    assert_eq!(b.get((0, 7)), None);
    assert_eq!(b.get((2, 0)), Some(Piece(Queen, Black)));
    assert_eq!(b.get((2, 1)), Some(Piece(King, Black)));
    assert_eq!(b.get((1, 0)), None);
    let king_late = "White\n0\n_ _ _ _ _ _ _ _ \u{265A}\n\u{2654}\n";
    assert!(Board::from_text(king_late).is_err());
}

#[test]
fn glyphs_and_names() {
    assert_eq!(Piece(Pawn, White).glyph(), '\u{2659}');
    assert_eq!(Piece(King, Black).glyph(), '\u{265A}');
    assert_eq!(Piece::from_glyph('\u{265B}'), Some(Piece(Queen, Black)));
    assert_eq!(Piece::from_glyph('Q'), None);
    assert_eq!(White.name(), "White");
    assert_eq!(Black.name(), "Black");
    assert_eq!(White.other(), Black);
    assert!(Piece(King, White).is_king());
    assert!(!Piece(Queen, White).is_king());
    assert_eq!(Piece(Knight, Black).piece_type(), Knight);
    assert_eq!(Piece(Knight, Black).color(), Black);
}

#[test]
fn random_moves_are_legal() {
    let mut board = Board::new();
    for _ in 0..30 {
        if board.check_mate(None) || board.turn() == 255 {
            break;
        }
        let (from, to) = Board::random_move(&board);
        assert_eq!(board.validate_from(from, None), Ok(()));
        assert_eq!(board.validate_move(from, to, None), Ok(()));
        board = board.execute_move(from, to);
    }
}

#[test]
fn pieces_and_positions_parse_from_str() {
    assert_eq!("\u{2655}".parse::<Piece>(), Ok(Piece(Queen, White)));
    assert_eq!("  \u{265E}\n".parse::<Piece>(), Ok(Piece(Knight, Black)));
    assert_eq!("Q".parse::<Piece>(), Err("Not a recognized piece".to_string()));
    assert_eq!("".parse::<Piece>(), Err("Not a recognized piece".to_string()));
    assert_eq!("\u{2655}\u{2655}".parse::<Piece>(), Err("Not a recognized piece".to_string()));
    assert_eq!(Piece::from_token(" \u{2659} "), Ok(Piece(Pawn, White)));
    let board = Board::new();
    let back: Board = board.to_text().parse().unwrap();
    assert!(same_position(&board, &back));
    assert!("Black\nx\n".parse::<Board>().is_err());
}
