use whale::board::{piece_name_for_square, Board, FenError};
use whale::mailbox::Mailbox64Index;
use whale::pieces::{new_piece, piece_from_u8, Color, Piece};

const START_FEN: &str = "rnbqkbnr/pppppppp/8/8/8/8/PPPPPPPP/RNBQKBNR w KQkq - 0 1";

fn cells_of(board: &Board) -> Vec<u8> {
    (0..64u8).map(|i| board.cell(Mailbox64Index(i))).collect()
}

#[test]
fn default_board_piece_counts() {
    // 16 pawns (8 each color), 1 king per color, all castling flags, no
    // en-passant target, halfmove 0, fullmove 1
    let board = Board::default();
    let cells = cells_of(&board);
    let mut white_pawns = 0;
    let mut black_pawns = 0;
    let mut white_kings = 0;
    let mut black_kings = 0;
    for &cell in &cells {
        if cell != 0 {
            let (piece, color) = piece_from_u8(cell);
            match (piece, color) {
                (Piece::Pawn, Color::White) => white_pawns += 1,
                (Piece::Pawn, Color::Black) => black_pawns += 1,
                (Piece::King, Color::White) => white_kings += 1,
                (Piece::King, Color::Black) => black_kings += 1,
                _ => {}
            }
        }
    }
    assert_eq!(white_pawns, 8);
    assert_eq!(black_pawns, 8);
    assert_eq!(white_kings, 1);
    assert_eq!(black_kings, 1);
    for i in 0..4 {
        assert!(board.castling_availability(i));
    }
    assert_eq!(board.en_passant_target_square(), None);
    assert_eq!(board.halfmove_clock(), 0);
    assert_eq!(board.fullmove_clock(), 1);
    assert_eq!(board.turn(), Color::White);
}

#[test]
fn default_board_equals_parsed_starting_fen() {
    let parsed = Board::new(START_FEN).expect("the starting FEN parses");
    let default = Board::default();
    assert_eq!(cells_of(&parsed), cells_of(&default));
    assert_eq!(parsed.turn(), default.turn());
    for i in 0..4 {
        assert_eq!(parsed.castling_availability(i), default.castling_availability(i));
    }
    assert_eq!(parsed.en_passant_target_square(), default.en_passant_target_square());
    assert_eq!(parsed.halfmove_clock(), default.halfmove_clock());
    assert_eq!(parsed.fullmove_clock(), default.fullmove_clock());
}

#[test]
fn parses_position_fields() {
    let board = Board::new("8/8/8/8/8/8/4P3/8 b Kq e3 37 42").expect("well-formed FEN");
    let cells = cells_of(&board);
    assert_eq!(cells[52], new_piece(Piece::Pawn, Color::White));
    for (i, &cell) in cells.iter().enumerate() {
        if i != 52 {
            assert_eq!(cell, 0);
        }
    }
    assert_eq!(board.turn(), Color::Black);
    assert!(board.castling_availability(0));
    assert!(!board.castling_availability(1));
    assert!(!board.castling_availability(2));
    assert!(board.castling_availability(3));
    assert_eq!(board.en_passant_target_square(), Some(Mailbox64Index(20)));
    assert_eq!(board.halfmove_clock(), 37);
    assert_eq!(board.fullmove_clock(), 42);
}

#[test]
fn parses_digit_run_lengths() {
    let board = Board::new("r6r/8/8/8/8/8/8/R6R w - - 0 1").expect("well-formed FEN");
    let cells = cells_of(&board);
    assert_eq!(cells[0], new_piece(Piece::Rook, Color::Black));
    assert_eq!(cells[7], new_piece(Piece::Rook, Color::Black));
    assert_eq!(cells[56], new_piece(Piece::Rook, Color::White));
    assert_eq!(cells[63], new_piece(Piece::Rook, Color::White));
    assert_eq!(cells.iter().filter(|&&c| c != 0).count(), 4);
}

#[test]
fn accepts_surrounding_whitespace() {
    let board = Board::new("  8/8/8/8/8/8/8/8   w  -  -  0  1  ");
    assert!(board.is_ok());
}

#[test]
fn rejects_five_fields() {
    // P-style scenario: one field short must be its own identifiable error
    let r = Board::new("rnbqkbnr/pppppppp/8/8/8/8/PPPPPPPP/RNBQKBNR w KQkq - 0");
    assert_eq!(r.err(), Some(FenError::FieldCount));
}

#[test]
fn rejects_seven_fields() {
    let r = Board::new("rnbqkbnr/pppppppp/8/8/8/8/PPPPPPPP/RNBQKBNR w KQkq - 0 1 x");
    assert_eq!(r.err(), Some(FenError::FieldCount));
}

#[test]
fn rejects_short_rank() {
    // a rank summing to 7 files is distinct from a missing field
    let r = Board::new("rnbqkbnr/ppppppp/8/8/8/8/PPPPPPPP/RNBQKBNR w KQkq - 0 1");
    assert_eq!(r.err(), Some(FenError::RankWidth));
    let five_fields = Board::new("rnbqkbnr/pppppppp/8/8/8/8/PPPPPPPP/RNBQKBNR w KQkq - 0");
    assert_ne!(r.err(), five_fields.err());
}

#[test]
fn rejects_long_rank() {
    let r = Board::new("rnbqkbnr/ppppppppp/8/8/8/8/PPPPPPPP/RNBQKBNR w KQkq - 0 1");
    assert_eq!(r.err(), Some(FenError::RankWidth));
    let r = Board::new("9P/8/8/8/8/8/8/8 w - - 0 1");
    assert_eq!(r.err(), Some(FenError::RankWidth));
}

#[test]
fn rejects_wrong_rank_count() {
    let r = Board::new("8/8/8/8/8/8/8/8/8 w - - 0 1");
    assert_eq!(r.err(), Some(FenError::RankCount));
    let r = Board::new("8/8 w - - 0 1");
    assert_eq!(r.err(), Some(FenError::RankCount));
}

#[test]
fn rejects_unknown_piece_letter() {
    let r = Board::new("xnbqkbnr/pppppppp/8/8/8/8/PPPPPPPP/RNBQKBNR w KQkq - 0 1");
    assert_eq!(r.err(), Some(FenError::PieceChar));
}

#[test]
fn rejects_bad_turn_token() {
    let r = Board::new("8/8/8/8/8/8/8/8 x - - 0 1");
    assert_eq!(r.err(), Some(FenError::Turn));
    let r = Board::new("8/8/8/8/8/8/8/8 ww - - 0 1");
    assert_eq!(r.err(), Some(FenError::Turn));
}

#[test]
fn rejects_bad_castling_character() {
    let r = Board::new("8/8/8/8/8/8/8/8 w X - 0 1");
    assert_eq!(r.err(), Some(FenError::Castling));
}

#[test]
fn rejects_bad_en_passant_square() {
    let r = Board::new("8/8/8/8/8/8/8/8 w - e9 0 1");
    assert_eq!(r.err(), Some(FenError::EnPassant));
    let r = Board::new("8/8/8/8/8/8/8/8 w - ee3 0 1");
    assert_eq!(r.err(), Some(FenError::EnPassant));
}

#[test]
fn rejects_bad_halfmove_clock() {
    let r = Board::new("8/8/8/8/8/8/8/8 w - - x 1");
    assert_eq!(r.err(), Some(FenError::HalfmoveClock));
    // the halfmove clock is a byte
    let r = Board::new("8/8/8/8/8/8/8/8 w - - 256 1");
    assert_eq!(r.err(), Some(FenError::HalfmoveClock));
    let ok = Board::new("8/8/8/8/8/8/8/8 w - - 255 1");
    assert_eq!(ok.unwrap().halfmove_clock(), 255);
    let r = Board::new("8/8/8/8/8/8/8/8 w - - +1 1");
    assert_eq!(r.err(), Some(FenError::HalfmoveClock));
}

#[test]
fn rejects_bad_fullmove_clock() {
    let r = Board::new("8/8/8/8/8/8/8/8 w - - 0 x");
    assert_eq!(r.err(), Some(FenError::FullmoveClock));
    let r = Board::new("8/8/8/8/8/8/8/8 w - - 0 99999999999999999999999999");
    assert_eq!(r.err(), Some(FenError::FullmoveClock));
}

#[test]
fn piece_names_for_rendering() {
    let board = Board::default();
    assert_eq!(piece_name_for_square(board, 0, 0), Some("black_rook".to_string()));
    assert_eq!(piece_name_for_square(board, 0, 4), Some("black_king".to_string()));
    assert_eq!(piece_name_for_square(board, 1, 3), Some("black_pawn".to_string()));
    assert_eq!(piece_name_for_square(board, 6, 0), Some("white_pawn".to_string()));
    assert_eq!(piece_name_for_square(board, 7, 3), Some("white_queen".to_string()));
    assert_eq!(piece_name_for_square(board, 7, 6), Some("white_knight".to_string()));
    assert_eq!(piece_name_for_square(board, 7, 2), Some("white_bishop".to_string()));
    assert_eq!(piece_name_for_square(board, 4, 4), None);
}
