use whale::pieces::{new_piece, piece_from_u8, Color, Piece};

#[test]
fn encode_packs_ordinal_and_color() {
    // ordinal * 2 + color bit
    assert_eq!(new_piece(Piece::Pawn, Color::Black), 2);
    assert_eq!(new_piece(Piece::Pawn, Color::White), 3);
    assert_eq!(new_piece(Piece::Bishop, Color::Black), 4);
    assert_eq!(new_piece(Piece::Bishop, Color::White), 5);
    assert_eq!(new_piece(Piece::Rook, Color::Black), 6);
    assert_eq!(new_piece(Piece::Rook, Color::White), 7);
    assert_eq!(new_piece(Piece::Knight, Color::Black), 8);
    assert_eq!(new_piece(Piece::Knight, Color::White), 9);
    assert_eq!(new_piece(Piece::Queen, Color::Black), 10);
    assert_eq!(new_piece(Piece::Queen, Color::White), 11);
    assert_eq!(new_piece(Piece::King, Color::Black), 12);
    assert_eq!(new_piece(Piece::King, Color::White), 13);
}

#[test]
fn decode_inverts_encode() {
    let pieces = [
        Piece::Pawn,
        Piece::Bishop,
        Piece::Rook,
        Piece::Knight,
        Piece::Queen,
        Piece::King,
    ];
    for piece in pieces {
        for color in [Color::Black, Color::White] {
            let cell = new_piece(piece, color);
            let (p, c) = piece_from_u8(cell);
            assert_eq!(p, piece);
            assert_eq!(c, color);
        }
    }
}

#[test]
fn piece_ordinals_are_assigned_in_type_order() {
    assert_eq!(Piece::try_from_ordinal(0), None);
    assert_eq!(Piece::try_from_ordinal(1), Some(Piece::Pawn));
    assert_eq!(Piece::try_from_ordinal(2), Some(Piece::Bishop));
    assert_eq!(Piece::try_from_ordinal(3), Some(Piece::Rook));
    assert_eq!(Piece::try_from_ordinal(4), Some(Piece::Knight));
    assert_eq!(Piece::try_from_ordinal(5), Some(Piece::Queen));
    assert_eq!(Piece::try_from_ordinal(6), Some(Piece::King));
    assert_eq!(Piece::try_from_ordinal(7), None);
    assert_eq!(Piece::try_from_ordinal(255), None);
}

#[test]
fn color_boolean_conversions() {
    assert!(Color::White.is_white());
    assert!(!Color::Black.is_white());
    assert_eq!(Color::from_bool(true), Color::White);
    assert_eq!(Color::from_bool(false), Color::Black);
    assert_eq!(Color::try_from_bit(0), Some(Color::Black));
    assert_eq!(Color::try_from_bit(1), Some(Color::White));
    assert_eq!(Color::try_from_bit(2), None);
}
