//! Piece/color codec: the piece and color enumerations and the packing of a
//! (piece, color) pair into a single byte cell value.
//!
//! A cell byte is 0 for "empty", or `ordinal * 2 + color_bit` for an occupied
//! cell: bit 0 is the color, the remaining bits are the piece ordinal 1-6
//! (Pawn, Bishop, Rook, Knight, Queen, King, in that order — type identity,
//! not move-power order). Ordinal 0 is reserved for "empty", so occupied
//! cell values range over 2..=13.

use vstd::prelude::*;

verus! {

/// A piece type. The ordinal assignment (1-6, in declaration order) is given
/// by `piece_ordinal`.
#[derive(Clone, Copy, PartialEq, Eq, Structural, Debug)]
pub enum Piece {
    Pawn,
    Bishop,
    Rook,
    Knight,
    Queen,
    King,
}

/// A side, bidirectionally convertible to a boolean ("is white").
#[derive(Clone, Copy, PartialEq, Eq, Structural, Debug)]
pub enum Color {
    Black,
    White,
}

/// The ordinal packed into a cell's piece bits, 1-6.
pub open spec fn piece_ordinal(p: Piece) -> u8 {
    match p {
        Piece::Pawn => 1,
        Piece::Bishop => 2,
        Piece::Rook => 3,
        Piece::Knight => 4,
        Piece::Queen => 5,
        Piece::King => 6,
    }
}

/// The bit packed into a cell's color bit: White is 1, Black is 0.
pub open spec fn color_bit(c: Color) -> u8 {
    match c {
        Color::Black => 0,
        Color::White => 1,
    }
}

/// The cell byte for an occupied cell: piece ordinal in the high bits, color
/// in bit 0.
pub open spec fn spec_encode(p: Piece, c: Color) -> u8 {
    (piece_ordinal(p) * 2 + color_bit(c)) as u8
}

/// The bytes that decode to a (piece, color) pair: exactly the range of
/// `spec_encode`. 0 means "empty" and anything else is no known piece.
pub open spec fn valid_cell_code(v: u8) -> bool {
    2 <= v <= 13
}

/// The color in a cell byte's bit 0.
pub open spec fn spec_cell_color(v: u8) -> Color {
    if v % 2 == 1 {
        Color::White
    } else {
        Color::Black
    }
}

/// The piece named by a cell byte's ordinal bits, meaningful only when
/// `valid_cell_code` holds.
pub open spec fn spec_cell_piece(v: u8) -> Piece {
    let ord = v / 2;
    if ord == 1 {
        Piece::Pawn
    } else if ord == 2 {
        Piece::Bishop
    } else if ord == 3 {
        Piece::Rook
    } else if ord == 4 {
        Piece::Knight
    } else if ord == 5 {
        Piece::Queen
    } else {
        Piece::King
    }
}

/// Decoding inverts encoding on every valid cell byte.
pub proof fn lemma_codec_round_trip(v: u8)
    requires
        valid_cell_code(v),
    ensures
        spec_encode(spec_cell_piece(v), spec_cell_color(v)) == v,
{
}

impl Piece {
    /// The piece with the given cell ordinal, or `None` for the reserved
    /// ordinal 0 and for unassigned ordinals above 6.
    pub fn try_from_ordinal(value: u8) -> (r: Option<Piece>)
        ensures
            r is Some <==> 1 <= value <= 6,
            r matches Some(p) ==> piece_ordinal(p) == value,
    {
        if value == 1 {
            Some(Piece::Pawn)
        } else if value == 2 {
            Some(Piece::Bishop)
        } else if value == 3 {
            Some(Piece::Rook)
        } else if value == 4 {
            Some(Piece::Knight)
        } else if value == 5 {
            Some(Piece::Queen)
        } else if value == 6 {
            Some(Piece::King)
        } else {
            None
        }
    }
}

impl Color {
    /// Whether this color is White.
    pub fn is_white(self) -> (r: bool)
        ensures
            r == (self is White),
    {
        match self {
            Color::White => true,
            Color::Black => false,
        }
    }

    /// The color whose "is white" boolean is `value`.
    pub fn from_bool(value: bool) -> (r: Color)
        ensures
            r is White == value,
    {
        if value {
            Color::White
        } else {
            Color::Black
        }
    }

    /// The color with the given bit, or `None` for a value that is neither
    /// 0 nor 1.
    pub fn try_from_bit(value: u8) -> (r: Option<Color>)
        ensures
            r is Some <==> value <= 1,
            r matches Some(c) ==> color_bit(c) == value,
    {
        if value == 0 {
            Some(Color::Black)
        } else if value == 1 {
            Some(Color::White)
        } else {
            None
        }
    }
}

/// The cell byte that stands for `piece` of `color`.
pub fn new_piece(piece: Piece, color: Color) -> (r: u8)
    ensures
        r == spec_encode(piece, color),
        valid_cell_code(r),
{
    let ord: u8 = match piece {
        Piece::Pawn => 1,
        Piece::Bishop => 2,
        Piece::Rook => 3,
        Piece::Knight => 4,
        Piece::Queen => 5,
        Piece::King => 6,
    };
    let bit: u8 = match color {
        Color::Black => 0,
        Color::White => 1,
    };
    ord * 2 + bit
}

/// The (piece, color) pair a cell byte stands for.
///
/// Callers must guarantee the byte is a valid occupied-cell value: 0 means
/// "empty", not a piece, and a byte whose ordinal bits exceed 6 names no
/// piece. Handing either to this function is a defect in the caller.
pub fn piece_from_u8(input: u8) -> (r: (Piece, Color))
    requires
        valid_cell_code(input),
    ensures
        r.0 == spec_cell_piece(input),
        r.1 == spec_cell_color(input),
        spec_encode(r.0, r.1) == input,
{
    let ord = input / 2;
    let piece = if ord == 1 {
        Piece::Pawn
    } else if ord == 2 {
        Piece::Bishop
    } else if ord == 3 {
        Piece::Rook
    } else if ord == 4 {
        Piece::Knight
    } else if ord == 5 {
        Piece::Queen
    } else {
        Piece::King
    };
    let color = if input % 2 == 1 {
        Color::White
    } else {
        Color::Black
    };
    (piece, color)
}

} // verus!

