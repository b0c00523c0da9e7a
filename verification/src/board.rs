//! The board: the 64-cell array plus side-to-move, castling rights,
//! en-passant target and move clocks, constructed by parsing
//! Forsyth-Edwards Notation (FEN).
//!
//! A board is a value type: duplicating it duplicates all state. This core
//! never mutates a board after construction; move generation is a pure
//! function of (board, square).

use crate::mailbox::{spec_square_of_algebraic, Mailbox64Index};
use crate::pieces::{
    new_piece, piece_from_u8, spec_cell_color, spec_cell_piece, spec_encode, valid_cell_code,
    Color, Piece,
};
use vstd::prelude::*;

verus! {

/// The reason a FEN string was rejected. Malformed input is always surfaced
/// as one of these, never coerced to a default board.
#[derive(Clone, Copy, PartialEq, Eq, Structural, Debug)]
pub enum FenError {
    /// Not exactly 6 whitespace-separated fields.
    FieldCount,
    /// The active-color field is neither `w` nor `b`.
    Turn,
    /// The castling field holds a character outside `KQkq-`.
    Castling,
    /// The en-passant field is neither `-` nor an algebraic square.
    EnPassant,
    /// The halfmove clock is not a digit run fitting in 0-255.
    HalfmoveClock,
    /// The fullmove counter is not a digit run fitting the machine word.
    FullmoveClock,
    /// The placement field holds a character that is no piece letter, digit
    /// or rank separator.
    PieceChar,
    /// A rank's digit run-lengths and piece letters do not sum to 8 files.
    RankWidth,
    /// The placement field does not hold exactly 8 ranks.
    RankCount,
}

/// The abstract state of a board.
#[verifier::ext_equal]
pub ghost struct BoardV {
    /// Cell bytes, rank-major, rank 0 topmost as written in FEN.
    pub cells: Seq<u8>,
    /// The side to move.
    pub turn: Color,
    /// White kingside, White queenside, Black kingside, Black queenside.
    pub castling: Seq<bool>,
    /// The en-passant target square, if any.
    pub en_passant: Option<Mailbox64Index>,
    /// Halfmove clock, 0-255.
    pub halfmove_clock: u8,
    /// Fullmove counter.
    pub fullmove_clock: usize,
}

impl BoardV {
    /// Well-formedness: 64 cells, each either empty or a valid piece code;
    /// four castling flags; an in-range en-passant square if present.
    pub open spec fn wf(self) -> bool {
        &&& self.cells.len() == 64
        &&& forall|i: int|
            0 <= i < 64 ==> (#[trigger] self.cells[i] == 0 || valid_cell_code(self.cells[i]))
        &&& self.castling.len() == 4
        &&& (self.en_passant matches Some(m) ==> m.wf())
    }
}

/// A chessboard position.
#[derive(Clone, Copy)]
pub struct Board {
    cells: [u8; 64],
    turn: Color,
    castling_availability: [bool; 4],
    en_passant_target_square: Option<Mailbox64Index>,
    halfmove_clock: u8,
    fullmove_clock: usize,
}

impl View for Board {
    type V = BoardV;

    closed spec fn view(&self) -> BoardV {
        BoardV {
            cells: self.cells@,
            turn: self.turn,
            castling: self.castling_availability@,
            en_passant: self.en_passant_target_square,
            halfmove_clock: self.halfmove_clock,
            fullmove_clock: self.fullmove_clock,
        }
    }
}

impl Board {
    /// Well-formedness of the concrete board.
    pub open spec fn wf(self) -> bool {
        self@.wf()
    }

    /// The cell byte at a square: 0 for empty, otherwise a packed
    /// (piece, color) pair.
    pub fn cell(&self, square: Mailbox64Index) -> (r: u8)
        requires
            square.wf(),
        ensures
            r == self@.cells[square.0 as int],
    {
        self.cells[square.0 as usize]
    }

    /// The side to move.
    pub fn turn(&self) -> (r: Color)
        ensures
            r == self@.turn,
    {
        self.turn
    }

    /// One of the four castling-availability flags: 0 White kingside,
    /// 1 White queenside, 2 Black kingside, 3 Black queenside.
    pub fn castling_availability(&self, i: usize) -> (r: bool)
        requires
            i < 4,
        ensures
            r == self@.castling[i as int],
    {
        self.castling_availability[i]
    }

    /// The en-passant target square, if any.
    pub fn en_passant_target_square(&self) -> (r: Option<Mailbox64Index>)
        ensures
            r == self@.en_passant,
    {
        self.en_passant_target_square
    }

    /// The halfmove clock.
    pub fn halfmove_clock(&self) -> (r: u8)
        ensures
            r == self@.halfmove_clock,
    {
        self.halfmove_clock
    }

    /// The fullmove counter.
    pub fn fullmove_clock(&self) -> (r: usize)
        ensures
            r == self@.fullmove_clock,
    {
        self.fullmove_clock
    }
}

/// The separators between FEN fields: ASCII whitespace.
pub open spec fn is_fen_whitespace(c: char) -> bool {
    c == ' ' || c == '\t' || c == '\n' || c == '\r' || c == '\u{c}'
}

/// The first index at or after `i` holding a non-whitespace character, or
/// the string's end.
pub open spec fn ws_end(s: Seq<char>, i: int) -> int
    decreases s.len() - i,
{
    if i < 0 || i >= s.len() {
        i
    } else if is_fen_whitespace(s[i]) {
        ws_end(s, i + 1)
    } else {
        i
    }
}

/// The first index at or after `i` holding a whitespace character, or the
/// string's end.
pub open spec fn token_end(s: Seq<char>, i: int) -> int
    decreases s.len() - i,
{
    if i < 0 || i >= s.len() {
        i
    } else if !is_fen_whitespace(s[i]) {
        token_end(s, i + 1)
    } else {
        i
    }
}

/// A decimal digit.
pub open spec fn is_digit(c: char) -> bool {
    '0' as int <= c as int <= '9' as int
}

/// A nonempty run of decimal digits.
pub open spec fn all_digits(s: Seq<char>) -> bool {
    s.len() > 0 && forall|i: int| 0 <= i < s.len() ==> is_digit(#[trigger] s[i])
}

/// The value of a digit run.
pub open spec fn digits_val(s: Seq<char>) -> int
    decreases s.len(),
{
    if s.len() == 0 {
        0
    } else {
        digits_val(s.drop_last()) * 10 + (s.last() as int - '0' as int)
    }
}

/// The active-color field: `w` or `b`.
pub open spec fn spec_parse_turn(s: Seq<char>) -> Result<Color, FenError> {
    if s.len() == 1 && s[0] == 'w' {
        Ok(Color::White)
    } else if s.len() == 1 && s[0] == 'b' {
        Ok(Color::Black)
    } else {
        Err(FenError::Turn)
    }
}

/// The castling field: any run over `KQkq-`; each letter present sets its
/// flag, `-` sets nothing.
pub open spec fn spec_parse_castling(s: Seq<char>) -> Result<Seq<bool>, FenError> {
    if forall|i: int|
        0 <= i < s.len() ==> (#[trigger] s[i] == 'K' || s[i] == 'Q' || s[i] == 'k' || s[i] == 'q'
            || s[i] == '-') {
        Ok(seq![s.contains('K'), s.contains('Q'), s.contains('k'), s.contains('q')])
    } else {
        Err(FenError::Castling)
    }
}

/// The en-passant field: `-` for no target, otherwise an algebraic square.
pub open spec fn spec_parse_en_passant(s: Seq<char>) -> Result<
    Option<Mailbox64Index>,
    FenError,
> {
    if s.len() == 1 && s[0] == '-' {
        Ok(None)
    } else if s.len() == 2 && spec_square_of_algebraic(s[0], s[1]) is Some {
        Ok(spec_square_of_algebraic(s[0], s[1]))
    } else {
        Err(FenError::EnPassant)
    }
}

/// A numeric field: a nonempty digit run whose value is at most `max`.
pub open spec fn spec_parse_clock(s: Seq<char>, max: int, e: FenError) -> Result<int, FenError> {
    if all_digits(s) && digits_val(s) <= max {
        Ok(digits_val(s))
    } else {
        Err(e)
    }
}

/// The cell byte a placement letter stands for, if it is a piece letter.
pub open spec fn piece_code_of_char(c: char) -> Option<u8> {
    if c == 'P' {
        Some(spec_encode(Piece::Pawn, Color::White))
    } else if c == 'N' {
        Some(spec_encode(Piece::Knight, Color::White))
    } else if c == 'B' {
        Some(spec_encode(Piece::Bishop, Color::White))
    } else if c == 'R' {
        Some(spec_encode(Piece::Rook, Color::White))
    } else if c == 'Q' {
        Some(spec_encode(Piece::Queen, Color::White))
    } else if c == 'K' {
        Some(spec_encode(Piece::King, Color::White))
    } else if c == 'p' {
        Some(spec_encode(Piece::Pawn, Color::Black))
    } else if c == 'n' {
        Some(spec_encode(Piece::Knight, Color::Black))
    } else if c == 'b' {
        Some(spec_encode(Piece::Bishop, Color::Black))
    } else if c == 'r' {
        Some(spec_encode(Piece::Rook, Color::Black))
    } else if c == 'q' {
        Some(spec_encode(Piece::Queen, Color::Black))
    } else if c == 'k' {
        Some(spec_encode(Piece::King, Color::Black))
    } else {
        None
    }
}

/// A rank's running file count, saturated just above the only value the
/// parser ever asks about: whether the count is exactly 8.
pub open spec fn width_plus(w: int, d: int) -> int {
    if w + d > 9 {
        9
    } else {
        w + d
    }
}

/// One step per character through the placement field, carrying the rank
/// index, the current rank's file count, and the cells filled so far.
/// A piece letter beyond the 8th file writes nothing: the rank's count can
/// no longer reach exactly 8, so the board is rejected at the next rank
/// separator or at the end of the field.
pub open spec fn spec_placement_loop(
    s: Seq<char>,
    i: int,
    row: int,
    width: int,
    cells: Seq<u8>,
) -> Result<Seq<u8>, FenError>
    decreases s.len() - i,
{
    if i < 0 || i >= s.len() {
        if width != 8 {
            Err(FenError::RankWidth)
        } else if row != 7 {
            Err(FenError::RankCount)
        } else {
            Ok(cells)
        }
    } else {
        let c = s[i];
        if c == '/' {
            if width != 8 {
                Err(FenError::RankWidth)
            } else if row >= 7 {
                Err(FenError::RankCount)
            } else {
                spec_placement_loop(s, i + 1, row + 1, 0, cells)
            }
        } else if is_digit(c) {
            spec_placement_loop(s, i + 1, row, width_plus(width, c as int - '0' as int), cells)
        } else {
            match piece_code_of_char(c) {
                Some(code) => if width < 8 {
                    spec_placement_loop(s, i + 1, row, width + 1, cells.update(row * 8 + width, code))
                } else {
                    spec_placement_loop(s, i + 1, row, 9, cells)
                },
                None => Err(FenError::PieceChar),
            }
        }
    }
}

/// The placement field: 8 `/`-separated ranks, each expanding to exactly 8
/// files via digit run-lengths and piece letters.
pub open spec fn spec_parse_placement(s: Seq<char>) -> Result<Seq<u8>, FenError> {
    spec_placement_loop(s, 0, 0, 0, Seq::new(64, |i: int| 0u8))
}

/// The whole FEN grammar: exactly 6 whitespace-separated fields, parsed in
/// the order the fields are validated — active color, en-passant target,
/// halfmove clock, fullmove counter, castling availability, piece
/// placement. The first failure names the offending field.
pub open spec fn spec_parse_fen(s: Seq<char>) -> Result<BoardV, FenError> {
    let a1 = ws_end(s, 0);
    let b1 = token_end(s, a1);
    let a2 = ws_end(s, b1);
    let b2 = token_end(s, a2);
    let a3 = ws_end(s, b2);
    let b3 = token_end(s, a3);
    let a4 = ws_end(s, b3);
    let b4 = token_end(s, a4);
    let a5 = ws_end(s, b4);
    let b5 = token_end(s, a5);
    let a6 = ws_end(s, b5);
    let b6 = token_end(s, a6);
    if a6 >= s.len() || ws_end(s, b6) < s.len() {
        Err(FenError::FieldCount)
    } else {
        match spec_parse_turn(s.subrange(a2, b2)) {
            Err(e) => Err(e),
            Ok(turn) => match spec_parse_en_passant(s.subrange(a4, b4)) {
                Err(e) => Err(e),
                Ok(en_passant) => match spec_parse_clock(
                    s.subrange(a5, b5),
                    u8::MAX as int,
                    FenError::HalfmoveClock,
                ) {
                    Err(e) => Err(e),
                    Ok(halfmove) => match spec_parse_clock(
                        s.subrange(a6, b6),
                        usize::MAX as int,
                        FenError::FullmoveClock,
                    ) {
                        Err(e) => Err(e),
                        Ok(fullmove) => match spec_parse_castling(s.subrange(a3, b3)) {
                            Err(e) => Err(e),
                            Ok(castling) => match spec_parse_placement(s.subrange(a1, b1)) {
                                Err(e) => Err(e),
                                Ok(cells) => Ok(
                                    BoardV {
                                        cells,
                                        turn,
                                        castling,
                                        en_passant,
                                        halfmove_clock: halfmove as u8,
                                        fullmove_clock: fullmove as usize,
                                    },
                                ),
                            },
                        },
                    },
                },
            },
        }
    }
}

/// The characters of a string, in order.
fn chars_of(s: &str) -> (r: Vec<char>)
    ensures
        r@ == s@,
{
    let n = s.unicode_len();
    let mut chars: Vec<char> = Vec::new();
    let mut i: usize = 0;
    while i < n
        invariant
            i <= n,
            n == s@.len(),
            chars@ == s@.subrange(0, i as int),
        decreases n - i,
    {
        let c = s.get_char(i);
        chars.push(c);
        proof {
            assert(chars@ =~= s@.subrange(0, i + 1));
        }
        i = i + 1;
    }
    proof {
        assert(s@.subrange(0, s@.len() as int) =~= s@);
    }
    chars
}

/// Whether a character separates FEN fields.
fn is_ws(c: char) -> (r: bool)
    ensures
        r == is_fen_whitespace(c),
{
    c == ' ' || c == '\t' || c == '\n' || c == '\r' || c == '\u{c}'
}

/// First non-whitespace position at or after `i`.
fn skip_ws(s: &Vec<char>, i: usize) -> (r: usize)
    requires
        i <= s@.len(),
    ensures
        r == ws_end(s@, i as int),
        i <= r <= s@.len(),
{
    let n = s.len();
    let mut j = i;
    while j < n
        invariant
            i <= j <= n,
            n == s@.len(),
            ws_end(s@, i as int) == ws_end(s@, j as int),
        decreases n - j,
    {
        if !is_ws(s[j]) {
            return j;
        }
        j = j + 1;
    }
    j
}

/// First whitespace position at or after `i`.
fn scan_token(s: &Vec<char>, i: usize) -> (r: usize)
    requires
        i <= s@.len(),
    ensures
        r == token_end(s@, i as int),
        i <= r <= s@.len(),
{
    let n = s.len();
    let mut j = i;
    while j < n
        invariant
            i <= j <= n,
            n == s@.len(),
            token_end(s@, i as int) == token_end(s@, j as int),
        decreases n - j,
    {
        if is_ws(s[j]) {
            return j;
        }
        j = j + 1;
    }
    j
}

/// Membership in a subrange is witnessed by an index of the underlying
/// sequence.
proof fn lemma_subrange_contains(s: Seq<char>, a: int, b: int, c: char)
    requires
        0 <= a <= b <= s.len(),
    ensures
        s.subrange(a, b).contains(c) <==> exists|t: int| a <= t < b && s[t] == c,
{
    let sub = s.subrange(a, b);
    if sub.contains(c) {
        let j = choose|j: int| 0 <= j < sub.len() && sub[j] == c;
        assert(s[a + j] == c);
    }
    if exists|t: int| a <= t < b && s[t] == c {
        let t = choose|t: int| a <= t < b && s[t] == c;
        assert(sub[t - a] == c);
    }
}

/// The active-color field of a FEN string.
fn parse_turn(s: &Vec<char>, a: usize, b: usize) -> (r: Result<Color, FenError>)
    requires
        a <= b <= s@.len(),
    ensures
        r == spec_parse_turn(s@.subrange(a as int, b as int)),
{
    let ghost sub = s@.subrange(a as int, b as int);
    if b - a == 1 {
        let c = s[a];
        proof {
            assert(sub[0] == s@[a as int]);
        }
        if c == 'w' {
            Ok(Color::White)
        } else if c == 'b' {
            Ok(Color::Black)
        } else {
            Err(FenError::Turn)
        }
    } else {
        Err(FenError::Turn)
    }
}

/// The en-passant field of a FEN string.
fn parse_en_passant(s: &Vec<char>, a: usize, b: usize) -> (r: Result<
    Option<Mailbox64Index>,
    FenError,
>)
    requires
        a <= b <= s@.len(),
    ensures
        r == spec_parse_en_passant(s@.subrange(a as int, b as int)),
        r matches Ok(Some(m)) ==> m.wf(),
{
    let ghost sub = s@.subrange(a as int, b as int);
    if b - a == 1 && s[a] == '-' {
        proof {
            assert(sub[0] == s@[a as int]);
        }
        Ok(None)
    } else if b - a == 2 {
        proof {
            assert(sub[0] == s@[a as int]);
            assert(sub[1] == s@[a + 1]);
        }
        match Mailbox64Index::from_algebraic(s[a], s[a + 1]) {
            Some(m) => Ok(Some(m)),
            None => Err(FenError::EnPassant),
        }
    } else {
        Err(FenError::EnPassant)
    }
}

/// The castling field of a FEN string.
fn parse_castling(s: &Vec<char>, a: usize, b: usize) -> (r: Result<[bool; 4], FenError>)
    requires
        a <= b <= s@.len(),
    ensures
        match r {
            Ok(flags) => spec_parse_castling(s@.subrange(a as int, b as int)) matches Ok(sf)
                && flags@ == sf,
            Err(e) => spec_parse_castling(s@.subrange(a as int, b as int)) matches Err(se) && e
                == se,
        },
{
    let ghost sub = s@.subrange(a as int, b as int);
    let mut flags: [bool; 4] = [false, false, false, false];
    let mut i = a;
    while i < b
        invariant
            a <= i <= b <= s@.len(),
            sub == s@.subrange(a as int, b as int),
            forall|t: int|
                a <= t < i ==> (#[trigger] s@[t] == 'K' || s@[t] == 'Q' || s@[t] == 'k'
                    || s@[t] == 'q' || s@[t] == '-'),
            flags@.len() == 4,
            flags@[0] == exists|t: int| a <= t < i && s@[t] == 'K',
            flags@[1] == exists|t: int| a <= t < i && s@[t] == 'Q',
            flags@[2] == exists|t: int| a <= t < i && s@[t] == 'k',
            flags@[3] == exists|t: int| a <= t < i && s@[t] == 'q',
        decreases b - i,
    {
        let c = s[i];
        if c == 'K' {
            flags[0] = true;
        } else if c == 'Q' {
            flags[1] = true;
        } else if c == 'k' {
            flags[2] = true;
        } else if c == 'q' {
            flags[3] = true;
        } else if c == '-' {
        } else {
            proof {
                assert(sub[i - a] == s@[i as int]);
            }
            return Err(FenError::Castling);
        }
        i = i + 1;
    }
    proof {
        assert forall|j: int| 0 <= j < sub.len() implies (#[trigger] sub[j] == 'K' || sub[j] == 'Q'
            || sub[j] == 'k' || sub[j] == 'q' || sub[j] == '-') by {
            assert(sub[j] == s@[a + j]);
        }
        lemma_subrange_contains(s@, a as int, b as int, 'K');
        lemma_subrange_contains(s@, a as int, b as int, 'Q');
        lemma_subrange_contains(s@, a as int, b as int, 'k');
        lemma_subrange_contains(s@, a as int, b as int, 'q');
        assert(flags@ =~= seq![sub.contains('K'), sub.contains('Q'), sub.contains('k'), sub.contains('q')]);
    }
    Ok(flags)
}

/// A digit run's value is never negative.
proof fn lemma_digits_val_nonneg(s: Seq<char>)
    requires
        forall|i: int| 0 <= i < s.len() ==> is_digit(#[trigger] s[i]),
    ensures
        digits_val(s) >= 0,
    decreases s.len(),
{
    if s.len() > 0 {
        lemma_digits_val_nonneg(s.drop_last());
    }
}

/// Extending a digit run never shrinks its value.
proof fn lemma_digits_val_prefix(s: Seq<char>, j: int)
    requires
        forall|i: int| 0 <= i < s.len() ==> is_digit(#[trigger] s[i]),
        0 <= j <= s.len(),
    ensures
        digits_val(s.take(j)) <= digits_val(s),
    decreases s.len(),
{
    if j == s.len() {
        assert(s.take(j) =~= s);
    } else {
        lemma_digits_val_nonneg(s.drop_last());
        assert(s.drop_last().take(j) =~= s.take(j));
        lemma_digits_val_prefix(s.drop_last(), j);
    }
}

/// The overflow guard `acc > (max - d) / 10` is exactly the condition
/// `acc * 10 + d > max`.
proof fn lemma_digit_step(acc: int, d: int, max: int)
    requires
        0 <= d <= 9,
        0 <= acc,
        d <= max,
    ensures
        (acc > (max - d) / 10) <==> (acc * 10 + d > max),
{
    let m = max - d;
    vstd::arithmetic::div_mod::lemma_fundamental_div_mod(m, 10);
}

/// A numeric FEN field: a nonempty digit run whose value fits below `max`.
fn parse_clock(s: &Vec<char>, a: usize, b: usize, max: usize, e: FenError) -> (r: Result<
    usize,
    FenError,
>)
    requires
        a <= b <= s@.len(),
    ensures
        match r {
            Ok(v) => spec_parse_clock(s@.subrange(a as int, b as int), max as int, e)
                matches Ok(sv) && v == sv,
            Err(e2) => spec_parse_clock(s@.subrange(a as int, b as int), max as int, e)
                matches Err(se) && e2 == se,
        },
{
    let ghost sub = s@.subrange(a as int, b as int);
    if a == b {
        return Err(e);
    }
    let mut acc: usize = 0;
    let mut i = a;
    while i < b
        invariant
            a <= i <= b <= s@.len(),
            a < b,
            sub == s@.subrange(a as int, b as int),
            forall|t: int| 0 <= t < i - a ==> is_digit(#[trigger] sub[t]),
            acc == digits_val(sub.take(i - a)),
            acc <= max,
        decreases b - i,
    {
        let c = s[i];
        proof {
            assert(sub[i - a] == s@[i as int]);
        }
        if c < '0' || c > '9' {
            proof {
                assert(!is_digit(sub[i - a]));
            }
            return Err(e);
        }
        let d = (c as u32 - '0' as u32) as usize;
        proof {
            assert(is_digit(sub[i - a]));
            assert(d as int == sub[i - a] as int - '0' as int);
            assert(sub.take(i - a + 1).drop_last() =~= sub.take(i - a));
            assert(sub.take(i - a + 1).last() == sub[i - a]);
            assert(digits_val(sub.take(i - a + 1)) == acc * 10 + d);
        }
        if d > max || acc > (max - d) / 10 {
            proof {
                if d <= max {
                    lemma_digit_step(acc as int, d as int, max as int);
                }
                assert(acc * 10 + d > max);
                if forall|t: int| 0 <= t < sub.len() ==> is_digit(#[trigger] sub[t]) {
                    lemma_digits_val_prefix(sub, i - a + 1);
                }
            }
            return Err(e);
        }
        proof {
            lemma_digit_step(acc as int, d as int, max as int);
        }
        acc = acc * 10 + d;
        i = i + 1;
    }
    proof {
        assert(sub.take(b - a) =~= sub);
    }
    Ok(acc)
}

/// The cell byte a placement letter stands for, if any.
fn piece_code(c: char) -> (r: Option<u8>)
    ensures
        r == piece_code_of_char(c),
        r matches Some(v) ==> valid_cell_code(v),
{
    if c == 'P' {
        Some(new_piece(Piece::Pawn, Color::White))
    } else if c == 'N' {
        Some(new_piece(Piece::Knight, Color::White))
    } else if c == 'B' {
        Some(new_piece(Piece::Bishop, Color::White))
    } else if c == 'R' {
        Some(new_piece(Piece::Rook, Color::White))
    } else if c == 'Q' {
        Some(new_piece(Piece::Queen, Color::White))
    } else if c == 'K' {
        Some(new_piece(Piece::King, Color::White))
    } else if c == 'p' {
        Some(new_piece(Piece::Pawn, Color::Black))
    } else if c == 'n' {
        Some(new_piece(Piece::Knight, Color::Black))
    } else if c == 'b' {
        Some(new_piece(Piece::Bishop, Color::Black))
    } else if c == 'r' {
        Some(new_piece(Piece::Rook, Color::Black))
    } else if c == 'q' {
        Some(new_piece(Piece::Queen, Color::Black))
    } else if c == 'k' {
        Some(new_piece(Piece::King, Color::Black))
    } else {
        None
    }
}

/// The placement field of a FEN string, expanded into the 64 cells.
fn parse_placement(s: &Vec<char>, a: usize, b: usize) -> (r: Result<[u8; 64], FenError>)
    requires
        a <= b <= s@.len(),
    ensures
        match r {
            Ok(cells) => spec_parse_placement(s@.subrange(a as int, b as int)) matches Ok(cs)
                && cells@ == cs && (forall|k: int|
                0 <= k < 64 ==> #[trigger] cells@[k] == 0 || valid_cell_code(cells@[k])),
            Err(e) => spec_parse_placement(s@.subrange(a as int, b as int)) matches Err(se) && e
                == se,
        },
{
    let ghost sub = s@.subrange(a as int, b as int);
    let mut cells: [u8; 64] = [0; 64];
    proof {
        assert(cells@ =~= Seq::new(64, |i: int| 0u8));
    }
    let mut row: usize = 0;
    let mut width: usize = 0;
    let mut i = a;
    while i < b
        invariant
            a <= i <= b <= s@.len(),
            sub == s@.subrange(a as int, b as int),
            row <= 7,
            width <= 9,
            cells@.len() == 64,
            spec_placement_loop(sub, i - a, row as int, width as int, cells@)
                == spec_parse_placement(sub),
            forall|k: int| 0 <= k < 64 ==> #[trigger] cells@[k] == 0 || valid_cell_code(cells@[k]),
        decreases b - i,
    {
        let c = s[i];
        proof {
            assert(sub[i - a] == s@[i as int]);
        }
        if c == '/' {
            if width != 8 {
                return Err(FenError::RankWidth);
            }
            if row >= 7 {
                return Err(FenError::RankCount);
            }
            row = row + 1;
            width = 0;
        } else if c >= '0' && c <= '9' {
            let d = (c as u32 - '0' as u32) as usize;
            proof {
                assert(is_digit(sub[i - a]));
                assert(d as int == sub[i - a] as int - '0' as int);
            }
            width = if width + d > 9 {
                9
            } else {
                width + d
            };
        } else {
            proof {
                assert(!(sub[i - a] == '/') && !is_digit(sub[i - a]));
            }
            match piece_code(c) {
                Some(code) => {
                    if width < 8 {
                        cells[row * 8 + width] = code;
                        width = width + 1;
                    } else {
                        width = 9;
                    }
                },
                None => {
                    return Err(FenError::PieceChar);
                },
            }
        }
        i = i + 1;
    }
    if width != 8 {
        return Err(FenError::RankWidth);
    }
    if row != 7 {
        return Err(FenError::RankCount);
    }
    Ok(cells)
}

/// The piece on the back rank's file `col` in the standard starting
/// position.
pub open spec fn back_rank_piece(col: int) -> Piece {
    if col == 0 || col == 7 {
        Piece::Rook
    } else if col == 1 || col == 6 {
        Piece::Knight
    } else if col == 2 || col == 5 {
        Piece::Bishop
    } else if col == 3 {
        Piece::Queen
    } else {
        Piece::King
    }
}

/// The cell at flat index `i` in the standard starting position: Black's
/// pieces on the top two ranks as written in FEN, White's on the bottom
/// two.
pub open spec fn spec_start_cell(i: int) -> u8 {
    let row = i / 8;
    let col = i % 8;
    if row == 0 {
        spec_encode(back_rank_piece(col), Color::Black)
    } else if row == 1 {
        spec_encode(Piece::Pawn, Color::Black)
    } else if row == 6 {
        spec_encode(Piece::Pawn, Color::White)
    } else if row == 7 {
        spec_encode(back_rank_piece(col), Color::White)
    } else {
        0
    }
}

/// The 64 cells of the standard starting position.
pub open spec fn spec_start_cells() -> Seq<u8> {
    Seq::new(64, |i: int| spec_start_cell(i))
}

impl Board {
    /// Build a board from FEN notation: exactly 6 whitespace-separated
    /// fields — piece placement, active color, castling availability,
    /// en-passant target, halfmove clock, fullmove counter. Malformed input
    /// is rejected with an error naming the offending field, never coerced
    /// to a fallback board.
    pub fn new(fen: &str) -> (r: Result<Board, FenError>)
        ensures
            match r {
                Ok(b) => spec_parse_fen(fen@) matches Ok(bv) && b@ == bv && b.wf(),
                Err(e) => spec_parse_fen(fen@) matches Err(se) && e == se,
            },
    {
        let chars = chars_of(fen);
        let n = chars.len();
        let a1 = skip_ws(&chars, 0);
        let b1 = scan_token(&chars, a1);
        let a2 = skip_ws(&chars, b1);
        let b2 = scan_token(&chars, a2);
        let a3 = skip_ws(&chars, b2);
        let b3 = scan_token(&chars, a3);
        let a4 = skip_ws(&chars, b3);
        let b4 = scan_token(&chars, a4);
        let a5 = skip_ws(&chars, b4);
        let b5 = scan_token(&chars, a5);
        let a6 = skip_ws(&chars, b5);
        let b6 = scan_token(&chars, a6);
        let rest = skip_ws(&chars, b6);
        if a6 >= n || rest < n {
            return Err(FenError::FieldCount);
        }
        let turn = match parse_turn(&chars, a2, b2) {
            Ok(t) => t,
            Err(e) => return Err(e),
        };
        let en_passant = match parse_en_passant(&chars, a4, b4) {
            Ok(x) => x,
            Err(e) => return Err(e),
        };
        let halfmove = match parse_clock(&chars, a5, b5, 255, FenError::HalfmoveClock) {
            Ok(v) => v,
            Err(e) => return Err(e),
        };
        let fullmove = match parse_clock(&chars, a6, b6, usize::MAX, FenError::FullmoveClock) {
            Ok(v) => v,
            Err(e) => return Err(e),
        };
        let castling = match parse_castling(&chars, a3, b3) {
            Ok(f) => f,
            Err(e) => return Err(e),
        };
        let cells = match parse_placement(&chars, a1, b1) {
            Ok(c) => c,
            Err(e) => return Err(e),
        };
        let board = Board {
            cells,
            turn,
            castling_availability: castling,
            en_passant_target_square: en_passant,
            halfmove_clock: halfmove as u8,
            fullmove_clock: fullmove,
        };
        proof {
            assert(board@ =~= spec_parse_fen(fen@)->Ok_0);
        }
        Ok(board)
    }

    /// The standard chess starting position, built from the standard
    /// starting FEN: White to move, all four castling flags set, no
    /// en-passant target, a zero halfmove clock and a fullmove counter of
    /// one. `lemma_start_fen_parses` shows the parse cannot fail.
    pub fn default() -> (b: Board)
        ensures
            b@.cells == spec_start_cells(),
            b@.turn == Color::White,
            b@.castling =~= seq![true, true, true, true],
            b@.en_passant is None,
            b@.halfmove_clock == 0,
            b@.fullmove_clock == 1,
            b.wf(),
    {
        proof {
            lemma_start_fen_parses();
        }
        match Board::new("rnbqkbnr/pppppppp/8/8/8/8/PPPPPPPP/RNBQKBNR w KQkq - 0 1") {
            Ok(b) => b,
            Err(_) => unreached(),
        }
    }
}

/// The token boundaries of the standard starting FEN.
#[verifier::rlimit(50)]
proof fn lemma_start_fen_tokens()
    ensures
        ({
            let s = "rnbqkbnr/pppppppp/8/8/8/8/PPPPPPPP/RNBQKBNR w KQkq - 0 1"@;
            &&& s.len() == 56
            &&& ws_end(s, 0) == 0
            &&& token_end(s, 0) == 43
            &&& ws_end(s, 43) == 44
            &&& token_end(s, 44) == 45
            &&& ws_end(s, 45) == 46
            &&& token_end(s, 46) == 50
            &&& ws_end(s, 50) == 51
            &&& token_end(s, 51) == 52
            &&& ws_end(s, 52) == 53
            &&& token_end(s, 53) == 54
            &&& ws_end(s, 54) == 55
            &&& token_end(s, 55) == 56
            &&& ws_end(s, 56) == 56
        }),
{
    let s = "rnbqkbnr/pppppppp/8/8/8/8/PPPPPPPP/RNBQKBNR w KQkq - 0 1"@;
    reveal_strlit("rnbqkbnr/pppppppp/8/8/8/8/PPPPPPPP/RNBQKBNR w KQkq - 0 1");
    assert(ws_end(s, 0) == 0) by {
        reveal_with_fuel(ws_end, 2);
    }
    assert(token_end(s, 0) == 43) by {
        reveal_with_fuel(token_end, 45);
    }
    assert(ws_end(s, 43) == 44) by {
        reveal_with_fuel(ws_end, 3);
    }
    assert(token_end(s, 44) == 45) by {
        reveal_with_fuel(token_end, 3);
    }
    assert(ws_end(s, 45) == 46) by {
        reveal_with_fuel(ws_end, 3);
    }
    assert(token_end(s, 46) == 50) by {
        reveal_with_fuel(token_end, 6);
    }
    assert(ws_end(s, 50) == 51) by {
        reveal_with_fuel(ws_end, 3);
    }
    assert(token_end(s, 51) == 52) by {
        reveal_with_fuel(token_end, 3);
    }
    assert(ws_end(s, 52) == 53) by {
        reveal_with_fuel(ws_end, 3);
    }
    assert(token_end(s, 53) == 54) by {
        reveal_with_fuel(token_end, 3);
    }
    assert(ws_end(s, 54) == 55) by {
        reveal_with_fuel(ws_end, 3);
    }
    assert(token_end(s, 55) == 56) by {
        reveal_with_fuel(token_end, 3);
    }
    assert(ws_end(s, 56) == 56) by {
        reveal_with_fuel(ws_end, 2);
    }
}

/// One piece-letter rank of a placement field, followed by a rank
/// separator: eight letters write eight cells and move to the next rank.
proof fn lemma_piece_rank_step(
    s: Seq<char>,
    i: int,
    row: int,
    cells: Seq<u8>,
    c0: u8,
    c1: u8,
    c2: u8,
    c3: u8,
    c4: u8,
    c5: u8,
    c6: u8,
    c7: u8,
)
    requires
        0 <= i,
        i + 9 <= s.len(),
        0 <= row < 7,
        piece_code_of_char(s[i]) == Some(c0),
        piece_code_of_char(s[i + 1]) == Some(c1),
        piece_code_of_char(s[i + 2]) == Some(c2),
        piece_code_of_char(s[i + 3]) == Some(c3),
        piece_code_of_char(s[i + 4]) == Some(c4),
        piece_code_of_char(s[i + 5]) == Some(c5),
        piece_code_of_char(s[i + 6]) == Some(c6),
        piece_code_of_char(s[i + 7]) == Some(c7),
        s[i + 8] == '/',
    ensures
        spec_placement_loop(s, i, row, 0, cells) == spec_placement_loop(
            s,
            i + 9,
            row + 1,
            0,
            cells.update(row * 8, c0).update(row * 8 + 1, c1).update(row * 8 + 2, c2).update(
                row * 8 + 3,
                c3,
            ).update(row * 8 + 4, c4).update(row * 8 + 5, c5).update(row * 8 + 6, c6).update(
                row * 8 + 7,
                c7,
            ),
        ),
{
    lemma_piece_rank_cells(s, i, row, cells, c0, c1, c2, c3, c4, c5, c6, c7);
}

/// The eight writes of one piece-letter rank, stopping just before the
/// following character.
proof fn lemma_piece_rank_cells(
    s: Seq<char>,
    i: int,
    row: int,
    cells: Seq<u8>,
    c0: u8,
    c1: u8,
    c2: u8,
    c3: u8,
    c4: u8,
    c5: u8,
    c6: u8,
    c7: u8,
)
    requires
        0 <= i,
        i + 8 <= s.len(),
        0 <= row <= 7,
        piece_code_of_char(s[i]) == Some(c0),
        piece_code_of_char(s[i + 1]) == Some(c1),
        piece_code_of_char(s[i + 2]) == Some(c2),
        piece_code_of_char(s[i + 3]) == Some(c3),
        piece_code_of_char(s[i + 4]) == Some(c4),
        piece_code_of_char(s[i + 5]) == Some(c5),
        piece_code_of_char(s[i + 6]) == Some(c6),
        piece_code_of_char(s[i + 7]) == Some(c7),
    ensures
        spec_placement_loop(s, i, row, 0, cells) == spec_placement_loop(
            s,
            i + 8,
            row,
            8,
            cells.update(row * 8, c0).update(row * 8 + 1, c1).update(row * 8 + 2, c2).update(
                row * 8 + 3,
                c3,
            ).update(row * 8 + 4, c4).update(row * 8 + 5, c5).update(row * 8 + 6, c6).update(
                row * 8 + 7,
                c7,
            ),
        ),
{
    let u0 = cells.update(row * 8, c0);
    let u1 = u0.update(row * 8 + 1, c1);
    let u2 = u1.update(row * 8 + 2, c2);
    let u3 = u2.update(row * 8 + 3, c3);
    let u4 = u3.update(row * 8 + 4, c4);
    let u5 = u4.update(row * 8 + 5, c5);
    let u6 = u5.update(row * 8 + 6, c6);
    let u7 = u6.update(row * 8 + 7, c7);
    assert(spec_placement_loop(s, i, row, 0, cells) == spec_placement_loop(s, i + 1, row, 1, u0));
    assert(spec_placement_loop(s, i + 1, row, 1, u0) == spec_placement_loop(s, i + 2, row, 2, u1));
    assert(spec_placement_loop(s, i + 2, row, 2, u1) == spec_placement_loop(s, i + 3, row, 3, u2));
    assert(spec_placement_loop(s, i + 3, row, 3, u2) == spec_placement_loop(s, i + 4, row, 4, u3));
    assert(spec_placement_loop(s, i + 4, row, 4, u3) == spec_placement_loop(s, i + 5, row, 5, u4));
    assert(spec_placement_loop(s, i + 5, row, 5, u4) == spec_placement_loop(s, i + 6, row, 6, u5));
    assert(spec_placement_loop(s, i + 6, row, 6, u5) == spec_placement_loop(s, i + 7, row, 7, u6));
    assert(spec_placement_loop(s, i + 7, row, 7, u6) == spec_placement_loop(s, i + 8, row, 8, u7));
}

/// One empty rank written as the digit 8, followed by a rank separator.
proof fn lemma_empty_rank_step(s: Seq<char>, i: int, row: int, cells: Seq<u8>)
    requires
        0 <= i,
        i + 2 <= s.len(),
        0 <= row < 7,
        s[i] == '8',
        s[i + 1] == '/',
    ensures
        spec_placement_loop(s, i, row, 0, cells) == spec_placement_loop(s, i + 2, row + 1, 0, cells),
{
    assert(spec_placement_loop(s, i, row, 0, cells) == spec_placement_loop(s, i + 1, row, 8, cells));
}

/// The placement field of the standard starting FEN expands to the
/// starting cells.
#[verifier::rlimit(50)]
proof fn lemma_start_fen_placement()
    ensures
        ({
            let p = "rnbqkbnr/pppppppp/8/8/8/8/PPPPPPPP/RNBQKBNR w KQkq - 0 1"@.subrange(0, 43);
            spec_parse_placement(p) matches Ok(cs) && cs =~= spec_start_cells()
        }),
{
    let s = "rnbqkbnr/pppppppp/8/8/8/8/PPPPPPPP/RNBQKBNR w KQkq - 0 1"@;
    reveal_strlit("rnbqkbnr/pppppppp/8/8/8/8/PPPPPPPP/RNBQKBNR w KQkq - 0 1");
    let p = s.subrange(0, 43);
    assert(p.len() == 43);
    assert forall|j: int| 0 <= j < 43 implies p[j] == s[j] by {}
    let z = Seq::new(64, |i: int| 0u8);
    // cell codes are ordinal * 2 + color bit: r 6, n 8, b 4, q 10, k 12,
    // p 2, and one more for the White counterparts
    let ca = z.update(0, 6).update(1, 8).update(2, 4).update(3, 10).update(4, 12).update(
        5,
        4,
    ).update(6, 8).update(7, 6);
    let cb = ca.update(8, 2).update(9, 2).update(10, 2).update(11, 2).update(12, 2).update(
        13,
        2,
    ).update(14, 2).update(15, 2);
    let cc = cb.update(48, 3).update(49, 3).update(50, 3).update(51, 3).update(52, 3).update(
        53,
        3,
    ).update(54, 3).update(55, 3);
    let cd = cc.update(56, 7).update(57, 9).update(58, 5).update(59, 11).update(60, 13).update(
        61,
        5,
    ).update(62, 9).update(63, 7);
    lemma_piece_rank_step(p, 0, 0, z, 6, 8, 4, 10, 12, 4, 8, 6);
    assert(spec_placement_loop(p, 0, 0, 0, z) == spec_placement_loop(p, 9, 1, 0, ca));
    lemma_piece_rank_step(p, 9, 1, ca, 2, 2, 2, 2, 2, 2, 2, 2);
    assert(spec_placement_loop(p, 9, 1, 0, ca) == spec_placement_loop(p, 18, 2, 0, cb));
    lemma_empty_rank_step(p, 18, 2, cb);
    lemma_empty_rank_step(p, 20, 3, cb);
    lemma_empty_rank_step(p, 22, 4, cb);
    lemma_empty_rank_step(p, 24, 5, cb);
    lemma_piece_rank_step(p, 26, 6, cb, 3, 3, 3, 3, 3, 3, 3, 3);
    assert(spec_placement_loop(p, 26, 6, 0, cb) == spec_placement_loop(p, 35, 7, 0, cc));
    lemma_piece_rank_cells(p, 35, 7, cc, 7, 9, 5, 11, 13, 5, 9, 7);
    assert(spec_placement_loop(p, 35, 7, 0, cc) == spec_placement_loop(p, 43, 7, 8, cd));
    assert(spec_placement_loop(p, 43, 7, 8, cd) == Ok::<Seq<u8>, FenError>(cd));
    assert(spec_parse_placement(p) == Ok::<Seq<u8>, FenError>(cd));
    assert(cd =~= spec_start_cells());
}

/// Parsing the standard starting FEN yields exactly the state that
/// `Board::default` constructs: the starting cells, White to move, all four
/// castling flags, no en-passant target, halfmove clock 0 and fullmove
/// counter 1.
#[verifier::rlimit(100)]
pub proof fn lemma_start_fen_parses()
    ensures
        spec_parse_fen("rnbqkbnr/pppppppp/8/8/8/8/PPPPPPPP/RNBQKBNR w KQkq - 0 1"@) matches Ok(bv)
            && bv.cells =~= spec_start_cells() && bv.turn == Color::White && bv.castling =~= seq![
            true,
            true,
            true,
            true,
        ] && bv.en_passant is None && bv.halfmove_clock == 0 && bv.fullmove_clock == 1,
{
    let s = "rnbqkbnr/pppppppp/8/8/8/8/PPPPPPPP/RNBQKBNR w KQkq - 0 1"@;
    reveal_strlit("rnbqkbnr/pppppppp/8/8/8/8/PPPPPPPP/RNBQKBNR w KQkq - 0 1");
    lemma_start_fen_tokens();
    lemma_start_fen_placement();
    let turn_f = s.subrange(44, 45);
    assert(turn_f.len() == 1 && turn_f[0] == 'w');
    assert(spec_parse_turn(turn_f) == Ok::<Color, FenError>(Color::White));
    let ep_f = s.subrange(51, 52);
    assert(ep_f.len() == 1 && ep_f[0] == '-');
    assert(spec_parse_en_passant(ep_f) == Ok::<Option<Mailbox64Index>, FenError>(None));
    let half_f = s.subrange(53, 54);
    assert(half_f.len() == 1 && half_f[0] == '0');
    assert(digits_val(half_f) == 0) by {
        reveal_with_fuel(digits_val, 3);
        assert(half_f.drop_last() =~= Seq::<char>::empty());
    }
    assert(spec_parse_clock(half_f, u8::MAX as int, FenError::HalfmoveClock) == Ok::<
        int,
        FenError,
    >(0));
    let full_f = s.subrange(55, 56);
    assert(full_f.len() == 1 && full_f[0] == '1');
    assert(digits_val(full_f) == 1) by {
        reveal_with_fuel(digits_val, 3);
        assert(full_f.drop_last() =~= Seq::<char>::empty());
    }
    assert(spec_parse_clock(full_f, usize::MAX as int, FenError::FullmoveClock) == Ok::<
        int,
        FenError,
    >(1));
    let cast_f = s.subrange(46, 50);
    assert(cast_f.len() == 4);
    assert(cast_f[0] == 'K' && cast_f[1] == 'Q' && cast_f[2] == 'k' && cast_f[3] == 'q');
    assert(cast_f.contains('K') && cast_f.contains('Q') && cast_f.contains('k')
        && cast_f.contains('q'));
    assert(spec_parse_castling(cast_f) matches Ok(fl) && fl =~= seq![true, true, true, true]);
}

/// The texture-name strings the presentation boundary consumes, one per
/// (color, piece) pair.
pub open spec fn spec_piece_name(p: Piece, c: Color) -> Seq<char> {
    match (c, p) {
        (Color::White, Piece::Pawn) => "white_pawn"@,
        (Color::White, Piece::Rook) => "white_rook"@,
        (Color::White, Piece::Knight) => "white_knight"@,
        (Color::White, Piece::Bishop) => "white_bishop"@,
        (Color::White, Piece::Queen) => "white_queen"@,
        (Color::White, Piece::King) => "white_king"@,
        (Color::Black, Piece::Pawn) => "black_pawn"@,
        (Color::Black, Piece::Rook) => "black_rook"@,
        (Color::Black, Piece::Knight) => "black_knight"@,
        (Color::Black, Piece::Bishop) => "black_bishop"@,
        (Color::Black, Piece::Queen) => "black_queen"@,
        (Color::Black, Piece::King) => "black_king"@,
    }
}

/// The name of the piece standing on the cell at (row, col), colored, in the
/// form a renderer keys its textures by; `None` for an empty cell.
pub fn piece_name_for_square(board: Board, row: usize, col: usize) -> (r: Option<String>)
    requires
        board.wf(),
        row < 8,
        col < 8,
    ensures
        board@.cells[row * 8 + col] == 0 <==> r is None,
        r matches Some(name) ==> name@ == spec_piece_name(
            spec_cell_piece(board@.cells[row * 8 + col]),
            spec_cell_color(board@.cells[row * 8 + col]),
        ),
{
    let cell = board.cells[row * 8 + col];
    if cell == 0 {
        return None;
    }
    let (piece, color) = piece_from_u8(cell);
    let name = match (color, piece) {
        (Color::White, Piece::Pawn) => "white_pawn",
        (Color::White, Piece::Rook) => "white_rook",
        (Color::White, Piece::Knight) => "white_knight",
        (Color::White, Piece::Bishop) => "white_bishop",
        (Color::White, Piece::Queen) => "white_queen",
        (Color::White, Piece::King) => "white_king",
        (Color::Black, Piece::Pawn) => "black_pawn",
        (Color::Black, Piece::Rook) => "black_rook",
        (Color::Black, Piece::Knight) => "black_knight",
        (Color::Black, Piece::Bishop) => "black_bishop",
        (Color::Black, Piece::Queen) => "black_queen",
        (Color::Black, Piece::King) => "black_king",
    };
    Some(name.to_owned())
}

} // verus!
