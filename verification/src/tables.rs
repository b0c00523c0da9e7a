//! Movement tables: the direction vectors and sliding flag for each
//! (piece, color) pair.
//!
//! Both colors share identical direction vectors for every piece except the
//! Pawn, whose set is vertically mirrored (White advances toward decreasing
//! rank index in this board's orientation, Black toward increasing) and
//! includes a two-square advance and two diagonal entries. These pawn moves
//! are pseudolegal placeholders: the double advance is not restricted to the
//! starting rank and the diagonal entries are not restricted to captures,
//! since no move-type discrimination exists in this generator. That is a
//! documented simplification of the movement model, not an oversight.

use crate::pieces::{Color, Piece};
use vstd::prelude::*;

verus! {

/// The ordered (file-delta, rank-delta) list for a piece of a color.
pub open spec fn spec_directions(p: Piece, c: Color) -> Seq<(i8, i8)> {
    match p {
        Piece::Pawn => if c is White {
            seq![(0i8, -1i8), (0i8, -2i8), (1i8, -1i8), (-1i8, -1i8)]
        } else {
            seq![(0i8, 1i8), (0i8, 2i8), (1i8, 1i8), (-1i8, 1i8)]
        },
        Piece::Knight => seq![
            (1i8, 2i8),
            (2i8, 1i8),
            (2i8, -1i8),
            (1i8, -2i8),
            (-1i8, -2i8),
            (-2i8, -1i8),
            (-2i8, 1i8),
            (-1i8, 2i8),
        ],
        Piece::Bishop => seq![(1i8, 1i8), (1i8, -1i8), (-1i8, -1i8), (-1i8, 1i8)],
        Piece::Rook => seq![(0i8, 1i8), (1i8, 0i8), (0i8, -1i8), (-1i8, 0i8)],
        Piece::Queen => seq![
            (0i8, 1i8),
            (1i8, 0i8),
            (0i8, -1i8),
            (-1i8, 0i8),
            (1i8, 1i8),
            (1i8, -1i8),
            (-1i8, -1i8),
            (-1i8, 1i8),
        ],
        Piece::King => seq![
            (0i8, 1i8),
            (1i8, 0i8),
            (0i8, -1i8),
            (-1i8, 0i8),
            (1i8, 1i8),
            (1i8, -1i8),
            (-1i8, -1i8),
            (-1i8, 1i8),
        ],
    }
}

/// Whether the piece slides: its deltas are traversed as rays of up to 7
/// steps instead of a single step.
pub open spec fn spec_is_sliding(p: Piece) -> bool {
    p is Bishop || p is Rook || p is Queen
}

/// Every tabled delta is unit- or knight-shaped: each axis within [-2, 2]
/// and the combined padded-space step within [-21, 21].
pub proof fn lemma_directions_shape(p: Piece, c: Color)
    ensures
        forall|i: int|
            0 <= i < spec_directions(p, c).len() ==> {
                let d = #[trigger] spec_directions(p, c)[i];
                -2 <= d.0 <= 2 && -2 <= d.1 <= 2 && -21 <= d.0 + d.1 * 10 <= 21
            },
{
}

/// Sliding deltas are unit vectors.
pub proof fn lemma_sliding_directions_unit(p: Piece, c: Color)
    requires
        spec_is_sliding(p),
    ensures
        forall|i: int|
            0 <= i < spec_directions(p, c).len() ==> {
                let d = #[trigger] spec_directions(p, c)[i];
                -1 <= d.0 <= 1 && -1 <= d.1 <= 1 && (d.0 != 0 || d.1 != 0)
            },
{
}

/// The direction vectors and sliding flag for a piece of a color.
pub fn moveset(piece: Piece, color: Color) -> (r: (Vec<(i8, i8)>, bool))
    ensures
        r.0@ == spec_directions(piece, color),
        r.1 == spec_is_sliding(piece),
{
    let directions: Vec<(i8, i8)> = match piece {
        Piece::Pawn => if color.is_white() {
            vec![(0i8, -1i8), (0i8, -2i8), (1i8, -1i8), (-1i8, -1i8)]
        } else {
            vec![(0i8, 1i8), (0i8, 2i8), (1i8, 1i8), (-1i8, 1i8)]
        },
        Piece::Knight => vec![
            (1i8, 2i8),
            (2i8, 1i8),
            (2i8, -1i8),
            (1i8, -2i8),
            (-1i8, -2i8),
            (-2i8, -1i8),
            (-2i8, 1i8),
            (-1i8, 2i8),
        ],
        Piece::Bishop => vec![(1i8, 1i8), (1i8, -1i8), (-1i8, -1i8), (-1i8, 1i8)],
        Piece::Rook => vec![(0i8, 1i8), (1i8, 0i8), (0i8, -1i8), (-1i8, 0i8)],
        Piece::Queen => vec![
            (0i8, 1i8),
            (1i8, 0i8),
            (0i8, -1i8),
            (-1i8, 0i8),
            (1i8, 1i8),
            (1i8, -1i8),
            (-1i8, -1i8),
            (-1i8, 1i8),
        ],
        Piece::King => vec![
            (0i8, 1i8),
            (1i8, 0i8),
            (0i8, -1i8),
            (-1i8, 0i8),
            (1i8, 1i8),
            (1i8, -1i8),
            (-1i8, -1i8),
            (-1i8, 1i8),
        ],
    };
    let sliding = match piece {
        Piece::Bishop | Piece::Rook | Piece::Queen => true,
        _ => false,
    };
    proof {
        assert(directions@ =~= spec_directions(piece, color));
    }
    (directions, sliding)
}

} // verus!
