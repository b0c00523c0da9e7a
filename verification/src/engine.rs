//! Move generator: pseudolegal target squares for the piece on a square,
//! and the same set with own-color captures excluded.
//!
//! Generation reads the occupant of the square, looks up its direction set,
//! and for each direction takes either a single offset step (non-sliding
//! pieces) or an up-to-7-step ray (sliding pieces). No check-safety
//! filtering exists: squares that would capture the king or leave the
//! mover's own king in check pass through unfiltered, by design.

use crate::board::Board;
use crate::mailbox::{
    lemma_ray_elements_wf, lemma_small_offset_ray_in_table, lemma_to_from_padded,
    lemma_to_padded_on_board, offset_index_2d, offset_ray_2d, spec_offset_2d, spec_ray_2d,
    spec_to_padded, Mailbox64Index,
};
use crate::pieces::{piece_from_u8, spec_cell_color, spec_cell_piece, valid_cell_code};
use crate::tables::{
    lemma_directions_shape, moveset, spec_directions, spec_is_sliding,
};
use vstd::prelude::*;

verus! {

/// No straight or diagonal line on an 8x8 board exceeds 7 steps, so rays of
/// this length cover any board distance.
pub const MAX_RAY_LENGTH: u8 = 7;

/// The squares one direction contributes: a single step for a non-sliding
/// piece, a full ray for a sliding one.
pub open spec fn spec_direction_moves(from: int, d: (i8, i8), sliding: bool) -> Seq<
    Mailbox64Index,
> {
    if sliding {
        spec_ray_2d(from, d.0 as int, d.1 as int, MAX_RAY_LENGTH as nat)
    } else {
        match spec_offset_2d(from, d.0 as int, d.1 as int) {
            Some(m) => seq![m],
            None => Seq::empty(),
        }
    }
}

/// The concatenation of every direction's contribution, in table order.
pub open spec fn spec_moves_for_directions(
    from: int,
    dirs: Seq<(i8, i8)>,
    sliding: bool,
) -> Seq<Mailbox64Index>
    decreases dirs.len(),
{
    if dirs.len() == 0 {
        Seq::empty()
    } else {
        spec_moves_for_directions(from, dirs.drop_last(), sliding) + spec_direction_moves(
            from,
            dirs.last(),
            sliding,
        )
    }
}

/// The pseudolegal targets of the piece encoded by `cell` standing on
/// square `from`.
pub open spec fn spec_pseudolegal(cell: u8, from: int) -> Seq<Mailbox64Index> {
    spec_moves_for_directions(
        from,
        spec_directions(spec_cell_piece(cell), spec_cell_color(cell)),
        spec_is_sliding(spec_cell_piece(cell)),
    )
}

/// A destination occupied by a piece of the same color as the mover's cell.
pub open spec fn own_color_capture(cells: Seq<u8>, mover: u8, target: Mailbox64Index) -> bool {
    cells[target.0 as int] != 0 && spec_cell_color(cells[target.0 as int]) == spec_cell_color(
        mover,
    )
}

/// The predicate that keeps a pseudolegal move: its destination does not
/// hold a piece of the mover's own color.
pub open spec fn legal_keep(cells: Seq<u8>, mover: u8) -> spec_fn(Mailbox64Index) -> bool {
    |m: Mailbox64Index| !own_color_capture(cells, mover, m)
}

/// The pseudolegal targets with own-color captures excluded. Everything
/// else — opposite-color captures included — passes through unfiltered:
/// check-safety filtering is not implemented.
pub open spec fn spec_legal(cells: Seq<u8>, from: int) -> Seq<Mailbox64Index> {
    spec_pseudolegal(cells[from], from).filter(legal_keep(cells, cells[from]))
}

/// Every square a direction list contributes is in range.
proof fn lemma_moves_for_directions_wf(from: int, dirs: Seq<(i8, i8)>, sliding: bool)
    ensures
        forall|i: int|
            0 <= i < spec_moves_for_directions(from, dirs, sliding).len() ==> (
            #[trigger] spec_moves_for_directions(from, dirs, sliding)[i]).wf(),
    decreases dirs.len(),
{
    if dirs.len() > 0 {
        lemma_moves_for_directions_wf(from, dirs.drop_last(), sliding);
        let head = spec_moves_for_directions(from, dirs.drop_last(), sliding);
        let tail = spec_direction_moves(from, dirs.last(), sliding);
        let d = dirs.last();
        if sliding {
            lemma_ray_elements_wf(
                spec_to_padded(from),
                d.0 + d.1 * 10,
                MAX_RAY_LENGTH as nat,
            );
        } else {
            if spec_offset_2d(from, d.0 as int, d.1 as int) is Some {
                lemma_to_from_padded(spec_to_padded(from) + d.0 + d.1 * 10);
            }
        }
        assert forall|i: int|
            0 <= i < spec_moves_for_directions(from, dirs, sliding).len() implies (
        #[trigger] spec_moves_for_directions(from, dirs, sliding)[i]).wf() by {
            if i < head.len() {
                assert(spec_moves_for_directions(from, dirs, sliding)[i] == head[i]);
            } else {
                assert(spec_moves_for_directions(from, dirs, sliding)[i] == tail[i - head.len()]);
            }
        }
    }
}

/// Pseudolegal moves never leave the board: every generated square is in
/// [0, 64), whatever valid piece stands on whatever square.
pub proof fn lemma_pseudolegal_in_range(cell: u8, from: int)
    requires
        valid_cell_code(cell),
        0 <= from < 64,
    ensures
        forall|i: int|
            0 <= i < spec_pseudolegal(cell, from).len() ==> (#[trigger] spec_pseudolegal(
                cell,
                from,
            )[i]).wf(),
{
    lemma_moves_for_directions_wf(
        from,
        spec_directions(spec_cell_piece(cell), spec_cell_color(cell)),
        spec_is_sliding(spec_cell_piece(cell)),
    );
}

/// Filtering never readmits an own-color capture, and admits every
/// pseudolegal move that is not one — opposite-color captures stay in.
pub proof fn lemma_legal_no_own_capture(cells: Seq<u8>, from: int)
    ensures
        forall|i: int|
            0 <= i < spec_legal(cells, from).len() ==> !own_color_capture(
                cells,
                cells[from],
                #[trigger] spec_legal(cells, from)[i],
            ),
        forall|i: int|
            0 <= i < spec_pseudolegal(cells[from], from).len() && !own_color_capture(
                cells,
                cells[from],
                spec_pseudolegal(cells[from], from)[i],
            ) ==> spec_legal(cells, from).contains(
                #[trigger] spec_pseudolegal(cells[from], from)[i],
            ),
{
    let pseudo = spec_pseudolegal(cells[from], from);
    let pred = legal_keep(cells, cells[from]);
    assert forall|i: int|
        0 <= i < spec_legal(cells, from).len() implies !own_color_capture(
        cells,
        cells[from],
        #[trigger] spec_legal(cells, from)[i],
    ) by {
        pseudo.lemma_filter_pred(pred, i);
    }
    assert forall|i: int|
        0 <= i < pseudo.len() && !own_color_capture(cells, cells[from], pseudo[i]) implies
        spec_legal(cells, from).contains(#[trigger] pseudo[i]) by {
        pseudo.lemma_filter_contains(pred, i);
    }
}

/// The pseudolegal target squares of the piece on `index`: for each tabled
/// direction, one offset step for a non-sliding piece or an up-to-7-step ray
/// for a sliding one, collecting all in-bounds results regardless of what
/// occupies them.
///
/// The square must be occupied; generation on an empty square is a defect in
/// the caller.
pub fn generate_pseudolegal(board: &Board, index: Mailbox64Index) -> (r: Vec<Mailbox64Index>)
    requires
        board.wf(),
        index.wf(),
        board@.cells[index.0 as int] != 0,
    ensures
        r@ == spec_pseudolegal(board@.cells[index.0 as int], index.0 as int),
{
    let cell = board.cell(index);
    let (piece, color) = piece_from_u8(cell);
    let (directions, sliding) = moveset(piece, color);
    let ghost dirs = directions@;
    let ghost from_int = index.0 as int;
    proof {
        lemma_directions_shape(piece, color);
        lemma_to_padded_on_board(from_int);
    }
    let mut moves: Vec<Mailbox64Index> = Vec::new();
    let mut j: usize = 0;
    while j < directions.len()
        invariant
            j <= directions.len(),
            index.wf(),
            directions@ == dirs,
            dirs == spec_directions(piece, color),
            sliding == spec_is_sliding(piece),
            from_int == index.0 as int,
            moves@ == spec_moves_for_directions(from_int, dirs.take(j as int), sliding),
            forall|i: int|
                0 <= i < dirs.len() ==> {
                    let d = #[trigger] dirs[i];
                    -2 <= d.0 <= 2 && -2 <= d.1 <= 2 && -21 <= d.0 + d.1 * 10 <= 21
                },
            21 <= spec_to_padded(from_int) <= 98,
        decreases directions.len() - j,
    {
        let d = directions[j];
        let ghost step = dirs.take(j as int + 1);
        proof {
            assert(step.drop_last() =~= dirs.take(j as int));
            assert(step.last() == dirs[j as int]);
        }
        if sliding {
            proof {
                lemma_small_offset_ray_in_table(
                    spec_to_padded(from_int),
                    d.0 + d.1 * 10,
                    MAX_RAY_LENGTH as nat,
                );
            }
            let mut ray = offset_ray_2d(index, d.0, d.1, MAX_RAY_LENGTH);
            proof {
                assert(moves@ + ray@ == spec_moves_for_directions(from_int, step, sliding));
            }
            moves.append(&mut ray);
        } else {
            match offset_index_2d(index, d.0, d.1) {
                Some(target) => {
                    proof {
                        assert(moves@.push(target) =~= moves@ + spec_direction_moves(
                            from_int,
                            dirs[j as int],
                            sliding,
                        ));
                    }
                    moves.push(target);
                },
                None => {
                    proof {
                        assert(moves@ + spec_direction_moves(from_int, dirs[j as int], sliding)
                            =~= moves@);
                    }
                },
            }
        }
        j = j + 1;
    }
    proof {
        assert(dirs.take(dirs.len() as int) =~= dirs);
    }
    moves
}

/// The pseudolegal moves with own-color captures excluded. All other
/// destinations — opposite-color captures, squares that would capture the
/// king or leave the mover's own king in check — pass through unfiltered:
/// check-safety filtering is explicitly not implemented here.
pub fn generate_legal(board: &Board, index: Mailbox64Index) -> (r: Vec<Mailbox64Index>)
    requires
        board.wf(),
        index.wf(),
        board@.cells[index.0 as int] != 0,
    ensures
        r@ == spec_legal(board@.cells, index.0 as int),
{
    let pseudolegal = generate_pseudolegal(board, index);
    let mover = board.cell(index);
    let (_, mover_color) = piece_from_u8(mover);
    let ghost cells = board@.cells;
    let ghost pred = legal_keep(cells, mover);
    proof {
        lemma_pseudolegal_in_range(mover, index.0 as int);
        reveal(Seq::filter);
    }
    let mut legal_moves: Vec<Mailbox64Index> = Vec::new();
    let mut j: usize = 0;
    while j < pseudolegal.len()
        invariant
            j <= pseudolegal.len(),
            board.wf(),
            index.wf(),
            mover == cells[index.0 as int],
            mover != 0,
            cells == board@.cells,
            mover_color == spec_cell_color(mover),
            pred == legal_keep(cells, mover),
            pseudolegal@ == spec_pseudolegal(mover, index.0 as int),
            forall|i: int| 0 <= i < pseudolegal@.len() ==> (#[trigger] pseudolegal@[i]).wf(),
            legal_moves@ == pseudolegal@.take(j as int).filter(pred),
        decreases pseudolegal.len() - j,
    {
        let target = pseudolegal[j];
        let ghost step = pseudolegal@.take(j as int + 1);
        proof {
            reveal(Seq::filter);
            assert(step.drop_last() =~= pseudolegal@.take(j as int));
            assert(step.last() == pseudolegal@[j as int]);
        }
        let target_cell = board.cell(target);
        let keep = if target_cell != 0 {
            let (_, target_color) = piece_from_u8(target_cell);
            target_color != mover_color
        } else {
            true
        };
        proof {
            assert(keep == pred(target));
        }
        if keep {
            legal_moves.push(target);
        }
        j = j + 1;
    }
    proof {
        assert(pseudolegal@.take(pseudolegal@.len() as int) =~= pseudolegal@);
    }
    legal_moves
}

} // verus!
