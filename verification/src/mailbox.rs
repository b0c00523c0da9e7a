//! Coordinate mapper: the compact 0-63 square index, the 10x12 padded
//! "mailbox" index, and off-board-safe offset arithmetic.
//!
//! A square is addressed rank-major (`index = rank * 8 + file`), rank 0 being
//! the topmost row as written in FEN. The padded board embeds the 8x8 board
//! in a 12-row by 10-column grid with a sentinel border, so that adding a
//! per-direction delta (`file_offset + rank_offset * 10`) never needs
//! per-edge wraparound checks: a step that leaves the board lands on a
//! border cell, which is detected and discarded.

use vstd::arithmetic::div_mod::{
    lemma_fundamental_div_mod, lemma_fundamental_div_mod_converse,
};
use vstd::arithmetic::mul::lemma_mul_is_distributive_add;
use vstd::prelude::*;

verus! {

/// A compact board index in [0, 64).
#[derive(Clone, Copy, PartialEq, Eq, Structural, Debug)]
pub struct Mailbox64Index(pub u8);

/// An index into the 10x12 padded board, in [0, 120).
#[derive(Clone, Copy, PartialEq, Eq, Structural, Debug)]
pub struct Mailbox120Index(pub u8);

/// The fixed embedding of a square into the padded board: two border rows
/// above, one border column to the left.
pub open spec fn spec_to_padded(s: int) -> int {
    21 + (s / 8) * 10 + s % 8
}

/// The padded cells that correspond to squares: rows 2-9, columns 1-8.
pub open spec fn padded_on_board(p: int) -> bool {
    21 <= p <= 98 && 1 <= p % 10 <= 8
}

/// Inverse of the embedding, meaningful only on cells where
/// `padded_on_board` holds.
pub open spec fn spec_from_padded(p: int) -> int {
    (p / 10 - 2) * 8 + (p % 10 - 1)
}

impl Mailbox64Index {
    /// The index denotes one of the 64 cells.
    pub open spec fn wf(self) -> bool {
        self.0 < 64
    }
}

/// The embedding lands on a non-border cell of the padded board.
pub proof fn lemma_to_padded_on_board(s: int)
    requires
        0 <= s < 64,
    ensures
        padded_on_board(spec_to_padded(s)),
        21 <= spec_to_padded(s) <= 98,
{
    lemma_fundamental_div_mod(s, 8);
    let q = s / 8;
    let r = s % 8;
    let p = 21 + q * 10 + r;
    lemma_fundamental_div_mod_converse(p, 10, q + 2, r + 1);
}

/// The inverse mapping undoes the embedding.
pub proof fn lemma_from_to_padded(s: int)
    requires
        0 <= s < 64,
    ensures
        spec_from_padded(spec_to_padded(s)) == s,
{
    lemma_fundamental_div_mod(s, 8);
    let q = s / 8;
    let r = s % 8;
    let p = 21 + q * 10 + r;
    lemma_fundamental_div_mod_converse(p, 10, q + 2, r + 1);
}

/// On non-border padded cells, the embedding undoes the inverse mapping,
/// and the inverse mapping yields a square in range.
pub proof fn lemma_to_from_padded(p: int)
    requires
        padded_on_board(p),
    ensures
        0 <= spec_from_padded(p) < 64,
        spec_to_padded(spec_from_padded(p)) == p,
{
    lemma_fundamental_div_mod(p, 10);
    let q = p / 10;
    let r = p % 10;
    let s = (q - 2) * 8 + (r - 1);
    lemma_fundamental_div_mod_converse(s, 8, q - 2, r - 1);
}

/// Round-trip stability: mapping a square into the padded board, back, and
/// in again reaches the same padded cell.
pub proof fn lemma_padded_round_trip(s: int)
    requires
        0 <= s < 64,
    ensures
        spec_to_padded(spec_from_padded(spec_to_padded(s))) == spec_to_padded(s),
{
    lemma_to_padded_on_board(s);
    lemma_to_from_padded(spec_to_padded(s));
}

impl Mailbox64Index {
    /// Padded counterpart of this square.
    pub fn to_padded(self) -> (r: Mailbox120Index)
        requires
            self.wf(),
        ensures
            r.0 as int == spec_to_padded(self.0 as int),
            21 <= r.0 <= 98,
    {
        proof {
            lemma_to_padded_on_board(self.0 as int);
        }
        Mailbox120Index(21 + (self.0 / 8) * 10 + self.0 % 8)
    }
}

impl Mailbox64Index {
    /// Square named by a two-character algebraic coordinate, `[a-h][1-8]`
    /// (`file = file_ch - 'a'`, `rank = rank_ch - '1'`), or `None` when a
    /// character is out of range.
    pub fn from_algebraic(file_ch: char, rank_ch: char) -> (r: Option<Mailbox64Index>)
        ensures
            r == spec_square_of_algebraic(file_ch, rank_ch),
            r matches Some(m) ==> m.wf(),
    {
        let f = file_ch as u32;
        let k = rank_ch as u32;
        if 'a' as u32 <= f && f <= 'h' as u32 && '1' as u32 <= k && k <= '8' as u32 {
            Some(Mailbox64Index(((f - 'a' as u32) + (k - '1' as u32) * 8) as u8))
        } else {
            None
        }
    }
}

/// The square a two-character algebraic coordinate names, if both characters
/// are in range.
pub open spec fn spec_square_of_algebraic(f: char, r: char) -> Option<Mailbox64Index> {
    if 'a' as int <= f as int <= 'h' as int && '1' as int <= r as int <= '8' as int {
        Some(Mailbox64Index(((f as int - 'a' as int) + (r as int - '1' as int) * 8) as u8))
    } else {
        None
    }
}

impl Mailbox120Index {
    /// The square this padded cell stands for, or `None` on a border cell.
    pub fn to_square(self) -> (r: Option<Mailbox64Index>)
        requires
            self.0 < 120,
        ensures
            padded_on_board(self.0 as int) ==> r == Some(
                Mailbox64Index(spec_from_padded(self.0 as int) as u8),
            ),
            !padded_on_board(self.0 as int) ==> r is None,
            r matches Some(m) ==> m.wf(),
    {
        let p = self.0;
        if 21 <= p && p <= 98 && 1 <= p % 10 && p % 10 <= 8 {
            proof {
                lemma_to_from_padded(p as int);
            }
            Some(Mailbox64Index((p / 10 - 2) * 8 + (p % 10 - 1)))
        } else {
            None
        }
    }
}

/// The square one padded-space step of `off` away from square `s`, or `None`
/// when the step lands on a border cell.
pub open spec fn spec_offset(s: int, off: int) -> Option<Mailbox64Index> {
    let t = spec_to_padded(s) + off;
    if padded_on_board(t) {
        Some(Mailbox64Index(spec_from_padded(t) as u8))
    } else {
        None
    }
}

/// The supported range of per-axis deltas.
pub open spec fn offset_2d_in_bounds(f: int, r: int) -> bool {
    -2 <= f <= 2 && -2 <= r <= 2
}

/// Two-dimensional offset: `None` for out-of-range deltas, otherwise a
/// single padded-space step of `f + r * 10`.
pub open spec fn spec_offset_2d(s: int, f: int, r: int) -> Option<Mailbox64Index> {
    if offset_2d_in_bounds(f, r) {
        spec_offset(s, f + r * 10)
    } else {
        None
    }
}

/// The ray starting one step of `off` beyond padded cell `p`: successive
/// squares until the first border cell or until `n` steps, whichever comes
/// first.
pub open spec fn spec_ray(p: int, off: int, n: nat) -> Seq<Mailbox64Index>
    decreases n,
{
    if n == 0 {
        Seq::empty()
    } else {
        let t = p + off;
        if padded_on_board(t) {
            seq![Mailbox64Index(spec_from_padded(t) as u8)] + spec_ray(t, off, (n - 1) as nat)
        } else {
            Seq::empty()
        }
    }
}

/// Every step of the ray stays inside the 120-cell padded table (border
/// cells included), so each step's arithmetic is meaningful.
pub open spec fn ray_in_table(p: int, off: int, n: nat) -> bool
    decreases n,
{
    n == 0 || (0 <= p + off < 120 && (padded_on_board(p + off) ==> ray_in_table(
        p + off,
        off,
        (n - 1) as nat,
    )))
}

/// Two-dimensional ray: empty for out-of-range deltas.
pub open spec fn spec_ray_2d(s: int, f: int, r: int, n: nat) -> Seq<Mailbox64Index> {
    if offset_2d_in_bounds(f, r) {
        spec_ray(spec_to_padded(s), f + r * 10, n)
    } else {
        Seq::empty()
    }
}

/// A per-axis delta of magnitude at most 2 with combined padded-space step
/// of magnitude at most 21 keeps every ray step inside the table.
pub proof fn lemma_small_offset_ray_in_table(p: int, off: int, n: nat)
    requires
        21 <= p <= 98,
        -21 <= off <= 21,
    ensures
        ray_in_table(p, off, n),
    decreases n,
{
    if n > 0 {
        let t = p + off;
        if padded_on_board(t) {
            lemma_small_offset_ray_in_table(t, off, (n - 1) as nat);
        }
    }
}

/// Every square a ray yields is in range.
pub proof fn lemma_ray_elements_wf(p: int, off: int, n: nat)
    ensures
        forall|i: int|
            0 <= i < spec_ray(p, off, n).len() ==> (#[trigger] spec_ray(p, off, n)[i]).wf(),
    decreases n,
{
    if n > 0 {
        let t = p + off;
        if padded_on_board(t) {
            lemma_to_from_padded(t);
            lemma_ray_elements_wf(t, off, (n - 1) as nat);
            assert forall|i: int| 0 <= i < spec_ray(p, off, n).len() implies (#[trigger] spec_ray(
                p,
                off,
                n,
            )[i]).wf() by {
                if i > 0 {
                    assert(spec_ray(p, off, n)[i] == spec_ray(t, off, (n - 1) as nat)[i - 1]);
                }
            }
        }
    }
}

/// A ray yields at most `n` squares; the square after `i` steps lies at
/// padded cell `p + off * (i + 1)`; and a ray shorter than `n` stopped
/// because its next step left the board.
pub proof fn lemma_ray_steps(p: int, off: int, n: nat)
    ensures
        spec_ray(p, off, n).len() <= n,
        forall|i: int|
            0 <= i < spec_ray(p, off, n).len() ==> padded_on_board(#[trigger] (p + off * (i + 1)))
                && spec_ray(p, off, n)[i] == Mailbox64Index(
                spec_from_padded(p + off * (i + 1)) as u8,
            ),
        spec_ray(p, off, n).len() < n ==> !padded_on_board(
            p + off * (spec_ray(p, off, n).len() + 1),
        ),
    decreases n,
{
    if n > 0 {
        let t = p + off;
        if padded_on_board(t) {
            lemma_ray_steps(t, off, (n - 1) as nat);
            let r = spec_ray(p, off, n);
            let rest = spec_ray(t, off, (n - 1) as nat);
            assert forall|i: int|
                0 <= i < spec_ray(p, off, n).len() implies padded_on_board(
                #[trigger] (p + off * (i + 1)),
            ) && spec_ray(p, off, n)[i] == Mailbox64Index(
                spec_from_padded(p + off * (i + 1)) as u8,
            ) by {
                lemma_ray_step_at(p, off, n, i);
            }
            if r.len() < n {
                lemma_mul_is_distributive_add(off, r.len() as int, 1);
                assert(t + off * (rest.len() + 1) == p + off * (r.len() + 1));
            }
        }
    }
}

/// The square a ray yields after `i` steps lies at padded cell
/// `p + off * (i + 1)`.
pub proof fn lemma_ray_step_at(p: int, off: int, n: nat, i: int)
    requires
        0 <= i < spec_ray(p, off, n).len(),
    ensures
        padded_on_board(p + off * (i + 1)),
        spec_ray(p, off, n)[i] == Mailbox64Index(spec_from_padded(p + off * (i + 1)) as u8),
    decreases n,
{
    let t = p + off;
    let rest = spec_ray(t, off, (n - 1) as nat);
    if i == 0 {
        assert(p + off * 1 == t);
        assert(spec_ray(p, off, n)[0] == Mailbox64Index(spec_from_padded(t) as u8));
    } else {
        lemma_ray_step_at(t, off, (n - 1) as nat, i - 1);
        assert(spec_ray(p, off, n)[i] == rest[i - 1]);
        lemma_mul_is_distributive_add(off, i - 1, 1);
        lemma_mul_is_distributive_add(off, i, 1);
        assert(t + off * ((i - 1) + 1) == p + off * (i + 1));
    }
}

/// One padded-space step from `index`. `None` means the step left the board.
///
/// The caller must ensure the step's arithmetic stays inside the 120-cell
/// table; a step that would leave the table entirely indicates a defect in
/// the caller, not ordinary off-board movement.
pub fn offset_index(index: Mailbox64Index, offset: i8) -> (r: Option<Mailbox64Index>)
    requires
        index.wf(),
        0 <= spec_to_padded(index.0 as int) + offset < 120,
    ensures
        r == spec_offset(index.0 as int, offset as int),
        r matches Some(m) ==> m.wf(),
{
    let padded = index.to_padded();
    let target = (padded.0 as i16 + offset as i16) as u8;
    Mailbox120Index(target).to_square()
}

/// One step of a (file, rank) delta from `index`, computed in padded space
/// as `file_offset + rank_offset * 10`. Deltas outside [-2, 2] on either
/// axis are rejected with `None`.
pub fn offset_index_2d(index: Mailbox64Index, file_offset: i8, rank_offset: i8) -> (r: Option<
    Mailbox64Index,
>)
    requires
        index.wf(),
        offset_2d_in_bounds(file_offset as int, rank_offset as int) ==> 0 <= spec_to_padded(
            index.0 as int,
        ) + file_offset + rank_offset * 10 < 120,
    ensures
        r == spec_offset_2d(index.0 as int, file_offset as int, rank_offset as int),
        r matches Some(m) ==> m.wf(),
{
    if file_offset < -2 || file_offset > 2 || rank_offset < -2 || rank_offset > 2 {
        return None;
    }
    offset_index(index, file_offset + rank_offset * 10)
}

/// The squares along a ray: repeated steps of `offset` from `index`, stopping
/// at the first off-board step or after `length` steps, whichever comes
/// first. The result is empty if the first step is already off-board.
pub fn offset_ray(index: Mailbox64Index, offset: i8, length: u8) -> (r: Vec<Mailbox64Index>)
    requires
        index.wf(),
        ray_in_table(spec_to_padded(index.0 as int), offset as int, length as nat),
    ensures
        r@ == spec_ray(spec_to_padded(index.0 as int), offset as int, length as nat),
{
    let ghost full = spec_ray(spec_to_padded(index.0 as int), offset as int, length as nat);
    let mut results: Vec<Mailbox64Index> = Vec::new();
    let mut current = index;
    let mut i: u8 = 0;
    while i < length
        invariant
            i <= length,
            current.wf(),
            ray_in_table(spec_to_padded(current.0 as int), offset as int, (length - i) as nat),
            full == results@ + spec_ray(
                spec_to_padded(current.0 as int),
                offset as int,
                (length - i) as nat,
            ),
            full == spec_ray(spec_to_padded(index.0 as int), offset as int, length as nat),
        decreases length - i,
    {
        let ghost cur_p = spec_to_padded(current.0 as int);
        let ghost rem = (length - i) as nat;
        match offset_index(current, offset) {
            Some(next) => {
                proof {
                    lemma_to_from_padded(cur_p + offset);
                    assert(spec_ray(cur_p, offset as int, rem) == seq![next] + spec_ray(
                        cur_p + offset,
                        offset as int,
                        (rem - 1) as nat,
                    ));
                    assert(results@ + spec_ray(cur_p, offset as int, rem) == results@.push(next)
                        + spec_ray(cur_p + offset, offset as int, (rem - 1) as nat)) by {
                        assert(results@ + (seq![next] + spec_ray(
                            cur_p + offset,
                            offset as int,
                            (rem - 1) as nat,
                        )) =~= results@.push(next) + spec_ray(
                            cur_p + offset,
                            offset as int,
                            (rem - 1) as nat,
                        ));
                    }
                }
                results.push(next);
                current = next;
                i = i + 1;
            },
            None => {
                proof {
                    assert(spec_ray(cur_p, offset as int, rem) =~= Seq::<Mailbox64Index>::empty());
                    assert(results@ + Seq::<Mailbox64Index>::empty() =~= results@);
                }
                return results;
            },
        }
    }
    proof {
        assert(results@ + spec_ray(spec_to_padded(current.0 as int), offset as int, 0) =~= results@);
    }
    results
}

/// The ray of a (file, rank) delta, in padded space. Deltas outside [-2, 2]
/// on either axis yield an empty ray.
pub fn offset_ray_2d(
    index: Mailbox64Index,
    file_offset: i8,
    rank_offset: i8,
    length: u8,
) -> (r: Vec<Mailbox64Index>)
    requires
        index.wf(),
        offset_2d_in_bounds(file_offset as int, rank_offset as int) ==> ray_in_table(
            spec_to_padded(index.0 as int),
            file_offset + rank_offset * 10,
            length as nat,
        ),
    ensures
        r@ == spec_ray_2d(
            index.0 as int,
            file_offset as int,
            rank_offset as int,
            length as nat,
        ),
{
    if file_offset < -2 || file_offset > 2 || rank_offset < -2 || rank_offset > 2 {
        let empty: Vec<Mailbox64Index> = Vec::new();
        proof {
            assert(empty@ =~= Seq::<Mailbox64Index>::empty());
        }
        return empty;
    }
    offset_ray(index, file_offset + rank_offset * 10, length)
}

} // verus!
