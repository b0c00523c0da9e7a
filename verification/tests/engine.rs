use whale::board::Board;
use whale::engine::{generate_legal, generate_pseudolegal};
use whale::mailbox::Mailbox64Index;

fn squares(moves: &[Mailbox64Index]) -> Vec<u8> {
    moves.iter().map(|m| m.0).collect()
}

#[test]
fn rook_in_corner_generates_two_full_rays() {
    // a rook alone on square 0: 7 squares along the file direction, 7 along
    // the rank direction, 0 in the two directions that leave the board
    let board = Board::new("R7/8/8/8/8/8/8/8 w - - 0 1").unwrap();
    let moves = generate_pseudolegal(&board, Mailbox64Index(0));
    assert_eq!(
        squares(&moves),
        vec![8, 16, 24, 32, 40, 48, 56, 1, 2, 3, 4, 5, 6, 7]
    );
}

#[test]
fn bishop_on_long_diagonal() {
    let board = Board::new("B7/8/8/8/8/8/8/8 w - - 0 1").unwrap();
    let moves = generate_pseudolegal(&board, Mailbox64Index(0));
    assert_eq!(squares(&moves), vec![9, 18, 27, 36, 45, 54, 63]);
}

#[test]
fn queen_combines_rook_and_bishop_rays() {
    let board = Board::new("Q7/8/8/8/8/8/8/8 w - - 0 1").unwrap();
    let moves = generate_pseudolegal(&board, Mailbox64Index(0));
    assert_eq!(
        squares(&moves),
        vec![8, 16, 24, 32, 40, 48, 56, 1, 2, 3, 4, 5, 6, 7, 9, 18, 27, 36, 45, 54, 63]
    );
}

#[test]
fn king_takes_single_steps() {
    let board = Board::new("8/8/8/3K4/8/8/8/8 w - - 0 1").unwrap();
    // row 3, col 3: square 27
    let moves = generate_pseudolegal(&board, Mailbox64Index(27));
    assert_eq!(squares(&moves), vec![35, 28, 19, 26, 36, 20, 18, 34]);
}

#[test]
fn knight_moves_from_corner_are_border_filtered() {
    let board = Board::new("8/8/8/8/8/8/8/1N6 w - - 0 1").unwrap();
    // row 7, col 1: square 57
    let moves = generate_pseudolegal(&board, Mailbox64Index(57));
    assert_eq!(squares(&moves), vec![51, 42, 40]);
}

#[test]
fn pseudolegal_squares_always_on_board() {
    // every generated square lies in [0, 64), for every occupied square of
    // the starting position
    let board = Board::default();
    for s in 0..64u8 {
        let square = Mailbox64Index(s);
        if board.cell(square) != 0 {
            for m in generate_pseudolegal(&board, square) {
                assert!(m.0 < 64);
            }
            for m in generate_legal(&board, square) {
                assert!(m.0 < 64);
            }
        }
    }
}

#[test]
fn legal_excludes_own_color_keeps_captures() {
    // a White knight whose path holds one White pawn (excluded) and one
    // Black pawn (kept as a capture)
    let board = Board::new("8/8/8/8/8/2p5/3P4/1N6 w - - 0 1").unwrap();
    let pseudolegal = generate_pseudolegal(&board, Mailbox64Index(57));
    assert_eq!(squares(&pseudolegal), vec![51, 42, 40]);
    let legal = generate_legal(&board, Mailbox64Index(57));
    assert_eq!(squares(&legal), vec![42, 40]);
}

#[test]
fn sliding_ray_passes_through_occupants() {
    // rays stop only at the board edge or after 7 steps; no occupancy check
    // exists in this generator, so a rook ray continues past a blocker and
    // the blocker's square itself is filtered only by color
    let board = Board::new("R7/P7/p7/8/8/8/8/8 w - - 0 1").unwrap();
    let pseudolegal = generate_pseudolegal(&board, Mailbox64Index(0));
    assert_eq!(
        squares(&pseudolegal),
        vec![8, 16, 24, 32, 40, 48, 56, 1, 2, 3, 4, 5, 6, 7]
    );
    let legal = generate_legal(&board, Mailbox64Index(0));
    assert_eq!(
        squares(&legal),
        vec![16, 24, 32, 40, 48, 56, 1, 2, 3, 4, 5, 6, 7]
    );
}

#[test]
fn pawn_on_e2_square_generates_forward_and_diagonal_targets() {
    // The algebraic mapping puts e2 at index 12, which in this board's
    // rank-0-topmost orientation is the cell the starting FEN fills with a
    // Black pawn. Its pseudolegal set is the forward step e3, the two-square
    // advance e4, and the two diagonal targets f3 and d3. The diagonals are
    // not restricted to captures and the double step is not restricted to
    // the starting rank — the known overgeneration of the pawn table — so
    // the legal set on the empty path keeps all four, not only {e3, e4}.
    let board = Board::default();
    let e2 = Mailbox64Index::from_algebraic('e', '2').unwrap();
    assert_eq!(e2.0, 12);
    let e3 = Mailbox64Index::from_algebraic('e', '3').unwrap();
    let e4 = Mailbox64Index::from_algebraic('e', '4').unwrap();
    let d3 = Mailbox64Index::from_algebraic('d', '3').unwrap();
    let f3 = Mailbox64Index::from_algebraic('f', '3').unwrap();
    let pseudolegal = generate_pseudolegal(&board, e2);
    assert_eq!(squares(&pseudolegal), vec![e3.0, e4.0, f3.0, d3.0]);
    let legal = generate_legal(&board, e2);
    assert_eq!(squares(&legal), vec![e3.0, e4.0, f3.0, d3.0]);
}

#[test]
fn white_pawn_advances_toward_decreasing_rank_index() {
    let board = Board::default();
    // row 6, col 4 holds a White pawn in the starting position
    let square = Mailbox64Index(52);
    let pseudolegal = generate_pseudolegal(&board, square);
    assert_eq!(squares(&pseudolegal), vec![44, 36, 45, 43]);
}

#[test]
fn black_pawn_advances_toward_increasing_rank_index() {
    let board = Board::new("8/3p4/8/8/8/8/8/8 b - - 0 1").unwrap();
    // row 1, col 3: square 11
    let pseudolegal = generate_pseudolegal(&board, Mailbox64Index(11));
    assert_eq!(squares(&pseudolegal), vec![19, 27, 20, 18]);
}
