use whale::mailbox::{Mailbox120Index, Mailbox64Index};
use whale::mailbox::{offset_index, offset_index_2d, offset_ray, offset_ray_2d};

#[test]
fn to_padded_corners_and_edges() {
    assert_eq!(Mailbox64Index(0).to_padded().0, 21);
    assert_eq!(Mailbox64Index(7).to_padded().0, 28);
    assert_eq!(Mailbox64Index(8).to_padded().0, 31);
    assert_eq!(Mailbox64Index(56).to_padded().0, 91);
    assert_eq!(Mailbox64Index(63).to_padded().0, 98);
}

#[test]
fn to_square_on_board_and_border() {
    assert_eq!(Mailbox120Index(21).to_square(), Some(Mailbox64Index(0)));
    assert_eq!(Mailbox120Index(98).to_square(), Some(Mailbox64Index(63)));
    assert_eq!(Mailbox120Index(55).to_square(), Some(Mailbox64Index(28)));
    // the sentinel border: top rows, bottom rows, left and right columns
    assert_eq!(Mailbox120Index(0).to_square(), None);
    assert_eq!(Mailbox120Index(19).to_square(), None);
    assert_eq!(Mailbox120Index(20).to_square(), None);
    assert_eq!(Mailbox120Index(29).to_square(), None);
    assert_eq!(Mailbox120Index(99).to_square(), None);
    assert_eq!(Mailbox120Index(110).to_square(), None);
    assert_eq!(Mailbox120Index(119).to_square(), None);
}

#[test]
fn padded_round_trip_is_stable() {
    // toPadded(fromPadded(toPadded(s))) == toPadded(s) for every square
    for s in 0..64u8 {
        let padded = Mailbox64Index(s).to_padded();
        let back = padded.to_square().expect("on-board cell maps to a square");
        assert_eq!(back.0, s);
        assert_eq!(back.to_padded().0, padded.0);
    }
}

#[test]
fn algebraic_parsing() {
    assert_eq!(Mailbox64Index::from_algebraic('a', '1'), Some(Mailbox64Index(0)));
    assert_eq!(Mailbox64Index::from_algebraic('e', '2'), Some(Mailbox64Index(12)));
    assert_eq!(Mailbox64Index::from_algebraic('e', '3'), Some(Mailbox64Index(20)));
    assert_eq!(Mailbox64Index::from_algebraic('h', '8'), Some(Mailbox64Index(63)));
    assert_eq!(Mailbox64Index::from_algebraic('i', '1'), None);
    assert_eq!(Mailbox64Index::from_algebraic('a', '9'), None);
    assert_eq!(Mailbox64Index::from_algebraic('a', '0'), None);
    assert_eq!(Mailbox64Index::from_algebraic('1', 'a'), None);
}

#[test]
fn offset_index_steps() {
    // one step right from the top-left square
    assert_eq!(offset_index(Mailbox64Index(0), 1), Some(Mailbox64Index(1)));
    // one step down (a rank is 10 apart in padded space)
    assert_eq!(offset_index(Mailbox64Index(0), 10), Some(Mailbox64Index(8)));
    // off the left edge
    assert_eq!(offset_index(Mailbox64Index(0), -1), None);
    // off the top edge
    assert_eq!(offset_index(Mailbox64Index(0), -10), None);
    // off the right edge from h-file
    assert_eq!(offset_index(Mailbox64Index(7), 1), None);
}

#[test]
fn offset_index_2d_steps() {
    assert_eq!(offset_index_2d(Mailbox64Index(0), 1, 1), Some(Mailbox64Index(9)));
    assert_eq!(offset_index_2d(Mailbox64Index(0), -1, 0), None);
    assert_eq!(offset_index_2d(Mailbox64Index(63), 1, 0), None);
    // deltas beyond [-2, 2] are rejected outright
    assert_eq!(offset_index_2d(Mailbox64Index(28), 3, 0), None);
    assert_eq!(offset_index_2d(Mailbox64Index(28), 0, -3), None);
}

#[test]
fn offset_ray_full_length() {
    // straight down from the top-left corner: seven squares
    let ray = offset_ray(Mailbox64Index(0), 10, 7);
    let squares: Vec<u8> = ray.iter().map(|m| m.0).collect();
    assert_eq!(squares, vec![8, 16, 24, 32, 40, 48, 56]);
}

#[test]
fn offset_ray_stops_at_border() {
    // rightward from square 5: only two squares before the edge
    let ray = offset_ray(Mailbox64Index(5), 1, 7);
    let squares: Vec<u8> = ray.iter().map(|m| m.0).collect();
    assert_eq!(squares, vec![6, 7]);
    // leftward from the a-file: empty, the first step is off-board
    assert_eq!(offset_ray(Mailbox64Index(0), -1, 7).len(), 0);
}

#[test]
fn offset_ray_stops_at_max_length() {
    let ray = offset_ray(Mailbox64Index(0), 10, 3);
    let squares: Vec<u8> = ray.iter().map(|m| m.0).collect();
    assert_eq!(squares, vec![8, 16, 24]);
    assert_eq!(offset_ray(Mailbox64Index(0), 10, 0).len(), 0);
}

#[test]
fn offset_ray_2d_matches_padded_arithmetic() {
    let ray = offset_ray_2d(Mailbox64Index(0), 1, 1, 7);
    let squares: Vec<u8> = ray.iter().map(|m| m.0).collect();
    assert_eq!(squares, vec![9, 18, 27, 36, 45, 54, 63]);
    // deltas beyond [-2, 2] yield an empty ray
    assert_eq!(offset_ray_2d(Mailbox64Index(0), 3, 0, 7).len(), 0);
}
