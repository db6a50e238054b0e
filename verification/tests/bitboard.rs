use std::collections::HashSet;

use skakoui::bitboards;
use skakoui::{Bitboard, Square};

#[test]
fn can_create_bitboard_from_square() {
    assert_eq!(Bitboard::from(Square::B2), Bitboard(0b00000010_00000000));
}

#[test]
fn can_get_an_iterator_of_squares_from_bitboard() {
    let bitboard = Bitboard(0b_11111111_00000000);

    let squares: HashSet<Square> = bitboard.squares().into_iter().collect();

    let expected_squares: HashSet<Square> = [
        Square::A2,
        Square::B2,
        Square::C2,
        Square::D2,
        Square::E2,
        Square::F2,
        Square::G2,
        Square::H2,
    ]
    .iter()
    .cloned()
    .collect();

    assert_eq!(squares, expected_squares);
}

#[test]
fn can_set_bit_on_bitboard() {
    let mut bitboard = Bitboard(0b0_11000000);

    bitboard.set(Square::A2);

    assert_eq!(bitboard, Bitboard(0b1_11000000));
}

#[test]
fn can_reset_bit_on_bitboard() {
    let mut bitboard = Bitboard(0b_11000000);

    bitboard.reset(Square::H1);

    assert_eq!(bitboard, Bitboard(0b_01000000));
}

#[test]
fn can_move_bit_on_bitboard() {
    let mut bitboard = Bitboard(0b_10000001);

    bitboard.move_bit(Square::A1, Square::C1);

    assert_eq!(bitboard, Bitboard(0b_10000100));
}

#[test]
fn can_shift_rank_on_bitboard() {
    let mut bitboard = Bitboard(0b11111111_01010101);

    bitboard = bitboard.shift_rank(0);
    assert_eq!(bitboard, Bitboard(0b11111111_01010101));

    bitboard = bitboard.shift_rank(1);
    assert_eq!(bitboard, Bitboard(0b11111111_01010101_00000000));

    bitboard = bitboard.shift_rank(-2);
    assert_eq!(bitboard, Bitboard(0b_11111111));

    bitboard = bitboard.shift_rank(8);
    assert_eq!(bitboard, bitboards::empty());
}

#[test]
fn can_shift_file_on_bitboard() {
    let mut bitboard = Bitboard(0b10000000_01010101);

    bitboard = bitboard.shift_file(0);
    assert_eq!(bitboard, Bitboard(0b10000000_01010101));

    bitboard = bitboard.shift_file(1);
    assert_eq!(bitboard, Bitboard(0b00000000_10101010));

    bitboard = bitboard.shift_file(-2);
    assert_eq!(bitboard, Bitboard(0b00000000_00101010));

    bitboard = bitboard.shift_file(8);
    assert_eq!(bitboard, bitboards::empty());
}

#[test]
fn can_get_powerset_of_bitboard() {
    let bitboard = Bitboard(0b10101);

    let powerset: HashSet<Bitboard> = bitboard.powerset().into_iter().collect();

    let mut expected = HashSet::new();
    expected.insert(Bitboard(0b10101));
    expected.insert(Bitboard(0b10100));
    expected.insert(Bitboard(0b10001));
    expected.insert(Bitboard(0b10000));
    expected.insert(Bitboard(0b00101));
    expected.insert(Bitboard(0b00100));
    expected.insert(Bitboard(0b00001));
    expected.insert(Bitboard(0b00000));

    assert_eq!(powerset, expected);
}

#[test]
fn first_and_last_set_find_the_extreme_squares() {
    let bitboard = Bitboard(0b_00100000_00000000_00010000);
    assert_eq!(bitboard.first_set(), Square::E1);
    assert_eq!(bitboard.last_set(), Square::F3);
    assert_eq!(bitboard.count(), 2);
}

#[test]
fn reversing_swaps_the_ranks() {
    assert_eq!(Bitboard(0xff).reverse(), Bitboard(0xff00_0000_0000_0000));
    assert_eq!(Bitboard(0x0102).reverse(), Bitboard(0x0201_0000_0000_0000));
}

#[test]
fn displaying_a_bitboard_draws_its_squares() {
    let expected = "  a b c d e f g h \n\
8 . . . . . . . X 8\n\
7 . . . . . . . . 7\n\
6 . . . . . . . . 6\n\
5 . . . . . . . . 5\n\
4 . . . . . . . . 4\n\
3 . . . . . . . . 3\n\
2 . . . . . . . . 2\n\
1 X . . . . . . . 1\n  a b c d e f g h ";
    let board = Bitboard::from_square(Square::A1) | Bitboard::from_square(Square::H8);
    assert_eq!(board.to_string(), expected);
}

#[test]
fn reversing_mirrors_ranks_and_twice_gives_the_set_back() {
    let b = Bitboard(0x0000_0000_0010_0402);
    let r = b.reverse();
    assert_eq!(r, Bitboard(0x0204_1000_0000_0000));
    assert_eq!(r.reverse(), b);
    assert_eq!(r.count(), b.count());
}

#[test]
fn the_squares_of_a_set_are_as_many_as_its_count() {
    for word in [0u64, 1, 0x8000_0000_0000_0001, 0x0123_4567_89ab_cdef, u64::MAX] {
        let b = Bitboard(word);
        assert_eq!(b.squares().len(), b.count() as usize);
    }
}
