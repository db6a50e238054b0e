use skakoui::magic::lookup::{MagicTable, Magics};
use skakoui::magic::{calc_moves, find_magic, mask, transform, valid_magic, MagicPiece};
use skakoui::{Bitboard, Square};

#[test]
fn rook_moves_works() {
    let occupancy = Bitboard(0x0800_4004_1800_0800);
    let expected = Bitboard(0x0808_0808_1708_0800);
    let rooks = Magics::new(MagicPiece::Rook);
    assert_eq!(expected, rooks.magic_moves(Square::D4, occupancy));
}

/// A few words with their bits spread over the board.
fn occupancies() -> Vec<Bitboard> {
    let mut x: u64 = 0x9e37_79b9_7f4a_7c15;
    let mut out = vec![Bitboard(0), Bitboard(!0)];
    for _ in 0..40 {
        x ^= x << 13;
        x ^= x >> 7;
        x ^= x << 17;
        out.push(Bitboard(x));
        out.push(Bitboard(x & (x >> 3)));
    }
    out
}

#[test]
fn rook_magics_are_correct() {
    let rooks = Magics::new(MagicPiece::Rook);
    for index in 0..64u8 {
        let square = Square::from_index(index);
        for occupancy in occupancies() {
            assert_eq!(
                calc_moves(MagicPiece::Rook, square, occupancy),
                rooks.magic_moves(square, occupancy)
            );
        }
    }
}

#[test]
fn bishop_magics_are_correct() {
    let bishops = Magics::new(MagicPiece::Bishop);
    for index in 0..64u8 {
        let square = Square::from_index(index);
        for occupancy in occupancies() {
            assert_eq!(
                calc_moves(MagicPiece::Bishop, square, occupancy),
                bishops.magic_moves(square, occupancy)
            );
        }
    }
}

#[test]
fn the_engine_magic_numbers_fill_every_table() {
    for piece in [MagicPiece::Rook, MagicPiece::Bishop] {
        let magics = Magics::new(piece);
        assert!(magics.tables.iter().all(|t| t.attacks.is_some()));
    }
}

#[test]
fn a_magic_number_that_clashes_leaves_the_table_empty_and_moves_still_come_out_right() {
    let table = MagicTable::new(MagicPiece::Rook, Square::A1, 12, 0);
    assert!(table.attacks.is_none());
    let occupancy = Bitboard(0x0000_0000_0000_0102);
    assert_eq!(table.magic_moves(occupancy), Bitboard(0x0000_0000_0000_0102));
}

#[test]
fn masks_leave_out_the_edges_and_the_square() {
    assert_eq!(mask(MagicPiece::Rook, Square::A1), Bitboard(0x0001_0101_0101_017e));
    assert_eq!(mask(MagicPiece::Bishop, Square::D4), Bitboard(0x0040_2214_0014_2200));
}

#[test]
fn transform_takes_the_top_bits_of_the_product() {
    assert_eq!(transform(Bitboard(1), 0x8000_0000_0000_0000, 1), 1);
    assert_eq!(transform(Bitboard(3), 0x5555_0000_0000_0000, 16), 0xffff);
    assert_eq!(transform(Bitboard(0), 0xffff_ffff_ffff_ffff, 12), 0);
}

#[test]
fn valid_magic_rejects_clashes_and_sparse_products() {
    let moves_a = Bitboard(1);
    let moves_b = Bitboard(2);
    let list = vec![(Bitboard(0), moves_a), (Bitboard(1), moves_b)];
    // Zero sends every set to slot 0, and its product has no bits.
    assert!(!valid_magic(0, Bitboard(1), &list, 1));
    // With the magic number all ones, the mask 1 gives a product with every top bit set, and the
    // two sets land in different slots.
    assert!(valid_magic(0xffff_ffff_ffff_ffff, Bitboard(1), &list, 1));
}

#[test]
fn find_magic_finds_a_working_magic_number() {
    let found = find_magic(MagicPiece::Bishop, Square::A1, None, 1_000_000);
    let (bits, magic) = found.unwrap();
    assert_eq!(bits, 6);
    let table = MagicTable::new(MagicPiece::Bishop, Square::A1, bits, magic);
    assert!(table.attacks.is_some());
}
