//! Looking up the moves of a sliding piece in a table indexed by a magic number.
use vstd::prelude::*;

use crate::bitboard::Bitboard;
use crate::bits::{bit, group_bits};
use crate::magic::{calc_moves, in_mask, lemma_transform_bound, magic_attack, mask, spec_transform, transform, MagicPiece};
use crate::move_generation::rays::{before, ray, slides, Direction};
use crate::square::{group_square, Square};

verus! {

broadcast use {group_bits, group_square};

/// Only the blockers within the mask matter: a sliding piece attacks the same squares whatever
/// stands on the last square of each of its lines.
pub proof fn lemma_mask_is_enough(piece: MagicPiece, s: int, occ: u64, m: u64, t: int)
    requires
        0 <= s < 64,
        forall|u: int| #[trigger] bit(m, u) == in_mask(piece, s, u),
    ensures
        magic_attack(piece, s, occ & m, t) == magic_attack(piece, s, occ, t),
{
    match piece {
        MagicPiece::Rook => {
            lemma_slide_masked(Direction::North, piece, s, occ, m, t);
            lemma_slide_masked(Direction::South, piece, s, occ, m, t);
            lemma_slide_masked(Direction::East, piece, s, occ, m, t);
            lemma_slide_masked(Direction::West, piece, s, occ, m, t);
        },
        MagicPiece::Bishop => {
            lemma_slide_masked(Direction::NorthEast, piece, s, occ, m, t);
            lemma_slide_masked(Direction::SouthWest, piece, s, occ, m, t);
            lemma_slide_masked(Direction::NorthWest, piece, s, occ, m, t);
            lemma_slide_masked(Direction::SouthEast, piece, s, occ, m, t);
        },
    }
}

/// The piece moves in the direction.
pub open spec fn moves_along(piece: MagicPiece, d: Direction) -> bool {
    match piece {
        MagicPiece::Rook => d == Direction::North || d == Direction::South || d == Direction::East
            || d == Direction::West,
        MagicPiece::Bishop => d == Direction::NorthEast || d == Direction::SouthWest || d
            == Direction::NorthWest || d == Direction::SouthEast,
    }
}

/// A square between a piece and a square it slides to lies in the piece's mask.
proof fn lemma_between_in_mask(d: Direction, piece: MagicPiece, s: int, u: int, t: int)
    requires
        0 <= s < 64,
        moves_along(piece, d),
        ray(d, s, t),
        ray(d, s, u),
        before(d, u, t),
    ensures
        in_mask(piece, s, u),
{
}

/// Sliding along one of the piece's directions is the same with the blockers cut to the mask.
proof fn lemma_slide_masked(d: Direction, piece: MagicPiece, s: int, occ: u64, m: u64, t: int)
    requires
        0 <= s < 64,
        moves_along(piece, d),
        forall|u: int| #[trigger] bit(m, u) == in_mask(piece, s, u),
    ensures
        slides(d, s, occ & m, t) == slides(d, s, occ, t),
{
    if ray(d, s, t) {
        assert forall|u: int| #[trigger] ray(d, s, u) && before(d, u, t) implies bit(occ & m, u) == bit(occ, u) by {
            lemma_between_in_mask(d, piece, s, u, t);
            assert(bit(m, u));
        }
    }
}

/// The index bits and magic number of a rook on each square, a1 first.
pub const ROOK_MAGICS: [(u8, u64); 64] = [
    (12, 0x1d80102140008000),
    (11, 0x80c0002000491002),
    (11, 0x0900082001004010),
    (11, 0xa080080080100004),
    (11, 0x0100020411000800),
    (11, 0x2200080110040200),
    (11, 0x1880410012001080),
    (12, 0x4080190000644080),
    (11, 0x0004800098204000),
    (10, 0x1802401000402004),
    (10, 0xc002002a00104080),
    (10, 0x4088800801801000),
    (10, 0x1804800400818800),
    (10, 0x8046804400020080),
    (10, 0x0084000201048810),
    (11, 0x0020802841001480),
    (11, 0x8119020022084080),
    (10, 0x0000404010002001),
    (10, 0x5200220010804208),
    (10, 0x0000090020100100),
    (10, 0x0800808008000401),
    (10, 0x0002010100040008),
    (10, 0x6400040008028110),
    (11, 0x0010020000408104),
    (11, 0x4a00400480008020),
    (10, 0x48c0401080200080),
    (10, 0x4430008480122002),
    (10, 0x821d100080080282),
    (10, 0x5204040080080080),
    (10, 0x0004010040020040),
    (10, 0x0804b00400010248),
    (11, 0x7018802180005300),
    (11, 0x0180400080800023),
    (10, 0x006000c020c01000),
    (10, 0x1801044011002000),
    (10, 0x0004080480801000),
    (10, 0x0000800400800800),
    (10, 0x1882001c06000810),
    (10, 0x081005504c003802),
    (11, 0x03000c0042001481),
    (11, 0x0081400280228000),
    (10, 0x5000200050004001),
    (10, 0x0110004020010100),
    (10, 0x40000a0020120040),
    (10, 0x8000040008008080),
    (10, 0x5000a04004080110),
    (10, 0x0000228810040041),
    (11, 0x3c8000930542000c),
    (11, 0x0100408001002500),
    (10, 0x008c884002200c80),
    (10, 0x022cc19280220200),
    (10, 0x0514800800100080),
    (10, 0x0104028008000480),
    (10, 0x6009002400022900),
    (10, 0x0004800200010080),
    (11, 0x0082140049208200),
    (12, 0x0205042010800041),
    (11, 0x104492a501400081),
    (11, 0x8044804200081022),
    (11, 0x0442100184200901),
    (11, 0x0401000800021085),
    (11, 0x2609000400080201),
    (11, 0x8000083092011004),
    (12, 0x8000008302284402)
];

/// The index bits and magic number of a bishop on each square, a1 first.
pub const BISHOP_MAGICS: [(u8, u64); 64] = [
    (6, 0xb00410902d010010),
    (5, 0x20c421022a220000),
    (5, 0x1404080081044000),
    (5, 0x80c9040504004080),
    (5, 0x0402021040020000),
    (5, 0x31020a9004090000),
    (5, 0x2011110110410000),
    (6, 0x0084820080a00820),
    (5, 0x0813622001020c88),
    (5, 0x8181100409040530),
    (5, 0x0112111142060090),
    (5, 0x1311444040800000),
    (5, 0x00000110400082c0),
    (5, 0x0000410188408081),
    (5, 0x0000120230040422),
    (5, 0x0000208428821000),
    (5, 0x0520401242100104),
    (5, 0x3048109010008088),
    (7, 0x0004000884220200),
    (7, 0x0028000420405204),
    (7, 0x0142004400940440),
    (7, 0x1188800808900800),
    (5, 0x3001000058080401),
    (5, 0x00020101104d0c24),
    (5, 0x1004c04020020400),
    (5, 0x02422045022c8408),
    (7, 0x80812a0104080a02),
    (9, 0x0026008208008082),
    (9, 0x0082840048802010),
    (7, 0x0010450088900801),
    (5, 0x00008a0021080200),
    (5, 0x0181004001084802),
    (5, 0x4021101000086004),
    (5, 0x10020110302002a0),
    (7, 0x0005124400281800),
    (9, 0x0080020081080080),
    (9, 0x8010810200040208),
    (7, 0x0008004500809004),
    (5, 0x4414010a040c1083),
    (5, 0x8018020044088042),
    (5, 0x8401012020009201),
    (5, 0x0140480410004408),
    (7, 0x80c1010802002104),
    (7, 0x4000004200804808),
    (7, 0x0000602208800408),
    (7, 0x9108021042000c12),
    (5, 0x000414088a00b402),
    (5, 0x1104010208220200),
    (5, 0x0060410808402004),
    (5, 0x4002050101110281),
    (5, 0x200010440404010b),
    (5, 0x1208000b20a810a0),
    (5, 0x0200801102020001),
    (5, 0x0008081001820500),
    (5, 0x0104111002008420),
    (5, 0x0010044084004a10),
    (6, 0x0885008800880500),
    (5, 0x2080290402014501),
    (5, 0x0840100200922100),
    (5, 0x0204400000208800),
    (5, 0x00000800c0082220),
    (5, 0x8008204039410100),
    (5, 0x0280103010808880),
    (6, 0x0210010808044042)
];

/// The index bits and magic number used for a piece on the square with index `i`.
fn engine_magic(piece: MagicPiece, i: usize) -> (r: (u8, u64))
    requires
        i < 64,
    ensures
        r == (match piece {
            MagicPiece::Rook => ROOK_MAGICS@[i as int],
            MagicPiece::Bishop => BISHOP_MAGICS@[i as int],
        }),
{
    match piece {
        MagicPiece::Rook => ROOK_MAGICS[i],
        MagicPiece::Bishop => BISHOP_MAGICS[i],
    }
}

/// The slot for the blockers `y` holds the squares a piece on `s` attacks with `y` occupied.
pub open spec fn slot_ok(
    attacks: Seq<Bitboard>,
    piece: MagicPiece,
    s: int,
    magic: u64,
    bits: u8,
    y: u64,
) -> bool {
    forall|t: int| #[trigger] bit(attacks[spec_transform(y, magic, bits) as int].0, t) == magic_attack(piece, s, y, t)
}

/// The moves of one sliding piece on one square, looked up by magic number.
pub struct MagicTable {
    pub piece: MagicPiece,
    pub square: Square,
    /// The squares where the piece could be blocked.
    pub mask: Bitboard,
    pub bits: u8,
    pub magic: u64,
    /// The moves for each slot; nothing where the magic number sends two blocker sets with
    /// different moves to one slot.
    pub attacks: Option<Vec<Bitboard>>,
}

impl MagicTable {
    /// The mask is the piece's, and each blocker set within it finds its moves in its slot.
    pub open spec fn wf(&self) -> bool {
        &&& forall|t: int| #[trigger] bit(self.mask.0, t) == in_mask(self.piece, self.square.index(), t)
        &&& self.attacks matches Some(a) ==> {
            &&& 1 <= self.bits <= 16
            &&& a@.len() == 0x10000
            &&& forall|y: u64|
                y & !self.mask.0 == 0 ==> #[trigger] slot_ok(a@, self.piece, self.square.index(), self.magic, self.bits, y)
        }
    }

    /// Fills the table for a piece on the square with the magic number: each blocker set within
    /// the mask gets its moves in its slot. Where two sets with different moves share a slot,
    /// or `bits` is not from 1 to 16, the table holds nothing.
    pub fn new(piece: MagicPiece, square: Square, bits: u8, magic: u64) -> (r: MagicTable)
        ensures
            r.wf(),
            r.piece == piece,
            r.square == square,
            r.bits == bits,
            r.magic == magic,
    {
        let mask = mask(piece, square);
        if bits < 1 || bits > 16 {
            return MagicTable { piece, square, mask, bits, magic, attacks: None };
        }
        let mut attacks: Vec<Bitboard> = Vec::new();
        let mut filled: Vec<bool> = Vec::new();
        let mut k: usize = 0;
        while k < 0x10000
            invariant
                k <= 0x10000,
                attacks@.len() == k,
                filled@.len() == k,
                forall|j: int| 0 <= j < k ==> !#[trigger] filled@[j],
            decreases 0x10000 - k,
        {
            attacks.push(Bitboard(0));
            filled.push(false);
            k = k + 1;
        }
        let subsets = mask.powerset();
        let ghost s = square.index();
        let mut i: usize = 0;
        while i < subsets.len()
            invariant
                1 <= bits <= 16,
                i <= subsets@.len(),
                attacks@.len() == 0x10000,
                filled@.len() == 0x10000,
                s == square.index(),
                forall|t: int| #[trigger] bit(mask.0, t) == in_mask(piece, square.index(), t),
                forall|k: int| 0 <= k < i ==> #[trigger] slot_ok(attacks@, piece, s, magic, bits, subsets@[k].0),
                forall|j: int, k: int|
                    0 <= j < 0x10000 && 0 <= k < i && !#[trigger] filled@[j] ==> spec_transform(
                        #[trigger] subsets@[k].0,
                        magic,
                        bits,
                    ) != j,
            decreases subsets@.len() - i,
        {
            let y = subsets[i];
            let index = transform(y, magic, bits);
            let moves = calc_moves(piece, square, y);
            if filled[index] {
                if attacks[index].0 != moves.0 {
                    return MagicTable { piece, square, mask, bits, magic, attacks: None };
                }
                assert(slot_ok(attacks@, piece, s, magic, bits, y.0));
            } else {
                let ghost before = attacks@;
                attacks.set(index, moves);
                filled.set(index, true);
                assert forall|k: int| 0 <= k < i + 1 implies #[trigger] slot_ok(
                    attacks@,
                    piece,
                    s,
                    magic,
                    bits,
                    subsets@[k].0,
                ) by {
                    let j = spec_transform(subsets@[k].0, magic, bits) as int;
                    lemma_transform_bound(subsets@[k].0, magic, bits);
                    if k < i {
                        assert(slot_ok(before, piece, s, magic, bits, subsets@[k].0));
                        assert(j != index);
                        assert(attacks@[j] == before[j]);
                    } else {
                        assert(subsets@[k] == y);
                        assert(j == index);
                        assert(attacks@[j] == moves);
                        assert forall|t: int| #[trigger] bit(attacks@[j].0, t) == magic_attack(piece, s, subsets@[k].0, t) by {
                            assert(bit(moves.0, t) == magic_attack(piece, square.index(), y.0, t));
                        }
                    }
                }
            }
            i = i + 1;
        }
        assert forall|y: u64| y & !mask.0 == 0 implies #[trigger] slot_ok(attacks@, piece, square.index(), magic, bits, y) by {
            assert(subsets@.contains(Bitboard(y)));
            let k = choose|k: int| 0 <= k < subsets@.len() && subsets@[k] == Bitboard(y);
            assert(slot_ok(attacks@, piece, s, magic, bits, subsets@[k].0));
        }
        MagicTable { piece, square, mask, bits, magic, attacks: Some(attacks) }
    }

    /// The slot for the blockers among `occupancy`.
    pub fn index(&self, occupancy: Bitboard) -> (r: usize)
        requires
            1 <= self.bits <= 16,
        ensures
            r == spec_transform(occupancy.0 & self.mask.0, self.magic, self.bits),
            r < 0x10000,
    {
        transform(Bitboard(occupancy.0 & self.mask.0), self.magic, self.bits)
    }

    /// The squares the piece attacks with the squares of `occupancy` occupied: looked up in the
    /// table, or worked out where the table holds nothing.
    pub fn magic_moves(&self, occupancy: Bitboard) -> (r: Bitboard)
        requires
            self.wf(),
        ensures
            forall|t: int| #[trigger] bit(r.0, t) == magic_attack(self.piece, self.square.index(), occupancy.0, t),
    {
        match &self.attacks {
            None => calc_moves(self.piece, self.square, occupancy),
            Some(a) => {
                let index = self.index(occupancy);
                assert forall|t: int| #[trigger] bit(a@[index as int].0, t) == magic_attack(
                    self.piece,
                    self.square.index(),
                    occupancy.0,
                    t,
                ) by {
                    law_table_slot_holds_moves(*self, occupancy.0, t);
                }
                a[index]
            },
        }
    }
}

/// Looking up by magic number gives what working out the moves gives: in a filled table, the
/// slot for the blockers of any occupancy within the mask holds the squares the piece attacks.
pub proof fn law_table_slot_holds_moves(table: MagicTable, occ: u64, t: int)
    requires
        table.wf(),
        table.attacks is Some,
    ensures
        bit(
            table.attacks->0@[spec_transform(occ & table.mask.0, table.magic, table.bits) as int].0,
            t,
        ) == magic_attack(table.piece, table.square.index(), occ, t),
{
    let mk = table.mask.0;
    assert((occ & mk) & !mk == 0) by (bit_vector);
    assert(slot_ok(table.attacks->0@, table.piece, table.square.index(), table.magic, table.bits, occ & mk));
    lemma_mask_is_enough(table.piece, table.square.index(), occ, mk, t);
}

/// The magic tables of one sliding piece, one for each square.
pub struct Magics {
    pub piece: MagicPiece,
    pub tables: Vec<MagicTable>,
}

impl Magics {
    /// Each table is well formed, for its square and the piece.
    pub open spec fn wf(&self) -> bool {
        &&& self.tables@.len() == 64
        &&& forall|i: int| 0 <= i < 64 ==> (#[trigger] self.tables@[i]).wf() && self.tables@[i].piece == self.piece
            && self.tables@[i].square.index() == i
    }

    /// The tables for the piece with the engine's magic numbers.
    pub fn new(piece: MagicPiece) -> (r: Magics)
        ensures
            r.wf(),
            r.piece == piece,
    {
        let mut tables: Vec<MagicTable> = Vec::new();
        let mut i: u8 = 0;
        while i < 64
            invariant
                i <= 64,
                tables@.len() == i,
                forall|k: int| 0 <= k < i ==> (#[trigger] tables@[k]).wf() && tables@[k].piece == piece
                    && tables@[k].square.index() == k,
            decreases 64 - i,
        {
            let square = Square::from_index(i);
            let (bits, magic) = engine_magic(piece, i as usize);
            tables.push(MagicTable::new(piece, square, bits, magic));
            i = i + 1;
        }
        Magics { piece, tables }
    }

    /// The squares the piece attacks from the square with the squares of `occupancy` occupied,
    /// looked up by magic number.
    pub fn magic_moves(&self, square: Square, occupancy: Bitboard) -> (r: Bitboard)
        requires
            self.wf(),
        ensures
            forall|t: int| #[trigger] bit(r.0, t) == magic_attack(self.piece, square.index(), occupancy.0, t),
    {
        let table = &self.tables[square.to_index() as usize];
        table.magic_moves(occupancy)
    }
}

} // verus!
