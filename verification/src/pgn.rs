//! Moves in Standard Algebraic Notation.
use vstd::prelude::*;
use vstd::string::*;

use crate::board::{holds, Board, BoardState};
use crate::error::ParseError;
use crate::move_generation::{legal_move, pseudo_legal};
use crate::search::order::{in_order, lemma_pseudo_legal_order, pseudo_legal_order};
use crate::moves::Move;
use crate::piece::{spec_piece_type_char, Piece, PieceTypeV};
use crate::player::PlayerV;
use crate::square::{decimal, file_char, File, Rank, Square};

verus! {

/// A move in
/// [Standard Algebraic Notation](https://en.wikipedia.org/wiki/Algebraic_notation_(chess)).
#[derive(Clone, Copy, PartialEq, Eq, Structural, Debug)]
pub enum Algebraic {
    Move {
        piece_type: PieceTypeV,
        source_file: Option<File>,
        source_rank: Option<Rank>,
        capturing: bool,
        target: Square,
        promoting: Option<PieceTypeV>,
    },
    CastleKingside,
    CastleQueenside,
}

/// A piece letter of the notation.
pub open spec fn is_piece_letter(c: char) -> bool {
    c == 'K' || c == 'Q' || c == 'R' || c == 'N' || c == 'B' || c == 'P'
}

/// A letter of a piece a pawn promotes to.
pub open spec fn is_promotion_letter(c: char) -> bool {
    c == 'Q' || c == 'R' || c == 'N' || c == 'B'
}

pub open spec fn is_file_char(c: char) -> bool {
    'a' <= c <= 'h'
}

pub open spec fn is_rank_char(c: char) -> bool {
    '1' <= c <= '8'
}

/// The kind of piece a letter names.
pub open spec fn letter_type(c: char) -> PieceTypeV {
    if c == 'K' {
        PieceTypeV::King
    } else if c == 'Q' {
        PieceTypeV::Queen
    } else if c == 'R' {
        PieceTypeV::Rook
    } else if c == 'N' {
        PieceTypeV::Knight
    } else if c == 'B' {
        PieceTypeV::Bishop
    } else {
        PieceTypeV::Pawn
    }
}

/// `s` holds `t` from position `i` on.
pub open spec fn has_at(s: Seq<char>, i: int, t: Seq<char>) -> bool {
    0 <= i && i + t.len() <= s.len() && s.subrange(i, i + t.len()) == t
}

/// Kingside castling is written at position `i`: `O-O` or `0-0`.
pub open spec fn kingside_at(s: Seq<char>, i: int) -> bool {
    has_at(s, i, seq!['0', '-', '0']) || has_at(s, i, seq!['O', '-', 'O'])
}

/// Queenside castling is written at position `i`: `O-O-O` or `0-0-0`.
pub open spec fn queenside_at(s: Seq<char>, i: int) -> bool {
    has_at(s, i, seq!['0', '-', '0', '-', '0']) || has_at(s, i, seq!['O', '-', 'O', '-', 'O'])
}

/// The optional parts of a move before its target (piece letter, source file, source rank,
/// capture mark), as the bits 3, 2, 1 and 0 of `k`, and the positions where they and the
/// target start.
pub open spec fn part_positions(i: int, k: int) -> (int, int, int, int) {
    let j1 = i + (if (k / 8) % 2 == 1 { 1int } else { 0int });
    let j2 = j1 + (if (k / 4) % 2 == 1 { 1int } else { 0int });
    let j3 = j2 + (if (k / 2) % 2 == 1 { 1int } else { 0int });
    let j4 = j3 + (if k % 2 == 1 { 1int } else { 0int });
    (j1, j2, j3, j4)
}

/// A move is written at position `i` with the optional parts that `k` takes: each taken part
/// is there, and a target square follows.
pub open spec fn parts_match(s: Seq<char>, i: int, k: int) -> bool {
    let (j1, j2, j3, j4) = part_positions(i, k);
    &&& 0 <= i
    &&& j4 + 2 <= s.len()
    &&& (k / 8) % 2 == 1 ==> is_piece_letter(s[i])
    &&& (k / 4) % 2 == 1 ==> is_file_char(s[j1])
    &&& (k / 2) % 2 == 1 ==> is_rank_char(s[j2])
    &&& k % 2 == 1 ==> s[j3] == 'x'
    &&& is_file_char(s[j4])
    &&& is_rank_char(s[j4 + 1])
}

/// The first way, trying the optional parts taken before left out (`k` from 15 down), that a
/// move is written at position `i`.
pub open spec fn first_parts(s: Seq<char>, i: int, k: int) -> Option<int>
    decreases k + 1,
{
    if k < 0 {
        None
    } else if parts_match(s, i, k) {
        Some(k)
    } else {
        first_parts(s, i, k - 1)
    }
}

/// The promotion written at position `j`: a promotion letter, possibly after `=`.
pub open spec fn promotion_at(s: Seq<char>, j: int) -> Option<PieceTypeV> {
    if 0 <= j && j + 1 < s.len() && s[j] == '=' && is_promotion_letter(s[j + 1]) {
        Some(letter_type(s[j + 1]))
    } else if 0 <= j < s.len() && is_promotion_letter(s[j]) {
        Some(letter_type(s[j]))
    } else {
        None
    }
}

/// The move written at position `i` with the optional parts `k` takes.
pub open spec fn move_with_parts(s: Seq<char>, i: int, k: int) -> Algebraic {
    let (j1, j2, j3, j4) = part_positions(i, k);
    Algebraic::Move {
        piece_type: if (k / 8) % 2 == 1 {
            letter_type(s[i])
        } else {
            PieceTypeV::Pawn
        },
        source_file: if (k / 4) % 2 == 1 {
            Some(File::at(s[j1] as int - 'a' as int))
        } else {
            None
        },
        source_rank: if (k / 2) % 2 == 1 {
            Some(Rank::at(s[j2] as int - '1' as int))
        } else {
            None
        },
        capturing: k % 2 == 1,
        target: Square::at((s[j4] as int - 'a' as int) + 8 * (s[j4 + 1] as int - '1' as int)),
        promoting: promotion_at(s, j4 + 2),
    }
}

/// The first notation found in `s` at position `i` or later: castling where it is written at
/// a position, else a move; queenside castling, the longer, is tried first, so that `O-O-O`
/// reads as queenside and `O-O` as kingside.
pub open spec fn parse_from(s: Seq<char>, i: int) -> Option<Algebraic>
    decreases s.len() + 1 - i,
{
    if i > s.len() || i < 0 {
        None
    } else if queenside_at(s, i) {
        Some(Algebraic::CastleQueenside)
    } else if kingside_at(s, i) {
        Some(Algebraic::CastleKingside)
    } else {
        match first_parts(s, i, 15) {
            Some(k) => Some(move_with_parts(s, i, k)),
            None => parse_from(s, i + 1),
        }
    }
}

/// The text holds `t` from position `i` on.
fn text_at(s: &str, i: usize, t: &str) -> (r: bool)
    ensures
        r == has_at(s@, i as int, t@),
{
    let n = s.unicode_len();
    let m = t.unicode_len();
    if i > n || m > n - i {
        return false;
    }
    let mut k: usize = 0;
    while k < m
        invariant
            k <= m,
            m == t@.len(),
            n == s@.len(),
            i + m <= n,
            forall|j: int| 0 <= j < k ==> s@[i + j] == t@[j],
        decreases m - k,
    {
        if s.get_char(i + k) != t.get_char(k) {
            assert(s@.subrange(i as int, i + m)[k as int] != t@[k as int]);
            return false;
        }
        k = k + 1;
    }
    assert(s@.subrange(i as int, i + m) =~= t@);
    true
}

/// The kind of piece a letter names (see `letter_type`).
fn letter_piece_type(c: char) -> (r: PieceTypeV)
    ensures
        r == letter_type(c),
{
    if c == 'K' {
        PieceTypeV::King
    } else if c == 'Q' {
        PieceTypeV::Queen
    } else if c == 'R' {
        PieceTypeV::Rook
    } else if c == 'N' {
        PieceTypeV::Knight
    } else if c == 'B' {
        PieceTypeV::Bishop
    } else {
        PieceTypeV::Pawn
    }
}

/// The parts `k` takes match at position `i` (see `parts_match`).
fn match_parts(s: &str, i: usize, k: u8) -> (r: bool)
    requires
        k < 16,
        i <= s@.len(),
    ensures
        r == parts_match(s@, i as int, k as int),
{
    let n = s.unicode_len();
    let o1: usize = if (k / 8) % 2 == 1 { 1 } else { 0 };
    let o2: usize = o1 + (if (k / 4) % 2 == 1 { 1usize } else { 0usize });
    let o3: usize = o2 + (if (k / 2) % 2 == 1 { 1usize } else { 0usize });
    let o4: usize = o3 + (if k % 2 == 1 { 1usize } else { 0usize });
    if o4 + 2 > n - i {
        return false;
    }
    if (k / 8) % 2 == 1 {
        let c = s.get_char(i);
        if !(c == 'K' || c == 'Q' || c == 'R' || c == 'N' || c == 'B' || c == 'P') {
            return false;
        }
    }
    if (k / 4) % 2 == 1 {
        let c = s.get_char(i + o1);
        if !('a' <= c && c <= 'h') {
            return false;
        }
    }
    if (k / 2) % 2 == 1 {
        let c = s.get_char(i + o2);
        if !('1' <= c && c <= '8') {
            return false;
        }
    }
    if k % 2 == 1 {
        if s.get_char(i + o3) != 'x' {
            return false;
        }
    }
    let f = s.get_char(i + o4);
    let r = s.get_char(i + o4 + 1);
    'a' <= f && f <= 'h' && '1' <= r && r <= '8'
}

/// No move is written at the end of the text.
proof fn lemma_no_parts_at_end(s: Seq<char>, k: int)
    ensures
        first_parts(s, s.len() as int, k) is None,
    decreases k + 1,
{
    if k >= 0 {
        lemma_no_parts_at_end(s, k - 1);
    }
}

impl Algebraic {
    /// Reads the first move in Standard Algebraic Notation found in the text (see
    /// `parse_from`).
    pub fn parse(s: &str) -> (r: Result<Algebraic, ParseError>)
        ensures
            r matches Ok(a) ==> parse_from(s@, 0) == Some(a),
            r is Err <==> parse_from(s@, 0) is None,
            r matches Err(e) ==> e == ParseError::Algebraic,
    {
        proof {
            reveal_strlit("0-0");
            reveal_strlit("O-O");
            reveal_strlit("0-0-0");
            reveal_strlit("O-O-O");
        }
        let n = s.unicode_len();
        let mut i: usize = 0;
        while i < n
            invariant
                n == s@.len(),
                i <= n,
                parse_from(s@, 0) == parse_from(s@, i as int),
            decreases n - i,
        {
            proof {
                reveal_strlit("0-0");
                reveal_strlit("O-O");
                reveal_strlit("0-0-0");
                reveal_strlit("O-O-O");
            }
            let q1 = text_at(s, i, "0-0-0");
            let q2 = text_at(s, i, "O-O-O");
            assert("0-0-0"@ =~= seq!['0', '-', '0', '-', '0']);
            assert("O-O-O"@ =~= seq!['O', '-', 'O', '-', 'O']);
            if q1 || q2 {
                assert(queenside_at(s@, i as int));
                return Ok(Algebraic::CastleQueenside);
            }
            let k1 = text_at(s, i, "0-0");
            let k2 = text_at(s, i, "O-O");
            assert("0-0"@ =~= seq!['0', '-', '0']);
            assert("O-O"@ =~= seq!['O', '-', 'O']);
            if k1 || k2 {
                assert(kingside_at(s@, i as int));
                return Ok(Algebraic::CastleKingside);
            }
            let mut k: u8 = 16;
            while k > 0
                invariant
                    k <= 16,
                    i < n,
                    n == s@.len(),
                    !kingside_at(s@, i as int),
                    !queenside_at(s@, i as int),
                    parse_from(s@, 0) == parse_from(s@, i as int),
                    first_parts(s@, i as int, 15) == first_parts(s@, i as int, k - 1),
                decreases k,
            {
                k = k - 1;
                if match_parts(s, i, k) {
                    let a = Self::read_move(s, i, k);
                    assert(first_parts(s@, i as int, k as int) == Some(k as int));
                    return Ok(a);
                }
            }
            i = i + 1;
        }
        proof {
            lemma_no_parts_at_end(s@, 15);
            assert(!kingside_at(s@, n as int));
            assert(!queenside_at(s@, n as int));
            assert(parse_from(s@, n + 1) is None);
            assert(parse_from(s@, n as int) is None);
        }
        Err(ParseError::Algebraic)
    }

    /// The move written at position `i` with the parts `k` takes (see `move_with_parts`).
    fn read_move(s: &str, i: usize, k: u8) -> (r: Algebraic)
        requires
            k < 16,
            parts_match(s@, i as int, k as int),
        ensures
            r == move_with_parts(s@, i as int, k as int),
    {
        let n = s.unicode_len();
        let j1 = i + (if (k / 8) % 2 == 1 { 1usize } else { 0usize });
        let j2 = j1 + (if (k / 4) % 2 == 1 { 1usize } else { 0usize });
        let j3 = j2 + (if (k / 2) % 2 == 1 { 1usize } else { 0usize });
        let j4 = j3 + (if k % 2 == 1 { 1usize } else { 0usize });
        let piece_type = if (k / 8) % 2 == 1 {
            letter_piece_type(s.get_char(i))
        } else {
            PieceTypeV::Pawn
        };
        let source_file = if (k / 4) % 2 == 1 {
            Some(File::from_index(((s.get_char(j1) as u32) - 97) as u8))
        } else {
            None
        };
        let source_rank = if (k / 2) % 2 == 1 {
            Some(Rank::from_index(((s.get_char(j2) as u32) - 49) as u8))
        } else {
            None
        };
        let f = ((s.get_char(j4) as u32) - 97) as u8;
        let rk = ((s.get_char(j4 + 1) as u32) - 49) as u8;
        let target = Square::from_index(f + 8 * rk);
        let j = j4 + 2;
        let promoting = if n - j > 1 && s.get_char(j) == '=' && {
            let c = s.get_char(j + 1);
            c == 'Q' || c == 'R' || c == 'N' || c == 'B'
        } {
            Some(letter_piece_type(s.get_char(j + 1)))
        } else if j < n && {
            let c = s.get_char(j);
            c == 'Q' || c == 'R' || c == 'N' || c == 'B'
        } {
            Some(letter_piece_type(s.get_char(j)))
        } else {
            None
        };
        Algebraic::Move { piece_type, source_file, source_rank, capturing: k % 2 == 1, target, promoting }
    }
}

/// `m` fits what the notation names: a piece of the kind named, of the side to move, from the
/// file and rank given (where given) to the target, with the promotion named.
pub open spec fn fits_notation(
    st: BoardState,
    piece_type: PieceTypeV,
    source_file: Option<File>,
    source_rank: Option<Rank>,
    target: Square,
    promoting: Option<PieceTypeV>,
    m: Move,
) -> bool {
    &&& st.pieces[m.from.index()] == Some(Piece { player: st.player, piece_type })
    &&& source_file matches Some(f) ==> m.from.file_index() == f.index()
    &&& source_rank matches Some(r) ==> m.from.rank_index() == r.index()
    &&& m.to == target
    &&& m.promoting == promoting
}

/// What `Algebraic::to_move` may return: for castling, the king's move of the side to move;
/// otherwise a legal move that fits the notation, or nothing where none does.
pub open spec fn spec_to_move(a: Algebraic, st: BoardState, r: Option<Move>) -> bool {
    match a {
        Algebraic::Move { piece_type, source_file, source_rank, capturing: _, target, promoting } => {
            &&& r matches Some(m) ==> legal_move(st, m) && fits_notation(st, piece_type, source_file, source_rank, target, promoting, m)
            &&& r matches Some(m) ==> exists|k: int|
                0 <= k < pseudo_legal_order(st, st.player).len() && pseudo_legal_order(st, st.player)[k] == m && forall|j: int|
                    0 <= j < k ==> !(legal_move(st, #[trigger] pseudo_legal_order(st, st.player)[j]) && fits_notation(
                        st,
                        piece_type,
                        source_file,
                        source_rank,
                        target,
                        promoting,
                        pseudo_legal_order(st, st.player)[j],
                    ))
            &&& r is None ==> forall|m: Move| !(#[trigger] legal_move(st, m) && fits_notation(st, piece_type, source_file, source_rank, target, promoting, m))
        },
        Algebraic::CastleKingside => r == Some(Move::spec_castle_kingside(st.player)),
        Algebraic::CastleQueenside => r == Some(Move::spec_castle_queenside(st.player)),
    }
}

impl Algebraic {
    /// The move that the notation names on the board: for castling, the king's move of the side
    /// to move; otherwise the first legal move, in the generator's order, that fits it, if any.
    /// The board is left as it was.
    pub fn to_move(self, board: &mut Board) -> (r: Option<Move>)
        requires
            old(board).wf(),
        ensures
            *final(board) == *old(board),
            spec_to_move(self, old(board)@, r),
    {
        let ghost before = *board;
        match self {
            Algebraic::Move { piece_type, source_file, source_rank, capturing, target, promoting } => {
                let generated = board.pseudo_legal_moves();
                let moves = in_order(board, &generated);
                proof {
                    lemma_pseudo_legal_order(before@, before@.player, moves@);
                }
                let player = board.player();
                let piece = Piece::new(player, piece_type);
                let mut i: usize = 0;
                while i < moves.len()
                    invariant
                        i <= moves@.len(),
                        *board == before,
                        before == *old(board),
                        piece == (Piece { player: before@.player, piece_type }),
                        self == (Algebraic::Move { piece_type, source_file, source_rank, capturing, target, promoting }),
                        board.wf(),
                        forall|m: Move| #[trigger] moves@.contains(m) == pseudo_legal(before@, before@.player, m),
                        moves@ == pseudo_legal_order(before@, before@.player),
                        forall|k: int| 0 <= k < i ==> !(legal_move(before@, #[trigger] moves@[k]) && fits_notation(before@, piece_type, source_file, source_rank, target, promoting, moves@[k])),
                    decreases moves@.len() - i,
                {
                    let mov = moves[i];
                    assert(moves@.contains(mov));
                    let f1 = holds(board.get(mov.from()), piece);
                    assert(f1 == (before@.pieces[mov.from.index()] == Some(Piece { player: before@.player, piece_type })));
                    let f2 = match source_file {
                        Some(file) => mov.from().file().to_index() == file.to_index(),
                        None => true,
                    };
                    assert(f2 == (source_file matches Some(f) ==> mov.from.file_index() == f.index()));
                    let f3 = match source_rank {
                        Some(rank) => mov.from().rank().to_index() == rank.to_index(),
                        None => true,
                    };
                    assert(f3 == (source_rank matches Some(r) ==> mov.from.rank_index() == r.index()));
                    let f4 = mov.to() == target;
                    let f5 = match (mov.promoting(), promoting) {
                        (None, None) => true,
                        (Some(a), Some(b)) => a == b,
                        _ => false,
                    };
                    assert(f5 == (mov.promoting == promoting));
                    let fits = f1 && f2 && f3 && f4 && f5;
                    assert(fits == fits_notation(before@, piece_type, source_file, source_rank, target, promoting, mov));
                    if fits && board.can_make_move(mov) {
                        if board.check_legal(mov) {
                            assert(pseudo_legal(before@, before@.player, mov));
                            assert(legal_move(before@, mov));
                            assert(fits_notation(before@, piece_type, source_file, source_rank, target, promoting, mov));
                            assert(moves@[i as int] == mov);
                            assert(spec_to_move(self, before@, Some(mov)));
                            return Some(mov);
                        }
                    }
                    i = i + 1;
                }
                proof {
                    assert forall|m: Move| !(#[trigger] legal_move(before@, m) && fits_notation(before@, piece_type, source_file, source_rank, target, promoting, m)) by {
                        if legal_move(before@, m) {
                            assert(moves@.contains(m));
                            let k = choose|k: int| 0 <= k < moves@.len() && moves@[k] == m;
                        }
                    }
                }
                None
            },
            Algebraic::CastleKingside => Some(Move::castle_kingside(board.player())),
            Algebraic::CastleQueenside => Some(Move::castle_queenside(board.player())),
        }
    }

    /// The notation as text: the piece letter, the source file and rank where given, `x` for a
    /// capture, the target and the promotion letter; `O-O` and `O-O-O` for castling.
    pub fn to_string(&self) -> (r: String)
        ensures
            r@ == spec_algebraic_string(*self),
    {
        proof {
            reveal_strlit("O-O");
            reveal_strlit("O-O-O");
        }
        match *self {
            Algebraic::Move { piece_type, source_file, source_rank, capturing, target, promoting } => {
                move_notation(piece_type, source_file, source_rank, capturing, target, promoting)
            },
            Algebraic::CastleKingside => String::from_str("O-O"),
            Algebraic::CastleQueenside => String::from_str("O-O-O"),
        }
    }
}

/// The text of a move that is not castling (see `Algebraic::to_string`).
#[verifier::rlimit(30)]
fn move_notation(
    piece_type: PieceTypeV,
    source_file: Option<File>,
    source_rank: Option<Rank>,
    capturing: bool,
    target: Square,
    promoting: Option<PieceTypeV>,
) -> (r: String)
    ensures
        r@ == spec_algebraic_string(
            Algebraic::Move { piece_type, source_file, source_rank, capturing, target, promoting },
        ),
{
    proof {
        reveal_strlit("x");
    }
    let mut s = piece_type.to_string();
    let ghost p0 = s@;
    match source_file {
        Some(f) => {
            let t = f.to_string();
            s.append(t.as_str());
        },
        None => {},
    }
    let ghost p1 = s@;
    assert(p1 =~= p0 + (match source_file {
        Some(f) => seq![file_char(f.index())],
        None => Seq::empty(),
    }));
    match source_rank {
        Some(r) => {
            let t = r.to_string();
            s.append(t.as_str());
        },
        None => {},
    }
    let ghost p2 = s@;
    assert(p2 =~= p1 + (match source_rank {
        Some(r) => decimal(r.index() as nat + 1),
        None => Seq::empty(),
    }));
    if capturing {
        s.append("x");
    }
    let ghost p3 = s@;
    assert(p3 =~= p2 + (if capturing {
        seq!['x']
    } else {
        Seq::empty()
    }));
    let t = target.to_string();
    s.append(t.as_str());
    let ghost p4 = s@;
    assert(p4 =~= p3 + seq![file_char(target.file_index())] + decimal(target.rank_index() as nat + 1));
    match promoting {
        Some(p) => {
            let t = p.to_string();
            s.append(t.as_str());
        },
        None => {},
    }
    assert(s@ =~= p4 + (match promoting {
        Some(p) => seq![spec_piece_type_char(p)],
        None => Seq::empty(),
    }));
    s
}

/// A notation whose promotion, if any, is one the notation can name: a queen, rook, bishop
/// or knight.
pub open spec fn names_promotion(a: Algebraic) -> bool {
    match a {
        Algebraic::Move { promoting, .. } => match promoting {
            Some(p) => is_promotion_letter(spec_piece_type_char(p)),
            None => true,
        },
        _ => true,
    }
}

/// Parts at the positions the parts that `k` takes would have: an optional piece letter,
/// file, rank and capture mark (`l`, `f`, `r`, `c` are 1 where there), a target square and an
/// optional promotion (`p` is 1 for its letter, 2 for `=` and its letter), and nothing after
/// them.
pub open spec fn written_parts(s: Seq<char>, l: int, f: int, r: int, c: int, p: int) -> bool {
    &&& 0 <= l <= 1
    &&& 0 <= f <= 1
    &&& 0 <= r <= 1
    &&& 0 <= c <= 1
    &&& 0 <= p <= 2
    &&& s.len() == 2 + l + f + r + c + p
    &&& l == 1 ==> is_piece_letter(s[0])
    &&& f == 1 ==> is_file_char(s[l])
    &&& r == 1 ==> is_rank_char(s[l + f])
    &&& c == 1 ==> s[l + f + r] == 'x'
    &&& is_file_char(s[l + f + r + c])
    &&& is_rank_char(s[1 + l + f + r + c])
    &&& p == 2 ==> s[2 + l + f + r + c] == '='
    &&& p > 0 ==> is_promotion_letter(s[1 + l + f + r + c + p])
}

/// The search for the first way of reading a move from `top` down stops at `k` when `k` is a
/// way and none above it is.
proof fn lemma_first_parts_at(s: Seq<char>, i: int, k: int, top: int)
    requires
        0 <= k <= top,
        parts_match(s, i, k),
        forall|k2: int| k < k2 <= top ==> !#[trigger] parts_match(s, i, k2),
    ensures
        first_parts(s, i, top) == Some(k),
    decreases top,
{
    if top > k {
        lemma_first_parts_at(s, i, k, top - 1);
    }
}

/// Text written part by part reads back with exactly the parts written: no way that takes
/// more parts fits it, since letters, files, ranks and the capture mark never stand for one
/// another.
proof fn lemma_written_parts_read(s: Seq<char>, l: int, f: int, r: int, c: int, p: int)
    requires
        written_parts(s, l, f, r, c, p),
    ensures
        first_parts(s, 0, 15) == Some(8 * l + 4 * f + 2 * r + c),
        part_positions(0, 8 * l + 4 * f + 2 * r + c) == (l, l + f, l + f + r, l + f + r + c),
        ((8 * l + 4 * f + 2 * r + c) / 8) % 2 == l,
        ((8 * l + 4 * f + 2 * r + c) / 4) % 2 == f,
        ((8 * l + 4 * f + 2 * r + c) / 2) % 2 == r,
        (8 * l + 4 * f + 2 * r + c) % 2 == c,
{
    let k = 8 * l + 4 * f + 2 * r + c;
    assert(k / 8 == l);
    assert(k / 4 == 2 * l + f);
    assert(k / 2 == 4 * l + 2 * f + r);
    assert forall|k2: int| k < k2 <= 15 implies !#[trigger] parts_match(s, 0, k2) by {
        if k2 == 1 {
        } else if k2 == 2 {
        } else if k2 == 3 {
        } else if k2 == 4 {
        } else if k2 == 5 {
        } else if k2 == 6 {
        } else if k2 == 7 {
        } else if k2 == 8 {
        } else if k2 == 9 {
        } else if k2 == 10 {
        } else if k2 == 11 {
        } else if k2 == 12 {
        } else if k2 == 13 {
        } else if k2 == 14 {
        } else {
            assert(k2 == 15);
        }
    }
    lemma_first_parts_at(s, 0, k, 15);
}

/// 1 where a part is written, 0 where it is not.
pub open spec fn bit(b: bool) -> int {
    if b { 1 } else { 0 }
}

/// Where the parts of the move `a`, not castling, stand in the text `s`: its piece letter
/// where `letter` holds, source file and rank where given, `x` for a capture, the target, and
/// its promotion letter, with `=` before the letter where `eq` holds.
pub open spec fn move_layout(s: Seq<char>, a: Algebraic, letter: bool, eq: bool) -> bool {
    match a {
        Algebraic::Move { piece_type, source_file, source_rank, capturing, target, promoting } => {
            let l = bit(letter);
            let f = bit(source_file is Some);
            let r = bit(source_rank is Some);
            let c = bit(capturing);
            let p = if promoting is None { 0int } else if eq { 2int } else { 1int };
            &&& s.len() == 2 + l + f + r + c + p
            &&& letter ==> s[0] == spec_piece_type_char(piece_type)
            &&& source_file matches Some(x) ==> s[l] == file_char(x.index())
            &&& source_rank matches Some(x) ==> s[l + f] == (('0' as int) + x.index() + 1) as char
            &&& capturing ==> s[l + f + r] == 'x'
            &&& s[l + f + r + c] == file_char(target.file_index())
            &&& s[1 + l + f + r + c] == (('0' as int) + target.rank_index() + 1) as char
            &&& p == 2 ==> s[2 + l + f + r + c] == '='
            &&& promoting matches Some(x) ==> s[1 + l + f + r + c + p] == spec_piece_type_char(x)
        },
        _ => false,
    }
}

/// Where the parts of a move that is not castling stand in its text.
proof fn lemma_move_text_layout(
    piece_type: PieceTypeV,
    source_file: Option<File>,
    source_rank: Option<Rank>,
    capturing: bool,
    target: Square,
    promoting: Option<PieceTypeV>,
)
    ensures
        move_layout(
            spec_algebraic_string(
                Algebraic::Move { piece_type, source_file, source_rank, capturing, target, promoting },
            ),
            Algebraic::Move { piece_type, source_file, source_rank, capturing, target, promoting },
            true,
            false,
        ),
{
    let s = spec_algebraic_string(
        Algebraic::Move { piece_type, source_file, source_rank, capturing, target, promoting },
    );
    let tr = target.rank_index();
    let fs: Seq<char> = match source_file {
        Some(x) => seq![file_char(x.index())],
        None => Seq::empty(),
    };
    let rs: Seq<char> = match source_rank {
        Some(x) => decimal(x.index() as nat + 1),
        None => Seq::empty(),
    };
    let cs: Seq<char> = if capturing { seq!['x'] } else { Seq::empty() };
    let ps: Seq<char> = match promoting {
        Some(x) => seq![spec_piece_type_char(x)],
        None => Seq::empty(),
    };
    let td = (('0' as int) + tr + 1) as char;
    crate::square::lemma_square_index_range(target);
    assert(decimal(tr as nat + 1) == seq![td]);
    match source_rank {
        Some(x) => {
            assert(rs == seq![(('0' as int) + x.index() + 1) as char]);
        },
        None => {},
    }
    let f = bit(source_file is Some);
    let r = bit(source_rank is Some);
    let c = bit(capturing);
    let h0 = seq![spec_piece_type_char(piece_type)];
    let h1 = h0 + fs;
    let h2 = h1 + rs;
    let h3 = h2 + cs;
    let h4 = h3 + seq![file_char(target.file_index()), td];
    assert(s =~= h4 + ps);
    assert(h1.len() == 1 + f && h1[0] == h0[0]);
    assert(source_file matches Some(x) ==> h1[1] == file_char(x.index()));
    assert(h2.len() == 1 + f + r && h2[0] == h0[0]) by {
        assert(h2[0] == h1[0]);
    }
    assert(source_file matches Some(x) ==> h2[1] == file_char(x.index())) by {
        if source_file is Some {
            assert(h2[1] == h1[1]);
        }
    }
    assert(source_rank matches Some(x) ==> h2[1 + f] == (('0' as int) + x.index() + 1) as char);
    assert forall|i: int| 0 <= i < h2.len() implies #[trigger] h3[i] == h2[i] by {}
    assert(capturing ==> h3[1 + f + r] == 'x');
    assert(h3.len() == 1 + f + r + c);
    assert forall|i: int| 0 <= i < h3.len() implies #[trigger] h4[i] == h3[i] by {}
    assert(h4.len() == 3 + f + r + c);
    assert(h4[1 + f + r + c] == file_char(target.file_index()));
    assert(h4[2 + f + r + c] == td);
    assert forall|i: int| 0 <= i < h4.len() implies #[trigger] s[i] == h4[i] by {}
    assert(promoting matches Some(x) ==> s[3 + f + r + c] == spec_piece_type_char(x));
    assert(s[0] == h4[0] && h4[0] == h3[0] && h3[0] == h2[0]);
    assert(source_file is Some ==> s[1] == h4[1] && h4[1] == h3[1] && h3[1] == h2[1]);
    assert(source_rank is Some ==> s[1 + f] == h4[1 + f] && h4[1 + f] == h3[1 + f] && h3[1 + f] == h2[1 + f]);
    assert(capturing ==> s[1 + f + r] == h4[1 + f + r] && h4[1 + f + r] == h3[1 + f + r]);
}

/// A text laid out as a move that is not castling reads back as the move.
#[verifier::rlimit(80)]
proof fn lemma_layout_reads_back(
    s: Seq<char>,
    piece_type: PieceTypeV,
    source_file: Option<File>,
    source_rank: Option<Rank>,
    capturing: bool,
    target: Square,
    promoting: Option<PieceTypeV>,
    letter: bool,
    eq: bool,
)
    requires
        promoting matches Some(x) ==> is_promotion_letter(spec_piece_type_char(x)),
        letter || piece_type == PieceTypeV::Pawn,
        move_layout(
            s,
            Algebraic::Move { piece_type, source_file, source_rank, capturing, target, promoting },
            letter,
            eq,
        ),
    ensures
        parse_from(s, 0) == Some(
            Algebraic::Move { piece_type, source_file, source_rank, capturing, target, promoting },
        ),
{
    let l = bit(letter);
    let f = bit(source_file is Some);
    let r = bit(source_rank is Some);
    let c = bit(capturing);
    let p = if promoting is None { 0int } else if eq { 2int } else { 1int };
    assert(written_parts(s, l, f, r, c, p)) by {
        crate::square::lemma_square_index_range(target);
        match source_file {
            Some(x) => { assert(0 <= x.index() < 8); },
            None => {},
        }
        match source_rank {
            Some(x) => { assert(0 <= x.index() < 8); },
            None => {},
        }
    }
    lemma_written_parts_read(s, l, f, r, c, p);
    let k = 8 * l + 4 * f + 2 * r + c;
    assert(!queenside_at(s, 0)) by {
        if queenside_at(s, 0) {
            assert(s.subrange(0, 5)[0] == s[0]);
        }
    }
    assert(!kingside_at(s, 0)) by {
        if kingside_at(s, 0) {
            assert(s.subrange(0, 3)[0] == s[0]);
        }
    }
    assert(parse_from(s, 0) == Some(move_with_parts(s, 0, k)));
    let m = move_with_parts(s, 0, k);
    assert(promotion_at(s, 2 + l + f + r + c) == promoting);
    assert(m->piece_type == piece_type);
    assert(m->source_file == source_file) by {
        match source_file {
            Some(x) => {
                assert(File::at(s[l] as int - 'a' as int) == x);
            },
            None => {},
        }
    }
    assert(m->source_rank == source_rank) by {
        match source_rank {
            Some(x) => {
                assert(Rank::at(s[l + f] as int - '1' as int) == x);
            },
            None => {},
        }
    }
    assert(m->target == target) by {
        crate::square::lemma_square_index_range(target);
        assert(target.file_index() + 8 * target.rank_index() == target.index());
    }
}

/// Writing a notation and reading the text back gives the same notation: the piece, the
/// source file and rank where given, the capture, the target and the promotion all come back,
/// and `O-O` and `O-O-O` read as the castling they stand for. A promotion to a king or a pawn
/// has no letter the notation reads, so it is left out.
pub proof fn law_notation_parses_back(a: Algebraic)
    requires
        names_promotion(a),
    ensures
        parse_from(spec_algebraic_string(a), 0) == Some(a),
{
    let s = spec_algebraic_string(a);
    match a {
        Algebraic::Move { piece_type, source_file, source_rank, capturing, target, promoting } => {
            lemma_move_text_layout(piece_type, source_file, source_rank, capturing, target, promoting);
            lemma_layout_reads_back(s, piece_type, source_file, source_rank, capturing, target, promoting, true, false);
        },
        Algebraic::CastleKingside => {
            assert(s =~= seq!['O', '-', 'O']);
            assert(!queenside_at(s, 0));
            assert(s.subrange(0, 3) =~= seq!['O', '-', 'O']);
            assert(kingside_at(s, 0));
        },
        Algebraic::CastleQueenside => {
            assert(s =~= seq!['O', '-', 'O', '-', 'O']);
            assert(s.subrange(0, 5) =~= seq!['O', '-', 'O', '-', 'O']);
            assert(queenside_at(s, 0));
        },
    }
}

/// The text of a move that promotes ends with the letter of the piece it promotes to, and the
/// text of one that does not ends with the rank of its target.
pub proof fn law_notation_ends_with_promotion(a: Algebraic)
    requires
        a is Move,
    ensures
        a matches Algebraic::Move { promoting, target, .. } && (match promoting {
            Some(p) => spec_algebraic_string(a).last() == spec_piece_type_char(p),
            None => spec_algebraic_string(a).last() == (('0' as int) + target.rank_index() + 1) as char,
        }),
{
    match a {
        Algebraic::Move { piece_type, source_file, source_rank, capturing, target, promoting } => {
            lemma_move_text_layout(piece_type, source_file, source_rank, capturing, target, promoting);
        },
        _ => {},
    }
}

/// A promotion may be written with `=` before its letter: a move written with `=` and the
/// letter reads as the same move written with the letter alone, promotion included.
pub proof fn law_promotion_with_equals(a: Algebraic)
    requires
        names_promotion(a),
        a matches Algebraic::Move { promoting, .. } && promoting is Some,
    ensures
        parse_from(
            spec_algebraic_string(a).drop_last() + seq!['='] + seq![spec_algebraic_string(a).last()],
            0,
        ) == Some(a),
        parse_from(
            spec_algebraic_string(a).drop_last() + seq!['='] + seq![spec_algebraic_string(a).last()],
            0,
        ) == parse_from(spec_algebraic_string(a), 0),
{
    law_notation_parses_back(a);
    let s = spec_algebraic_string(a);
    let t = s.drop_last() + seq!['='] + seq![s.last()];
    match a {
        Algebraic::Move { piece_type, source_file, source_rank, capturing, target, promoting } => {
            lemma_move_text_layout(piece_type, source_file, source_rank, capturing, target, promoting);
            let n = s.len() - 1;
            assert(t.len() == s.len() + 1);
            assert forall|i: int| 0 <= i < n implies #[trigger] t[i] == s[i] by {}
            assert(t[n] == '=');
            assert(t[n + 1] == s[n]);
            assert(move_layout(t, a, true, true));
            lemma_layout_reads_back(t, piece_type, source_file, source_rank, capturing, target, promoting, true, true);
        },
        _ => {},
    }
}

/// A pawn move may be written without its letter: `e4`, `exd5`, `e8Q` and `e8=Q` read as the
/// pawn moves `Pe4`, `Pxd5`, `Pe8Q` and `Pe8=Q` do, promotion included.
pub proof fn law_pawn_move_without_letter(a: Algebraic)
    requires
        names_promotion(a),
        a matches Algebraic::Move { piece_type, .. } && piece_type == PieceTypeV::Pawn,
    ensures
        parse_from(spec_algebraic_string(a).drop_first(), 0) == Some(a),
        a matches Algebraic::Move { promoting, .. } && promoting is Some ==> parse_from(
            spec_algebraic_string(a).drop_first().drop_last() + seq!['='] + seq![
                spec_algebraic_string(a).last(),
            ],
            0,
        ) == Some(a),
{
    let s = spec_algebraic_string(a);
    let u = s.drop_first();
    match a {
        Algebraic::Move { piece_type, source_file, source_rank, capturing, target, promoting } => {
            lemma_move_text_layout(piece_type, source_file, source_rank, capturing, target, promoting);
            assert forall|i: int| 0 <= i < u.len() implies #[trigger] u[i] == s[i + 1] by {}
            assert(move_layout(u, a, false, false));
            lemma_layout_reads_back(u, piece_type, source_file, source_rank, capturing, target, promoting, false, false);
            if promoting is Some {
                let t = u.drop_last() + seq!['='] + seq![s.last()];
                let n = u.len() - 1;
                assert(t.len() == u.len() + 1);
                assert forall|i: int| 0 <= i < n implies #[trigger] t[i] == u[i] by {}
                assert(t[n] == '=');
                assert(t[n + 1] == u[n]);
                assert(move_layout(t, a, false, true));
                lemma_layout_reads_back(t, piece_type, source_file, source_rank, capturing, target, promoting, false, true);
            }
        },
        _ => {},
    }
}

/// The text of a notation (see `Algebraic::to_string`).
pub open spec fn spec_algebraic_string(a: Algebraic) -> Seq<char> {
    match a {
        Algebraic::Move { piece_type, source_file, source_rank, capturing, target, promoting } => {
            seq![spec_piece_type_char(piece_type)] + (match source_file {
                Some(f) => seq![file_char(f.index())],
                None => Seq::empty(),
            }) + (match source_rank {
                Some(r) => decimal(r.index() as nat + 1),
                None => Seq::empty(),
            }) + (if capturing {
                seq!['x']
            } else {
                Seq::empty()
            }) + seq![file_char(target.file_index())] + decimal(target.rank_index() as nat + 1) + (match promoting {
                Some(p) => seq![spec_piece_type_char(p)],
                None => Seq::empty(),
            })
        },
        Algebraic::CastleKingside => seq!['O', '-', 'O'],
        Algebraic::CastleQueenside => seq!['O', '-', 'O', '-', 'O'],
    }
}

} // verus!
