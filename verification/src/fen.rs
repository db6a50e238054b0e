//! Reading and writing boards in Forsyth-Edwards notation.
use vstd::prelude::*;
use vstd::string::*;
use arrayvec::ArrayVec;

use crate::board::{impossible_flags, Board, BoardFlags, BoardState};
use crate::error::ParseError;
use crate::piece::{spec_parse_piece, spec_piece_char, spec_piece_symbol, Piece};
use crate::player::{spec_parse_player, spec_player_fen, PlayerV};
use crate::square::{decimal, decimal_string, file_char, File, Rank, Square, SquareColor};

pub mod roundtrip;

verus! {

/// The characters that `char::is_whitespace` accepts: those with the Unicode `White_Space`
/// property.
pub open spec fn spec_is_whitespace(c: char) -> bool {
    ||| '\u{9}' <= c <= '\u{d}'
    ||| c == ' '
    ||| c == '\u{85}'
    ||| c == '\u{a0}'
    ||| c == '\u{1680}'
    ||| '\u{2000}' <= c <= '\u{200a}'
    ||| c == '\u{2028}'
    ||| c == '\u{2029}'
    ||| c == '\u{202f}'
    ||| c == '\u{205f}'
    ||| c == '\u{3000}'
}

/// The character has the Unicode `White_Space` property.
pub fn is_whitespace(c: char) -> (r: bool)
    ensures
        r == spec_is_whitespace(c),
{
    ('\u{9}' <= c && c <= '\u{d}') || c == ' ' || c == '\u{85}' || c == '\u{a0}' || c == '\u{1680}'
        || ('\u{2000}' <= c && c <= '\u{200a}') || c == '\u{2028}' || c == '\u{2029}' || c
        == '\u{202f}' || c == '\u{205f}' || c == '\u{3000}'
}

/// The words of `s` that are still to come, where `cur` is the part of a word already read:
/// the maximal runs of characters without whitespace, in order.
pub open spec fn words_from(s: Seq<char>, cur: Seq<char>) -> Seq<Seq<char>>
    decreases s.len(),
{
    if s.len() == 0 {
        if cur.len() > 0 {
            seq![cur]
        } else {
            Seq::empty()
        }
    } else if spec_is_whitespace(s[0]) {
        (if cur.len() > 0 {
            seq![cur]
        } else {
            Seq::<Seq<char>>::empty()
        }) + words_from(s.drop_first(), Seq::empty())
    } else {
        words_from(s.drop_first(), cur.push(s[0]))
    }
}

/// The words of `s`, as `str::split_whitespace` gives them.
pub open spec fn spec_words(s: Seq<char>) -> Seq<Seq<char>> {
    words_from(s, Seq::empty())
}

/// Where each word of `s` starts and ends.
pub fn word_bounds(s: &str) -> (r: Vec<(usize, usize)>)
    ensures
        r@.len() == spec_words(s@).len(),
        forall|k: int| 0 <= k < r@.len() ==> (#[trigger] r@[k]).0 <= r@[k].1 <= s@.len(),
        forall|k: int| 0 <= k < r@.len() ==> s@.subrange(#[trigger] r@[k].0 as int, r@[k].1 as int)
            == spec_words(s@)[k],
{
    let n = s.unicode_len();
    let mut r: Vec<(usize, usize)> = Vec::new();
    let mut start: usize = 0;
    let mut i: usize = 0;
    assert(s@.skip(0) =~= s@);
    assert(s@.subrange(0, 0) =~= Seq::<char>::empty());
    assert(Seq::new(r@.len(), |k: int| s@.subrange(r@[k].0 as int, r@[k].1 as int)) + spec_words(s@)
        =~= spec_words(s@));
    while i < n
        invariant
            n == s@.len(),
            start <= i <= n,
            forall|k: int| 0 <= k < r@.len() ==> (#[trigger] r@[k]).0 <= r@[k].1 <= s@.len(),
            Seq::new(r@.len(), |k: int| s@.subrange(r@[k].0 as int, r@[k].1 as int)) + words_from(
                s@.skip(i as int),
                s@.subrange(start as int, i as int),
            ) == spec_words(s@),
        decreases n - i,
    {
        let ghost before = Seq::new(r@.len(), |k: int| s@.subrange(r@[k].0 as int, r@[k].1 as int));
        let ghost rest = s@.skip(i as int);
        let ghost cur = s@.subrange(start as int, i as int);
        let c = s.get_char(i);
        assert(rest[0] == c);
        assert(rest.drop_first() =~= s@.skip(i + 1));
        if is_whitespace(c) {
            if start < i {
                r.push((start, i));
                assert(Seq::new(r@.len(), |k: int| s@.subrange(r@[k].0 as int, r@[k].1 as int)) =~= before
                    + seq![cur]);
            } else {
                assert(cur.len() == 0);
                assert(Seq::new(r@.len(), |k: int| s@.subrange(r@[k].0 as int, r@[k].1 as int)) =~= before);
            }
            assert(s@.subrange(i + 1, i + 1) =~= Seq::<char>::empty());
            start = i + 1;
            i = i + 1;
            assert(before + (if cur.len() > 0 {
                seq![cur]
            } else {
                Seq::<Seq<char>>::empty()
            }) + words_from(s@.skip(i as int), Seq::empty()) =~= before + ((if cur.len() > 0 {
                seq![cur]
            } else {
                Seq::<Seq<char>>::empty()
            }) + words_from(s@.skip(i as int), Seq::empty())));
        } else {
            assert(cur.push(c) =~= s@.subrange(start as int, i + 1));
            i = i + 1;
        }
    }
    let ghost before = Seq::new(r@.len(), |k: int| s@.subrange(r@[k].0 as int, r@[k].1 as int));
    let ghost cur = s@.subrange(start as int, i as int);
    assert(s@.skip(i as int) =~= Seq::<char>::empty());
    if start < i {
        r.push((start, i));
        assert(Seq::new(r@.len(), |k: int| s@.subrange(r@[k].0 as int, r@[k].1 as int)) =~= before + seq![cur]);
    } else {
        assert(Seq::new(r@.len(), |k: int| s@.subrange(r@[k].0 as int, r@[k].1 as int)) =~= before);
    }
    assert forall|k: int| 0 <= k < r@.len() implies s@.subrange(#[trigger] r@[k].0 as int, r@[k].1 as int)
        == spec_words(s@)[k] by {
        assert(Seq::new(r@.len(), |k: int| s@.subrange(r@[k].0 as int, r@[k].1 as int))[k] == s@.subrange(
            r@[k].0 as int,
            r@[k].1 as int,
        ));
    }
    r
}

#[verifier::external_type_specification]
#[verifier::external_body]
#[verifier::reject_recursive_types(T)]
pub struct ExArrayVec<T, const CAP: usize>(ArrayVec<T, CAP>);

/// What an `ArrayVec` of the squares of a rank holds, first pushed first.
pub uninterp spec fn rank_cells(v: ArrayVec<Option<Piece>, 8>) -> Seq<Option<Piece>>;

/// What an `ArrayVec` of ranks holds, first pushed first.
pub uninterp spec fn board_ranks(v: ArrayVec<[Option<Piece>; 8], 8>) -> Seq<[Option<Piece>; 8]>;

/// `ArrayVec::new` for the squares of a rank: an empty vector.
#[verifier::external_body]
fn new_rank() -> (r: ArrayVec<Option<Piece>, 8>)
    ensures
        rank_cells(r) == Seq::<Option<Piece>>::empty(),
{
    ArrayVec::new()
}

/// `ArrayVec::try_push` for the squares of a rank: appends where fewer than eight are held,
/// and fails, leaving the vector as it was, where eight are.
#[verifier::external_body]
fn push_cell(v: &mut ArrayVec<Option<Piece>, 8>, x: Option<Piece>) -> (ok: bool)
    ensures
        ok == (rank_cells(*old(v)).len() < 8),
        ok ==> rank_cells(*final(v)) == rank_cells(*old(v)).push(x),
        !ok ==> rank_cells(*final(v)) == rank_cells(*old(v)),
{
    v.try_push(x).is_ok()
}

/// `ArrayVec::into_inner` for the squares of a rank: the array where the vector holds at least
/// eight squares, nothing where it holds fewer.
#[verifier::external_body]
fn rank_into_inner(v: ArrayVec<Option<Piece>, 8>) -> (r: Option<[Option<Piece>; 8]>)
    ensures
        rank_cells(v).len() < 8 ==> r is None,
        rank_cells(v).len() >= 8 ==> r is Some && r.unwrap()@ == rank_cells(v),
{
    v.into_inner().ok()
}

/// `ArrayVec::new` for the ranks of a board: an empty vector.
#[verifier::external_body]
fn new_ranks() -> (r: ArrayVec<[Option<Piece>; 8], 8>)
    ensures
        board_ranks(r) == Seq::<[Option<Piece>; 8]>::empty(),
{
    ArrayVec::new()
}

/// `ArrayVec::try_push` for the ranks of a board: appends where fewer than eight are held, and
/// fails, leaving the vector as it was, where eight are.
#[verifier::external_body]
fn push_rank(v: &mut ArrayVec<[Option<Piece>; 8], 8>, x: [Option<Piece>; 8]) -> (ok: bool)
    ensures
        ok == (board_ranks(*old(v)).len() < 8),
        ok ==> board_ranks(*final(v)) == board_ranks(*old(v)).push(x),
        !ok ==> board_ranks(*final(v)) == board_ranks(*old(v)),
{
    v.try_push(x).is_ok()
}

/// Slice `reverse` on the ranks held by an `ArrayVec`: the same ranks in the opposite order.
#[verifier::external_body]
fn reverse_ranks(v: &mut ArrayVec<[Option<Piece>; 8], 8>)
    ensures
        board_ranks(*final(v)) == board_ranks(*old(v)).reverse(),
{
    v.reverse();
}

/// `ArrayVec::into_inner` for the ranks of a board: the array where the vector holds at least
/// eight ranks, nothing where it holds fewer.
#[verifier::external_body]
fn ranks_into_inner(v: ArrayVec<[Option<Piece>; 8], 8>) -> (r: Option<[[Option<Piece>; 8]; 8]>)
    ensures
        board_ranks(v).len() < 8 ==> r is None,
        board_ranks(v).len() >= 8 ==> r is Some && r.unwrap()@ == board_ranks(v),
{
    v.into_inner().ok()
}

/// Where reading a piece placement stands: the squares of the rank being read and the ranks
/// read so far (the eighth rank first), or the error met.
pub type PlacementState = Result<(Seq<Option<Piece>>, Seq<Seq<Option<Piece>>>), ParseError>;

/// Closing the rank being read: it must have eight squares, and at most eight ranks may be read.
pub open spec fn end_rank(cells: Seq<Option<Piece>>, ranks: Seq<Seq<Option<Piece>>>) -> PlacementState {
    if cells.len() < 8 {
        Err(ParseError::TooFewSquares)
    } else if ranks.len() >= 8 {
        Err(ParseError::TooManyRanks)
    } else {
        Ok((Seq::empty(), ranks.push(cells)))
    }
}

/// Reading one more character of a placement: `/` closes the rank, a digit stands for that
/// many empty squares, a piece letter for the piece; any other character is skipped.
pub open spec fn placement_step(st: PlacementState, c: char) -> PlacementState {
    match st {
        Err(e) => Err(e),
        Ok((cells, ranks)) => if c == '/' {
            end_rank(cells, ranks)
        } else if '0' <= c <= '9' {
            let d = c as int - '0' as int;
            if cells.len() + d > 8 {
                Err(ParseError::TooManySquares)
            } else {
                Ok((cells + Seq::new(d as nat, |i: int| None::<Piece>), ranks))
            }
        } else {
            match spec_parse_piece(seq![c]) {
                Some(p) => if cells.len() >= 8 {
                    Err(ParseError::TooManySquares)
                } else {
                    Ok((cells.push(Some(p)), ranks))
                },
                None => Ok((cells, ranks)),
            }
        },
    }
}

/// Where reading the placement `s` stands after its last character.
pub open spec fn placement_fold(s: Seq<char>) -> PlacementState
    decreases s.len(),
{
    if s.len() == 0 {
        Ok((Seq::empty(), Seq::empty()))
    } else {
        placement_step(placement_fold(s.drop_last()), s.last())
    }
}

/// An error met while reading a placement is the error of the whole placement.
proof fn lemma_placement_err(s: Seq<char>, k: int, e: ParseError)
    requires
        0 <= k <= s.len(),
        placement_fold(s.take(k)) == Err::<(Seq<Option<Piece>>, Seq<Seq<Option<Piece>>>), ParseError>(e),
    ensures
        placement_fold(s) == Err::<(Seq<Option<Piece>>, Seq<Seq<Option<Piece>>>), ParseError>(e),
    decreases s.len() - k,
{
    if k < s.len() {
        assert(s.take(k + 1).drop_last() =~= s.take(k));
        lemma_placement_err(s, k + 1, e);
    } else {
        assert(s.take(k) =~= s);
    }
}

/// The ranks that a FEN piece placement describes, the first rank first.
pub open spec fn spec_placement(s: Seq<char>) -> Result<Seq<Seq<Option<Piece>>>, ParseError> {
    match placement_fold(s) {
        Err(e) => Err(e),
        Ok((cells, ranks)) => match end_rank(cells, ranks) {
            Err(e) => Err(e),
            Ok((_, all)) => if all.len() < 8 {
                Err(ParseError::TooFewRanks)
            } else {
                Ok(all.reverse())
            },
        },
    }
}

/// The castling rights that a FEN castling field gives: `K`, `Q`, `k` and `q` anywhere in it.
pub open spec fn spec_castling(s: Seq<char>) -> u8 {
    (if s.contains('K') { 0x80u8 } else { 0u8 }) | (if s.contains('Q') { 0x40u8 } else { 0u8 }) | (if s.contains(
        'k',
    ) { 0x20u8 } else { 0u8 }) | (if s.contains('q') { 0x10u8 } else { 0u8 })
}

/// What a FEN string describes: the ranks (the first rank first), the side to move and the
/// castling rights (every right where the field is missing).
pub open spec fn spec_from_fen(s: Seq<char>) -> Result<(Seq<Seq<Option<Piece>>>, PlayerV, u8), ParseError> {
    let w = spec_words(s);
    if w.len() == 0 {
        Err(ParseError::ExpectedPieces)
    } else {
        match spec_placement(w[0]) {
            Err(e) => Err(e),
            Ok(ranks) => if w.len() < 2 {
                Err(ParseError::ExpectedPlayer)
            } else {
                match spec_parse_player(w[1]) {
                    None => Err(ParseError::Player),
                    Some(p) => Ok((ranks, p, if w.len() < 3 { 0xf0u8 } else { spec_castling(w[2]) })),
                }
            },
        }
    }
}

/// The ranks held, each as the sequence of its squares.
pub open spec fn ranks_view(v: Seq<[Option<Piece>; 8]>) -> Seq<Seq<Option<Piece>>> {
    v.map_values(|a: [Option<Piece>; 8]| a@)
}

/// Reads a FEN piece placement into its ranks, the first rank first.
fn parse_placement(s: &str) -> (r: Result<[[Option<Piece>; 8]; 8], ParseError>)
    ensures
        r matches Ok(a) ==> spec_placement(s@) == Ok::<Seq<Seq<Option<Piece>>>, ParseError>(ranks_view(a@)),
        r matches Err(e) ==> spec_placement(s@) == Err::<Seq<Seq<Option<Piece>>>, ParseError>(e),
{
    let mut cells = new_rank();
    let mut ranks = new_ranks();
    let n = s.unicode_len();
    let mut i: usize = 0;
    assert(s@.take(0) =~= Seq::<char>::empty());
    assert(ranks_view(board_ranks(ranks)) =~= Seq::empty());
    while i < n
        invariant
            n == s@.len(),
            i <= n,
            placement_fold(s@.take(i as int)) == Ok::<(Seq<Option<Piece>>, Seq<Seq<Option<Piece>>>), ParseError>(
                (rank_cells(cells), ranks_view(board_ranks(ranks))),
            ),
            rank_cells(cells).len() <= 8,
            board_ranks(ranks).len() <= 8,
        decreases n - i,
    {
        let c = s.get_char(i);
        assert(s@.take(i + 1).drop_last() =~= s@.take(i as int));
        assert(s@.take(i + 1).last() == c);
        let ghost c0 = rank_cells(cells);
        let ghost r0 = board_ranks(ranks);
        if c == '/' {
            match rank_into_inner(cells) {
                None => {
                    proof {
                        lemma_placement_err(s@, i + 1, ParseError::TooFewSquares);
                    }
                    return Err(ParseError::TooFewSquares);
                },
                Some(a) => {
                    if !push_rank(&mut ranks, a) {
                        proof {
                            lemma_placement_err(s@, i + 1, ParseError::TooManyRanks);
                        }
                        return Err(ParseError::TooManyRanks);
                    }
                    assert(ranks_view(board_ranks(ranks)) =~= ranks_view(r0).push(c0));
                    cells = new_rank();
                },
            }
        } else if '0' <= c && c <= '9' {
            let d: u32 = (c as u32) - 48;
            let mut k: u32 = 0;
            assert(placement_fold(s@.take(i + 1)) == placement_step(
                Ok::<(Seq<Option<Piece>>, Seq<Seq<Option<Piece>>>), ParseError>((c0, ranks_view(board_ranks(ranks)))),
                c,
            ));
            assert(c0 + Seq::new(0, |j: int| None::<Piece>) =~= c0);
            while k < d
                invariant
                    k <= d,
                    i < n,
                    n == s@.len(),
                    d == c as int - '0' as int,
                    '0' <= c <= '9',
                    c != '/',
                    placement_fold(s@.take(i + 1)) == placement_step(
                        Ok::<(Seq<Option<Piece>>, Seq<Seq<Option<Piece>>>), ParseError>((c0, ranks_view(board_ranks(ranks)))),
                        c,
                    ),
                    rank_cells(cells) == c0 + Seq::new(k as nat, |j: int| None::<Piece>),
                    c0.len() + k <= 8,
                decreases d - k,
            {
                if !push_cell(&mut cells, None) {
                    proof {
                        lemma_placement_err(s@, i + 1, ParseError::TooManySquares);
                    }
                    return Err(ParseError::TooManySquares);
                }
                assert(rank_cells(cells) =~= c0 + Seq::new((k + 1) as nat, |j: int| None::<Piece>));
                k = k + 1;
            }
        } else {
            let one = s.substring_char(i, i + 1);
            assert(one@ =~= seq![c]);
            match Piece::from_fen(one) {
                Ok(p) => {
                    if !push_cell(&mut cells, Some(p)) {
                        proof {
                            lemma_placement_err(s@, i + 1, ParseError::TooManySquares);
                        }
                        return Err(ParseError::TooManySquares);
                    }
                },
                Err(_) => {},
            }
        }
        i = i + 1;
    }
    assert(s@.take(n as int) =~= s@);
    let ghost c0 = rank_cells(cells);
    let ghost r0 = board_ranks(ranks);
    match rank_into_inner(cells) {
        None => {
            return Err(ParseError::TooFewSquares);
        },
        Some(a) => {
            if !push_rank(&mut ranks, a) {
                return Err(ParseError::TooManyRanks);
            }
            assert(ranks_view(board_ranks(ranks)) =~= ranks_view(r0).push(c0));
        },
    }
    let ghost r1 = board_ranks(ranks);
    reverse_ranks(&mut ranks);
    assert(ranks_view(board_ranks(ranks)) =~= ranks_view(r1).reverse());
    match ranks_into_inner(ranks) {
        None => Err(ParseError::TooFewRanks),
        Some(a) => Ok(a),
    }
}

/// The string holds the character.
fn contains_char(s: &str, c: char) -> (r: bool)
    ensures
        r == s@.contains(c),
{
    let n = s.unicode_len();
    let mut i: usize = 0;
    while i < n
        invariant
            n == s@.len(),
            i <= n,
            forall|j: int| 0 <= j < i ==> s@[j] != c,
        decreases n - i,
    {
        if s.get_char(i) == c {
            return true;
        }
        i = i + 1;
    }
    false
}

/// The FEN digit for a run of empty squares: nothing where there is none.
pub open spec fn empties_fen(n: nat) -> Seq<char> {
    if n == 0 {
        Seq::empty()
    } else {
        decimal(n)
    }
}

/// FEN of the squares `cells`, after `empties` empty squares not yet written.
pub open spec fn rank_fen(cells: Seq<Option<Piece>>, empties: nat) -> Seq<char>
    decreases cells.len(),
{
    if cells.len() == 0 {
        empties_fen(empties)
    } else {
        match cells[0] {
            None => rank_fen(cells.drop_first(), empties + 1),
            Some(p) => empties_fen(empties) + seq![spec_piece_char(p)] + rank_fen(cells.drop_first(), 0),
        }
    }
}

/// The squares of row `r`, from the `a` file to the `h` file.
pub open spec fn row(pieces: Seq<Option<Piece>>, r: int) -> Seq<Option<Piece>> {
    pieces.subrange(8 * r, 8 * r + 8)
}

/// FEN of the rows from the eighth down to row `r`, separated by `/`.
pub open spec fn ranks_fen(pieces: Seq<Option<Piece>>, r: int) -> Seq<char>
    decreases 8 - r,
{
    if r >= 7 {
        rank_fen(row(pieces, 7), 0)
    } else {
        ranks_fen(pieces, r + 1) + seq!['/'] + rank_fen(row(pieces, r), 0)
    }
}

/// FEN of the castling rights: `K`, `Q`, `k` and `q` for those held, `-` for none.
pub open spec fn castling_fen(flags: u8) -> Seq<char> {
    let s = (if flags & 0x80 != 0 { seq!['K'] } else { Seq::empty() }) + (if flags & 0x40 != 0 {
        seq!['Q']
    } else {
        Seq::empty()
    }) + (if flags & 0x20 != 0 { seq!['k'] } else { Seq::empty() }) + (if flags & 0x10 != 0 {
        seq!['q']
    } else {
        Seq::empty()
    });
    if s.len() == 0 {
        seq!['-']
    } else {
        s
    }
}

/// The FEN of a position: placement, side to move and castling rights.
pub open spec fn spec_to_fen(st: BoardState) -> Seq<char> {
    ranks_fen(st.pieces, 0) + seq![' '] + spec_player_fen(st.player) + seq![' '] + castling_fen(st.flags)
}

/// Writes the pending run of empty squares, if any, and starts a new one.
fn push_empty_count(fen: &mut String, empty_count: &mut u8)
    requires
        *old(empty_count) <= 8,
    ensures
        final(fen)@ == old(fen)@ + empties_fen(*old(empty_count) as nat),
        *final(empty_count) == 0,
{
    if *empty_count != 0 {
        let digits = decimal_string(*empty_count as u16);
        fen.append(digits.as_str());
        *empty_count = 0;
    } else {
        assert(old(fen)@ + empties_fen(0) =~= old(fen)@);
    }
}

impl Board {
    /// Writes the board in Forsyth-Edwards notation: placement, side to move and castling
    /// rights.
    pub fn to_fen(&self) -> (r: String)
        requires
            self.wf(),
        ensures
            r@ == spec_to_fen(self@),
    {
        proof {
            reveal_strlit("/");
            reveal_strlit(" ");
            reveal_strlit("K");
            reveal_strlit("Q");
            reveal_strlit("k");
            reveal_strlit("q");
            reveal_strlit("-");
        }
        let ghost pieces = self@.pieces;
        proof {
            self.lemma_wf_len();
        }
        let mut fen = String::new();
        let mut rank: u8 = 8;
        while rank > 0
            invariant
                rank <= 8,
                pieces == self@.pieces,
                pieces.len() == 64,
                fen@ == (if rank == 8 {
                    Seq::<char>::empty()
                } else {
                    ranks_fen(pieces, rank as int)
                }),
            decreases rank,
        {
            rank = rank - 1;
            proof {
                reveal_strlit("/");
            }
            if rank < 7 {
                fen.append("/");
            }
            let ghost start = fen@;
            assert(rank < 7 ==> start =~= ranks_fen(pieces, rank + 1) + seq!['/']);
            assert(rank == 7 ==> start =~= Seq::<char>::empty());
            let ghost cells = row(pieces, rank as int);
            let mut empty_count: u8 = 0;
            let mut file: u8 = 0;
            assert(cells.skip(0) =~= cells);
            while file < 8
                invariant
                    file <= 8,
                    rank < 8,
                    empty_count <= file,
                    pieces == self@.pieces,
                    pieces.len() == 64,
                    cells == row(pieces, rank as int),
                    fen@ + rank_fen(cells.skip(file as int), empty_count as nat) == start + rank_fen(cells, 0),
                decreases 8 - file,
            {
                let ghost rest = cells.skip(file as int);
                assert(rest.drop_first() =~= cells.skip(file + 1));
                let piece = self.get(Square::from_index(rank * 8 + file));
                assert(piece == rest[0]);
                match piece {
                    Some(p) => {
                        let ghost f0 = fen@;
                        let ghost e = empty_count as nat;
                        push_empty_count(&mut fen, &mut empty_count);
                        let letter = p.to_fen();
                        fen.append(letter.as_str());
                        assert(f0 + rank_fen(rest, e) =~= fen@ + rank_fen(cells.skip(file + 1), 0));
                    },
                    None => {
                        empty_count = empty_count + 1;
                    },
                }
                file = file + 1;
            }
            let ghost f0 = fen@;
            let ghost e = empty_count as nat;
            assert(cells.skip(8) =~= Seq::<Option<Piece>>::empty());
            push_empty_count(&mut fen, &mut empty_count);
            assert(fen@ =~= start + rank_fen(cells, 0));
            assert(fen@ =~= ranks_fen(pieces, rank as int));
        }
        fen.append(" ");
        let player = self.player().to_fen();
        fen.append(player.as_str());
        fen.append(" ");
        let flags = self.flags();
        let ghost f0 = fen@;
        let mut can_castle = false;
        if flags.is_set(PlayerV::White.castle_kingside_flag()) {
            fen.append("K");
            can_castle = true;
        }
        if flags.is_set(PlayerV::White.castle_queenside_flag()) {
            fen.append("Q");
            can_castle = true;
        }
        if flags.is_set(PlayerV::Black.castle_kingside_flag()) {
            fen.append("k");
            can_castle = true;
        }
        if flags.is_set(PlayerV::Black.castle_queenside_flag()) {
            fen.append("q");
            can_castle = true;
        }
        if !can_castle {
            fen.append("-");
        }
        assert(fen@ =~= spec_to_fen(self@));
        fen
    }
}

/// The character a square shows in the board's picture: its piece's symbol, or the square's
/// colour (a block for a black square, a space for a white one).
pub open spec fn square_char(pieces: Seq<Option<Piece>>, i: int) -> char {
    match pieces[i] {
        Some(p) => spec_piece_symbol(p),
        None => if (i % 8 + i / 8) % 2 == 0 {
            '█'
        } else {
            ' '
        },
    }
}

/// The line of the picture for row `r`: the rank number, the squares, the rank number.
pub open spec fn row_line(pieces: Seq<Option<Piece>>, r: int) -> Seq<char> {
    decimal((r + 1) as nat) + seq![' '] + Seq::new(8, |f: int| square_char(pieces, 8 * r + f)) + seq![' ']
        + decimal((r + 1) as nat) + seq!['\n']
}

/// The lines of the picture for the rows from the eighth down to row `r`.
pub open spec fn grid_rows(pieces: Seq<Option<Piece>>, r: int) -> Seq<char>
    decreases 8 - r,
{
    if r >= 7 {
        row_line(pieces, 7)
    } else {
        grid_rows(pieces, r + 1) + row_line(pieces, r)
    }
}

/// The file letters, `a` to `h`.
pub open spec fn files_line() -> Seq<char> {
    Seq::new(8, |f: int| file_char(f))
}

/// The picture of a position: file letters above and below, rank numbers on both sides, the
/// eighth rank on top.
pub open spec fn spec_board_string(st: BoardState) -> Seq<char> {
    seq![' ', ' '] + files_line() + seq!['\n'] + grid_rows(st.pieces, 0) + seq![' ', ' '] + files_line()
}

impl Board {
    /// A picture of the board, one line per rank with the eighth on top, pieces by their chess
    /// symbols and empty squares by their colour.
    pub fn to_string(&self) -> (r: String)
        requires
            self.wf(),
        ensures
            r@ == spec_board_string(self@),
    {
        proof {
            self.lemma_wf_len();
            reveal_strlit("  ");
            reveal_strlit("\n");
        }
        let ghost pieces = self@.pieces;
        let mut files_str = String::new();
        let files = File::values();
        let mut f: usize = 0;
        while f < 8
            invariant
                f <= 8,
                forall|i: int| 0 <= i < 8 ==> (#[trigger] files@[i]).index() == i,
                files_str@ == Seq::new(f as nat, |i: int| file_char(i)),
            decreases 8 - f,
        {
            let letter = files[f].to_string();
            files_str.append(letter.as_str());
            assert(files_str@ =~= Seq::new((f + 1) as nat, |i: int| file_char(i)));
            f = f + 1;
        }
        let mut s = String::new();
        s.append("  ");
        s.append(files_str.as_str());
        s.append("\n");
        let ghost head = s@;
        let mut rank: u8 = 8;
        while rank > 0
            invariant
                rank <= 8,
                pieces == self@.pieces,
                pieces.len() == 64,
                s@ == head + (if rank == 8 {
                    Seq::<char>::empty()
                } else {
                    grid_rows(pieces, rank as int)
                }),
            decreases rank,
        {
            rank = rank - 1;
            proof {
                reveal_strlit(" ");
                reveal_strlit("\n");
                reveal_strlit("█");
            }
            let ghost start = s@;
            let number = Rank::from_index(rank).to_string();
            s.append(number.as_str());
            s.append(" ");
            let mut file: u8 = 0;
            while file < 8
                invariant
                    file <= 8,
                    rank < 8,
                    pieces == self@.pieces,
                    pieces.len() == 64,
                    s@ == start + decimal((rank + 1) as nat) + seq![' '] + Seq::new(file as nat, |j: int| square_char(pieces, 8 * rank + j)),
                decreases 8 - file,
            {
                proof {
                    reveal_strlit(" ");
                    reveal_strlit("█");
                }
                let square = Square::from_index(rank * 8 + file);
                let text = match self.get(square) {
                    Some(piece) => piece.to_string(),
                    None => {
                        let col = match square.color() {
                            SquareColor::White => " ",
                            SquareColor::Black => "█",
                        };
                        String::from_str(col)
                    },
                };
                s.append(text.as_str());
                assert(s@ =~= start + decimal((rank + 1) as nat) + seq![' '] + Seq::new((file + 1) as nat, |j: int| square_char(pieces, 8 * rank + j)));
                file = file + 1;
            }
            s.append(" ");
            s.append(number.as_str());
            s.append("\n");
            assert(s@ =~= start + row_line(pieces, rank as int));
            assert(s@ =~= head + grid_rows(pieces, rank as int));
        }
        s.append("  ");
        s.append(files_str.as_str());
        assert(s@ =~= spec_board_string(self@));
        s
    }
}

/// The FEN with each space replaced by an underscore.
pub open spec fn underscored(s: Seq<char>) -> Seq<char> {
    s.map_values(|c: char| if c == ' ' { '_' } else { c })
}

impl Board {
    /// A link to the position on lichess.org: the FEN, with underscores for spaces, after the
    /// analysis board's address.
    pub fn fen_url(&self) -> (r: String)
        requires
            self.wf(),
        ensures
            r@ == "https://lichess.org/analysis/"@ + underscored(spec_to_fen(self@)),
    {
        let fen = self.to_fen();
        let mut url = String::from_str("https://lichess.org/analysis/");
        let ghost head = url@;
        let n = fen.as_str().unicode_len();
        let mut i: usize = 0;
        while i < n
            invariant
                i <= n,
                n == fen@.len(),
                url@ == head + underscored(fen@.take(i as int)),
            decreases n - i,
        {
            proof {
                reveal_strlit("_");
            }
            let c = fen.as_str().get_char(i);
            if c == ' ' {
                url.append("_");
            } else {
                url.append(fen.as_str().substring_char(i, i + 1));
            }
            assert(underscored(fen@.take(i + 1)) =~= underscored(fen@.take(i as int)).push(if c == ' ' { '_' } else { c }));
            i = i + 1;
        }
        assert(fen@.take(n as int) =~= fen@);
        url
    }
}

impl Board {
    /// Reads a board from
    /// [Forsyth-Edwards notation](https://en.wikipedia.org/wiki/Forsyth%E2%80%93Edwards_Notation):
    /// the piece placement, the side to move and, where given, the castling rights; anything
    /// after them is not read.
    pub fn from_fen(fen: &str) -> (r: Result<Board, ParseError>)
        ensures
            spec_from_fen(fen@) matches Ok((ranks, player, flags)) ==> {
                &&& r is Ok
                &&& r.unwrap().wf()
                &&& forall|i: int| 0 <= i < 64 ==> #[trigger] r.unwrap()@.pieces[i] == ranks[i / 8][i % 8]
                &&& r.unwrap()@.player == player
                &&& r.unwrap()@.flags == flags & !impossible_flags(r.unwrap()@.pieces)
            },
            spec_from_fen(fen@) matches Err(e) ==> r matches Err(f) && f == e,
    {
        let fields = word_bounds(fen);
        if fields.len() == 0 {
            return Err(ParseError::ExpectedPieces);
        }
        let pieces_str = fen.substring_char(fields[0].0, fields[0].1);
        let pieces = match parse_placement(pieces_str) {
            Ok(a) => a,
            Err(e) => {
                return Err(e);
            },
        };
        if fields.len() < 2 {
            return Err(ParseError::ExpectedPlayer);
        }
        let player = match PlayerV::from_fen(fen.substring_char(fields[1].0, fields[1].1)) {
            Ok(p) => p,
            Err(_) => {
                return Err(ParseError::Player);
            },
        };
        let flags = if fields.len() < 3 {
            BoardFlags::default()
        } else {
            let castling = fen.substring_char(fields[2].0, fields[2].1);
            let white_kingside: u8 = if contains_char(castling, 'K') {
                PlayerV::White.castle_kingside_flag()
            } else {
                0
            };
            let white_queenside: u8 = if contains_char(castling, 'Q') {
                PlayerV::White.castle_queenside_flag()
            } else {
                0
            };
            let black_kingside: u8 = if contains_char(castling, 'k') {
                PlayerV::Black.castle_kingside_flag()
            } else {
                0
            };
            let black_queenside: u8 = if contains_char(castling, 'q') {
                PlayerV::Black.castle_queenside_flag()
            } else {
                0
            };
            let set_flags = white_kingside | white_queenside | black_kingside | black_queenside;
            BoardFlags::new(set_flags)
        };
        let b = Board::new(pieces, player, flags);
        proof {
            let w = spec_words(fen@);
            assert(ranks_view(pieces@) =~= spec_placement(w[0]).unwrap());
            assert forall|i: int| 0 <= i < 64 implies #[trigger] b@.pieces[i] == spec_placement(w[0]).unwrap()[i / 8][i % 8] by {
                assert(ranks_view(pieces@)[i / 8] == pieces@[i / 8]@);
            }
        }
        Ok(b)
    }
}

} // verus!
