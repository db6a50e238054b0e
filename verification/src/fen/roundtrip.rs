//! Reading back what `to_fen` writes gives the position again.
use vstd::prelude::*;

use crate::board::{
    black_king, black_rook, impossible_flags, lemma_view_determines_board, white_king, white_rook, Board, BoardState,
};
use crate::error::ParseError;
use crate::fen::{
    castling_fen, empties_fen, placement_fold, placement_step, rank_fen, ranks_fen, row,
    spec_castling, spec_from_fen, spec_is_whitespace, spec_placement, spec_to_fen, spec_words, words_from,
    PlacementState,
};
use crate::piece::{law_piece_letter_parses_back, spec_piece_char, Piece};
use crate::player::{spec_parse_player, spec_player_fen};
use crate::square::decimal;

verus! {

/// The text holds no whitespace.
pub open spec fn no_whitespace(a: Seq<char>) -> bool {
    forall|i: int| 0 <= i < a.len() ==> !spec_is_whitespace(#[trigger] a[i])
}

/// Characters without whitespace extend the word being read.
proof fn lemma_words_extend(a: Seq<char>, s: Seq<char>, cur: Seq<char>)
    requires
        no_whitespace(a),
    ensures
        words_from(a + s, cur) == words_from(s, cur + a),
    decreases a.len(),
{
    if a.len() == 0 {
        assert(a + s =~= s);
        assert(cur + a =~= cur);
    } else {
        assert(!spec_is_whitespace(a[0]));
        assert((a + s)[0] == a[0]);
        assert((a + s).drop_first() =~= a.drop_first() + s);
        lemma_words_extend(a.drop_first(), s, cur.push(a[0]));
        assert(cur.push(a[0]) + a.drop_first() =~= cur + a);
    }
}

/// The words of three spaced fields without whitespace are the fields.
proof fn lemma_three_words(a: Seq<char>, b: Seq<char>, c: Seq<char>)
    requires
        no_whitespace(a),
        no_whitespace(b),
        no_whitespace(c),
        a.len() > 0,
        b.len() > 0,
        c.len() > 0,
    ensures
        spec_words(a + seq![' '] + b + seq![' '] + c) == seq![a, b, c],
{
    let e = Seq::<char>::empty();
    let rest_b = seq![' '] + b + seq![' '] + c;
    let rest_c = seq![' '] + c;
    assert(a + seq![' '] + b + seq![' '] + c =~= a + rest_b);
    lemma_words_extend(a, rest_b, e);
    assert(e + a =~= a);
    assert(rest_b.drop_first() =~= b + rest_c);
    assert(words_from(rest_b, a) == seq![a] + words_from(b + rest_c, e));
    lemma_words_extend(b, rest_c, e);
    assert(e + b =~= b);
    assert(rest_c.drop_first() =~= c);
    assert(words_from(rest_c, b) == seq![b] + words_from(c, e));
    lemma_words_extend(c, Seq::<char>::empty(), e);
    assert(c + Seq::<char>::empty() =~= c);
    assert(e + c =~= c);
    assert(words_from(c, e) == seq![c]);
    assert(spec_words(a + seq![' '] + b + seq![' '] + c) =~= seq![a, b, c]);
}

/// Reading the characters of `s` one by one from the state `st`.
pub open spec fn fold_from(st: PlacementState, s: Seq<char>) -> PlacementState
    decreases s.len(),
{
    if s.len() == 0 {
        st
    } else {
        fold_from(placement_step(st, s[0]), s.drop_first())
    }
}

/// Reading one more character after `s`.
proof fn lemma_fold_push(st: PlacementState, s: Seq<char>, c: char)
    ensures
        fold_from(st, s.push(c)) == placement_step(fold_from(st, s), c),
    decreases s.len(),
{
    if s.len() == 0 {
        assert(s.push(c).drop_first() =~= Seq::<char>::empty());
        assert(s.push(c)[0] == c);
        assert(fold_from(placement_step(st, c), Seq::<char>::empty()) == placement_step(st, c));
        assert(fold_from(st, s) == st);
    } else {
        assert(s.push(c).drop_first() =~= s.drop_first().push(c));
        assert(s.push(c)[0] == s[0]);
        lemma_fold_push(placement_step(st, s[0]), s.drop_first(), c);
        assert(fold_from(st, s.push(c)) == fold_from(placement_step(st, s[0]), s.drop_first().push(c)));
        assert(fold_from(st, s) == fold_from(placement_step(st, s[0]), s.drop_first()));
    }
}

/// `placement_fold` reads from the start with no square and no rank.
proof fn lemma_fold_start(s: Seq<char>)
    ensures
        placement_fold(s) == fold_from(Ok((Seq::empty(), Seq::empty())), s),
    decreases s.len(),
{
    if s.len() > 0 {
        lemma_fold_start(s.drop_last());
        lemma_fold_push(Ok((Seq::empty(), Seq::empty())), s.drop_last(), s.last());
        assert(s.drop_last().push(s.last()) =~= s);
    }
}

/// Reading `a + b` is reading `a`, then `b`.
proof fn lemma_fold_concat(st: PlacementState, a: Seq<char>, b: Seq<char>)
    ensures
        fold_from(st, a + b) == fold_from(fold_from(st, a), b),
    decreases a.len(),
{
    if a.len() == 0 {
        assert(a + b =~= b);
    } else {
        assert((a + b).drop_first() =~= a.drop_first() + b);
        lemma_fold_concat(placement_step(st, a[0]), a.drop_first(), b);
    }
}

/// `n` empty squares.
pub open spec fn nones(n: nat) -> Seq<Option<Piece>> {
    Seq::new(n, |i: int| None::<Piece>)
}

/// A piece's FEN letter is neither a digit nor `/`.
proof fn lemma_piece_char_is_letter(p: Piece)
    ensures
        !('0' <= spec_piece_char(p) <= '9'),
        spec_piece_char(p) != '/',
        !spec_is_whitespace(spec_piece_char(p)),
{
}

/// Reading the FEN of a rank's squares, after `e` empty squares not yet written, adds the empty
/// squares and the squares to the rank being read.
proof fn lemma_rank_fen_read(acc: Seq<Option<Piece>>, ranks: Seq<Seq<Option<Piece>>>, cells: Seq<Option<Piece>>, e: nat)
    requires
        acc.len() + e + cells.len() <= 8,
    ensures
        fold_from(Ok((acc, ranks)), rank_fen(cells, e)) == Ok::<_, ParseError>((acc + nones(e) + cells, ranks)),
    decreases cells.len(),
{
    if cells.len() == 0 {
        if e == 0 {
            assert(acc + nones(e) + cells =~= acc);
        } else {
            let d = (('0' as int) + e) as char;
            assert(d as int == ('0' as int) + e);
            assert(decimal(e) == seq![d]);
            assert(rank_fen(cells, e) == seq![d]);
            assert(seq![d].drop_first() =~= Seq::<char>::empty());
            assert(seq![d][0] == d);
            let st: PlacementState = Ok((acc, ranks));
            assert(acc + nones(e) + cells =~= acc + Seq::new((d as int - '0' as int) as nat, |i: int| None::<Piece>));
            assert(placement_step(st, d) == Ok::<_, ParseError>((acc + nones(e) + cells, ranks)));
            assert(fold_from(placement_step(st, d), Seq::<char>::empty()) == placement_step(st, d));
        }
    } else {
        match cells[0] {
            None => {
                lemma_rank_fen_read(acc, ranks, cells.drop_first(), e + 1);
                assert(acc + nones(e + 1) + cells.drop_first() =~= acc + nones(e) + cells);
            },
            Some(p) => {
                let c = spec_piece_char(p);
                let acc2 = acc + nones(e);
                lemma_fold_concat(Ok((acc, ranks)), empties_fen(e) + seq![c], rank_fen(cells.drop_first(), 0));
                lemma_fold_concat(Ok((acc, ranks)), empties_fen(e), seq![c]);
                lemma_rank_fen_read(acc, ranks, Seq::empty(), e);
                assert(acc + nones(e) + Seq::<Option<Piece>>::empty() =~= acc2);
                lemma_piece_char_is_letter(p);
                law_piece_letter_parses_back(p);
                assert(seq![c].drop_first() =~= Seq::<char>::empty());
                assert(seq![c][0] == c);
                let st2: PlacementState = Ok((acc2, ranks));
                assert(placement_step(st2, c) == Ok::<_, ParseError>((acc2.push(Some(p)), ranks)));
                assert(fold_from(placement_step(st2, c), Seq::<char>::empty()) == placement_step(st2, c));
                assert(fold_from(st2, seq![c]) == Ok::<_, ParseError>((acc2.push(Some(p)), ranks)));
                lemma_rank_fen_read(acc2.push(Some(p)), ranks, cells.drop_first(), 0);
                assert(acc2.push(Some(p)) + nones(0) + cells.drop_first() =~= acc + nones(e) + cells);
            },
        }
    }
}

/// The rows from the eighth down to row `r + 1`.
pub open spec fn rows_above(pieces: Seq<Option<Piece>>, r: int) -> Seq<Seq<Option<Piece>>> {
    Seq::new((7 - r) as nat, |i: int| row(pieces, 7 - i))
}

/// Reading the FEN of the rows from the eighth down to row `r` leaves row `r` open and the rows
/// above it read.
proof fn lemma_ranks_fen_read(pieces: Seq<Option<Piece>>, r: int)
    requires
        pieces.len() == 64,
        0 <= r <= 7,
    ensures
        fold_from(Ok((Seq::empty(), Seq::empty())), ranks_fen(pieces, r)) == Ok::<_, ParseError>(
            (row(pieces, r), rows_above(pieces, r)),
        ),
    decreases 8 - r,
{
    let init: PlacementState = Ok((Seq::empty(), Seq::empty()));
    let e = Seq::<Option<Piece>>::empty();
    if r >= 7 {
        lemma_rank_fen_read(e, Seq::empty(), row(pieces, 7), 0);
        assert(e + nones(0) + row(pieces, 7) =~= row(pieces, 7));
        assert(rows_above(pieces, 7) =~= Seq::<Seq<Option<Piece>>>::empty());
    } else {
        lemma_ranks_fen_read(pieces, r + 1);
        let upper = ranks_fen(pieces, r + 1);
        let lower = rank_fen(row(pieces, r), 0);
        assert(ranks_fen(pieces, r) == upper + seq!['/'] + lower);
        lemma_fold_concat(init, upper + seq!['/'], lower);
        lemma_fold_concat(init, upper, seq!['/']);
        let mid: PlacementState = Ok((row(pieces, r + 1), rows_above(pieces, r + 1)));
        assert(seq!['/'][0] == '/');
        assert(seq!['/'].drop_first() =~= Seq::<char>::empty());
        assert(rows_above(pieces, r + 1).push(row(pieces, r + 1)) =~= rows_above(pieces, r));
        assert(placement_step(mid, '/') == Ok::<_, ParseError>((e, rows_above(pieces, r))));
        assert(fold_from(placement_step(mid, '/'), Seq::<char>::empty()) == placement_step(mid, '/'));
        lemma_rank_fen_read(e, rows_above(pieces, r), row(pieces, r), 0);
        assert(e + nones(0) + row(pieces, r) =~= row(pieces, r));
    }
}

/// The placement that `to_fen` writes reads back as the rows of the position, the first first.
proof fn lemma_placement_reads_back(pieces: Seq<Option<Piece>>)
    requires
        pieces.len() == 64,
    ensures
        spec_placement(ranks_fen(pieces, 0)) == Ok::<_, ParseError>(Seq::new(8, |r: int| row(pieces, r))),
{
    lemma_fold_start(ranks_fen(pieces, 0));
    lemma_ranks_fen_read(pieces, 0);
    let all = rows_above(pieces, 0).push(row(pieces, 0));
    assert(all.reverse() =~= Seq::new(8, |r: int| row(pieces, r)));
}

/// Joining texts without whitespace gives a text without whitespace.
proof fn lemma_no_whitespace_concat(a: Seq<char>, b: Seq<char>)
    requires
        no_whitespace(a),
        no_whitespace(b),
    ensures
        no_whitespace(a + b),
{
    assert forall|i: int| 0 <= i < (a + b).len() implies !spec_is_whitespace(#[trigger] (a + b)[i]) by {
        if i < a.len() {
            assert((a + b)[i] == a[i]);
        } else {
            assert((a + b)[i] == b[i - a.len()]);
        }
    }
}

/// The FEN of a rank's squares has no whitespace, and something in it where there is a square
/// or a pending empty square.
proof fn lemma_rank_fen_text(cells: Seq<Option<Piece>>, e: nat)
    requires
        e + cells.len() <= 8,
    ensures
        no_whitespace(rank_fen(cells, e)),
        e + cells.len() > 0 ==> rank_fen(cells, e).len() > 0,
    decreases cells.len(),
{
    if e > 0 {
        let d = (('0' as int) + e) as char;
        assert(decimal(e) == seq![d]);
    }
    if cells.len() > 0 {
        match cells[0] {
            None => {
                lemma_rank_fen_text(cells.drop_first(), e + 1);
            },
            Some(p) => {
                lemma_rank_fen_text(cells.drop_first(), 0);
                lemma_piece_char_is_letter(p);
                lemma_no_whitespace_concat(empties_fen(e), seq![spec_piece_char(p)]);
                lemma_no_whitespace_concat(empties_fen(e) + seq![spec_piece_char(p)], rank_fen(cells.drop_first(), 0));
            },
        }
    }
}

/// The FEN of the rows from the eighth down to row `r` has no whitespace and is not empty.
proof fn lemma_ranks_fen_text(pieces: Seq<Option<Piece>>, r: int)
    requires
        pieces.len() == 64,
        0 <= r <= 7,
    ensures
        no_whitespace(ranks_fen(pieces, r)),
        ranks_fen(pieces, r).len() > 0,
    decreases 8 - r,
{
    lemma_rank_fen_text(row(pieces, r), 0);
    if r < 7 {
        lemma_ranks_fen_text(pieces, r + 1);
        lemma_no_whitespace_concat(ranks_fen(pieces, r + 1), seq!['/']);
        lemma_no_whitespace_concat(ranks_fen(pieces, r + 1) + seq!['/'], rank_fen(row(pieces, r), 0));
    }
}

/// A text that is one letter where `set` holds, and empty otherwise, holds the letter exactly
/// where `set` holds and no other character.
proof fn lemma_single_contains(t: Seq<char>, c: char, set: bool)
    requires
        t == (if set { seq![c] } else { Seq::<char>::empty() }),
    ensures
        forall|x: char| #[trigger] t.contains(x) == (set && x == c),
{
    if set {
        assert(t[0] == c);
    }
}

/// The castling field that `to_fen` writes gives back the castling rights.
proof fn lemma_castling_reads_back(f: u8)
    ensures
        spec_castling(castling_fen(f)) == f & 0xf0,
        no_whitespace(castling_fen(f)),
        castling_fen(f).len() > 0,
{
    let k = if f & 0x80 != 0 { seq!['K'] } else { Seq::<char>::empty() };
    let q = if f & 0x40 != 0 { seq!['Q'] } else { Seq::<char>::empty() };
    let bk = if f & 0x20 != 0 { seq!['k'] } else { Seq::<char>::empty() };
    let bq = if f & 0x10 != 0 { seq!['q'] } else { Seq::<char>::empty() };
    let s = k + q + bk + bq;
    assert forall|c: char| #[trigger] s.contains(c) == (k.contains(c) || q.contains(c) || bk.contains(c) || bq.contains(c)) by {
        if s.contains(c) {
            let i = choose|i: int| 0 <= i < s.len() && s[i] == c;
            if i < k.len() {
                assert(k[i] == c);
            } else if i < k.len() + q.len() {
                assert(q[i - k.len()] == c);
            } else if i < k.len() + q.len() + bk.len() {
                assert(bk[i - k.len() - q.len()] == c);
            } else {
                assert(bq[i - k.len() - q.len() - bk.len()] == c);
            }
        }
        if k.contains(c) {
            assert(s[0] == c);
        }
        if q.contains(c) {
            assert(s[k.len() as int] == c);
        }
        if bk.contains(c) {
            assert(s[(k.len() + q.len()) as int] == c);
        }
        if bq.contains(c) {
            assert(s[(k.len() + q.len() + bk.len()) as int] == c);
        }
    }
    lemma_single_contains(k, 'K', f & 0x80 != 0);
    lemma_single_contains(q, 'Q', f & 0x40 != 0);
    lemma_single_contains(bk, 'k', f & 0x20 != 0);
    lemma_single_contains(bq, 'q', f & 0x10 != 0);
    assert(s.contains('K') == (f & 0x80 != 0));
    assert(s.contains('Q') == (f & 0x40 != 0));
    assert(s.contains('k') == (f & 0x20 != 0));
    assert(s.contains('q') == (f & 0x10 != 0));
    assert(s.len() == 0 ==> !s.contains('K') && !s.contains('Q') && !s.contains('k') && !s.contains('q'));
    assert forall|i: int| 0 <= i < s.len() implies !spec_is_whitespace(#[trigger] s[i]) by {
        assert(s.contains(s[i]));
    }
    assert(seq!['-'][0] == '-');
    assert(!seq!['-'].contains('K') && !seq!['-'].contains('Q') && !seq!['-'].contains('k') && !seq!['-'].contains('q'));
    assert(((if f & 0x80 != 0 { 0x80u8 } else { 0u8 }) | (if f & 0x40 != 0 { 0x40u8 } else { 0u8 }) | (if f & 0x20 != 0 {
        0x20u8
    } else {
        0u8
    }) | (if f & 0x10 != 0 { 0x10u8 } else { 0u8 })) == f & 0xf0 && (f & 0xf0 == 0 <==> (f & 0x80 == 0 && f & 0x40
        == 0 && f & 0x20 == 0 && f & 0x10 == 0))) by (bit_vector);
}

/// Reading back what `to_fen` writes gives the rows of the position, the side to move and its
/// castling rights.
pub proof fn law_fen_reads_back(st: BoardState)
    requires
        st.pieces.len() == 64,
    ensures
        spec_from_fen(spec_to_fen(st)) == Ok::<_, ParseError>(
            (Seq::new(8, |r: int| row(st.pieces, r)), st.player, st.flags & 0xf0),
        ),
{
    let a = ranks_fen(st.pieces, 0);
    let b = spec_player_fen(st.player);
    let c = castling_fen(st.flags);
    lemma_ranks_fen_text(st.pieces, 0);
    lemma_castling_reads_back(st.flags);
    lemma_three_words(a, b, c);
    lemma_placement_reads_back(st.pieces);
    assert(spec_to_fen(st) == a + seq![' '] + b + seq![' '] + c);
    assert(seq!['w'][0] != seq!['W'][0] && seq!['b'][0] != seq!['W'][0] && seq!['b'][0] != seq!['w'][0]);
    assert(spec_parse_player(b) == Some(st.player));
    assert(spec_castling(c) == st.flags & 0xf0);
}

/// `from_fen` reads back the board that `to_fen` wrote: the FEN reads without error, and any
/// well-formed board with the rows, side to move and castling rights it gives (as `from_fen`
/// builds one) is the board itself. Castling rights are the only flags that FEN carries.
pub proof fn law_from_fen_reads_back_to_fen(b: Board)
    requires
        b.wf(),
        b@.flags & 0x0f == 0,
    ensures
        spec_from_fen(spec_to_fen(b@)) is Ok,
        forall|c: Board|
            c.wf() && (forall|i: int| 0 <= i < 64 ==> #[trigger] c@.pieces[i] == spec_from_fen(spec_to_fen(b@))->Ok_0.0[i / 8][i % 8])
                && c@.player == spec_from_fen(spec_to_fen(b@))->Ok_0.1 && c@.flags == spec_from_fen(spec_to_fen(b@))->Ok_0.2
                & !impossible_flags(c@.pieces) ==> c == b,
{
    let st = b@;
    b.lemma_wf_len();
    law_fen_reads_back(st);
    let f = st.flags;
    let p = st.pieces;
    let a = p[4] == Some(white_king()) && p[7] == Some(white_rook());
    let bb = p[4] == Some(white_king()) && p[0] == Some(white_rook());
    let c = p[60] == Some(black_king()) && p[63] == Some(black_rook());
    let d = p[60] == Some(black_king()) && p[56] == Some(black_rook());
    assert((f & 0x80 != 0 ==> a) && (f & 0x40 != 0 ==> bb) && (f & 0x20 != 0 ==> c) && (f & 0x10 != 0 ==> d) && f & 0x0f
        == 0 ==> (f & 0xf0) & !((if !a { 0x80u8 } else { 0u8 }) | (if !bb { 0x40u8 } else { 0u8 }) | (if !c {
        0x20u8
    } else {
        0u8
    }) | (if !d { 0x10u8 } else { 0u8 })) == f) by (bit_vector);
    assert forall|other: Board|
        other.wf() && (forall|i: int| 0 <= i < 64 ==> #[trigger] other@.pieces[i] == spec_from_fen(spec_to_fen(b@))->Ok_0.0[i / 8][i % 8])
            && other@.player == spec_from_fen(spec_to_fen(b@))->Ok_0.1 && other@.flags == spec_from_fen(spec_to_fen(b@))->Ok_0.2
            & !impossible_flags(other@.pieces) implies other == b by {
        other.lemma_wf_len();
        assert forall|i: int| 0 <= i < 64 implies other@.pieces[i] == p[i] by {
            assert(other@.pieces[i] == row(p, i / 8)[i % 8]);
        }
        assert(other@.pieces =~= p);
        lemma_view_determines_board(other, b);
    }
}

} // verus!
