# skakoui

A chess engine whose rules, move generation, notation, search and UCI decisions are written
in Verus and proved against their specifications. The rules include castling and taking en
passant right after a two-square push. The search is proved equal to a recursive
negamax specification over the generator's move order, with the transposition table's reads
and writes, and the quiescence search to its own specification, in which the position's own
score is the lower bound when not in check.

## Layout

- `src/` — the verified library.
  - `square.rs`, `bitboard.rs`, `bits.rs`, `piece.rs`, `player.rs`, `piece_map.rs`, `moves.rs`:
    squares, sets of squares as 64-bit words, pieces, sides and moves, each with a
    mathematical view and exact contracts.
  - `board.rs`: the position, its well-formedness invariant, `make_move` / `unmake_move` and
    the law that unmaking undoes making.
  - `move_generation.rs` (with `rays.rs`, `pieces.rs`): pseudo-legal, capturing and legal
    moves, each list proved to hold exactly the moves its specification describes, once each;
    checks, checkmate and attacked squares.
  - `fen.rs` (with `roundtrip.rs`): reading and writing Forsyth–Edwards notation, and the law
    that reading back what was written gives the same board.
  - `pgn.rs`: standard algebraic notation.
  - `perft.rs`: counting move sequences, proved equal to the number of legal lines.
  - `magic.rs` (with `lookup.rs`): magic numbers for sliding pieces and table lookup, proved to
    agree with working the moves out.
  - `search.rs`, `search/ttable.rs`, `search/tree.rs`, `search/order.rs`: alpha-beta search
    with a transposition table and its principal variation, and the order the searches try
    moves in (the generator's).
  - `uci.rs`, `engine.rs`: parsing UCI commands and deciding what each command does.
- `tests/` — tests of the library.
- `app/` — the programs: a UCI engine (`uci`), a game against the computer (`cli`) and a
  magic number finder (`magics`). They read input, run the search on a thread, sleep and
  write output, and leave every decision to the library.
