# chess_gui

A chess rules engine written in Verus: an 8×8 board of pieces and colours,
per-colour threat maps, move creation and generation for every piece, a legality
check that plays a move on a copy of the board, and check, checkmate and
stalemate queries. Every function is verified against a mathematical model that
follows this engine's own rules, including its departures from standard chess:
no castling or en passant, a pawn's two-square step may jump over a piece, and a
sliding piece's generator writes each direction from the start of the move
buffer, so its list can hold entries left over from earlier directions. Moves
compare equal when they agree on squares, kind and colour; the promotion piece
only counts for promotions.

Layout:

- `src/chess_api/mod.rs` — the board state, pieces and moves; `scheck`,
  `is_scheck_mate`, `is_stale_mate`, `end_turn`.
- `src/chess_api/rules.rs` — the model: the board view, what each piece
  attacks, how a move changes the board, which moves the generators produce.
- `src/chess_api/Board.rs` — the opening position and threat recomputation.
- `src/chess_api/Move_util.rs` — creating, listing and playing moves.
- `src/chess_api/Util.rs` — shared generators and the legality check.
- `src/chess_api/{Knight,Bishop,Rook,Queen,King,Pawn}.rs` — per-piece threats
  and moves.
- `src/chess_api/laws.rs` — properties that span several operations.
- `src/board_coords.rs`, `src/symbols.rs` — square numbering and board symbols.
- `app/main.rs` — a terminal demonstration.
