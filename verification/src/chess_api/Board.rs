//! Setting up a board and recomputing its threats.

use vstd::prelude::*;
use super::{Board_state, Cell, WHITE, BLACK};
use super::rules::{
    in_bounds, color_index, attacks_from, attacked_by, attacked_before, piece_attacks, with_threats, threat_at,
    same_but_threats, offsets_fit, back_rank, home_row, pawn_row, start_piece, start_position,
};
use super::{Pawn, Knight, Bishop, Rook, Queen, King};

verus! {

/// The opening position with its threats computed; white to move.
pub fn create_init_board() -> (b: Board_state)
    ensures
        b@ == with_threats(start_position()),
{
    let mut B = Board_state {
        _board_types: [[Cell::Empty; 8]; 8],
        _board_hasmoved: [[false; 8]; 8],
        _board_color: [[false; 8]; 8],
        threat_buff: [[[false; 8]; 8]; 2],
        turn: false,
        castling: [false; 2],
        king_pos: [(0, 0); 2],
    };
    B.king_pos[0] = (7, 4);
    B.king_pos[1] = (0, 4);
    let ghost blank = B;
    create_start_config(&mut B);
    let ghost set_up = B;
    let ghost goal = start_position();
    assert forall|r: int| 0 <= r < 8 implies #[trigger] set_up@.types[r] =~= goal.types[r] by {
        assert forall|c: int| 0 <= c < 8 implies set_up@.types[r][c] == goal.types[r][c] by {
            assert(set_up._board_types[r][c] == set_up@.types[r][c]);
        }
    }
    assert forall|r: int| 0 <= r < 8 implies #[trigger] set_up@.colors[r] =~= goal.colors[r] by {
        assert forall|c: int| 0 <= c < 8 implies set_up@.colors[r][c] == goal.colors[r][c] by {
            assert(set_up._board_color[r][c] == set_up@.colors[r][c]);
        }
    }
    assert(set_up@ =~~= goal);
    update_threat_buffer(&mut B);
    return B;
}

/// Places both sides' pieces on their starting squares.
fn create_start_config(board: &mut Board_state)
    ensures
        forall|r: int, c: int| in_bounds(r, c) ==> #[trigger] final(board)._board_types[r][c] == (
            if r == home_row(WHITE) || r == home_row(BLACK) || r == pawn_row(WHITE) || r == pawn_row(BLACK) {
                start_piece(r, c)
            } else {
                old(board)._board_types[r][c]
            }),
        forall|r: int, c: int| in_bounds(r, c) ==> #[trigger] final(board)._board_color[r][c] == (
            if r == home_row(WHITE) || r == pawn_row(WHITE) {
                WHITE
            } else if r == home_row(BLACK) || r == pawn_row(BLACK) {
                BLACK
            } else {
                old(board)._board_color[r][c]
            }),
        final(board)._board_hasmoved == old(board)._board_hasmoved,
        final(board).threat_buff == old(board).threat_buff,
        final(board).turn == old(board).turn,
        final(board).castling == old(board).castling,
        final(board).king_pos == old(board).king_pos,
{
    create_start_config_color(board, false);
    create_start_config_color(board, true);
}

/// Places the pieces of `color`: its back rank and its row of pawns.
fn create_start_config_color(board: &mut Board_state, color: bool)
    ensures
        forall|r: int, c: int| in_bounds(r, c) ==> #[trigger] final(board)._board_types[r][c] == (
            if r == home_row(color) {
                back_rank(c)
            } else if r == pawn_row(color) {
                Cell::Pawn
            } else {
                old(board)._board_types[r][c]
            }),
        forall|r: int, c: int| in_bounds(r, c) ==> #[trigger] final(board)._board_color[r][c] == (
            if r == home_row(color) || r == pawn_row(color) {
                color
            } else {
                old(board)._board_color[r][c]
            }),
        final(board)._board_hasmoved == old(board)._board_hasmoved,
        final(board).threat_buff == old(board).threat_buff,
        final(board).turn == old(board).turn,
        final(board).castling == old(board).castling,
        final(board).king_pos == old(board).king_pos,
{
    let mut row: i32 = if color as i32 == 0 { 7 } else { 0 };
    let row_dir: i32 = if color as i32 == 0 { -1 } else { 1 };
    let row1_layout = [
        Cell::Rook,
        Cell::Knight,
        Cell::Bishop,
        Cell::Queen,
        Cell::King,
        Cell::Bishop,
        Cell::Knight,
        Cell::Rook,
    ];
    assert(forall|c: int| 0 <= c < 8 ==> #[trigger] row1_layout@[c] == back_rank(c));
    let ghost start = *board;
    let mut i: usize = 0;
    while i < 8
        invariant
            0 <= i <= 8,
            row == home_row(color),
            start == *old(board),
            forall|c: int| 0 <= c < 8 ==> #[trigger] row1_layout@[c] == back_rank(c),
            forall|r: int, c: int| in_bounds(r, c) ==> #[trigger] board._board_types[r][c] == (
                if r == row && c < i { back_rank(c) } else { start._board_types[r][c] }),
            forall|r: int, c: int| in_bounds(r, c) ==> #[trigger] board._board_color[r][c] == (
                if r == row && c < i { color } else { start._board_color[r][c] }),
            board._board_hasmoved == start._board_hasmoved,
            board.threat_buff == start.threat_buff,
            board.turn == start.turn,
            board.castling == start.castling,
            board.king_pos == start.king_pos,
        decreases 8 - i,
    {
        board._board_types[row as usize][i] = row1_layout[i];
        board._board_color[row as usize][i] = color;
        i += 1;
    }
    let ghost mid = *board;
    row += row_dir;
    let mut i: usize = 0;
    while i < 8
        invariant
            0 <= i <= 8,
            row == pawn_row(color),
            row != home_row(color),
            forall|r: int, c: int| in_bounds(r, c) ==> #[trigger] board._board_types[r][c] == (
                if r == row && c < i { Cell::Pawn } else { mid._board_types[r][c] }),
            forall|r: int, c: int| in_bounds(r, c) ==> #[trigger] board._board_color[r][c] == (
                if r == row && c < i { color } else { mid._board_color[r][c] }),
            board._board_hasmoved == mid._board_hasmoved,
            board.threat_buff == mid.threat_buff,
            board.turn == mid.turn,
            board.castling == mid.castling,
            board.king_pos == mid.king_pos,
        decreases 8 - i,
    {
        board._board_types[row as usize][i] = Cell::Pawn;
        board._board_color[row as usize][i] = color;
        i += 1;
    }
}

proof fn lemma_attacked_before_step(
    types: Seq<Seq<Cell>>,
    colors: Seq<Seq<bool>>,
    k: int,
    tr: int,
    tc: int,
    row: int,
    col: int,
)
    requires
        in_bounds(row, col),
    ensures
        attacked_before(types, colors, k, tr, tc, row * 8 + col + 1) == (attacked_before(
            types,
            colors,
            k,
            tr,
            tc,
            row * 8 + col,
        ) || attacks_from(types, colors, row, col, k, tr, tc)),
{
    let n = row * 8 + col;
    if attacked_before(types, colors, k, tr, tc, n + 1) {
        let (r, c) = choose|r: int, c: int| r * 8 + c < n + 1 && #[trigger] attacks_from(types, colors, r, c, k, tr, tc);
        if r * 8 + c == n {
            assert(r == row && c == col);
        }
    }
    if attacks_from(types, colors, row, col, k, tr, tc) {
        assert(row * 8 + col < n + 1);
    }
}

proof fn lemma_attacked_before_all(types: Seq<Seq<Cell>>, colors: Seq<Seq<bool>>, k: int, tr: int, tc: int)
    ensures
        attacked_before(types, colors, k, tr, tc, 64) == attacked_by(types, colors, k, tr, tc),
{
    if attacked_by(types, colors, k, tr, tc) {
        let (r, c) = choose|r: int, c: int| #[trigger] attacks_from(types, colors, r, c, k, tr, tc);
        assert(r * 8 + c < 64);
    }
}

/// Recomputes the threat buffer from the position: afterwards it holds, for
/// each colour, exactly the squares that its pieces attack.
pub fn update_threat_buffer(board: &mut Board_state)
    ensures
        final(board)@ == with_threats(old(board)@),
{
    let ghost start = *board;
    let ghost types = start@.types;
    let ghost colors = start@.colors;
    board.threat_buff = [[[false; 8]; 8]; 2];
    let ghost cleared = *board;
    assert(same_but_threats(start, cleared));
    assert(forall|kk: int, r: int, c: int| 0 <= kk < 2 && in_bounds(r, c) ==> !#[trigger] threat_at(cleared, kk, r, c));
    let mut row: usize = 0;
    while row < 8
        invariant
            0 <= row <= 8,
            start == *old(board),
            same_but_threats(start, cleared),
            forall|kk: int, r: int, c: int| 0 <= kk < 2 && in_bounds(r, c) ==> !#[trigger] threat_at(cleared, kk, r, c),
            types == start@.types,
            colors == start@.colors,
            same_but_threats(start, *board),
            forall|kk: int, r: int, c: int|
                0 <= kk < 2 && in_bounds(r, c) ==> #[trigger] threat_at(*board, kk, r, c) == (threat_at(cleared, kk, r, c)
                    || attacked_before(types, colors, kk, r, c, row * 8)),
        decreases 8 - row,
    {
        let mut col: usize = 0;
        while col < 8
            invariant
                0 <= row < 8,
                0 <= col <= 8,
                start == *old(board),
                same_but_threats(start, cleared),
                forall|kk: int, r: int, c: int| 0 <= kk < 2 && in_bounds(r, c) ==> !#[trigger] threat_at(cleared, kk, r, c),
                types == start@.types,
                colors == start@.colors,
                same_but_threats(start, *board),
                forall|kk: int, r: int, c: int|
                    0 <= kk < 2 && in_bounds(r, c) ==> #[trigger] threat_at(*board, kk, r, c) == (threat_at(
                        cleared,
                        kk,
                        r,
                        c,
                    ) || attacked_before(types, colors, kk, r, c, row * 8 + col)),
            decreases 8 - col,
        {
            let at = board._board_types[row][col];
            let at_color = board._board_color[row][col];
            let ghost before = *board;
            assert(at == types[row as int][col as int] && at_color == colors[row as int][col as int]);
            assert(offsets_fit(row as i32, col as i32, 2));
            match at {
                Cell::Pawn => Pawn::generate_threat(row as i32, col as i32, board, at_color),
                Cell::Knight => Knight::generate_threat(row as i32, col as i32, board, at_color),
                Cell::Bishop => Bishop::generate_threat(row as i32, col as i32, board, at_color),
                Cell::Rook => Rook::generate_threat(row as i32, col as i32, board, at_color),
                Cell::Queen => Queen::generate_threat(row as i32, col as i32, board, at_color),
                Cell::King => King::generate_threat(row as i32, col as i32, board, at_color),
                Cell::Empty => {},
            };
            assert forall|kk: int, r: int, c: int| 0 <= kk < 2 && in_bounds(r, c) implies #[trigger] threat_at(
                *board,
                kk,
                r,
                c,
            ) == (threat_at(cleared, kk, r, c) || attacked_before(types, colors, kk, r, c, row * 8 + col + 1)) by {
                lemma_attacked_before_step(types, colors, kk, r, c, row as int, col as int);
                assert(threat_at(before, kk, r, c) == (threat_at(cleared, kk, r, c) || attacked_before(
                    types,
                    colors,
                    kk,
                    r,
                    c,
                    row * 8 + col,
                )));
                assert(threat_at(*board, kk, r, c) == (threat_at(before, kk, r, c) || (kk == color_index(at_color)
                    && piece_attacks(types, at, row as int, col as int, at_color, r, c))));
            }
            col += 1;
        }
        row += 1;
    }
    assert forall|kk: int, r: int, c: int| 0 <= kk < 2 && in_bounds(r, c) implies #[trigger] threat_at(*board, kk, r, c)
        == (threat_at(cleared, kk, r, c) || attacked_by(types, colors, kk, r, c)) by {
        lemma_attacked_before_all(types, colors, kk, r, c);
    }
    let ghost goal = with_threats(start@);
    assert forall|kk: int, r: int| 0 <= kk < 2 && 0 <= r < 8 implies #[trigger] board@.threat[kk][r] =~= goal.threat[kk][r] by {
        assert forall|c: int| 0 <= c < 8 implies board@.threat[kk][r][c] == goal.threat[kk][r][c] by {
            assert(threat_at(*board, kk, r, c) == board@.threat[kk][r][c]);
        }
    }
    assert forall|kk: int| 0 <= kk < 2 implies #[trigger] board@.threat[kk] =~= goal.threat[kk] by {
        assert forall|r: int| 0 <= r < 8 implies board@.threat[kk][r] == goal.threat[kk][r] by {
            assert(board@.threat[kk][r] =~= goal.threat[kk][r]);
        }
    }
    assert(board@.threat =~= goal.threat);
    assert(board@ =~= goal);
}

} // verus!
