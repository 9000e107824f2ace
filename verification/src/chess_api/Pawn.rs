//! Pawn threats and moves.

use vstd::prelude::*;
use super::{Board_state, Cell, Move, MAX_MOVES};
use super::rules::{
    color_index, pawn_threat_targets, fits_i32, pawn_step, piece_attacks, threats_added, square_in_bounds, pawn_targets,
    overwrite, static_moves, lemma_static_moves_prefix, pawn_destination, spec_create_move,
};
use super::Util::{generate_threat_static, generate_moves_simple_static};
use super::laws::lemma_pawn_static_moves;

verus! {

/// Marks the two squares diagonally in front of a pawn of `color` on `(row, col)`.
pub fn generate_threat(row: i32, col: i32, board: &mut Board_state, color: bool)
    requires
        fits_i32(row + pawn_step(color)),
        fits_i32(col - 1),
        fits_i32(col + 1),
    ensures
        threats_added(
            *old(board),
            *final(board),
            color_index(color),
            |r: int, c: int| piece_attacks(old(board)@.types, Cell::Pawn, row as int, col as int, color, r, c),
        ),
{
    let row_increment: i32 = if color == false { -1 } else { 1 };
    let li: [(i32, i32); 2] = [(row + row_increment, col + 1), (row + row_increment, col - 1)];
    assert(li@ =~= pawn_threat_targets(row, col, color));
    generate_threat_static(&li, board, color);
}

/// Writes the moves of the pawn on `(row, col)` into `move_buffer`, from its
/// start, and returns their number. When a pawn stands there, these are the
/// moves that `create_move` builds onto its destinations (`pawn_destination`):
/// one square forward onto an empty square, two squares forward onto an empty
/// square while the pawn has not moved, and diagonally forward onto a piece of
/// the other colour.
pub fn generate_moves_simple(row: i32, col: i32, board: &mut Board_state, move_buffer: &mut [Move; MAX_MOVES]) -> (r: usize)
    requires
        square_in_bounds((row, col)),
    ensures
        *final(board) == *old(board),
        r == static_moves(old(board)@, (row, col), pawn_targets(old(board)@, row, col)).len(),
        final(move_buffer)@ == overwrite(old(move_buffer)@, static_moves(old(board)@, (row, col), pawn_targets(old(board)@, row, col))),
        old(board)@.piece(row as int, col as int) == Cell::Pawn ==> {
            &&& forall|i: int|
                0 <= i < r ==> {
                    let m = #[trigger] final(move_buffer)@[i];
                    &&& m.from == (row, col)
                    &&& spec_create_move(old(board)@, (row, col), m.to, Cell::Empty) == Some(m)
                    &&& pawn_destination(old(board)@, row as int, col as int, m.to.0 as int, m.to.1 as int)
                }
            &&& forall|tr: int, tc: int|
                #[trigger] pawn_destination(old(board)@, row as int, col as int, tr, tc) ==> exists|i: int|
                    0 <= i < r && final(move_buffer)@[i] == spec_create_move(
                        old(board)@,
                        (row, col),
                        (tr as i32, tc as i32),
                        Cell::Empty,
                    )->0
        },
{
    let color = board._board_color[row as usize][col as usize];
    let row_increment: i32 = if color == false { -1 } else { 1 };
    let mut li: [(i32, i32); 4] = [(-1, -1), (-1, -1), (-1, -1), (-1, -1)];
    let new_row_1 = row + row_increment;
    let new_row_2 = row + 2 * row_increment;
    let has_moved: bool = board._board_hasmoved[row as usize][col as usize];

    if new_row_1 >= 0 && new_row_1 < 8 {
        if let Cell::Empty = board._board_types[new_row_1 as usize][col as usize] {
            li[0] = (new_row_1, col);
        }
        if new_row_2 >= 0 && new_row_2 < 8 && has_moved == false {
            if let Cell::Empty = board._board_types[new_row_2 as usize][col as usize] {
                li[1] = (new_row_2, col);
            }
        }
        if col - 1 >= 0 && col - 1 < 8 {
            if let Cell::Empty = board._board_types[new_row_1 as usize][(col - 1) as usize] {
            } else {
                li[2] = (new_row_1, col - 1);
            }
        }
        if col + 1 >= 0 && col + 1 < 8 {
            if let Cell::Empty = board._board_types[new_row_1 as usize][(col + 1) as usize] {
            } else {
                li[3] = (new_row_1, col + 1);
            }
        }
    }
    assert(li@ =~= pawn_targets(board@, row, col));
    let ghost v = board@;
    proof {
        lemma_static_moves_prefix(v, (row, col), li@, 0);
        if v.piece(row as int, col as int) == Cell::Pawn {
            lemma_pawn_static_moves(v, (row, col));
        }
    }
    let n = generate_moves_simple_static((row, col), &li, board, move_buffer);
    proof {
        let s = static_moves(v, (row, col), li@);
        assert forall|i: int| 0 <= i < n implies move_buffer@[i] == s[i] by {}
        if v.piece(row as int, col as int) == Cell::Pawn {
            assert forall|tr: int, tc: int| #[trigger] pawn_destination(v, row as int, col as int, tr, tc) implies exists|i: int|
                0 <= i < n && move_buffer@[i] == spec_create_move(v, (row, col), (tr as i32, tc as i32), Cell::Empty)->0 by {
                let m = spec_create_move(v, (row, col), (tr as i32, tc as i32), Cell::Empty)->0;
                let k = choose|k: int| 0 <= k < s.len() && s[k] == m;
                assert(move_buffer@[k] == s[k]);
            }
        }
    }
    return n;
}

} // verus!
