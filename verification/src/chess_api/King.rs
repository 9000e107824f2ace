//! King threats and moves.

use vstd::prelude::*;
use super::{Board_state, Cell, Move, MAX_MOVES};
use super::rules::{
    color_index, king_targets, offsets_fit, piece_attacks, threats_added, overwrite, static_moves, static_safe,
    lemma_static_moves_prefix,
};
use super::Util::{generate_threat_static, generate_moves_simple_static};

verus! {

/// Marks the squares a king of `color` on `(row, col)` attacks.
pub fn generate_threat(row: i32, col: i32, board: &mut Board_state, color: bool)
    requires
        offsets_fit(row, col, 1),
    ensures
        threats_added(
            *old(board),
            *final(board),
            color_index(color),
            |r: int, c: int| piece_attacks(old(board)@.types, Cell::King, row as int, col as int, color, r, c),
        ),
{
    let li: [(i32, i32); 8] = [
        (row + 1, col + 1),
        (row - 1, col + 1),
        (row + 1, col - 1),
        (row - 1, col - 1),
        (row - 1, col),
        (row, col - 1),
        (row + 1, col),
        (row, col + 1),
    ];
    assert(li@ =~= king_targets(row, col));
    generate_threat_static(&li, board, color);
}

/// Writes the moves of a king on `(row, col)` into `move_buffer`, from its
/// start; returns their number.
pub fn generate_moves_simple(row: i32, col: i32, board: &mut Board_state, move_buffer: &mut [Move; MAX_MOVES]) -> (r: usize)
    requires
        offsets_fit(row, col, 1),
        static_safe((row, col), king_targets(row, col)),
    ensures
        *final(board) == *old(board),
        r == static_moves(old(board)@, (row, col), king_targets(row, col)).len(),
        final(move_buffer)@ == overwrite(old(move_buffer)@, static_moves(old(board)@, (row, col), king_targets(row, col))),
{
    let li: [(i32, i32); 8] = [
        (row + 1, col + 1),
        (row - 1, col + 1),
        (row + 1, col - 1),
        (row - 1, col - 1),
        (row - 1, col),
        (row, col - 1),
        (row + 1, col),
        (row, col + 1),
    ];
    assert(li@ =~= king_targets(row, col));
    proof {
        lemma_static_moves_prefix(board@, (row, col), li@, 0);
    }
    return generate_moves_simple_static((row, col), &li, board, move_buffer);
}

} // verus!
