//! Knight threats and moves.

use vstd::prelude::*;
use super::{Board_state, Cell, Move, MAX_MOVES};
use super::rules::{
    color_index, knight_targets, offsets_fit, piece_attacks, threats_added, overwrite, static_moves, static_safe,
    lemma_static_moves_prefix,
};
use super::Util::{generate_threat_static, generate_moves_simple_static};

verus! {

/// Marks the squares a knight of `color` on `(row, col)` attacks.
pub fn generate_threat(row: i32, col: i32, board: &mut Board_state, color: bool)
    requires
        offsets_fit(row, col, 2),
    ensures
        threats_added(
            *old(board),
            *final(board),
            color_index(color),
            |r: int, c: int| piece_attacks(old(board)@.types, Cell::Knight, row as int, col as int, color, r, c),
        ),
{
    let li: [(i32, i32); 8] = [
        (row + 1, col - 2),
        (row + 2, col - 1),
        (row + 2, col + 1),
        (row + 1, col + 2),
        (row - 1, col + 2),
        (row - 2, col + 1),
        (row - 2, col - 1),
        (row - 1, col - 2),
    ];
    assert(li@ =~= knight_targets(row, col));
    generate_threat_static(&li, board, color);
}

/// Writes the moves of a knight on `(row, col)` into `move_buffer`, from its
/// start; returns their number.
pub fn generate_moves_simple(row: i32, col: i32, board: &mut Board_state, move_buffer: &mut [Move; MAX_MOVES]) -> (r: usize)
    requires
        offsets_fit(row, col, 2),
        static_safe((row, col), knight_targets(row, col)),
    ensures
        *final(board) == *old(board),
        r == static_moves(old(board)@, (row, col), knight_targets(row, col)).len(),
        final(move_buffer)@ == overwrite(old(move_buffer)@, static_moves(old(board)@, (row, col), knight_targets(row, col))),
{
    let li: [(i32, i32); 8] = [
        (row + 1, col - 2),
        (row + 2, col - 1),
        (row + 2, col + 1),
        (row + 1, col + 2),
        (row - 1, col + 2),
        (row - 2, col + 1),
        (row - 2, col - 1),
        (row - 1, col - 2),
    ];
    assert(li@ =~= knight_targets(row, col));
    proof {
        lemma_static_moves_prefix(board@, (row, col), li@, 0);
    }
    return generate_moves_simple_static((row, col), &li, board, move_buffer);
}

} // verus!
