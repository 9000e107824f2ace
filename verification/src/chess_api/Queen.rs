//! Queen threats and moves.

use vstd::prelude::*;
use super::{Board_state, Cell, Move, MAX_MOVES};
use super::rules::{
    color_index, queen_dirs, in_bounds, offsets_fit, piece_attacks, rays_attack, threat_at,
    threats_added, slider_safe, slider_count, slider_buffer, lemma_ray_moves_len,
};
use super::Util::{generate_threat_dir, generate_moves_simple_dir};

verus! {

/// Marks the squares a queen of `color` on `(row, col)` attacks along lines and diagonals.
pub fn generate_threat(row: i32, col: i32, board: &mut Board_state, color: bool)
    requires
        offsets_fit(row, col, 1),
    ensures
        threats_added(
            *old(board),
            *final(board),
            color_index(color),
            |r: int, c: int| piece_attacks(old(board)@.types, Cell::Queen, row as int, col as int, color, r, c),
        ),
{
    let dir_li: [(i32, i32); 8] = [(1, 0), (-1, 0), (0, 1), (0, -1), (-1, -1), (-1, 1), (1, -1), (1, 1)];
    assert(dir_li@ =~= queen_dirs());
    let ghost start = *board;
    let ghost types = start@.types;
    let ghost k = color_index(color);
    let mut i: usize = 0;
    while i < 8
        invariant
            0 <= i <= 8,
            start == *old(board),
            types == start@.types,
            k == color_index(color),
            offsets_fit(row, col, 1),
            dir_li@ == queen_dirs(),
            threats_added(start, *board, k, |r: int, c: int| rays_attack(types, row as int, col as int, dir_li@.take(i as int), r, c)),
        decreases 8 - i,
    {
        let dir = dir_li[i];
        assert(-1 <= dir.0 <= 1 && -1 <= dir.1 <= 1 && !(dir.0 == 0 && dir.1 == 0));
        let ghost before = *board;
        generate_threat_dir(row, col, dir, board, color);
        assert(dir_li@.take(i + 1).drop_last() =~= dir_li@.take(i as int));
        assert forall|kk: int, r: int, c: int| 0 <= kk < 2 && in_bounds(r, c) implies #[trigger] threat_at(*board, kk, r, c)
            == (threat_at(start, kk, r, c) || (kk == k && rays_attack(types, row as int, col as int, dir_li@.take(i + 1), r, c))) by {
            assert(threat_at(before, kk, r, c) == (threat_at(start, kk, r, c) || (kk == k && rays_attack(types, row as int, col as int, dir_li@.take(i as int), r, c))));
        }
        i += 1;
    }
    assert(dir_li@.take(8) =~= dir_li@);
}

/// Writes the moves of a queen on `(row, col)` into `move_buffer`. Each
/// direction's moves are written from the start of the buffer, over those of
/// the previous directions; the count returned is the sum over the directions.
pub fn generate_moves_simple(row: i32, col: i32, board: &mut Board_state, move_buffer: &mut [Move; MAX_MOVES]) -> (r: usize)
    requires
        slider_safe(old(board)@, (row, col), queen_dirs()),
    ensures
        *final(board) == *old(board),
        r == slider_count(old(board)@, (row, col), queen_dirs()),
        final(move_buffer)@ == slider_buffer(old(board)@, (row, col), queen_dirs(), old(move_buffer)@),
{
    let dir_li: [(i32, i32); 8] = [(1, 0), (-1, 0), (0, 1), (0, -1), (-1, -1), (-1, 1), (1, -1), (1, 1)];
    assert(dir_li@ =~= queen_dirs());
    let ghost v = board@;
    let ghost buf0 = move_buffer@;
    let mut curr_cnt: usize = 0;
    let mut i: usize = 0;
    while i < 8
        invariant
            0 <= i <= 8,
            *board == *old(board),
            v == board@,
            buf0 == old(move_buffer)@,
            dir_li@ == queen_dirs(),
            slider_safe(v, (row, col), queen_dirs()),
            curr_cnt == slider_count(v, (row, col), dir_li@.take(i as int)),
            curr_cnt <= 8 * i,
            move_buffer@ == slider_buffer(v, (row, col), dir_li@.take(i as int), buf0),
        decreases 8 - i,
    {
        assert(dir_li@.take(i + 1).drop_last() =~= dir_li@.take(i as int));
        assert(dir_li@.take(i + 1).last() == dir_li@[i as int]);
        let dir = dir_li[i];
        proof {
            lemma_ray_moves_len(v, (row, col), row + dir.0, col + dir.1, dir.0 as int, dir.1 as int);
        }
        curr_cnt += generate_moves_simple_dir((row, col), dir, board, move_buffer);
        i += 1;
    }
    assert(dir_li@.take(8) =~= dir_li@);
    return curr_cnt;
}

} // verus!
