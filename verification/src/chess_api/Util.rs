//! Building blocks shared by the pieces: marking threatened squares, filling
//! move buffers, and checking a move.

use vstd::prelude::*;
use super::{Board_state, Cell, Move, Move_type, MAX_MOVES};
use super::rules::{
    in_bounds, fits_i32, color_index, occupied, listed, ray_reaches, ray_attacks, ray_measure, threat_at,
    same_but_threats, threats_added, square_in_bounds, check_safe, spec_move_check, default_buffer, overwrite,
    static_moves, static_safe, ray_moves, ray_move, dir_moves, dir_safe, lemma_static_moves_prefix,
    lemma_ray_moves_len, list_safe, listed_moves,
};
use super::Move_util::{create_move, make_move, get_move_list};
use super::{scheck, same_move};

verus! {

/// Marks as threatened by `color` every on-board square of `li`.
pub fn generate_threat_static(li: &[(i32, i32)], board: &mut Board_state, color: bool)
    ensures
        threats_added(*old(board), *final(board), color_index(color), |r: int, c: int| listed(li@, r, c)),
{
    let ghost start = *board;
    let mut i: usize = 0;
    while i < li.len()
        invariant
            0 <= i <= li@.len(),
            start == *old(board),
            threats_added(start, *board, color_index(color), |r: int, c: int| listed(li@.take(i as int), r, c)),
        decreases li@.len() - i,
    {
        let (row, col) = li[i];
        let ghost before = *board;
        if !(row < 0 || row > 7 || col < 0 || col > 7) {
            board.threat_buff[color as usize][row as usize][col as usize] = true;
        }
        assert forall|kk: int, r: int, c: int| 0 <= kk < 2 && in_bounds(r, c) implies #[trigger] threat_at(
            *board,
            kk,
            r,
            c,
        ) == (threat_at(start, kk, r, c) || (kk == color_index(color) && listed(li@.take(i + 1), r, c))) by {
            assert(threat_at(before, kk, r, c) == (threat_at(start, kk, r, c) || (kk == color_index(color)
                && listed(li@.take(i as int), r, c))));
            if listed(li@.take(i + 1), r, c) {
                let j = choose|j: int| 0 <= j < li@.take(i + 1).len() && #[trigger] li@.take(i + 1)[j].0 == r
                    && li@.take(i + 1)[j].1 == c;
                if j < i {
                    assert(li@.take(i as int)[j] == li@.take(i + 1)[j]);
                }
            }
            if listed(li@.take(i as int), r, c) {
                let j = choose|j: int| 0 <= j < li@.take(i as int).len() && #[trigger] li@.take(i as int)[j].0
                    == r && li@.take(i as int)[j].1 == c;
                assert(li@.take(i + 1)[j] == li@.take(i as int)[j]);
            }
            if row == r && col == c {
                assert(li@.take(i + 1)[i as int] == li@[i as int]);
            }
        }
        i += 1;
    }
    assert(li@.take(li@.len() as int) =~= li@);
}

/// Marks as threatened by `color` the squares that a slider on `(row, col)`
/// reaches in direction `dir`: each square until it leaves the board, up to
/// and including the first occupied one.
pub fn generate_threat_dir(row: i32, col: i32, dir: (i32, i32), board: &mut Board_state, color: bool)
    requires
        fits_i32(row + dir.0),
        fits_i32(col + dir.1),
        !(dir.0 == 0 && dir.1 == 0 && in_bounds(row as int, col as int) && !occupied(old(board)@.types, row as int, col as int)),
        in_bounds(row + dir.0, col + dir.1) && !occupied(old(board)@.types, row + dir.0, col + dir.1)
            ==> fits_i32(row + 2 * dir.0) && fits_i32(col + 2 * dir.1),
    ensures
        threats_added(
            *old(board),
            *final(board),
            color_index(color),
            |r: int, c: int| ray_attacks(old(board)@.types, row as int, col as int, dir.0 as int, dir.1 as int, r, c),
        ),
{
    let ghost start = *board;
    let ghost types = board@.types;
    let ghost d0 = dir.0 as int;
    let ghost d1 = dir.1 as int;
    let ghost r0 = row + d0;
    let ghost c0 = col + d1;
    let ghost k = color_index(color);
    let mut row = row + dir.0;
    let mut col = col + dir.1;
    let ghost mut stepped = false;
    loop
        invariant
            start == *old(board),
            types == start@.types,
            same_but_threats(start, *board),
            d0 == dir.0,
            d1 == dir.1,
            k == color_index(color),
            !(d0 == 0 && d1 == 0 && in_bounds(r0, c0) && !occupied(types, r0, c0)),
            in_bounds(r0, c0) && !occupied(types, r0, c0) ==> fits_i32(r0 + d0) && fits_i32(c0 + d1),
            !stepped ==> row == r0 && col == c0,
            stepped ==> in_bounds(row - d0, col - d1) && !(d0 == 0 && d1 == 0),
            forall|kk: int, r: int, c: int|
                0 <= kk < 2 && in_bounds(r, c) ==> (#[trigger] threat_at(*board, kk, r, c) || (kk == k
                    && ray_reaches(types, row as int, col as int, d0, d1, r, c))) == (threat_at(start, kk, r, c)
                    || (kk == k && ray_reaches(types, r0, c0, d0, d1, r, c))),
        ensures
            same_but_threats(start, *board),
            forall|kk: int, r: int, c: int|
                0 <= kk < 2 && in_bounds(r, c) ==> #[trigger] threat_at(*board, kk, r, c) == (threat_at(
                    start,
                    kk,
                    r,
                    c,
                ) || (kk == k && ray_reaches(types, r0, c0, d0, d1, r, c))),
        decreases ray_measure(row as int, col as int, d0, d1),
    {
        if !(row >= 0 && row < 8 && col >= 0 && col < 8) {
            break;
        }
        let at = board._board_types[row as usize][col as usize];
        let ghost before = *board;
        board.threat_buff[color as usize][row as usize][col as usize] = true;
        assert(board@.types == types);
        if at != Cell::Empty {
            assert(occupied(types, row as int, col as int));
            assert forall|kk: int, r: int, c: int| 0 <= kk < 2 && in_bounds(r, c) implies {
                &&& #[trigger] threat_at(*board, kk, r, c) == (threat_at(start, kk, r, c) || (kk == k && ray_reaches(
                    types,
                    r0,
                    c0,
                    d0,
                    d1,
                    r,
                    c,
                )))
                &&& (threat_at(*board, kk, r, c) || (kk == k && ray_reaches(types, row as int, col as int, d0, d1, r, c)))
                    == (threat_at(start, kk, r, c) || (kk == k && ray_reaches(types, r0, c0, d0, d1, r, c)))
            } by {
                assert(ray_reaches(types, row as int, col as int, d0, d1, r, c) == (r == row && c == col));
                assert(threat_at(*board, kk, r, c) == (threat_at(before, kk, r, c) || (kk == k && r == row && c
                    == col)));
                assert(threat_at(before, kk, r, c) || (kk == k && ray_reaches(types, row as int, col as int, d0, d1, r, c))
                    == (threat_at(start, kk, r, c) || (kk == k && ray_reaches(types, r0, c0, d0, d1, r, c))));
            }
            break;
        }
        assert(!occupied(types, row as int, col as int));
        assert(!(d0 == 0 && d1 == 0));
        row = row + dir.0;
        col = col + dir.1;
        assert forall|kk: int, r: int, c: int| 0 <= kk < 2 && in_bounds(r, c) implies (#[trigger] threat_at(
            *board,
            kk,
            r,
            c,
        ) || (kk == k && ray_reaches(types, row as int, col as int, d0, d1, r, c))) == (threat_at(start, kk, r, c)
            || (kk == k && ray_reaches(types, r0, c0, d0, d1, r, c))) by {
            assert(ray_reaches(types, row - d0, col - d1, d0, d1, r, c) == ((r == row - d0 && c == col - d1)
                || ray_reaches(types, row as int, col as int, d0, d1, r, c)));
            assert(threat_at(*board, kk, r, c) == (threat_at(before, kk, r, c) || (kk == k && r == row - d0 && c
                == col - d1)));
            assert(threat_at(before, kk, r, c) || (kk == k && ray_reaches(types, row - d0, col - d1, d0, d1, r, c))
                == (threat_at(start, kk, r, c) || (kk == k && ray_reaches(types, r0, c0, d0, d1, r, c))));
        }
        proof {
            stepped = true;
        }
    }
}

/// Is `mv` one of the moves listed for the piece on `mv.from`? Moves are
/// compared as by `==`: the promotion piece only counts for promotions.
pub fn is_valid_move(board: &mut Board_state, mv: &Move) -> (r: bool)
    requires
        list_safe(old(board)@, mv.from),
    ensures
        *final(board) == *old(board),
        r == exists|i: int|
            0 <= i < listed_moves(old(board)@, mv.from).len() && same_move(
                #[trigger] listed_moves(old(board)@, mv.from)[i],
                *mv,
            ),
{
    let mut move_buffer = construct_move_buffer();
    let mv_cnt = get_move_list(board, mv.from, &mut move_buffer);
    let ghost listed = listed_moves(board@, mv.from);
    assert(move_buffer@.take(mv_cnt as int) =~= listed);
    let mut i: usize = 0;
    while i < mv_cnt
        invariant
            *board == *old(board),
            listed == listed_moves(old(board)@, mv.from),
            mv_cnt == listed.len(),
            mv_cnt <= MAX_MOVES,
            move_buffer@.take(mv_cnt as int) == listed,
            0 <= i <= mv_cnt,
            forall|j: int| 0 <= j < i ==> !same_move(#[trigger] listed[j], *mv),
        decreases mv_cnt - i,
    {
        let curr_mv = move_buffer[i];
        assert(curr_mv == listed[i as int]);
        if curr_mv == *mv {
            return true;
        }
        i += 1;
    }
    return false;
}

/// Is `mv` allowed? A king may not step onto a square the other colour
/// threatens, no move may land on a king, and after the move (played on a
/// copy) the mover's king must not stand on a threatened square.
pub fn move_check(board: &Board_state, mv: &Move) -> (r: bool)
    requires
        check_safe(board@, *mv),
    ensures
        r == spec_move_check(board@, *mv),
{
    if let Cell::King = board._board_types[mv.from.0 as usize][mv.from.1 as usize] {
        if board.threat_buff[(!mv.color) as usize][mv.to.0 as usize][mv.to.1 as usize] == true {
            return false;
        }
    }
    if let Cell::King = board._board_types[mv.to.0 as usize][mv.to.1 as usize] {
        return false;
    }
    let mut board_copy = *board;
    make_move(&mut board_copy, mv);
    return !scheck(&board_copy, mv.color);
}

/// A move buffer filled with the null move from `(0, 0)` to `(0, 0)`.
pub fn construct_move_buffer() -> (r: [Move; MAX_MOVES])
    ensures
        r@ == default_buffer(),
{
    let r = [
        Move { from: (0, 0), to: (0, 0), typ: Move_type::Move, color: false, promo_type: Cell::Empty };
        MAX_MOVES
    ];
    assert(r@ =~= default_buffer());
    return r;
}

/// Writes, from the start of `move_buffer`, the moves from `from` onto the
/// on-board squares of `li` that `create_move` accepts; returns their number.
pub fn generate_moves_simple_static(
    from: (i32, i32),
    li: &[(i32, i32)],
    board: &mut Board_state,
    move_buffer: &mut [Move; MAX_MOVES],
) -> (r: usize)
    requires
        static_safe(from, li@),
        static_moves(old(board)@, from, li@).len() <= MAX_MOVES,
    ensures
        *final(board) == *old(board),
        r == static_moves(old(board)@, from, li@).len(),
        final(move_buffer)@ == overwrite(old(move_buffer)@, static_moves(old(board)@, from, li@)),
{
    let ghost v = board@;
    let ghost buf0 = move_buffer@;
    let mut buffer_idx: usize = 0;
    let mut i: usize = 0;
    while i < li.len()
        invariant
            0 <= i <= li@.len(),
            *board == *old(board),
            v == board@,
            buf0 == old(move_buffer)@,
            static_safe(from, li@),
            static_moves(v, from, li@).len() <= MAX_MOVES,
            buffer_idx == static_moves(v, from, li@.take(i as int)).len(),
            move_buffer@ == overwrite(buf0, static_moves(v, from, li@.take(i as int))),
        decreases li@.len() - i,
    {
        let (row, col) = li[i];
        let ghost prev = static_moves(v, from, li@.take(i as int));
        assert(li@.take(i + 1).drop_last() =~= li@.take(i as int));
        assert(li@.take(i + 1).last() == li@[i as int]);
        proof {
            lemma_static_moves_prefix(v, from, li@, i + 1);
        }
        if !(row < 0 || row > 7 || col < 0 || col > 7) {
            assert(square_in_bounds(from));
            let res = create_move(from, (row, col), board, Cell::Empty);
            if let Option::Some(p) = res {
                move_buffer[buffer_idx] = p;
                buffer_idx += 1;
                assert(move_buffer@ =~= overwrite(buf0, prev.push(p)));
            }
        }
        i += 1;
    }
    assert(li@.take(li@.len() as int) =~= li@);
    return buffer_idx;
}

/// Writes, from the start of `move_buffer`, the moves of a slider on `from`
/// in direction `dir`: onto each empty square, then onto the first occupied
/// square if it holds the other colour. Returns their number.
pub fn generate_moves_simple_dir(
    from: (i32, i32),
    dir: (i32, i32),
    board: &mut Board_state,
    move_buffer: &mut [Move; MAX_MOVES],
) -> (r: usize)
    requires
        dir_safe(old(board)@, from, dir),
    ensures
        *final(board) == *old(board),
        r == dir_moves(old(board)@, from, dir).len(),
        final(move_buffer)@ == overwrite(old(move_buffer)@, dir_moves(old(board)@, from, dir)),
{
    let ghost v = board@;
    let ghost buf0 = move_buffer@;
    let ghost d0 = dir.0 as int;
    let ghost d1 = dir.1 as int;
    let ghost all = dir_moves(v, from, dir);
    let mut buffer_idx: usize = 0;
    let from_color = board._board_color[from.0 as usize][from.1 as usize];
    let mut to = (from.0 + dir.0, from.1 + dir.1);
    let mut break_flag: bool = false;
    let ghost mut done: Seq<Move> = Seq::empty();
    let ghost mut stepped = false;
    proof {
        lemma_ray_moves_len(v, from, to.0 as int, to.1 as int, d0, d1);
    }
    while to.0 >= 0 && to.0 < 8 && to.1 >= 0 && to.1 < 8 && !break_flag
        invariant
            *board == *old(board),
            v == board@,
            buf0 == old(move_buffer)@,
            d0 == dir.0,
            d1 == dir.1,
            all == dir_moves(v, from, dir),
            dir_safe(v, from, dir),
            from_color == v.color_at(from.0 as int, from.1 as int),
            done + (if break_flag { Seq::empty() } else { ray_moves(v, from, to.0 as int, to.1 as int, d0, d1) }) == all,
            all.len() <= 8,
            buffer_idx == done.len(),
            move_buffer@ == overwrite(buf0, done),
            !stepped ==> to.0 == from.0 + d0 && to.1 == from.1 + d1,
            stepped ==> in_bounds(to.0 - d0, to.1 - d1) && !(d0 == 0 && d1 == 0),
            d0 == 0 && d1 == 0 ==> !stepped,
        decreases ray_measure(to.0 as int, to.1 as int, d0, d1), if break_flag { 0int } else { 1int },
    {
        let at = board._board_types[to.0 as usize][to.1 as usize];
        let at_color = board._board_color[to.0 as usize][to.1 as usize];
        let ghost rest = ray_moves(v, from, to.0 as int, to.1 as int, d0, d1);
        if at != Cell::Empty {
            break_flag = true;
            if from_color == at_color {
                assert(rest =~= Seq::<Move>::empty());
                assert(done =~= all);
                continue;
            }
        }
        assert(rest.len() > 0);
        assert(all.len() > 0);
        assert(v.is_occupied(from.0 as int, from.1 as int));
        assert(!(d0 == 0 && d1 == 0) || (to.0 == from.0 && to.1 == from.1));
        let m = create_move(from, to, board, Cell::Empty).unwrap();
        assert(m == ray_move(v, from, to.0 as int, to.1 as int));
        assert(rest[0] == m);
        move_buffer[buffer_idx] = m;
        buffer_idx += 1;
        proof {
            assert(move_buffer@ =~= overwrite(buf0, done.push(m)));
            done = done.push(m);
        }
        if break_flag {
            assert(rest =~= seq![m]);
            assert(done =~= all);
        } else {
            assert(!(d0 == 0 && d1 == 0));
        }
        to.0 += dir.0;
        to.1 += dir.1;
        proof {
            if !break_flag {
                assert(rest =~= seq![m] + ray_moves(v, from, to.0 as int, to.1 as int, d0, d1));
                assert(done + ray_moves(v, from, to.0 as int, to.1 as int, d0, d1) =~= all);
            }
            stepped = true;
        }
    }
    if !break_flag {
        assert(ray_moves(v, from, to.0 as int, to.1 as int, d0, d1) =~= Seq::<Move>::empty());
    }
    assert(done =~= all);
    return buffer_idx;
}

} // verus!
