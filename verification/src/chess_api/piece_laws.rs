//! What each piece attacks and where it moves, stated by board geometry, and
//! what the move type, the legality check and the checkmate query decide.

use vstd::prelude::*;
use super::{Cell, Move, Move_type, WHITE, BLACK};
use super::rules::{
    BoardView, in_bounds, color_index, listed, knight_targets, king_targets, piece_attacks, static_moves,
    candidates, listed_moves, square_in_bounds, spec_create_move, spec_move_type, spec_move_check, played_view,
    lemma_static_moves_prefix, cell_of, owned_by, color_stuck_before, all_stuck_before, spec_scheck, attacked_by,
    occupied, ray_reaches, ray_attacks, rays_attack, diagonal_dirs, straight_dirs, queen_dirs, ray_moves, ray_move,
    dir_moves, slider_buffer, overwrite, default_move, default_buffer, generated, lemma_ray_moves_len, lemma_slider_counts,
};
use super::laws::{
    lemma_static_moves_created, lemma_static_moves_complete, lemma_checked_moves_from, lemma_checked_moves_complete,
};

verus! {

pub open spec fn abs(x: int) -> int {
    if x < 0 { -x } else { x }
}

/// `(a, b)` is a knight's jump: one coordinate changes by 1 and the other by 2.
pub open spec fn knight_jump(a: int, b: int) -> bool {
    (abs(a) == 1 && abs(b) == 2) || (abs(a) == 2 && abs(b) == 1)
}

/// `(a, b)` is a king's step: to a neighbouring square.
pub open spec fn king_step(a: int, b: int) -> bool {
    abs(a) <= 1 && abs(b) <= 1 && !(a == 0 && b == 0)
}

proof fn lemma_knight_targets(row: i32, col: i32, tr: int, tc: int)
    requires
        in_bounds(row as int, col as int),
    ensures
        listed(knight_targets(row, col), tr, tc) == (in_bounds(tr, tc) && knight_jump(tr - row, tc - col)),
{
    let li = knight_targets(row, col);
    if listed(li, tr, tc) {
        let i = choose|i: int| 0 <= i < li.len() && #[trigger] li[i].0 == tr && li[i].1 == tc;
        assert(0 <= i < 8);
    }
    if in_bounds(tr, tc) && knight_jump(tr - row, tc - col) {
        let i = if tr - row == 1 && tc - col == -2 {
            0int
        } else if tr - row == 2 && tc - col == -1 {
            1int
        } else if tr - row == 2 && tc - col == 1 {
            2int
        } else if tr - row == 1 && tc - col == 2 {
            3int
        } else if tr - row == -1 && tc - col == 2 {
            4int
        } else if tr - row == -2 && tc - col == 1 {
            5int
        } else if tr - row == -2 && tc - col == -1 {
            6int
        } else {
            7int
        };
        assert(li[i].0 == tr && li[i].1 == tc);
    }
}

proof fn lemma_king_targets(row: i32, col: i32, tr: int, tc: int)
    requires
        in_bounds(row as int, col as int),
    ensures
        listed(king_targets(row, col), tr, tc) == (in_bounds(tr, tc) && king_step(tr - row, tc - col)),
{
    let li = king_targets(row, col);
    if listed(li, tr, tc) {
        let i = choose|i: int| 0 <= i < li.len() && #[trigger] li[i].0 == tr && li[i].1 == tc;
        assert(0 <= i < 8);
    }
    if in_bounds(tr, tc) && king_step(tr - row, tc - col) {
        let i = if tr - row == 1 && tc - col == 1 {
            0int
        } else if tr - row == -1 && tc - col == 1 {
            1int
        } else if tr - row == 1 && tc - col == -1 {
            2int
        } else if tr - row == -1 && tc - col == -1 {
            3int
        } else if tr - row == -1 && tc - col == 0 {
            4int
        } else if tr - row == 0 && tc - col == -1 {
            5int
        } else if tr - row == 1 && tc - col == 0 {
            6int
        } else {
            7int
        };
        assert(li[i].0 == tr && li[i].1 == tc);
    }
}

/// A knight on `(r, c)` attacks exactly the on-board squares a knight's jump away.
pub proof fn law_knight_attacks(types: Seq<Seq<Cell>>, r: int, c: int, color: bool, tr: int, tc: int)
    requires
        in_bounds(r, c),
    ensures
        piece_attacks(types, Cell::Knight, r, c, color, tr, tc) == (in_bounds(tr, tc) && knight_jump(tr - r, tc - c)),
{
    lemma_knight_targets(r as i32, c as i32, tr, tc);
}

/// A king on `(r, c)` attacks exactly the on-board neighbouring squares.
pub proof fn law_king_attacks(types: Seq<Seq<Cell>>, r: int, c: int, color: bool, tr: int, tc: int)
    requires
        in_bounds(r, c),
    ensures
        piece_attacks(types, Cell::King, r, c, color, tr, tc) == (in_bounds(tr, tc) && king_step(tr - r, tc - c)),
{
    lemma_king_targets(r as i32, c as i32, tr, tc);
}

/// A pawn on `(r, c)` attacks exactly the two on-board squares diagonally in
/// front of it: one row up for white, one row down for black. In particular
/// it never attacks the square straight ahead.
pub proof fn law_pawn_attacks(types: Seq<Seq<Cell>>, r: int, c: int, color: bool, tr: int, tc: int)
    requires
        in_bounds(r, c),
    ensures
        piece_attacks(types, Cell::Pawn, r, c, color, tr, tc) == (in_bounds(tr, tc) && tr == r + (if color == WHITE {
            -1int
        } else {
            1int
        }) && (tc == c + 1 || tc == c - 1)),
        !piece_attacks(types, Cell::Pawn, r, c, color, tr, c),
{
    let li = super::rules::pawn_threat_targets(r as i32, c as i32, color);
    if listed(li, tr, tc) {
        let i = choose|i: int| 0 <= i < li.len() && #[trigger] li[i].0 == tr && li[i].1 == tc;
        assert(0 <= i < 2);
    }
    if in_bounds(tr, tc) && tr == r + (if color == WHITE { -1int } else { 1int }) && (tc == c + 1 || tc == c - 1) {
        let i = if tc == c + 1 { 0int } else { 1int };
        assert(li[i].0 == tr && li[i].1 == tc);
    }
    if listed(li, tr, c) {
        let i = choose|i: int| 0 <= i < li.len() && #[trigger] li[i].0 == tr && li[i].1 == c;
        assert(0 <= i < 2);
    }
}

pub open spec fn sgn(x: int) -> int {
    if x > 0 { 1 } else if x < 0 { -1 } else { 0 }
}

/// The coordinate `a` moved `j` steps in direction `d` (-1, 0 or 1).
pub open spec fn along(a: int, d: int, j: int) -> int {
    if d > 0 { a + j } else if d < 0 { a - j } else { a }
}

/// The squares `k, k + 1, ..., n - 1` steps from `(r, c)` in direction
/// `(d0, d1)` are empty.
pub open spec fn clear_from(types: Seq<Seq<Cell>>, r: int, c: int, d0: int, d1: int, k: int, n: int) -> bool {
    forall|j: int| k <= j < n ==> !#[trigger] occupied(types, along(r, d0, j), along(c, d1, j))
}

/// The number of king steps from `(r, c)` to `(tr, tc)`.
pub open spec fn distance(r: int, c: int, tr: int, tc: int) -> int {
    if abs(tr - r) >= abs(tc - c) { abs(tr - r) } else { abs(tc - c) }
}

/// Every square strictly between `(r, c)` and `(tr, tc)`, going straight or
/// diagonally from one to the other, is empty.
pub open spec fn between_clear(types: Seq<Seq<Cell>>, r: int, c: int, tr: int, tc: int) -> bool {
    clear_from(types, r, c, sgn(tr - r), sgn(tc - c), 1, distance(r, c, tr, tc))
}

/// `(tr, tc)` lies on the same row or the same column as `(r, c)`, and differs from it.
pub open spec fn straight_line(r: int, c: int, tr: int, tc: int) -> bool {
    (tr == r) != (tc == c)
}

/// `(tr, tc)` lies on a diagonal through `(r, c)`, and differs from it.
pub open spec fn diagonal_line(r: int, c: int, tr: int, tc: int) -> bool {
    abs(tr - r) == abs(tc - c) && tr != r
}

/// `(tr, tc)` lies `n` steps from `(r, c)` in direction `(d0, d1)`.
pub open spec fn steps_away(r: int, c: int, d0: int, d1: int, tr: int, tc: int, n: int) -> bool {
    tr == along(r, d0, n) && tc == along(c, d1, n)
}

pub open spec fn ray_length(r: int, c: int, d0: int, tr: int, tc: int) -> int {
    if d0 != 0 { abs(tr - r) } else { abs(tc - c) }
}

#[verifier::spinoff_prover]
#[verifier::rlimit(50)]
proof fn lemma_ray(types: Seq<Seq<Cell>>, r: int, c: int, d0: int, d1: int, k: int, tr: int, tc: int)
    requires
        in_bounds(r, c),
        -1 <= d0 <= 1,
        -1 <= d1 <= 1,
        !(d0 == 0 && d1 == 0),
        k >= 1,
    ensures
        ray_reaches(types, along(r, d0, k), along(c, d1, k), d0, d1, tr, tc) == ({
            let n = ray_length(r, c, d0, tr, tc);
            &&& in_bounds(tr, tc)
            &&& n >= k
            &&& steps_away(r, c, d0, d1, tr, tc, n)
            &&& clear_from(types, r, c, d0, d1, k, n)
        }),
    decreases 8 - k,
{
    let pr = along(r, d0, k);
    let pc = along(c, d1, k);
    let n = ray_length(r, c, d0, tr, tc);
    if !in_bounds(pr, pc) {
    } else if pr == tr && pc == tc {
    } else if occupied(types, pr, pc) {
        if n >= k && steps_away(r, c, d0, d1, tr, tc, n) {
            assert(n > k);
            assert(!clear_from(types, r, c, d0, d1, k, n)) by {
                assert(occupied(types, along(r, d0, k), along(c, d1, k)));
            }
        }
    } else {
        assert(pr + d0 == along(r, d0, k + 1) && pc + d1 == along(c, d1, k + 1));
        lemma_ray(types, r, c, d0, d1, k + 1, tr, tc);
        if n >= k && steps_away(r, c, d0, d1, tr, tc, n) {
            assert(n > k);
            if clear_from(types, r, c, d0, d1, k + 1, n) {
                assert forall|j: int| k <= j < n implies !#[trigger] occupied(types, along(r, d0, j), along(c, d1, j)) by {
                    if j == k {
                    } else {
                        assert(k + 1 <= j < n);
                    }
                }
            }
        }
    }
}

#[verifier::spinoff_prover]
#[verifier::rlimit(50)]
proof fn lemma_dir(types: Seq<Seq<Cell>>, r: int, c: int, d0: int, d1: int, tr: int, tc: int)
    requires
        in_bounds(r, c),
        -1 <= d0 <= 1,
        -1 <= d1 <= 1,
        !(d0 == 0 && d1 == 0),
    ensures
        ray_attacks(types, r, c, d0, d1, tr, tc) == (in_bounds(tr, tc) && d0 == sgn(tr - r) && d1 == sgn(tc - c) && (
        straight_line(r, c, tr, tc) || diagonal_line(r, c, tr, tc)) && between_clear(types, r, c, tr, tc)),
{
    lemma_ray(types, r, c, d0, d1, 1, tr, tc);
    assert(along(r, d0, 1) == r + d0 && along(c, d1, 1) == c + d1);
    let n = ray_length(r, c, d0, tr, tc);
    if in_bounds(tr, tc) && n >= 1 && steps_away(r, c, d0, d1, tr, tc, n) {
        assert(d0 == sgn(tr - r) && d1 == sgn(tc - c));
        assert(n == distance(r, c, tr, tc));
    }
    if in_bounds(tr, tc) && d0 == sgn(tr - r) && d1 == sgn(tc - c) && (straight_line(r, c, tr, tc) || diagonal_line(
        r,
        c,
        tr,
        tc,
    )) {
        assert(n == distance(r, c, tr, tc));
        assert(n >= 1 && steps_away(r, c, d0, d1, tr, tc, n));
    }
}

/// A rook on `(r, c)` attacks exactly the on-board squares of its row and
/// column that no piece stands in front of; the first occupied square of each
/// line is attacked.
#[verifier::spinoff_prover]
#[verifier::rlimit(50)]
pub proof fn law_rook_attacks(types: Seq<Seq<Cell>>, r: int, c: int, color: bool, tr: int, tc: int)
    requires
        in_bounds(r, c),
    ensures
        piece_attacks(types, Cell::Rook, r, c, color, tr, tc) == (in_bounds(tr, tc) && straight_line(r, c, tr, tc)
            && between_clear(types, r, c, tr, tc)),
{
    reveal_with_fuel(rays_attack, 5);
    let d = straight_dirs();
    assert(d.drop_last().drop_last().drop_last().drop_last() =~= Seq::<(i32, i32)>::empty());
    lemma_dir(types, r, c, 1, 0, tr, tc);
    lemma_dir(types, r, c, -1, 0, tr, tc);
    lemma_dir(types, r, c, 0, 1, tr, tc);
    lemma_dir(types, r, c, 0, -1, tr, tc);
}

/// A bishop on `(r, c)` attacks exactly the on-board squares of its diagonals
/// that no piece stands in front of; the first occupied square of each
/// diagonal is attacked.
#[verifier::spinoff_prover]
#[verifier::rlimit(50)]
pub proof fn law_bishop_attacks(types: Seq<Seq<Cell>>, r: int, c: int, color: bool, tr: int, tc: int)
    requires
        in_bounds(r, c),
    ensures
        piece_attacks(types, Cell::Bishop, r, c, color, tr, tc) == (in_bounds(tr, tc) && diagonal_line(r, c, tr, tc)
            && between_clear(types, r, c, tr, tc)),
{
    reveal_with_fuel(rays_attack, 5);
    let d = diagonal_dirs();
    assert(d.drop_last().drop_last().drop_last().drop_last() =~= Seq::<(i32, i32)>::empty());
    lemma_dir(types, r, c, -1, -1, tr, tc);
    lemma_dir(types, r, c, -1, 1, tr, tc);
    lemma_dir(types, r, c, 1, -1, tr, tc);
    lemma_dir(types, r, c, 1, 1, tr, tc);
}

/// A queen on `(r, c)` attacks exactly what a rook and a bishop on `(r, c)` attack.
#[verifier::spinoff_prover]
#[verifier::rlimit(50)]
pub proof fn law_queen_attacks(types: Seq<Seq<Cell>>, r: int, c: int, color: bool, tr: int, tc: int)
    requires
        in_bounds(r, c),
    ensures
        piece_attacks(types, Cell::Queen, r, c, color, tr, tc) == (in_bounds(tr, tc) && (straight_line(r, c, tr, tc)
            || diagonal_line(r, c, tr, tc)) && between_clear(types, r, c, tr, tc)),
{
    reveal_with_fuel(rays_attack, 9);
    let d = queen_dirs();
    assert(d.drop_last().drop_last().drop_last().drop_last().drop_last().drop_last().drop_last().drop_last()
        =~= Seq::<(i32, i32)>::empty());
    lemma_dir(types, r, c, 1, 0, tr, tc);
    lemma_dir(types, r, c, -1, 0, tr, tc);
    lemma_dir(types, r, c, 0, 1, tr, tc);
    lemma_dir(types, r, c, 0, -1, tr, tc);
    lemma_dir(types, r, c, -1, -1, tr, tc);
    lemma_dir(types, r, c, -1, 1, tr, tc);
    lemma_dir(types, r, c, 1, -1, tr, tc);
    lemma_dir(types, r, c, 1, 1, tr, tc);
}

/// A move from `from` onto `to` can be made: `from` holds a piece and `to` is
/// empty or holds a piece of the other colour.
pub open spec fn movable(v: BoardView, from: (i32, i32), to: (i32, i32)) -> bool {
    &&& v.types[from.0 as int][from.1 as int] != Cell::Empty
    &&& (v.types[to.0 as int][to.1 as int] == Cell::Empty
        || v.colors[to.0 as int][to.1 as int] != v.colors[from.0 as int][from.1 as int])
}

proof fn lemma_static_piece_moves(v: BoardView, cell: (i32, i32), li: Seq<(i32, i32)>)
    requires
        square_in_bounds(cell),
        li.len() <= 32,
        candidates(v, cell) == static_moves(v, cell, li),
    ensures
        forall|i: int|
            0 <= i < listed_moves(v, cell).len() ==> {
                let m = #[trigger] listed_moves(v, cell)[i];
                &&& m.from == cell
                &&& spec_create_move(v, cell, m.to, Cell::Empty) == Some(m)
                &&& listed(li, m.to.0 as int, m.to.1 as int)
            },
        forall|tr: int, tc: int|
            #[trigger] listed(li, tr, tc) && spec_create_move(v, cell, (tr as i32, tc as i32), Cell::Empty) is Some
                && spec_move_check(v, spec_create_move(v, cell, (tr as i32, tc as i32), Cell::Empty)->0)
                ==> listed_moves(v, cell).contains(spec_create_move(v, cell, (tr as i32, tc as i32), Cell::Empty)->0),
{
    let s = static_moves(v, cell, li);
    lemma_static_moves_created(v, cell, li);
    lemma_checked_moves_from(v, s);
    assert forall|i: int| 0 <= i < listed_moves(v, cell).len() implies {
        let m = #[trigger] listed_moves(v, cell)[i];
        &&& m.from == cell
        &&& spec_create_move(v, cell, m.to, Cell::Empty) == Some(m)
        &&& listed(li, m.to.0 as int, m.to.1 as int)
    } by {
        let m = listed_moves(v, cell)[i];
        let j = choose|j: int| 0 <= j < s.len() && s[j] == m;
        let k = choose|k: int| 0 <= k < li.len() && li[k] == m.to;
        assert(li[k].0 == m.to.0 as int && li[k].1 == m.to.1 as int);
    }
    assert forall|tr: int, tc: int|
        #[trigger] listed(li, tr, tc) && spec_create_move(v, cell, (tr as i32, tc as i32), Cell::Empty) is Some
            && spec_move_check(v, spec_create_move(v, cell, (tr as i32, tc as i32), Cell::Empty)->0)
            implies listed_moves(v, cell).contains(spec_create_move(v, cell, (tr as i32, tc as i32), Cell::Empty)->0) by {
        let j = choose|j: int| 0 <= j < li.len() && #[trigger] li[j].0 == tr && li[j].1 == tc;
        assert(li[j] == (tr as i32, tc as i32));
        lemma_static_moves_complete(v, cell, li, j);
        let m = spec_create_move(v, cell, (tr as i32, tc as i32), Cell::Empty)->0;
        let k = choose|k: int| 0 <= k < s.len() && s[k] == m;
        lemma_checked_moves_complete(v, s, k);
    }
}

/// A knight lists only moves from its square onto squares a knight's jump
/// away, and it lists the move onto every such square that is empty or holds
/// the other colour whenever that move passes `move_check`.
pub proof fn law_knight_moves(v: BoardView, cell: (i32, i32))
    requires
        square_in_bounds(cell),
        v.types[cell.0 as int][cell.1 as int] == Cell::Knight,
    ensures
        forall|i: int|
            0 <= i < listed_moves(v, cell).len() ==> {
                let m = #[trigger] listed_moves(v, cell)[i];
                &&& m.from == cell
                &&& in_bounds(m.to.0 as int, m.to.1 as int)
                &&& knight_jump(m.to.0 - cell.0, m.to.1 - cell.1)
                &&& movable(v, cell, m.to)
            },
        forall|tr: int, tc: int|
            in_bounds(tr, tc) && #[trigger] knight_jump(tr - cell.0, tc - cell.1) && movable(v, cell, (tr as i32, tc as i32))
                && spec_move_check(v, spec_create_move(v, cell, (tr as i32, tc as i32), Cell::Empty)->0)
                ==> listed_moves(v, cell).contains(spec_create_move(v, cell, (tr as i32, tc as i32), Cell::Empty)->0),
{
    let li = knight_targets(cell.0, cell.1);
    lemma_static_moves_prefix(v, cell, li, 0);
    assert(candidates(v, cell) =~= static_moves(v, cell, li));
    lemma_static_piece_moves(v, cell, li);
    assert forall|i: int| 0 <= i < listed_moves(v, cell).len() implies {
        let m = #[trigger] listed_moves(v, cell)[i];
        &&& m.from == cell
        &&& in_bounds(m.to.0 as int, m.to.1 as int)
        &&& knight_jump(m.to.0 - cell.0, m.to.1 - cell.1)
        &&& movable(v, cell, m.to)
    } by {
        let m = listed_moves(v, cell)[i];
        lemma_knight_targets(cell.0, cell.1, m.to.0 as int, m.to.1 as int);
    }
    assert forall|tr: int, tc: int|
        in_bounds(tr, tc) && #[trigger] knight_jump(tr - cell.0, tc - cell.1) && movable(v, cell, (tr as i32, tc as i32))
            && spec_move_check(v, spec_create_move(v, cell, (tr as i32, tc as i32), Cell::Empty)->0)
            implies listed_moves(v, cell).contains(spec_create_move(v, cell, (tr as i32, tc as i32), Cell::Empty)->0) by {
        lemma_knight_targets(cell.0, cell.1, tr, tc);
    }
}

/// A king lists only moves from its square onto neighbouring squares, and it
/// lists the move onto every neighbouring square that is empty or holds the
/// other colour whenever that move passes `move_check`.
pub proof fn law_king_moves(v: BoardView, cell: (i32, i32))
    requires
        square_in_bounds(cell),
        v.types[cell.0 as int][cell.1 as int] == Cell::King,
    ensures
        forall|i: int|
            0 <= i < listed_moves(v, cell).len() ==> {
                let m = #[trigger] listed_moves(v, cell)[i];
                &&& m.from == cell
                &&& in_bounds(m.to.0 as int, m.to.1 as int)
                &&& king_step(m.to.0 - cell.0, m.to.1 - cell.1)
                &&& movable(v, cell, m.to)
            },
        forall|tr: int, tc: int|
            in_bounds(tr, tc) && #[trigger] king_step(tr - cell.0, tc - cell.1) && movable(v, cell, (tr as i32, tc as i32))
                && spec_move_check(v, spec_create_move(v, cell, (tr as i32, tc as i32), Cell::Empty)->0)
                ==> listed_moves(v, cell).contains(spec_create_move(v, cell, (tr as i32, tc as i32), Cell::Empty)->0),
{
    let li = king_targets(cell.0, cell.1);
    lemma_static_moves_prefix(v, cell, li, 0);
    assert(candidates(v, cell) =~= static_moves(v, cell, li));
    lemma_static_piece_moves(v, cell, li);
    assert forall|i: int| 0 <= i < listed_moves(v, cell).len() implies {
        let m = #[trigger] listed_moves(v, cell)[i];
        &&& m.from == cell
        &&& in_bounds(m.to.0 as int, m.to.1 as int)
        &&& king_step(m.to.0 - cell.0, m.to.1 - cell.1)
        &&& movable(v, cell, m.to)
    } by {
        let m = listed_moves(v, cell)[i];
        lemma_king_targets(cell.0, cell.1, m.to.0 as int, m.to.1 as int);
    }
    assert forall|tr: int, tc: int|
        in_bounds(tr, tc) && #[trigger] king_step(tr - cell.0, tc - cell.1) && movable(v, cell, (tr as i32, tc as i32))
            && spec_move_check(v, spec_create_move(v, cell, (tr as i32, tc as i32), Cell::Empty)->0)
            implies listed_moves(v, cell).contains(spec_create_move(v, cell, (tr as i32, tc as i32), Cell::Empty)->0) by {
        lemma_king_targets(cell.0, cell.1, tr, tc);
    }
}

/// The pawn of `color` on `from` lands on its last row at `to`: row 0 for
/// white, row 7 for black.
pub open spec fn reaches_last_row(v: BoardView, from: (i32, i32), to: (i32, i32)) -> bool {
    &&& v.types[from.0 as int][from.1 as int] == Cell::Pawn
    &&& ((v.colors[from.0 as int][from.1 as int] == WHITE && to.0 == 0) || (v.colors[from.0 as int][from.1 as int]
        == BLACK && to.0 == 7))
}

/// The kind of a move: there is none when the origin is empty or the target
/// holds the mover's colour; otherwise it is a promotion exactly when a pawn
/// lands on its last row, else a plain move onto an empty square or a capture
/// onto the other colour. Castling and en passant are never produced.
pub proof fn law_move_type(v: BoardView, from: (i32, i32), to: (i32, i32))
    ensures
        spec_move_type(v, from, to) is None <==> !movable(v, from, to),
        spec_move_type(v, from, to) == Some(Move_type::Promotion) <==> movable(v, from, to) && reaches_last_row(
            v,
            from,
            to,
        ),
        spec_move_type(v, from, to) == Some(Move_type::Move) <==> movable(v, from, to) && !reaches_last_row(v, from, to)
            && v.types[to.0 as int][to.1 as int] == Cell::Empty,
        spec_move_type(v, from, to) == Some(Move_type::Capture) <==> movable(v, from, to) && !reaches_last_row(
            v,
            from,
            to,
        ) && v.types[to.0 as int][to.1 as int] != Cell::Empty,
        spec_move_type(v, from, to) != Some(Move_type::Castling),
        spec_move_type(v, from, to) != Some(Move_type::Peassant),
{
}

/// A move passes `move_check` exactly when it does not land on a king, it is
/// not a king stepping onto a square the other colour threatens, and once
/// played the mover's king stands on a square the other colour does not
/// threaten.
pub proof fn law_move_check(v: BoardView, mv: Move)
    ensures
        spec_move_check(v, mv) == ({
            let opp: int = if mv.color { 0 } else { 1 };
            let own: int = if mv.color { 1 } else { 0 };
            let p = played_view(v, mv);
            let kp = p.king_pos[own];
            &&& v.types[mv.to.0 as int][mv.to.1 as int] != Cell::King
            &&& !(v.types[mv.from.0 as int][mv.from.1 as int] == Cell::King && v.threat[opp][mv.to.0 as int][mv.to.1 as int])
            &&& !p.threat[opp][kp.0 as int][kp.1 as int]
        }),
{
}

/// Playing a move: the target square takes the moving piece (or, for a
/// promotion, the promotion piece) with the mover's colour and is marked as
/// moved; the origin becomes an empty, white, unmoved square; every other
/// square keeps its content; a moving king's recorded position follows it;
/// the turn passes; and the threat buffers hold exactly the attacks of the new
/// position.
pub proof fn law_played_board(v: BoardView, mv: Move, r: int, c: int)
    requires
        v.well_shaped(),
        square_in_bounds(mv.from),
        square_in_bounds(mv.to),
        in_bounds(r, c),
    ensures
        ({
            let p = played_view(v, mv);
            let (fr, fc) = (mv.from.0 as int, mv.from.1 as int);
            let (tr, tc) = (mv.to.0 as int, mv.to.1 as int);
            let at_from = r == fr && c == fc;
            let at_to = r == tr && c == tc;
            let own: int = if mv.color { 1 } else { 0 };
            let opp: int = if mv.color { 0 } else { 1 };
            &&& p.types[r][c] == if at_to && mv.typ == Move_type::Promotion {
                mv.promo_type
            } else if at_from {
                Cell::Empty
            } else if at_to {
                v.types[fr][fc]
            } else {
                v.types[r][c]
            }
            &&& p.colors[r][c] == if at_from {
                WHITE
            } else if at_to {
                v.colors[fr][fc]
            } else {
                v.colors[r][c]
            }
            &&& p.moved[r][c] == if at_from {
                false
            } else if at_to {
                true
            } else {
                v.moved[r][c]
            }
            &&& p.king_pos[own] == if v.types[fr][fc] == Cell::King {
                (mv.to.0 as usize, mv.to.1 as usize)
            } else {
                v.king_pos[own]
            }
            &&& p.king_pos[opp] == v.king_pos[opp]
            &&& p.turn == !v.turn
            &&& p.castling == v.castling
            &&& forall|k: int| 0 <= k < 2 ==> #[trigger] p.threat[k][r][c] == attacked_by(p.types, p.colors, k, r, c)
        }),
{
}

/// When the threat buffers hold the attacks of the position, a colour is in
/// check exactly when some piece of the other colour attacks the square of its
/// king.
pub proof fn law_check_is_attack_on_king(v: BoardView, color: bool)
    requires
        forall|k: int, r: int, c: int|
            0 <= k < 2 && in_bounds(r, c) ==> #[trigger] v.threat[k][r][c] == attacked_by(v.types, v.colors, k, r, c),
        v.king_pos.len() == 2,
        v.king_pos[if color { 1int } else { 0int }].0 < 8,
        v.king_pos[if color { 1int } else { 0int }].1 < 8,
    ensures
        ({
            let kp = v.king_pos[if color { 1int } else { 0int }];
            spec_scheck(v, color) == attacked_by(v.types, v.colors, if color { 0int } else { 1int }, kp.0 as int, kp.1 as int)
        }),
{
}

proof fn lemma_cell_index(r: int, c: int)
    requires
        in_bounds(r, c),
    ensures
        cell_of(r * 8 + c) == (r as i32, c as i32),
        0 <= r * 8 + c < 64,
{
    assert((r * 8 + c) / 8 == r && (r * 8 + c) % 8 == c) by (nonlinear_arith)
        requires
            0 <= r < 8,
            0 <= c < 8,
    ;
}

proof fn lemma_index_cell(m: int)
    requires
        0 <= m < 64,
    ensures
        in_bounds(cell_of(m).0 as int, cell_of(m).1 as int),
        cell_of(m).0 as int == m / 8,
        cell_of(m).1 as int == m % 8,
{
}

/// No piece of `color` has a listed move, as far as the checkmate query looks,
/// exactly when every piece of `color` on the board, its king included, has an
/// empty list of moves.
pub proof fn law_checkmate_covers_every_piece(v: BoardView, color: bool)
    ensures
        color_stuck_before(v, color, 64) == (forall|r: int, c: int|
            in_bounds(r, c) && v.types[r][c] != Cell::Empty && v.colors[r][c] == color ==> #[trigger] listed_moves(
                v,
                (r as i32, c as i32),
            ).len() == 0),
{
    if color_stuck_before(v, color, 64) {
        assert forall|r: int, c: int|
            in_bounds(r, c) && v.types[r][c] != Cell::Empty && v.colors[r][c] == color implies #[trigger] listed_moves(
                v,
                (r as i32, c as i32),
            ).len() == 0 by {
            lemma_cell_index(r, c);
            assert(owned_by(v, cell_of(r * 8 + c), color));
        }
    }
    if forall|r: int, c: int|
        in_bounds(r, c) && v.types[r][c] != Cell::Empty && v.colors[r][c] == color ==> #[trigger] listed_moves(
            v,
            (r as i32, c as i32),
        ).len() == 0 {
        assert forall|m: int| 0 <= m < 64 && #[trigger] owned_by(v, cell_of(m), color) implies listed_moves(
            v,
            cell_of(m),
        ).len() == 0 by {
            lemma_index_cell(m);
            let r = cell_of(m).0 as int;
            let c = cell_of(m).1 as int;
            assert((r as i32, c as i32) == cell_of(m));
            assert(listed_moves(v, (r as i32, c as i32)).len() == 0);
        }
    }
}

/// No piece has a listed move, as far as the stalemate query looks, exactly
/// when every piece on the board has an empty list of moves.
pub proof fn law_stalemate_covers_every_piece(v: BoardView)
    ensures
        all_stuck_before(v, 64) == (forall|r: int, c: int|
            in_bounds(r, c) && v.types[r][c] != Cell::Empty ==> #[trigger] listed_moves(v, (r as i32, c as i32)).len()
                == 0),
{
    if all_stuck_before(v, 64) {
        assert forall|r: int, c: int| in_bounds(r, c) && v.types[r][c] != Cell::Empty implies #[trigger] listed_moves(
            v,
            (r as i32, c as i32),
        ).len() == 0 by {
            lemma_cell_index(r, c);
            assert(v.is_occupied(cell_of(r * 8 + c).0 as int, cell_of(r * 8 + c).1 as int));
        }
    }
    if forall|r: int, c: int|
        in_bounds(r, c) && v.types[r][c] != Cell::Empty ==> #[trigger] listed_moves(v, (r as i32, c as i32)).len() == 0 {
        assert forall|m: int|
            0 <= m < 64 && #[trigger] v.is_occupied(cell_of(m).0 as int, cell_of(m).1 as int) implies listed_moves(
            v,
            cell_of(m),
        ).len() == 0 by {
            lemma_index_cell(m);
            let r = cell_of(m).0 as int;
            let c = cell_of(m).1 as int;
            assert((r as i32, c as i32) == cell_of(m));
            assert(listed_moves(v, (r as i32, c as i32)).len() == 0);
        }
    }
}

proof fn lemma_ray_moves_reach(v: BoardView, from: (i32, i32), pr: int, pc: int, d0: int, d1: int)
    requires
        square_in_bounds(from),
        v.types[from.0 as int][from.1 as int] != Cell::Empty,
        !(d0 == 0 && d1 == 0),
    ensures
        forall|i: int|
            0 <= i < ray_moves(v, from, pr, pc, d0, d1).len() ==> {
                let m = #[trigger] ray_moves(v, from, pr, pc, d0, d1)[i];
                &&& m.from == from
                &&& spec_create_move(v, from, m.to, Cell::Empty) == Some(m)
                &&& movable(v, from, m.to)
                &&& ray_reaches(v.types, pr, pc, d0, d1, m.to.0 as int, m.to.1 as int)
            },
        forall|tr: int, tc: int|
            #[trigger] ray_reaches(v.types, pr, pc, d0, d1, tr, tc) && movable(v, from, (tr as i32, tc as i32))
                ==> ray_moves(v, from, pr, pc, d0, d1).contains(
                spec_create_move(v, from, (tr as i32, tc as i32), Cell::Empty)->0,
            ),
    decreases super::rules::ray_measure(pr, pc, d0, d1),
{
    let rm = ray_moves(v, from, pr, pc, d0, d1);
    if !in_bounds(pr, pc) {
    } else if v.is_occupied(pr, pc) && v.color_at(pr, pc) == v.color_at(from.0 as int, from.1 as int) {
        assert forall|tr: int, tc: int|
            #[trigger] ray_reaches(v.types, pr, pc, d0, d1, tr, tc) implies !movable(v, from, (tr as i32, tc as i32)) by {
            assert(tr == pr && tc == pc);
        }
    } else if v.is_occupied(pr, pc) {
        assert(rm[0] == ray_move(v, from, pr, pc));
        assert forall|tr: int, tc: int|
            #[trigger] ray_reaches(v.types, pr, pc, d0, d1, tr, tc) && movable(v, from, (tr as i32, tc as i32))
                implies rm.contains(spec_create_move(v, from, (tr as i32, tc as i32), Cell::Empty)->0) by {
            assert(tr == pr && tc == pc);
            assert(rm[0] == spec_create_move(v, from, (tr as i32, tc as i32), Cell::Empty)->0);
        }
    } else {
        lemma_ray_moves_reach(v, from, pr + d0, pc + d1, d0, d1);
        let rest = ray_moves(v, from, pr + d0, pc + d1, d0, d1);
        assert(rm == seq![ray_move(v, from, pr, pc)] + rest);
        assert forall|i: int| 0 <= i < rm.len() implies {
            let m = #[trigger] rm[i];
            &&& m.from == from
            &&& spec_create_move(v, from, m.to, Cell::Empty) == Some(m)
            &&& movable(v, from, m.to)
            &&& ray_reaches(v.types, pr, pc, d0, d1, m.to.0 as int, m.to.1 as int)
        } by {
            if i > 0 {
                assert(rm[i] == rest[i - 1]);
            }
        }
        assert forall|tr: int, tc: int|
            #[trigger] ray_reaches(v.types, pr, pc, d0, d1, tr, tc) && movable(v, from, (tr as i32, tc as i32))
                implies rm.contains(spec_create_move(v, from, (tr as i32, tc as i32), Cell::Empty)->0) by {
            let m = spec_create_move(v, from, (tr as i32, tc as i32), Cell::Empty)->0;
            if tr == pr && tc == pc {
                assert(rm[0] == m);
            } else {
                assert(ray_reaches(v.types, pr + d0, pc + d1, d0, d1, tr, tc));
                let j = choose|j: int| 0 <= j < rest.len() && rest[j] == m;
                assert(rm[j + 1] == m);
            }
        }
    }
}

/// The moves a slider on `from` makes in one direction `dir` start on `from`,
/// are built by `create_move`, and land on the squares in that direction that
/// no piece stands in front of and that are empty or hold the other colour;
/// and the move onto each such square is among them.
pub proof fn law_slider_direction_moves(v: BoardView, from: (i32, i32), dir: (i32, i32))
    requires
        square_in_bounds(from),
        v.types[from.0 as int][from.1 as int] != Cell::Empty,
        -1 <= dir.0 <= 1,
        -1 <= dir.1 <= 1,
        !(dir.0 == 0 && dir.1 == 0),
    ensures
        forall|i: int|
            0 <= i < dir_moves(v, from, dir).len() ==> {
                let m = #[trigger] dir_moves(v, from, dir)[i];
                let (r, c, tr, tc) = (from.0 as int, from.1 as int, m.to.0 as int, m.to.1 as int);
                &&& m.from == from
                &&& spec_create_move(v, from, m.to, Cell::Empty) == Some(m)
                &&& movable(v, from, m.to)
                &&& in_bounds(tr, tc)
                &&& dir.0 == sgn(tr - r) && dir.1 == sgn(tc - c)
                &&& (straight_line(r, c, tr, tc) || diagonal_line(r, c, tr, tc))
                &&& between_clear(v.types, r, c, tr, tc)
            },
        forall|tr: int, tc: int|
            in_bounds(tr, tc) && dir.0 == sgn(tr - from.0) && dir.1 == sgn(tc - from.1) && (straight_line(
                from.0 as int,
                from.1 as int,
                tr,
                tc,
            ) || diagonal_line(from.0 as int, from.1 as int, tr, tc)) && #[trigger] between_clear(
                v.types,
                from.0 as int,
                from.1 as int,
                tr,
                tc,
            ) && movable(v, from, (tr as i32, tc as i32)) ==> dir_moves(v, from, dir).contains(
                spec_create_move(v, from, (tr as i32, tc as i32), Cell::Empty)->0,
            ),
{
    let (r, c) = (from.0 as int, from.1 as int);
    let (d0, d1) = (dir.0 as int, dir.1 as int);
    lemma_ray_moves_reach(v, from, r + d0, c + d1, d0, d1);
    let dm = dir_moves(v, from, dir);
    assert forall|i: int| 0 <= i < dm.len() implies {
        let m = #[trigger] dm[i];
        let (r, c, tr, tc) = (from.0 as int, from.1 as int, m.to.0 as int, m.to.1 as int);
        &&& m.from == from
        &&& spec_create_move(v, from, m.to, Cell::Empty) == Some(m)
        &&& movable(v, from, m.to)
        &&& in_bounds(tr, tc)
        &&& dir.0 == sgn(tr - r) && dir.1 == sgn(tc - c)
        &&& (straight_line(r, c, tr, tc) || diagonal_line(r, c, tr, tc))
        &&& between_clear(v.types, r, c, tr, tc)
    } by {
        let m = dm[i];
        lemma_dir(v.types, r, c, d0, d1, m.to.0 as int, m.to.1 as int);
    }
    assert forall|tr: int, tc: int|
        in_bounds(tr, tc) && dir.0 == sgn(tr - from.0) && dir.1 == sgn(tc - from.1) && (straight_line(r, c, tr, tc)
            || diagonal_line(r, c, tr, tc)) && #[trigger] between_clear(v.types, r, c, tr, tc) && movable(
            v,
            from,
            (tr as i32, tc as i32),
        ) implies dm.contains(spec_create_move(v, from, (tr as i32, tc as i32), Cell::Empty)->0) by {
        lemma_dir(v.types, r, c, d0, d1, tr, tc);
    }
}

proof fn lemma_slider_buffer_entries(v: BoardView, from: (i32, i32), dirs: Seq<(i32, i32)>, buf: Seq<Move>)
    requires
        buf.len() >= 8,
    ensures
        slider_buffer(v, from, dirs, buf).len() == buf.len(),
        forall|i: int|
            0 <= i < buf.len() ==> {
                let x = #[trigger] slider_buffer(v, from, dirs, buf)[i];
                x == buf[i] || exists|j: int| 0 <= j < dirs.len() && dir_moves(v, from, dirs[j]).contains(x)
            },
    decreases dirs.len(),
{
    if dirs.len() > 0 {
        let prev = slider_buffer(v, from, dirs.drop_last(), buf);
        let d = dirs.last();
        lemma_slider_buffer_entries(v, from, dirs.drop_last(), buf);
        super::rules::lemma_ray_moves_len(v, from, from.0 + d.0, from.1 + d.1, d.0 as int, d.1 as int);
        let s = dir_moves(v, from, d);
        assert forall|i: int| 0 <= i < buf.len() implies {
            let x = #[trigger] slider_buffer(v, from, dirs, buf)[i];
            x == buf[i] || exists|j: int| 0 <= j < dirs.len() && dir_moves(v, from, dirs[j]).contains(x)
        } by {
            let x = slider_buffer(v, from, dirs, buf)[i];
            if i < s.len() {
                assert(x == s[i]);
                assert(dirs[dirs.len() - 1] == d);
                assert(dir_moves(v, from, dirs[dirs.len() - 1]).contains(x));
            } else {
                assert(x == prev[i]);
                if x != buf[i] {
                    let j = choose|j: int|
                        0 <= j < dirs.drop_last().len() && dir_moves(v, from, dirs.drop_last()[j]).contains(prev[i]);
                    assert(dirs[j] == dirs.drop_last()[j]);
                }
            }
        }
    }
}

/// The line a slider moves along: a rook along its row or column, a bishop
/// along its diagonals, a queen along both.
pub open spec fn slider_line(p: Cell, r: int, c: int, tr: int, tc: int) -> bool {
    match p {
        Cell::Rook => straight_line(r, c, tr, tc),
        Cell::Bishop => diagonal_line(r, c, tr, tc),
        Cell::Queen => straight_line(r, c, tr, tc) || diagonal_line(r, c, tr, tc),
        _ => false,
    }
}

/// Every entry a rook, bishop or queen lists is either the null move the
/// buffer starts with, or a move from its square along its lines onto a
/// square that no piece stands in front of and that is empty or holds the
/// other colour, as `create_move` builds it.
pub proof fn law_slider_listed_moves(v: BoardView, cell: (i32, i32))
    requires
        square_in_bounds(cell),
        v.types[cell.0 as int][cell.1 as int] == Cell::Rook || v.types[cell.0 as int][cell.1 as int] == Cell::Bishop
            || v.types[cell.0 as int][cell.1 as int] == Cell::Queen,
    ensures
        forall|i: int|
            0 <= i < listed_moves(v, cell).len() ==> {
                let m = #[trigger] listed_moves(v, cell)[i];
                let (r, c, tr, tc) = (cell.0 as int, cell.1 as int, m.to.0 as int, m.to.1 as int);
                ||| m == default_move()
                ||| {
                    &&& m.from == cell
                    &&& spec_create_move(v, cell, m.to, Cell::Empty) == Some(m)
                    &&& movable(v, cell, m.to)
                    &&& in_bounds(tr, tc)
                    &&& slider_line(v.types[r][c], r, c, tr, tc)
                    &&& between_clear(v.types, r, c, tr, tc)
                }
            },
{
    let (r, c) = (cell.0 as int, cell.1 as int);
    let p = v.types[r][c];
    let dirs = if p == Cell::Rook { straight_dirs() } else if p == Cell::Bishop { diagonal_dirs() } else { queen_dirs() };
    let g = generated(v, cell, default_buffer());
    assert(g.0 == slider_buffer(v, cell, dirs, default_buffer()));
    lemma_slider_buffer_entries(v, cell, dirs, default_buffer());
    lemma_slider_counts(v, cell);
    let cands = candidates(v, cell);
    lemma_checked_moves_from(v, cands);
    assert forall|j: int| 0 <= j < dirs.len() implies {
        let d = #[trigger] dirs[j];
        &&& -1 <= d.0 <= 1 && -1 <= d.1 <= 1 && !(d.0 == 0 && d.1 == 0)
        &&& p == Cell::Rook ==> d.0 == 0 || d.1 == 0
        &&& p == Cell::Bishop ==> d.0 != 0 && d.1 != 0
    } by {
        if p == Cell::Rook {
            assert(0 <= j < 4);
        } else if p == Cell::Bishop {
            assert(0 <= j < 4);
        } else {
            assert(0 <= j < 8);
        }
    }
    assert forall|i: int| 0 <= i < listed_moves(v, cell).len() implies {
        let m = #[trigger] listed_moves(v, cell)[i];
        let (r, c, tr, tc) = (cell.0 as int, cell.1 as int, m.to.0 as int, m.to.1 as int);
        ||| m == default_move()
        ||| {
            &&& m.from == cell
            &&& spec_create_move(v, cell, m.to, Cell::Empty) == Some(m)
            &&& movable(v, cell, m.to)
            &&& in_bounds(tr, tc)
            &&& slider_line(v.types[r][c], r, c, tr, tc)
            &&& between_clear(v.types, r, c, tr, tc)
        }
    } by {
        let m = listed_moves(v, cell)[i];
        let k = choose|k: int| 0 <= k < cands.len() && cands[k] == m;
        assert(cands[k] == g.0[k]);
        if m != default_move() {
            assert(default_buffer()[k] == default_move());
            let j = choose|j: int| 0 <= j < dirs.len() && dir_moves(v, cell, dirs[j]).contains(m);
            let d = dirs[j];
            law_slider_direction_moves(v, cell, d);
            let q = choose|q: int| 0 <= q < dir_moves(v, cell, d).len() && dir_moves(v, cell, d)[q] == m;
            assert(dir_moves(v, cell, d)[q] == m);
        }
    }
}

} // verus!
