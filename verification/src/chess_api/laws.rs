//! Properties of the rules that hold across operations.

use vstd::prelude::*;
use super::{Board_state, Cell, Move, WHITE, BLACK};
use super::rules::{
    BoardView, in_bounds, color_index, candidates, static_moves, knight_targets, king_targets, pawn_targets, pawn_step, pawn_destination,
    lemma_static_moves_prefix, square_in_bounds, king_square_ok, spec_scheck, spec_move_check, played_view,
    moved_view, promoted_view, with_threats, attacked_by, checked_moves, listed_moves, list_safe, lemma_list_safe, owned_by,
    cell_of, color_stuck_before, all_stuck_before, spec_create_move, start_position, start_piece,
};

verus! {

/// The king of each colour stands where `king_pos` says.
pub open spec fn kings_tracked(v: BoardView) -> bool {
    forall|color: bool|
        {
            let kp = #[trigger] v.king_pos[color_index(color)];
            &&& kp.0 < 8 && kp.1 < 8
            &&& v.piece(kp.0 as int, kp.1 as int) == Cell::King
            &&& v.color_at(kp.0 as int, kp.1 as int) == color
        }
}

proof fn lemma_checked_moves_pass(v: BoardView, s: Seq<Move>)
    ensures
        forall|i: int| 0 <= i < checked_moves(v, s).len() ==> spec_move_check(v, #[trigger] checked_moves(v, s)[i]),
    decreases s.len(),
{
    if s.len() > 0 {
        let prev = checked_moves(v, s.drop_last());
        lemma_checked_moves_pass(v, s.drop_last());
        assert forall|i: int| 0 <= i < checked_moves(v, s).len() implies spec_move_check(v, #[trigger] checked_moves(v, s)[i]) by {
            if i < prev.len() {
                assert(checked_moves(v, s)[i] == prev[i]);
            }
        }
    }
}

/// Every listed move passes `move_check`: it does not land on a king, a king
/// does not step onto a square the other colour threatens, and once played it
/// leaves the mover's king out of check.
pub proof fn law_listed_moves_are_checked(v: BoardView, cell: (i32, i32))
    ensures
        forall|i: int|
            0 <= i < listed_moves(v, cell).len() ==> {
                let m = #[trigger] listed_moves(v, cell)[i];
                &&& spec_move_check(v, m)
                &&& v.piece(m.to.0 as int, m.to.1 as int) != Cell::King
                &&& v.piece(m.from.0 as int, m.from.1 as int) == Cell::King
                    ==> !v.threat[color_index(!m.color)][m.to.0 as int][m.to.1 as int]
                &&& !spec_scheck(played_view(v, m), m.color)
            },
{
    lemma_checked_moves_pass(v, super::rules::candidates(v, cell));
}

pub(crate) proof fn lemma_checked_moves_from(v: BoardView, s: Seq<Move>)
    ensures
        forall|i: int| 0 <= i < checked_moves(v, s).len() ==> s.contains(#[trigger] checked_moves(v, s)[i]),
    decreases s.len(),
{
    if s.len() > 0 {
        let prev = checked_moves(v, s.drop_last());
        lemma_checked_moves_from(v, s.drop_last());
        assert forall|i: int| 0 <= i < checked_moves(v, s).len() implies s.contains(#[trigger] checked_moves(v, s)[i]) by {
            if i < prev.len() {
                assert(checked_moves(v, s)[i] == prev[i]);
                let j = choose|j: int| 0 <= j < s.drop_last().len() && s.drop_last()[j] == prev[i];
                assert(s[j] == prev[i]);
            } else {
                assert(s[s.len() - 1] == checked_moves(v, s)[i]);
            }
        }
    }
}

pub(crate) proof fn lemma_static_moves_created(v: BoardView, from: (i32, i32), li: Seq<(i32, i32)>)
    ensures
        forall|i: int| 0 <= i < static_moves(v, from, li).len() ==> {
            let m = #[trigger] static_moves(v, from, li)[i];
            &&& m.from == from
            &&& spec_create_move(v, from, m.to, Cell::Empty) == Some(m)
            &&& square_in_bounds(m.to)
            &&& li.contains(m.to)
        },
    decreases li.len(),
{
    if li.len() > 0 {
        let prev = static_moves(v, from, li.drop_last());
        lemma_static_moves_created(v, from, li.drop_last());
        assert forall|i: int| 0 <= i < static_moves(v, from, li).len() implies {
            let m = #[trigger] static_moves(v, from, li)[i];
            &&& m.from == from
            &&& spec_create_move(v, from, m.to, Cell::Empty) == Some(m)
            &&& square_in_bounds(m.to)
            &&& li.contains(m.to)
        } by {
            if i < prev.len() {
                assert(static_moves(v, from, li)[i] == prev[i]);
                let j = choose|j: int| 0 <= j < li.drop_last().len() && li.drop_last()[j] == prev[i].to;
                assert(li[j] == prev[i].to);
            } else {
                assert(li[li.len() - 1] == static_moves(v, from, li)[i].to);
            }
        }
    }
}

pub(crate) proof fn lemma_static_moves_complete(v: BoardView, from: (i32, i32), li: Seq<(i32, i32)>, j: int)
    requires
        0 <= j < li.len(),
        square_in_bounds(li[j]),
        spec_create_move(v, from, li[j], Cell::Empty) is Some,
    ensures
        static_moves(v, from, li).contains(spec_create_move(v, from, li[j], Cell::Empty)->0),
    decreases li.len(),
{
    let m = spec_create_move(v, from, li[j], Cell::Empty)->0;
    let s = static_moves(v, from, li);
    if j == li.len() - 1 {
        assert(s[s.len() - 1] == m);
    } else {
        assert(li.drop_last()[j] == li[j]);
        lemma_static_moves_complete(v, from, li.drop_last(), j);
        let prev = static_moves(v, from, li.drop_last());
        let k = choose|k: int| 0 <= k < prev.len() && prev[k] == m;
        assert(s[k] == prev[k]);
    }
}

pub(crate) proof fn lemma_checked_moves_complete(v: BoardView, s: Seq<Move>, i: int)
    requires
        0 <= i < s.len(),
        spec_move_check(v, s[i]),
    ensures
        checked_moves(v, s).contains(s[i]),
    decreases s.len(),
{
    let c = checked_moves(v, s);
    if i == s.len() - 1 {
        assert(c[c.len() - 1] == s[i]);
    } else {
        assert(s.drop_last()[i] == s[i]);
        lemma_checked_moves_complete(v, s.drop_last(), i);
        let prev = checked_moves(v, s.drop_last());
        let k = choose|k: int| 0 <= k < prev.len() && prev[k] == s[i];
        assert(c[k] == prev[k]);
    }
}

/// The moves a pawn's generator writes start on the pawn's square, are built
/// by `create_move`, and land on its destinations; and the move onto each
/// destination is among them.
pub(crate) proof fn lemma_pawn_static_moves(v: BoardView, cell: (i32, i32))
    requires
        square_in_bounds(cell),
        v.piece(cell.0 as int, cell.1 as int) == Cell::Pawn,
    ensures
        ({
            let s = static_moves(v, cell, pawn_targets(v, cell.0, cell.1));
            &&& forall|i: int|
                0 <= i < s.len() ==> {
                    let m = #[trigger] s[i];
                    &&& m.from == cell
                    &&& spec_create_move(v, cell, m.to, Cell::Empty) == Some(m)
                    &&& pawn_destination(v, cell.0 as int, cell.1 as int, m.to.0 as int, m.to.1 as int)
                }
            &&& forall|tr: int, tc: int|
                #[trigger] pawn_destination(v, cell.0 as int, cell.1 as int, tr, tc) ==> s.contains(
                    spec_create_move(v, cell, (tr as i32, tc as i32), Cell::Empty)->0,
                )
            &&& s.len() <= 4
        }),
{
    let (row, col) = cell;
    let li = pawn_targets(v, row, col);
    let s = static_moves(v, cell, li);
    lemma_static_moves_prefix(v, cell, li, 0);
    lemma_static_moves_created(v, cell, li);
    assert forall|i: int| 0 <= i < s.len() implies {
        let m = #[trigger] s[i];
        &&& m.from == cell
        &&& spec_create_move(v, cell, m.to, Cell::Empty) == Some(m)
        &&& pawn_destination(v, row as int, col as int, m.to.0 as int, m.to.1 as int)
    } by {
        let m = s[i];
        let k = choose|k: int| 0 <= k < li.len() && li[k] == m.to;
        assert(li.len() == 4);
    }
    assert forall|tr: int, tc: int| #[trigger] pawn_destination(v, row as int, col as int, tr, tc) implies s.contains(
        spec_create_move(v, cell, (tr as i32, tc as i32), Cell::Empty)->0,
    ) by {
        let t = (tr as i32, tc as i32);
        let color = v.color_at(row as int, col as int);
        let n1 = row + pawn_step(color);
        let j = if tr == n1 && tc == col && !v.is_occupied(tr, tc) {
            0int
        } else if tr == row + 2 * pawn_step(color) && tc == col {
            1int
        } else if tc == col - 1 {
            2int
        } else {
            3int
        };
        assert(li[j] == t);
        lemma_static_moves_complete(v, cell, li, j);
    }
}

/// A pawn lists only moves onto its destinations, and it lists the move onto
/// each destination that passes `move_check`.
pub proof fn law_pawn_destinations(v: BoardView, cell: (i32, i32))
    requires
        square_in_bounds(cell),
        v.piece(cell.0 as int, cell.1 as int) == Cell::Pawn,
    ensures
        forall|i: int|
            0 <= i < listed_moves(v, cell).len() ==> {
                let m = #[trigger] listed_moves(v, cell)[i];
                &&& m.from == cell
                &&& spec_create_move(v, cell, m.to, Cell::Empty) == Some(m)
                &&& pawn_destination(v, cell.0 as int, cell.1 as int, m.to.0 as int, m.to.1 as int)
            },
        forall|tr: int, tc: int|
            #[trigger] pawn_destination(v, cell.0 as int, cell.1 as int, tr, tc) && spec_move_check(
                v,
                spec_create_move(v, cell, (tr as i32, tc as i32), Cell::Empty)->0,
            ) ==> listed_moves(v, cell).contains(spec_create_move(v, cell, (tr as i32, tc as i32), Cell::Empty)->0),
{
    let (row, col) = cell;
    let li = pawn_targets(v, row, col);
    let s = static_moves(v, cell, li);
    lemma_pawn_static_moves(v, cell);
    assert(candidates(v, cell) =~= s);
    lemma_checked_moves_from(v, s);
    assert forall|i: int| 0 <= i < listed_moves(v, cell).len() implies {
        let m = #[trigger] listed_moves(v, cell)[i];
        &&& m.from == cell
        &&& spec_create_move(v, cell, m.to, Cell::Empty) == Some(m)
        &&& pawn_destination(v, row as int, col as int, m.to.0 as int, m.to.1 as int)
    } by {
        let m = listed_moves(v, cell)[i];
        let j = choose|j: int| 0 <= j < s.len() && s[j] == m;
    }
    assert forall|tr: int, tc: int|
        #[trigger] pawn_destination(v, row as int, col as int, tr, tc) && spec_move_check(
            v,
            spec_create_move(v, cell, (tr as i32, tc as i32), Cell::Empty)->0,
        ) implies listed_moves(v, cell).contains(spec_create_move(v, cell, (tr as i32, tc as i32), Cell::Empty)->0) by {
        let m = spec_create_move(v, cell, (tr as i32, tc as i32), Cell::Empty)->0;
        let k = choose|k: int| 0 <= k < s.len() && s[k] == m;
        assert(candidates(v, cell)[k] == m);
        lemma_checked_moves_complete(v, candidates(v, cell), k);
    }
}

/// A knight, king or pawn only lists moves that start on its own square and
/// that `create_move` builds.
pub proof fn law_jumping_piece_moves_are_its_own(v: BoardView, cell: (i32, i32))
    requires
        square_in_bounds(cell),
        v.piece(cell.0 as int, cell.1 as int) == Cell::Knight || v.piece(cell.0 as int, cell.1 as int) == Cell::King
            || v.piece(cell.0 as int, cell.1 as int) == Cell::Pawn,
    ensures
        forall|i: int| 0 <= i < listed_moves(v, cell).len() ==> {
            let m = #[trigger] listed_moves(v, cell)[i];
            m.from == cell && spec_create_move(v, cell, m.to, Cell::Empty) == Some(m)
        },
{
    let (row, col) = cell;
    let li = if v.piece(row as int, col as int) == Cell::Knight {
        knight_targets(row, col)
    } else if v.piece(row as int, col as int) == Cell::King {
        king_targets(row, col)
    } else {
        pawn_targets(v, row, col)
    };
    let s = static_moves(v, cell, li);
    lemma_static_moves_prefix(v, cell, li, 0);
    lemma_static_moves_created(v, cell, li);
    assert(candidates(v, cell) =~= s);
    lemma_checked_moves_from(v, s);
    assert forall|i: int| 0 <= i < listed_moves(v, cell).len() implies {
        let m = #[trigger] listed_moves(v, cell)[i];
        m.from == cell && spec_create_move(v, cell, m.to, Cell::Empty) == Some(m)
    } by {
        let j = choose|j: int| 0 <= j < s.len() && s[j] == listed_moves(v, cell)[i];
        assert(s[j] == static_moves(v, cell, li)[j]);
    }
}

/// The square with row-major index `m` is occupied.
pub open spec fn square_occupied(v: BoardView, m: int) -> bool {
    v.is_occupied(m / 8, m % 8)
}

/// The number of occupied squares among the first `n` (row-major).
pub open spec fn occupied_count_upto(v: BoardView, n: int) -> int
    decreases n,
{
    if n <= 0 {
        0
    } else {
        occupied_count_upto(v, n - 1) + if square_occupied(v, n - 1) { 1int } else { 0int }
    }
}

/// The number of occupied squares of the board.
pub open spec fn occupied_count(v: BoardView) -> int {
    occupied_count_upto(v, 64)
}

/// Every empty square is white and marked as not moved.
pub open spec fn empties_clean(v: BoardView) -> bool {
    forall|r: int, c: int|
        in_bounds(r, c) && !#[trigger] v.is_occupied(r, c) ==> v.color_at(r, c) == WHITE && !v.moved[r][c]
}

proof fn lemma_index_square(m: int)
    requires
        0 <= m < 64,
    ensures
        m == (m / 8) * 8 + m % 8,
        0 <= m / 8 < 8,
        0 <= m % 8 < 8,
{
}

proof fn lemma_count_two_changes(v: BoardView, w: BoardView, a: int, b: int, n: int)
    requires
        0 <= a < 64,
        0 <= b < 64,
        a != b,
        0 <= n <= 64,
        forall|m: int| 0 <= m < 64 && m != a && m != b ==> #[trigger] square_occupied(w, m) == square_occupied(v, m),
    ensures
        occupied_count_upto(w, n) == occupied_count_upto(v, n)
            + (if a < n { (if square_occupied(w, a) { 1int } else { 0int }) - (if square_occupied(v, a) { 1int } else { 0int }) } else { 0int })
            + (if b < n { (if square_occupied(w, b) { 1int } else { 0int }) - (if square_occupied(v, b) { 1int } else { 0int }) } else { 0int }),
    decreases n,
{
    if n > 0 {
        lemma_count_two_changes(v, w, a, b, n - 1);
    }
}

/// Moving a piece to another square keeps empty squares white and unmoved,
/// and the number of occupied squares drops by one exactly when the target
/// square was occupied.
pub proof fn law_move_keeps_empties_clean(v: BoardView, mv: Move)
    requires
        v.well_shaped(),
        empties_clean(v),
        square_in_bounds(mv.from),
        square_in_bounds(mv.to),
        v.is_occupied(mv.from.0 as int, mv.from.1 as int),
        mv.from != mv.to,
    ensures
        empties_clean(moved_view(v, mv)),
        occupied_count(moved_view(v, mv)) == occupied_count(v) - if v.is_occupied(mv.to.0 as int, mv.to.1 as int) {
            1int
        } else {
            0int
        },
{
    let w = moved_view(v, mv);
    let fr = mv.from.0 as int;
    let fc = mv.from.1 as int;
    let tr = mv.to.0 as int;
    let tc = mv.to.1 as int;
    assert forall|r: int, c: int| in_bounds(r, c) && !#[trigger] w.is_occupied(r, c) implies w.color_at(r, c) == WHITE
        && !w.moved[r][c] by {
        if !(r == fr && c == fc) && !(r == tr && c == tc) {
            assert(!v.is_occupied(r, c));
        }
    }
    let a = fr * 8 + fc;
    let b = tr * 8 + tc;
    assert(a / 8 == fr && a % 8 == fc && b / 8 == tr && b % 8 == tc) by (nonlinear_arith)
        requires
            a == fr * 8 + fc,
            b == tr * 8 + tc,
            0 <= fc < 8,
            0 <= tc < 8,
    ;
    assert(a != b);
    assert forall|m: int| 0 <= m < 64 && m != a && m != b implies #[trigger] square_occupied(w, m) == square_occupied(v, m) by {
        lemma_index_square(m);
        assert(!(m / 8 == fr && m % 8 == fc));
        assert(!(m / 8 == tr && m % 8 == tc));
    }
    lemma_count_two_changes(v, w, a, b, 64);
    assert(square_occupied(w, b));
    assert(!square_occupied(w, a));
    assert(square_occupied(v, a));
}

/// Recomputing threats twice gives the same board as doing it once.
pub proof fn law_threat_update_idempotent(v: BoardView)
    ensures
        with_threats(with_threats(v)) == with_threats(v),
{
    let w = with_threats(v);
    let ww = with_threats(w);
    assert forall|k: int, r: int| 0 <= k < 2 && 0 <= r < 8 implies #[trigger] ww.threat[k][r] =~= w.threat[k][r] by {}
    assert forall|k: int| 0 <= k < 2 implies #[trigger] ww.threat[k] =~= w.threat[k] by {
        assert forall|r: int| 0 <= r < 8 implies ww.threat[k][r] == w.threat[k][r] by {
            assert(ww.threat[k][r] =~= w.threat[k][r]);
        }
    }
    assert(ww.threat =~= w.threat);
    assert(ww =~= w);
}

/// After a move is played, the threat buffer of each colour is exactly the set
/// of squares its pieces attack in the new position.
pub proof fn law_threats_match_position(v: BoardView, mv: Move, k: int, r: int, c: int)
    requires
        0 <= k < 2,
        in_bounds(r, c),
    ensures
        played_view(v, mv).threat[k][r][c] == attacked_by(played_view(v, mv).types, played_view(v, mv).colors, k, r, c),
{
}

/// Playing a move passes the turn to the other colour.
pub proof fn law_move_passes_turn(v: BoardView, mv: Move)
    ensures
        played_view(v, mv).turn == !v.turn,
{
}

/// Ending the turn twice gives back the same board.
pub proof fn law_end_turn_twice(b: Board_state)
    ensures
        (Board_state { turn: !(Board_state { turn: !b.turn, ..b }).turn, ..Board_state { turn: !b.turn, ..b } }) == b,
{
}

/// In the opening position each king stands where `king_pos` says.
pub proof fn law_initial_kings_tracked()
    ensures
        kings_tracked(with_threats(start_position())),
{
    let v = with_threats(start_position());
    assert(start_piece(7, 4) == Cell::King);
    assert(start_piece(0, 4) == Cell::King);
    assert forall|color: bool| #![trigger v.king_pos[color_index(color)]] {
        let kp = v.king_pos[color_index(color)];
        &&& kp.0 < 8 && kp.1 < 8
        &&& v.piece(kp.0 as int, kp.1 as int) == Cell::King
        &&& v.color_at(kp.0 as int, kp.1 as int) == color
    } by {
        if color {
            assert(v.king_pos[1] == (0usize, 4usize));
        } else {
            assert(v.king_pos[0] == (7usize, 4usize));
        }
    }
}

/// Playing a move made by `create_move` that does not land on a king keeps
/// each king where `king_pos` says.
pub proof fn law_kings_stay_tracked(v: BoardView, from: (i32, i32), to: (i32, i32), promo: Cell)
    requires
        v.well_shaped(),
        kings_tracked(v),
        square_in_bounds(from),
        square_in_bounds(to),
        spec_create_move(v, from, to, promo) is Some,
        v.piece(to.0 as int, to.1 as int) != Cell::King,
    ensures
        kings_tracked(played_view(v, spec_create_move(v, from, to, promo)->0)),
{
    let mv = spec_create_move(v, from, to, promo)->0;
    let m = if mv.typ is Promotion { promoted_view(v, mv, mv.promo_type) } else { moved_view(v, mv) };
    let p = played_view(v, mv);
    assert(p.types == m.types && p.colors == m.colors && p.king_pos == m.king_pos);
    assert forall|color: bool| #![trigger p.king_pos[color_index(color)]] {
        let kp = p.king_pos[color_index(color)];
        &&& kp.0 < 8 && kp.1 < 8
        &&& p.piece(kp.0 as int, kp.1 as int) == Cell::King
        &&& p.color_at(kp.0 as int, kp.1 as int) == color
    } by {
        let okp = v.king_pos[color_index(color)];
        assert(v.piece(okp.0 as int, okp.1 as int) == Cell::King);
        assert(v.color_at(okp.0 as int, okp.1 as int) == color);
    }
}

/// When no piece on the board has a listed move, no piece of either colour
/// has one.
pub proof fn law_stalemate_covers_each_color(v: BoardView, color: bool)
    requires
        all_stuck_before(v, 64),
    ensures
        color_stuck_before(v, color, 64),
{
    assert forall|m: int| 0 <= m < 64 && #[trigger] owned_by(v, cell_of(m), color) implies listed_moves(
        v,
        cell_of(m),
    ).len() == 0 by {
        assert(v.is_occupied(cell_of(m).0 as int, cell_of(m).1 as int));
    }
}

/// On a board whose king positions are squares of the board, the checkmate
/// and stalemate queries run to completion.
pub proof fn law_queries_safe(v: BoardView, color: bool)
    requires
        v.king_pos.len() == 2,
        king_square_ok(v, WHITE),
        king_square_ok(v, BLACK),
    ensures
        king_square_ok(v, color),
        forall|n: int| 0 <= n < 64 ==> #[trigger] list_safe(v, cell_of(n)),
{
    assert forall|n: int| 0 <= n < 64 implies #[trigger] list_safe(v, cell_of(n)) by {
        assert(0 <= n / 8 < 8 && 0 <= n % 8 < 8);
        lemma_list_safe(v, cell_of(n));
    }
}

} // verus!
