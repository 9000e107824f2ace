//! Creating moves, listing the legal moves of a piece, and playing a move.

use vstd::prelude::*;
use super::{Board_state, Cell, Move, Move_type, MAX_MOVES, WHITE, BLACK, end_turn};
use super::rules::{
    BoardView, square_in_bounds, move_in_bounds, playable_type, spec_move_type, spec_create_move, moved_view,
    promoted_view, played_view, list_safe, listed_moves, candidates, generated, checked_moves,
    overwrite, default_buffer, diagonal_dirs, straight_dirs, queen_dirs, knight_targets, king_targets,
    lemma_slider_counts, lemma_unit_dirs_safe, lemma_static_moves_prefix, offsets_fit,
};
use super::Board::update_threat_buffer;
use super::Util::{construct_move_buffer, move_check};
use super::{Queen, King, Bishop, Knight, Rook, Pawn};

verus! {

/// Builds the move from `from` to `to`, if one may be made: there is a piece on
/// `from`, and `to` is empty or holds a piece of the other colour.
pub fn create_move(from: (i32, i32), to: (i32, i32), board: &Board_state, promo_type: Cell) -> (r: Option<Move>)
    requires
        square_in_bounds(from),
        square_in_bounds(to),
    ensures
        r == spec_create_move(board@, from, to, promo_type),
        r is Some <==> (board@.is_occupied(from.0 as int, from.1 as int) && (!board@.is_occupied(to.0 as int, to.1 as int)
            || board@.color_at(to.0 as int, to.1 as int) != board@.color_at(from.0 as int, from.1 as int))),
{
    let typ = get_move_type(from, to, board);
    match typ {
        Some(p) => {
            return Some(
                Move {
                    from: from,
                    to: to,
                    typ: p,
                    color: board._board_color[from.0 as usize][from.1 as usize],
                    promo_type: promo_type,
                },
            );
        },
        None => {
            return None;
        },
    };
}

/// The kind of the move from `from` to `to`: `None` when `from` is empty or
/// `to` holds a piece of the same colour; a promotion for a pawn reaching its
/// last row (a promotion move can also be a capture); otherwise a capture onto
/// the other colour or a plain move onto an empty square.
pub fn get_move_type(from: (i32, i32), to: (i32, i32), board: &Board_state) -> (r: Option<Move_type>)
    requires
        square_in_bounds(from),
        square_in_bounds(to),
    ensures
        r == spec_move_type(board@, from, to),
{
    let to_type = board._board_types[to.0 as usize][to.1 as usize];
    let from_type = board._board_types[from.0 as usize][from.1 as usize];
    if let Cell::Empty = from_type {
        return None;
    }
    let from_color = board._board_color[from.0 as usize][from.1 as usize];
    if let Cell::Empty = to_type {
    } else {
        if board._board_color[to.0 as usize][to.1 as usize] == from_color {
            return None;
        }
    }
    if let Cell::Pawn = from_type {
        if (to.0 == 0 && from_color == WHITE) || (to.0 == 7 && from_color == BLACK) {
            return Some(Move_type::Promotion);
        }
    }
    if let Cell::Empty = to_type {
        return Some(Move_type::Move);
    } else {
        return Some(Move_type::Capture);
    }
}

/// Writes into `move_buffer`, from its start, the moves of the piece on
/// `_cell` that pass `move_check`, in generation order; returns their number.
pub fn get_move_list(board: &mut Board_state, _cell: (i32, i32), move_buffer: &mut [Move; MAX_MOVES]) -> (r: usize)
    requires
        list_safe(old(board)@, _cell),
    ensures
        *final(board) == *old(board),
        r == listed_moves(old(board)@, _cell).len(),
        r <= MAX_MOVES,
        final(move_buffer)@ == overwrite(old(move_buffer)@, listed_moves(old(board)@, _cell)),
{
    let ghost v = board@;
    let ghost buf0 = move_buffer@;
    let ghost g = generated(v, _cell, default_buffer());
    let mut intermediate_buffer = construct_move_buffer();
    proof {
        lemma_slider_counts(v, _cell);
        assert forall|i: int| 0 <= i < 4 implies -1 <= #[trigger] diagonal_dirs()[i].0 <= 1 && -1 <= diagonal_dirs()[i].1 <= 1 by {}
        assert forall|i: int| 0 <= i < 4 implies -1 <= #[trigger] straight_dirs()[i].0 <= 1 && -1 <= straight_dirs()[i].1 <= 1 by {}
        assert forall|i: int| 0 <= i < 8 implies -1 <= #[trigger] queen_dirs()[i].0 <= 1 && -1 <= queen_dirs()[i].1 <= 1 by {}
        if v.is_occupied(_cell.0 as int, _cell.1 as int) {
            lemma_unit_dirs_safe(v, _cell, diagonal_dirs());
            lemma_unit_dirs_safe(v, _cell, straight_dirs());
            lemma_unit_dirs_safe(v, _cell, queen_dirs());
        }
        lemma_static_moves_prefix(v, _cell, knight_targets(_cell.0, _cell.1), 0);
        lemma_static_moves_prefix(v, _cell, king_targets(_cell.0, _cell.1), 0);
    }
    assert(offsets_fit(_cell.0, _cell.1, 2));
    let mv_cnt = match board._board_types[_cell.0 as usize][_cell.1 as usize] {
        Cell::Queen => Queen::generate_moves_simple(_cell.0, _cell.1, board, &mut intermediate_buffer),
        Cell::King => King::generate_moves_simple(_cell.0, _cell.1, board, &mut intermediate_buffer),
        Cell::Bishop => Bishop::generate_moves_simple(_cell.0, _cell.1, board, &mut intermediate_buffer),
        Cell::Knight => Knight::generate_moves_simple(_cell.0, _cell.1, board, &mut intermediate_buffer),
        Cell::Rook => Rook::generate_moves_simple(_cell.0, _cell.1, board, &mut intermediate_buffer),
        Cell::Pawn => Pawn::generate_moves_simple(_cell.0, _cell.1, board, &mut intermediate_buffer),
        Cell::Empty => 0,
    };
    assert(intermediate_buffer@ == g.0 && mv_cnt == g.1);
    let ghost cands = candidates(v, _cell);
    let mut buffer_idx: usize = 0;
    let mut i: usize = 0;
    while i < mv_cnt
        invariant
            *board == *old(board),
            v == board@,
            buf0 == old(move_buffer)@,
            list_safe(v, _cell),
            g == generated(v, _cell, default_buffer()),
            cands == candidates(v, _cell),
            cands == g.0.take(g.1),
            intermediate_buffer@ == g.0,
            mv_cnt == g.1,
            mv_cnt <= MAX_MOVES,
            0 <= i <= mv_cnt,
            buffer_idx <= i,
            buffer_idx == checked_moves(v, cands.take(i as int)).len(),
            move_buffer@ == overwrite(buf0, checked_moves(v, cands.take(i as int))),
        decreases mv_cnt - i,
    {
        let ghost prev = checked_moves(v, cands.take(i as int));
        assert(cands.take(i + 1).drop_last() =~= cands.take(i as int));
        assert(cands.take(i + 1).last() == cands[i as int]);
        assert(cands[i as int] == intermediate_buffer@[i as int]);
        if move_check(board, &intermediate_buffer[i]) {
            move_buffer[buffer_idx] = intermediate_buffer[i];
            buffer_idx += 1;
            assert(move_buffer@ =~= overwrite(buf0, prev.push(cands[i as int])));
        }
        i += 1;
    }
    assert(cands.take(mv_cnt as int) =~= cands);
    return buffer_idx;
}

/// The promotion piece named by `input`: exactly `queen`, `bishop`, `rook` or
/// `knight`; any other text, a trailing line break included, names none.
pub open spec fn spec_promo_type(input: Seq<char>) -> Cell {
    if input == "queen"@ {
        Cell::Queen
    } else if input == "bishop"@ {
        Cell::Bishop
    } else if input == "rook"@ {
        Cell::Rook
    } else if input == "knight"@ {
        Cell::Knight
    } else {
        Cell::Empty
    }
}

fn str_eq(a: &str, b: &str) -> (r: bool)
    ensures
        r == (a@ == b@),
{
    a.to_owned() == b.to_owned()
}

/// The promotion piece that a line of input asks for (`Cell::Empty` for none).
pub fn promo_type_from_input(input: &str) -> (r: Cell)
    ensures
        r == spec_promo_type(input@),
{
    if str_eq(input, "queen") {
        Cell::Queen
    } else if str_eq(input, "bishop") {
        Cell::Bishop
    } else if str_eq(input, "rook") {
        Cell::Rook
    } else if str_eq(input, "knight") {
        Cell::Knight
    } else {
        Cell::Empty
    }
}

/// Plays `mv`: moves the piece (a promotion then places `mv.promo_type`),
/// recomputes the threats and passes the turn.
pub fn make_move(board: &mut Board_state, mv: &Move)
    requires
        move_in_bounds(*mv),
        playable_type(mv.typ),
    ensures
        final(board)@ == played_view(old(board)@, *mv),
{
    match mv.typ {
        Move_type::Move => move_update_move(board, mv),
        Move_type::Capture => move_update_capture(board, mv),
        Move_type::Promotion => {
            move_update_promotion(board, mv, mv.promo_type);
        },
        _ => vstd::pervasive::unreached(),
    };
    let ghost moved = *board;
    update_threat_buffer(board);
    let ghost threatened = *board;
    end_turn(board);
    assert(board@ =~~= BoardView { turn: !threatened@.turn, ..threatened@ });
}

/// A promotion: the move (onto an empty square or a capture), after which the
/// target square holds `promo_type`.
pub fn move_update_promotion(board: &mut Board_state, mv: &Move, promo_type: Cell)
    requires
        move_in_bounds(*mv),
    ensures
        final(board)@ == promoted_view(old(board)@, *mv, promo_type),
{
    if let Cell::Empty = board._board_types[mv.to.0 as usize][mv.to.1 as usize] {
        move_update_move(board, mv);
    } else {
        move_update_capture(board, mv);
    }
    let ghost moved = *board;
    board._board_types[mv.to.0 as usize][mv.to.1 as usize] = promo_type;
    let ghost goal = promoted_view(old(board)@, *mv, promo_type);
    assert forall|r: int| 0 <= r < 8 implies #[trigger] board@.types[r] =~= goal.types[r] by {
        assert forall|c: int| 0 <= c < 8 implies board@.types[r][c] == goal.types[r][c] by {
            assert(board._board_types[r][c] == board@.types[r][c]);
            assert(moved._board_types[r][c] == moved@.types[r][c]);
        }
    }
    assert(board@ =~~= goal);
}

/// A capture: the same board change as a plain move.
pub fn move_update_capture(board: &mut Board_state, mv: &Move)
    requires
        move_in_bounds(*mv),
    ensures
        final(board)@ == moved_view(old(board)@, *mv),
{
    move_update_move(board, mv);
}

/// Moves the piece on `mv.from` onto `mv.to`: the target takes the origin's
/// piece and colour and is marked as moved; the origin becomes an empty, white,
/// unmoved square. A moving king updates the king position of `mv.color`.
pub fn move_update_move(board: &mut Board_state, mv: &Move)
    requires
        move_in_bounds(*mv),
    ensures
        final(board)@ == moved_view(old(board)@, *mv),
{
    let from_usize = (mv.from.0 as usize, mv.from.1 as usize);
    let to_usize = (mv.to.0 as usize, mv.to.1 as usize);
    let ghost start = *board;
    if let Cell::King = board._board_types[from_usize.0][from_usize.1] {
        board.king_pos[mv.color as usize] = to_usize;
    }
    board._board_types[to_usize.0][to_usize.1] = board._board_types[from_usize.0][from_usize.1];
    board._board_types[from_usize.0][from_usize.1] = Cell::Empty;

    board._board_color[to_usize.0][to_usize.1] = board._board_color[from_usize.0][from_usize.1];
    board._board_color[from_usize.0][from_usize.1] = WHITE;

    board._board_hasmoved[to_usize.0][to_usize.1] = true;
    board._board_hasmoved[from_usize.0][from_usize.1] = false;

    let ghost goal = moved_view(start@, *mv);
    assert forall|r: int| 0 <= r < 8 implies #[trigger] board@.types[r] =~= goal.types[r] by {
        assert forall|c: int| 0 <= c < 8 implies board@.types[r][c] == goal.types[r][c] by {
            assert(board._board_types[r][c] == board@.types[r][c]);
            assert(start._board_types[r][c] == start@.types[r][c]);
        }
    }
    assert forall|r: int| 0 <= r < 8 implies #[trigger] board@.colors[r] =~= goal.colors[r] by {
        assert forall|c: int| 0 <= c < 8 implies board@.colors[r][c] == goal.colors[r][c] by {
            assert(board._board_color[r][c] == board@.colors[r][c]);
            assert(start._board_color[r][c] == start@.colors[r][c]);
        }
    }
    assert forall|r: int| 0 <= r < 8 implies #[trigger] board@.moved[r] =~= goal.moved[r] by {
        assert forall|c: int| 0 <= c < 8 implies board@.moved[r][c] == goal.moved[r][c] by {
            assert(board._board_hasmoved[r][c] == board@.moved[r][c]);
            assert(start._board_hasmoved[r][c] == start@.moved[r][c]);
        }
    }
    assert(board@ =~~= goal);
}

} // verus!
