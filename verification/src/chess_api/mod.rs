//! Board state, pieces and moves, with the check / checkmate / stalemate queries.
//!
//! Coordinates are `(row, column)`; row 0 is black's back rank and row 7 is
//! white's. Colours are booleans: `WHITE` is `false`, `BLACK` is `true`.

pub mod rules;
pub mod Board;
pub mod Move_util;
pub mod Util;
pub mod Knight;
pub mod Bishop;
pub mod Rook;
pub mod Queen;
pub mod King;
pub mod Pawn;
pub mod Testing_interface;
pub mod laws;
pub mod piece_laws;

use vstd::prelude::*;
use self::rules::{
    BoardView, king_square_ok, spec_scheck, list_safe, owned_by, cell_of, color_stuck_before,
    all_stuck_before,
};
use self::Util::construct_move_buffer;
use self::Move_util::get_move_list;

verus! {

pub const WHITE: bool = false;

pub const BLACK: bool = true;

/// Capacity of a move buffer.
pub const MAX_MOVES: usize = 32;

/// The whole game state.
#[derive(Clone, Copy)]
pub struct Board_state {
    pub _board_types: [[Cell; 8]; 8],
    pub _board_hasmoved: [[bool; 8]; 8],
    pub _board_color: [[bool; 8]; 8],
    /// `threat_buff[c][r][k]`: colour `c` attacks the square `(r, k)`, as of the
    /// last recomputation.
    pub threat_buff: [[[bool; 8]; 8]; 2],
    /// The colour whose turn it is.
    pub turn: bool,
    pub castling: [bool; 2],
    /// Where each colour's king stands, indexed by colour.
    pub king_pos: [(usize, usize); 2],
}

/// The content of a square.
#[derive(Clone, Copy, PartialEq, Eq, Structural, Debug)]
pub enum Cell {
    King,
    Queen,
    Bishop,
    Rook,
    Knight,
    Pawn,
    Empty,
}

#[derive(Clone, Copy, PartialEq, Eq, Structural, Debug)]
pub enum Move_type {
    Peassant,
    Castling,
    Capture,
    Promotion,
    Move,
}

#[derive(Clone, Copy, Debug)]
pub struct Move {
    pub from: (i32, i32),
    pub to: (i32, i32),
    pub typ: Move_type,
    pub color: bool,
    /// The piece a pawn turns into; only read for a promotion.
    pub promo_type: Cell,
}

/// Two moves are the same when they agree on squares, kind and colour; the
/// promotion piece only counts for promotions.
pub open spec fn same_move(a: Move, b: Move) -> bool {
    &&& a.from.0 == b.from.0 && a.from.1 == b.from.1
    &&& a.to.0 == b.to.0 && a.to.1 == b.to.1
    &&& a.typ == b.typ
    &&& a.color == b.color
    &&& (a.typ != Move_type::Promotion || a.promo_type == b.promo_type)
}

impl PartialEq for Move {
    fn eq(&self, other: &Move) -> (r: bool) {
        self.from.0 == other.from.0 && self.from.1 == other.from.1 && self.to.0 == other.to.0
            && self.to.1 == other.to.1 && self.typ == other.typ && self.color == other.color
            && (self.typ != Move_type::Promotion || self.promo_type == other.promo_type)
    }
}

impl vstd::std_specs::cmp::PartialEqSpecImpl for Move {
    open spec fn obeys_eq_spec() -> bool {
        true
    }

    open spec fn eq_spec(&self, other: &Move) -> bool {
        same_move(*self, *other)
    }
}

impl View for Board_state {
    type V = BoardView;

    open spec fn view(&self) -> BoardView {
        BoardView {
            types: Seq::new(8, |r: int| self._board_types[r]@),
            colors: Seq::new(8, |r: int| self._board_color[r]@),
            moved: Seq::new(8, |r: int| self._board_hasmoved[r]@),
            threat: Seq::new(2, |k: int| Seq::new(8, |r: int| self.threat_buff[k][r]@)),
            turn: self.turn,
            castling: self.castling@,
            king_pos: self.king_pos@,
        }
    }
}

/// Is the king of `color` standing on a square that the other colour threatens?
pub fn scheck(board: &Board_state, color: bool) -> (r: bool)
    requires
        king_square_ok(board@, color),
    ensures
        r == spec_scheck(board@, color),
{
    let (x, y) = board.king_pos[color as usize];
    return board.threat_buff[(!color) as usize][x][y];
}

/// The cell with row-major index `r * 8 + c` is `(r, c)`.
proof fn lemma_cell_of(r: int, c: int)
    requires
        0 <= r < 8,
        0 <= c < 8,
    ensures
        cell_of(r * 8 + c) == (r as i32, c as i32),
{
    assert((r * 8 + c) / 8 == r && (r * 8 + c) % 8 == c) by (nonlinear_arith)
        requires
            0 <= r < 8,
            0 <= c < 8,
    ;
}

/// Is `color` checkmated? Its king is in check and none of its pieces has a
/// listed move. The squares are examined row by row; the first piece of
/// `color` with a move ends the search.
pub fn is_scheck_mate(board: &mut Board_state, color: bool) -> (r: bool)
    requires
        king_square_ok(old(board)@, color),
        spec_scheck(old(board)@, color) ==> forall|n: int|
            0 <= n < 64 && #[trigger] owned_by(old(board)@, cell_of(n), color) && color_stuck_before(old(board)@, color, n)
                ==> list_safe(old(board)@, cell_of(n)),
    ensures
        *final(board) == *old(board),
        r == (spec_scheck(old(board)@, color) && color_stuck_before(old(board)@, color, 64)),
{
    if !scheck(board, color) {
        return false;
    }
    let ghost v = board@;
    let mut i: i32 = 0;
    while i < 8
        invariant
            0 <= i <= 8,
            *board == *old(board),
            v == board@,
            spec_scheck(v, color),
            forall|n: int|
                0 <= n < 64 && #[trigger] owned_by(v, cell_of(n), color) && color_stuck_before(v, color, n) ==> list_safe(v, cell_of(n)),
            color_stuck_before(v, color, i * 8),
        decreases 8 - i,
    {
        let mut j: i32 = 0;
        while j < 8
            invariant
                0 <= i < 8,
                0 <= j <= 8,
                *board == *old(board),
                v == board@,
                forall|n: int|
                    0 <= n < 64 && #[trigger] owned_by(v, cell_of(n), color) && color_stuck_before(v, color, n) ==> list_safe(v, cell_of(n)),
                color_stuck_before(v, color, i * 8 + j),
            decreases 8 - j,
        {
            let ghost n = i * 8 + j;
            proof {
                lemma_cell_of(i as int, j as int);
            }
            let is_empty = if let Cell::Empty = board._board_types[i as usize][j as usize] { true } else { false };
            if !is_empty {
                let at_color = board._board_color[i as usize][j as usize];
                if at_color == color {
                    assert(owned_by(v, cell_of(n), color));
                    let mut move_buffer = construct_move_buffer();
                    if get_move_list(board, (i, j), &mut move_buffer) > 0 {
                        assert(!color_stuck_before(v, color, 64));
                        return false;
                    }
                }
            }
            assert(color_stuck_before(v, color, n + 1));
            j += 1;
        }
        i += 1;
    }
    return true;
}

/// Is the game stalemated? No piece of either colour has a listed move.
pub fn is_stale_mate(board: &mut Board_state) -> (r: bool)
    requires
        forall|n: int|
            0 <= n < 64 && #[trigger] old(board)@.is_occupied(cell_of(n).0 as int, cell_of(n).1 as int)
                && all_stuck_before(old(board)@, n) ==> list_safe(old(board)@, cell_of(n)),
    ensures
        *final(board) == *old(board),
        r == all_stuck_before(old(board)@, 64),
{
    let ghost v = board@;
    let mut i: i32 = 0;
    while i < 8
        invariant
            0 <= i <= 8,
            *board == *old(board),
            v == board@,
            forall|n: int|
                0 <= n < 64 && #[trigger] v.is_occupied(cell_of(n).0 as int, cell_of(n).1 as int) && all_stuck_before(v, n)
                    ==> list_safe(v, cell_of(n)),
            all_stuck_before(v, i * 8),
        decreases 8 - i,
    {
        let mut j: i32 = 0;
        while j < 8
            invariant
                0 <= i < 8,
                0 <= j <= 8,
                *board == *old(board),
                v == board@,
                forall|n: int|
                    0 <= n < 64 && #[trigger] v.is_occupied(cell_of(n).0 as int, cell_of(n).1 as int) && all_stuck_before(v, n)
                        ==> list_safe(v, cell_of(n)),
                all_stuck_before(v, i * 8 + j),
            decreases 8 - j,
        {
            let ghost n = i * 8 + j;
            proof {
                lemma_cell_of(i as int, j as int);
            }
            let is_empty = if let Cell::Empty = board._board_types[i as usize][j as usize] { true } else { false };
            if !is_empty {
                assert(v.is_occupied(cell_of(n).0 as int, cell_of(n).1 as int));
                let mut move_buffer = construct_move_buffer();
                if get_move_list(board, (i, j), &mut move_buffer) > 0 {
                    assert(!all_stuck_before(v, 64));
                    return false;
                }
            }
            assert(all_stuck_before(v, n + 1));
            j += 1;
        }
        i += 1;
    }
    return true;
}

/// Passes the turn to the other colour.
pub fn end_turn(board: &mut Board_state)
    ensures
        *final(board) == (Board_state { turn: !old(board).turn, ..*old(board) }),
{
    board.turn = !board.turn;
}

} // verus!
