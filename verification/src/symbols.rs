//! Text symbols for drawing a board.

use vstd::prelude::*;
use crate::chess_api::Cell;

verus! {

/// The chess symbol of a piece; `_` for an empty square.
pub open spec fn symbol(cell: Cell, is_black: bool) -> Seq<char> {
    if is_black {
        match cell {
            Cell::Pawn => "♟"@,
            Cell::Bishop => "♝"@,
            Cell::Knight => "♞"@,
            Cell::Rook => "♜"@,
            Cell::Queen => "♛"@,
            Cell::King => "♚"@,
            Cell::Empty => "_"@,
        }
    } else {
        match cell {
            Cell::Pawn => "♙"@,
            Cell::Bishop => "♗"@,
            Cell::Knight => "♘"@,
            Cell::Rook => "♖"@,
            Cell::Queen => "♕"@,
            Cell::King => "♔"@,
            Cell::Empty => "_"@,
        }
    }
}

/// The symbol with which a square holding `cell` is drawn.
pub fn get_symbol(cell: Cell, is_black: bool) -> (r: &'static str)
    ensures
        r@ == symbol(cell, is_black),
{
    if is_black {
        match cell {
            Cell::Pawn => "♟",
            Cell::Bishop => "♝",
            Cell::Knight => "♞",
            Cell::Rook => "♜",
            Cell::Queen => "♛",
            Cell::King => "♚",
            Cell::Empty => "_",
        }
    } else {
        match cell {
            Cell::Pawn => "♙",
            Cell::Bishop => "♗",
            Cell::Knight => "♘",
            Cell::Rook => "♖",
            Cell::Queen => "♕",
            Cell::King => "♔",
            Cell::Empty => "_",
        }
    }
}

} // verus!
