//! Constructors for tests.

use vstd::prelude::*;
use super::{Board_state, Cell};
use super::rules::blank_view;

verus! {

/// A board with no pieces, no threats and white to move.
pub fn create_blank_board() -> (b: Board_state)
    ensures
        b@ == blank_view(),
{
    let B = Board_state {
        _board_types: [[Cell::Empty; 8]; 8],
        _board_hasmoved: [[false; 8]; 8],
        _board_color: [[false; 8]; 8],
        threat_buff: [[[false; 8]; 8]; 2],
        turn: false,
        castling: [false; 2],
        king_pos: [(0, 0); 2],
    };
    assert(B@ =~~= blank_view());
    return B;
}

} // verus!
