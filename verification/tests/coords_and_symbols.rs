use chess_gui::board_coords::{square_to_xy, xy_to_square};
use chess_gui::chess_api::Cell;
use chess_gui::symbols::get_symbol;

#[test]
fn square_numbers() {
    assert_eq!(xy_to_square((0, 0)), 0);
    assert_eq!(xy_to_square((7, 0)), 7);
    assert_eq!(xy_to_square((3, 5)), 43);
    assert_eq!(xy_to_square((7, 7)), 63);
    assert_eq!(square_to_xy(0), (0, 0));
    assert_eq!(square_to_xy(43), (3, 5));
    assert_eq!(square_to_xy(63), (7, 7));
    assert_eq!(square_to_xy(64), (0, 8));
}

#[test]
fn square_roundtrip() {
    for y in 0..8 {
        for x in 0..8 {
            assert_eq!(square_to_xy(xy_to_square((x, y))), (x, y));
        }
    }
}

#[test]
fn square_number_truncates() {
    assert_eq!(xy_to_square((1, 1usize << 29)), 1);
}

#[test]
fn symbols() {
    assert_eq!(get_symbol(Cell::Pawn, true), "♟");
    assert_eq!(get_symbol(Cell::King, true), "♚");
    assert_eq!(get_symbol(Cell::Queen, false), "♕");
    assert_eq!(get_symbol(Cell::Knight, false), "♘");
    assert_eq!(get_symbol(Cell::Empty, true), "_");
    assert_eq!(get_symbol(Cell::Empty, false), "_");
    assert_eq!(get_symbol(Cell::Rook, false), "♖");
    assert_eq!(get_symbol(Cell::Bishop, true), "♝");
}
