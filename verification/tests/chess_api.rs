use chess_gui::chess_api::Board::{create_init_board, update_threat_buffer};
use chess_gui::chess_api::Move_util::{
    create_move, get_move_list, get_move_type, make_move, move_update_capture, move_update_move,
    move_update_promotion, promo_type_from_input,
};
use chess_gui::chess_api::Testing_interface::create_blank_board;
use chess_gui::chess_api::Util::{
    construct_move_buffer, generate_moves_simple_dir, generate_moves_simple_static, generate_threat_dir,
    generate_threat_static, is_valid_move, move_check,
};
use chess_gui::chess_api::{
    end_turn, is_scheck_mate, is_stale_mate, scheck, Bishop, Board_state, Cell, King, Knight, Move, Move_type, Pawn,
    Queen, Rook, BLACK, MAX_MOVES, WHITE,
};

fn mv(from: (i32, i32), to: (i32, i32), typ: Move_type, color: bool) -> Move {
    Move { from, to, typ, color, promo_type: Cell::Empty }
}

fn null_move() -> Move {
    mv((0, 0), (0, 0), Move_type::Move, false)
}

fn place(b: &mut Board_state, r: usize, c: usize, cell: Cell, color: bool) {
    b._board_types[r][c] = cell;
    b._board_color[r][c] = color;
}

fn listed(b: &mut Board_state, cell: (i32, i32)) -> Vec<Move> {
    let mut buf = construct_move_buffer();
    let n = get_move_list(b, cell, &mut buf);
    buf[..n].to_vec()
}

#[test]
fn initial_board_layout() {
    let b = create_init_board();
    let back = [Cell::Rook, Cell::Knight, Cell::Bishop, Cell::Queen, Cell::King, Cell::Bishop, Cell::Knight, Cell::Rook];
    for c in 0..8 {
        assert_eq!(b._board_types[0][c], back[c]);
        assert_eq!(b._board_types[7][c], back[c]);
        assert_eq!(b._board_types[1][c], Cell::Pawn);
        assert_eq!(b._board_types[6][c], Cell::Pawn);
        for r in 2..6 {
            assert_eq!(b._board_types[r][c], Cell::Empty);
        }
        assert!(b._board_color[0][c] && b._board_color[1][c]);
        assert!(!b._board_color[6][c] && !b._board_color[7][c]);
    }
    assert_eq!(b.king_pos, [(7, 4), (0, 4)]);
    assert_eq!(b.turn, WHITE);
    assert_eq!(b.castling, [false, false]);
    assert_eq!(b._board_hasmoved, [[false; 8]; 8]);
}

#[test]
fn initial_threats() {
    let b = create_init_board();
    // White pawns cover row 5, black pawns row 2; nothing reaches rows 3 and 4.
    for c in 0..8 {
        assert!(b.threat_buff[0][5][c]);
        assert!(b.threat_buff[1][2][c]);
        assert!(!b.threat_buff[0][4][c] && !b.threat_buff[0][3][c]);
        assert!(!b.threat_buff[1][4][c] && !b.threat_buff[1][3][c]);
    }
    // The white rook on (7, 0) reaches its own pawn on (6, 0) and stops there.
    assert!(b.threat_buff[0][6][0]);
    // No white piece reaches (7, 0) itself.
    assert!(!b.threat_buff[0][7][0]);
    assert!(!scheck(&b, WHITE));
    assert!(!scheck(&b, BLACK));
}

#[test]
fn blank_board() {
    let b = create_blank_board();
    assert_eq!(b._board_types, [[Cell::Empty; 8]; 8]);
    assert_eq!(b._board_color, [[false; 8]; 8]);
    assert_eq!(b.threat_buff, [[[false; 8]; 8]; 2]);
    assert_eq!(b.king_pos, [(0, 0), (0, 0)]);
    assert!(!b.turn);
}

#[test]
fn move_types() {
    let mut b = create_blank_board();
    place(&mut b, 1, 0, Cell::Pawn, WHITE);
    place(&mut b, 6, 0, Cell::Pawn, BLACK);
    place(&mut b, 4, 4, Cell::Rook, WHITE);
    place(&mut b, 4, 6, Cell::Knight, BLACK);
    place(&mut b, 3, 4, Cell::Queen, WHITE);
    assert_eq!(get_move_type((1, 0), (0, 0), &b), Some(Move_type::Promotion));
    assert_eq!(get_move_type((6, 0), (7, 0), &b), Some(Move_type::Promotion));
    assert_eq!(get_move_type((6, 0), (5, 0), &b), Some(Move_type::Move));
    assert_eq!(get_move_type((4, 4), (4, 6), &b), Some(Move_type::Capture));
    assert_eq!(get_move_type((4, 4), (3, 4), &b), None);
    assert_eq!(get_move_type((2, 2), (3, 3), &b), None);
    assert_eq!(get_move_type((4, 4), (0, 4), &b), Some(Move_type::Move));
}

#[test]
fn create_move_fields() {
    let b = create_init_board();
    let m = create_move((6, 0), (5, 0), &b, Cell::Queen).unwrap();
    assert_eq!(m, Move { from: (6, 0), to: (5, 0), typ: Move_type::Move, color: WHITE, promo_type: Cell::Queen });
    let m = create_move((1, 3), (2, 3), &b, Cell::Empty).unwrap();
    assert_eq!(m.color, BLACK);
    assert_eq!(create_move((6, 0), (7, 0), &b, Cell::Empty), None);
    assert_eq!(create_move((4, 4), (5, 5), &b, Cell::Empty), None);
}

#[test]
fn pawn_and_knight_moves_from_start() {
    let mut b = create_init_board();
    assert_eq!(
        listed(&mut b, (6, 0)),
        vec![mv((6, 0), (5, 0), Move_type::Move, WHITE), mv((6, 0), (4, 0), Move_type::Move, WHITE)]
    );
    assert_eq!(
        listed(&mut b, (7, 1)),
        vec![mv((7, 1), (5, 2), Move_type::Move, WHITE), mv((7, 1), (5, 0), Move_type::Move, WHITE)]
    );
    assert_eq!(listed(&mut b, (7, 0)), vec![]);
    assert_eq!(listed(&mut b, (7, 4)), vec![]);
    assert_eq!(listed(&mut b, (4, 4)), vec![]);
    assert_eq!(
        listed(&mut b, (1, 7)),
        vec![mv((1, 7), (2, 7), Move_type::Move, BLACK), mv((1, 7), (3, 7), Move_type::Move, BLACK)]
    );
}

#[test]
fn move_list_leaves_board_unchanged() {
    let mut b = create_init_board();
    let before = b;
    let mut buf = construct_move_buffer();
    get_move_list(&mut b, (6, 3), &mut buf);
    assert_eq!(b._board_types, before._board_types);
    assert_eq!(b.threat_buff, before.threat_buff);
    assert_eq!(b.turn, before.turn);
}

#[test]
fn move_list_keeps_rest_of_buffer() {
    let mut b = create_init_board();
    let mut buf = [mv((3, 3), (3, 3), Move_type::Capture, true); MAX_MOVES];
    let n = get_move_list(&mut b, (6, 0), &mut buf);
    assert_eq!(n, 2);
    assert_eq!(buf[1], mv((6, 0), (4, 0), Move_type::Move, WHITE));
    assert_eq!(buf[2], mv((3, 3), (3, 3), Move_type::Capture, true));
}

#[test]
fn valid_moves() {
    let mut b = create_init_board();
    assert!(is_valid_move(&mut b, &mv((6, 4), (4, 4), Move_type::Move, WHITE)));
    assert!(!is_valid_move(&mut b, &mv((6, 4), (3, 4), Move_type::Move, WHITE)));
    // The promotion piece only counts for promotions.
    let mut m = mv((6, 4), (4, 4), Move_type::Move, WHITE);
    m.promo_type = Cell::Queen;
    assert!(is_valid_move(&mut b, &m));
    let mut m = mv((6, 0), (5, 0), Move_type::Move, WHITE);
    m.promo_type = Cell::Pawn;
    assert!(is_valid_move(&mut b, &m));
    assert!(!is_valid_move(&mut b, &mv((6, 0), (3, 0), Move_type::Move, WHITE)));
}

#[test]
fn demo_sequence() {
    let mut b = create_init_board();
    let promo = b._board_types[1][0];
    let m = create_move((6, 0), (5, 0), &b, promo).unwrap();
    assert!(is_valid_move(&mut b, &m));
    make_move(&mut b, &m);
    assert_eq!(b._board_types[5][0], Cell::Pawn);
    assert_eq!(b._board_types[6][0], Cell::Empty);
    assert!(b._board_hasmoved[5][0]);
    assert_eq!(b.turn, BLACK);
    // The pawn has left (6, 0), so the same move is no longer listed.
    assert_eq!(m.promo_type, Cell::Pawn);
    assert!(!is_valid_move(&mut b, &m));
}

#[test]
fn make_move_updates_board() {
    let mut b = create_init_board();
    let m = create_move((6, 4), (4, 4), &b, Cell::Empty).unwrap();
    make_move(&mut b, &m);
    assert_eq!(b._board_types[4][4], Cell::Pawn);
    assert!(!b._board_color[4][4]);
    assert_eq!(b._board_types[6][4], Cell::Empty);
    assert!(b._board_hasmoved[4][4]);
    assert!(!b._board_hasmoved[6][4]);
    assert!(b.turn);
    // The pawn on (4, 4) now threatens (3, 3) and (3, 5); the bishop on (7, 5)
    // now reaches (3, 1) through the opened diagonal.
    assert!(b.threat_buff[0][3][3] && b.threat_buff[0][3][5]);
    assert!(b.threat_buff[0][3][1]);
    // The pawn on (6, 1) still covers (5, 0).
    assert!(b.threat_buff[0][5][0]);
}

#[test]
fn threats_follow_the_position() {
    let mut b = create_blank_board();
    place(&mut b, 4, 4, Cell::Rook, WHITE);
    b.king_pos = [(7, 7), (0, 0)];
    update_threat_buffer(&mut b);
    assert!(b.threat_buff[0][4][0]);
    let m = create_move((4, 4), (3, 4), &b, Cell::Empty).unwrap();
    make_move(&mut b, &m);
    // The rook left row 4, so the row is no longer threatened.
    assert!(!b.threat_buff[0][4][0]);
    assert!(b.threat_buff[0][3][0]);
    assert!(b.threat_buff[0][4][4]);
}

#[test]
fn stale_threats_are_discarded() {
    let mut b = create_blank_board();
    b.threat_buff[1][5][5] = true;
    b.threat_buff[0][2][3] = true;
    update_threat_buffer(&mut b);
    assert_eq!(b.threat_buff, [[[false; 8]; 8]; 2]);
}

#[test]
fn pawn_destinations() {
    let mut b = create_blank_board();
    b.king_pos = [(7, 7), (0, 0)];
    place(&mut b, 7, 7, Cell::King, WHITE);
    place(&mut b, 0, 0, Cell::King, BLACK);
    place(&mut b, 6, 3, Cell::Pawn, WHITE);
    place(&mut b, 5, 2, Cell::Knight, BLACK);
    place(&mut b, 5, 4, Cell::Knight, WHITE);
    update_threat_buffer(&mut b);
    let l = listed(&mut b, (6, 3));
    let to: Vec<(i32, i32)> = l.iter().map(|m| m.to).collect();
    assert_eq!(to, vec![(5, 3), (4, 3), (5, 2)]);
    assert_eq!(l[2].typ, Move_type::Capture);
}

#[test]
fn move_keeps_empty_squares_clean() {
    let mut b = create_init_board();
    let count = |b: &Board_state| b._board_types.iter().flatten().filter(|c| **c != Cell::Empty).count();
    let before = count(&b);
    move_update_move(&mut b, &mv((6, 4), (4, 4), Move_type::Move, WHITE));
    assert_eq!(count(&b), before);
    move_update_move(&mut b, &mv((7, 3), (1, 3), Move_type::Capture, WHITE));
    assert_eq!(count(&b), before - 1);
    for r in 0..8 {
        for c in 0..8 {
            if b._board_types[r][c] == Cell::Empty {
                assert!(!b._board_color[r][c] && !b._board_hasmoved[r][c]);
            }
        }
    }
}

#[test]
fn threat_update_twice_is_once() {
    let mut b = create_init_board();
    let once = b.threat_buff;
    update_threat_buffer(&mut b);
    assert_eq!(b.threat_buff, once);
}

#[test]
fn king_moves_update_king_position() {
    let mut b = create_blank_board();
    place(&mut b, 7, 4, Cell::King, WHITE);
    place(&mut b, 0, 4, Cell::King, BLACK);
    b.king_pos = [(7, 4), (0, 4)];
    update_threat_buffer(&mut b);
    let m = create_move((7, 4), (6, 4), &b, Cell::Empty).unwrap();
    assert!(move_check(&b, &m));
    make_move(&mut b, &m);
    assert_eq!(b.king_pos, [(6, 4), (0, 4)]);
    assert_eq!(b._board_types[6][4], Cell::King);
}

#[test]
fn move_update_variants() {
    let mut b = create_blank_board();
    place(&mut b, 1, 2, Cell::Pawn, WHITE);
    place(&mut b, 0, 3, Cell::Rook, BLACK);
    let m = mv((1, 2), (0, 3), Move_type::Promotion, WHITE);
    move_update_promotion(&mut b, &m, Cell::Knight);
    assert_eq!(b._board_types[0][3], Cell::Knight);
    assert!(!b._board_color[0][3]);
    assert_eq!(b._board_types[1][2], Cell::Empty);

    let mut c = create_blank_board();
    place(&mut c, 2, 2, Cell::Bishop, BLACK);
    place(&mut c, 3, 3, Cell::Pawn, WHITE);
    let mut d = c;
    let m = mv((2, 2), (3, 3), Move_type::Capture, BLACK);
    move_update_capture(&mut c, &m);
    move_update_move(&mut d, &m);
    assert_eq!(c._board_types, d._board_types);
    assert_eq!(c._board_color, d._board_color);
    assert_eq!(c._board_types[3][3], Cell::Bishop);
    assert!(c._board_color[3][3]);
    // The emptied origin is reset to white.
    assert!(!c._board_color[2][2]);
}

#[test]
fn move_onto_own_square_empties_it() {
    let mut b = create_blank_board();
    place(&mut b, 3, 3, Cell::Knight, BLACK);
    move_update_move(&mut b, &mv((3, 3), (3, 3), Move_type::Move, BLACK));
    assert_eq!(b._board_types[3][3], Cell::Empty);
    assert!(b._board_hasmoved[3][3] == false);
}

#[test]
fn move_check_refusals() {
    let mut b = create_blank_board();
    place(&mut b, 7, 4, Cell::King, WHITE);
    place(&mut b, 0, 3, Cell::Rook, BLACK);
    place(&mut b, 0, 0, Cell::King, BLACK);
    b.king_pos = [(7, 4), (0, 0)];
    update_threat_buffer(&mut b);
    // Stepping into the rook's column.
    assert!(!move_check(&b, &mv((7, 4), (7, 3), Move_type::Move, WHITE)));
    assert!(move_check(&b, &mv((7, 4), (7, 5), Move_type::Move, WHITE)));
    // Capturing a king is never allowed.
    place(&mut b, 1, 0, Cell::Rook, WHITE);
    assert!(!move_check(&b, &mv((1, 0), (0, 0), Move_type::Capture, WHITE)));
}

#[test]
fn checkmate_and_stalemate() {
    let mut b = create_blank_board();
    place(&mut b, 0, 0, Cell::King, BLACK);
    place(&mut b, 1, 1, Cell::Queen, WHITE);
    place(&mut b, 2, 2, Cell::King, WHITE);
    b.king_pos = [(2, 2), (0, 0)];
    update_threat_buffer(&mut b);
    assert!(scheck(&b, BLACK));
    assert!(!scheck(&b, WHITE));
    assert!(is_scheck_mate(&mut b, BLACK));
    assert!(!is_scheck_mate(&mut b, WHITE));
    assert!(!is_stale_mate(&mut b));

    let mut s = create_blank_board();
    place(&mut s, 0, 0, Cell::King, BLACK);
    place(&mut s, 2, 1, Cell::Queen, WHITE);
    place(&mut s, 7, 7, Cell::King, WHITE);
    s.king_pos = [(7, 7), (0, 0)];
    update_threat_buffer(&mut s);
    assert!(!scheck(&s, BLACK));
    assert!(listed(&mut s, (0, 0)).is_empty());
    assert!(!is_scheck_mate(&mut s, BLACK));
    assert!(!is_stale_mate(&mut s));
}

#[test]
fn stalemate_when_nothing_moves() {
    let mut b = create_blank_board();
    assert!(is_stale_mate(&mut b));
    // A white pawn on the last row has nowhere to go.
    place(&mut b, 0, 3, Cell::Pawn, WHITE);
    update_threat_buffer(&mut b);
    assert!(is_stale_mate(&mut b));
}

#[test]
fn slider_buffer_overlap() {
    // Each direction writes from the start of the buffer; the count is the sum.
    let mut b = create_blank_board();
    place(&mut b, 4, 4, Cell::Bishop, WHITE);
    let mut buf = construct_move_buffer();
    let n = Bishop::generate_moves_simple(4, 4, &mut b, &mut buf);
    assert_eq!(n, 13);
    assert_eq!(buf[0], mv((4, 4), (5, 5), Move_type::Move, WHITE));
    assert_eq!(buf[1], mv((4, 4), (6, 6), Move_type::Move, WHITE));
    assert_eq!(buf[2], mv((4, 4), (7, 7), Move_type::Move, WHITE));
    assert_eq!(buf[3], mv((4, 4), (0, 0), Move_type::Move, WHITE));
    assert_eq!(buf[4], null_move());
    // All thirteen entries pass the check on this board.
    let l = listed(&mut b, (4, 4));
    assert_eq!(l.len(), 13);
    assert_eq!(l[12], null_move());
    assert!(!is_valid_move(&mut b, &mv((4, 4), (3, 3), Move_type::Move, WHITE)));
    assert!(is_valid_move(&mut b, &mv((4, 4), (6, 6), Move_type::Move, WHITE)));
}

#[test]
fn rook_and_queen_generators() {
    let mut b = create_blank_board();
    place(&mut b, 4, 4, Cell::Rook, WHITE);
    place(&mut b, 4, 6, Cell::Pawn, BLACK);
    place(&mut b, 2, 4, Cell::Pawn, WHITE);
    let mut buf = construct_move_buffer();
    // (1,0): 3 squares down; (-1,0): 1 (own pawn on (2,4)); (0,1): (4,5) and
    // the capture on (4,6); (0,-1): 4 squares.
    let n = Rook::generate_moves_simple(4, 4, &mut b, &mut buf);
    assert_eq!(n, 3 + 1 + 2 + 4);
    assert_eq!(buf[0], mv((4, 4), (4, 3), Move_type::Move, WHITE));
    assert_eq!(buf[3], mv((4, 4), (4, 0), Move_type::Move, WHITE));
    assert_eq!(buf[4], null_move());

    let mut q = create_blank_board();
    place(&mut q, 0, 0, Cell::Queen, BLACK);
    let mut buf = construct_move_buffer();
    let n = Queen::generate_moves_simple(0, 0, &mut q, &mut buf);
    assert_eq!(n, 21);
    assert_eq!(buf[0], mv((0, 0), (1, 1), Move_type::Move, BLACK));
    assert_eq!(buf[6], mv((0, 0), (7, 7), Move_type::Move, BLACK));
    assert_eq!(buf[7], null_move());
}

#[test]
fn generate_moves_simple_dir_stops() {
    let mut b = create_blank_board();
    place(&mut b, 0, 0, Cell::Rook, WHITE);
    place(&mut b, 0, 3, Cell::Knight, BLACK);
    let mut buf = construct_move_buffer();
    let n = generate_moves_simple_dir((0, 0), (0, 1), &mut b, &mut buf);
    assert_eq!(n, 3);
    assert_eq!(buf[2], mv((0, 0), (0, 3), Move_type::Capture, WHITE));
    assert_eq!(buf[3], null_move());
    let n = generate_moves_simple_dir((0, 0), (-1, 0), &mut b, &mut buf);
    assert_eq!(n, 0);
    let n = generate_moves_simple_dir((0, 0), (0, 0), &mut b, &mut buf);
    assert_eq!(n, 0);
}

#[test]
fn generate_moves_simple_static_filters() {
    let mut b = create_blank_board();
    place(&mut b, 3, 3, Cell::King, WHITE);
    place(&mut b, 2, 3, Cell::Pawn, WHITE);
    place(&mut b, 4, 3, Cell::Pawn, BLACK);
    let mut buf = construct_move_buffer();
    let li = [(2, 3), (4, 3), (-1, 3), (3, 8), (3, 4)];
    let n = generate_moves_simple_static((3, 3), &li, &mut b, &mut buf);
    assert_eq!(n, 2);
    assert_eq!(buf[0], mv((3, 3), (4, 3), Move_type::Capture, WHITE));
    assert_eq!(buf[1], mv((3, 3), (3, 4), Move_type::Move, WHITE));
    assert_eq!(buf[2], null_move());
}

#[test]
fn piece_generators() {
    let mut b = create_blank_board();
    place(&mut b, 0, 0, Cell::Knight, WHITE);
    let mut buf = construct_move_buffer();
    assert_eq!(Knight::generate_moves_simple(0, 0, &mut b, &mut buf), 2);
    assert_eq!(buf[0], mv((0, 0), (2, 1), Move_type::Move, WHITE));
    assert_eq!(buf[1], mv((0, 0), (1, 2), Move_type::Move, WHITE));

    place(&mut b, 7, 7, Cell::King, BLACK);
    let mut buf = construct_move_buffer();
    assert_eq!(King::generate_moves_simple(7, 7, &mut b, &mut buf), 3);
    assert_eq!(buf[0], mv((7, 7), (6, 6), Move_type::Move, BLACK));
    assert_eq!(buf[1], mv((7, 7), (6, 7), Move_type::Move, BLACK));
    assert_eq!(buf[2], mv((7, 7), (7, 6), Move_type::Move, BLACK));

    // A black pawn that has moved: one step, and the capture to its right.
    place(&mut b, 3, 3, Cell::Pawn, BLACK);
    b._board_hasmoved[3][3] = true;
    place(&mut b, 4, 4, Cell::Rook, WHITE);
    place(&mut b, 4, 2, Cell::Rook, BLACK);
    let mut buf = construct_move_buffer();
    assert_eq!(Pawn::generate_moves_simple(3, 3, &mut b, &mut buf), 2);
    assert_eq!(buf[0], mv((3, 3), (4, 3), Move_type::Move, BLACK));
    assert_eq!(buf[1], mv((3, 3), (4, 4), Move_type::Capture, BLACK));

    // A white pawn reaching row 0 promotes.
    place(&mut b, 1, 5, Cell::Pawn, WHITE);
    let mut buf = construct_move_buffer();
    assert_eq!(Pawn::generate_moves_simple(1, 5, &mut b, &mut buf), 1);
    assert_eq!(buf[0], mv((1, 5), (0, 5), Move_type::Promotion, WHITE));
}

#[test]
fn pawn_double_step_jumps() {
    // The two-square step only needs the target square empty.
    let mut b = create_blank_board();
    place(&mut b, 6, 2, Cell::Pawn, WHITE);
    place(&mut b, 5, 2, Cell::Knight, BLACK);
    let mut buf = construct_move_buffer();
    assert_eq!(Pawn::generate_moves_simple(6, 2, &mut b, &mut buf), 1);
    assert_eq!(buf[0], mv((6, 2), (4, 2), Move_type::Move, WHITE));
}

#[test]
fn threat_generators() {
    let mut b = create_blank_board();
    generate_threat_static(&[(0, 0), (9, 9), (-1, 2), (7, 7)], &mut b, BLACK);
    assert!(b.threat_buff[1][0][0] && b.threat_buff[1][7][7]);
    assert!(!b.threat_buff[0][0][0]);

    let mut b = create_blank_board();
    place(&mut b, 3, 5, Cell::Pawn, BLACK);
    generate_threat_dir(3, 0, (0, 1), &mut b, WHITE);
    for c in 1..6 {
        assert!(b.threat_buff[0][3][c]);
    }
    assert!(!b.threat_buff[0][3][6] && !b.threat_buff[0][3][0]);

    let mut b = create_blank_board();
    Knight::generate_threat(0, 0, &mut b, WHITE);
    assert!(b.threat_buff[0][1][2] && b.threat_buff[0][2][1]);
    Pawn::generate_threat(6, 0, &mut b, WHITE);
    assert!(b.threat_buff[0][5][1]);
    Pawn::generate_threat(1, 7, &mut b, BLACK);
    assert!(b.threat_buff[1][2][6]);
    King::generate_threat(7, 7, &mut b, BLACK);
    assert!(b.threat_buff[1][6][6] && b.threat_buff[1][7][6] && b.threat_buff[1][6][7]);
    Bishop::generate_threat(4, 4, &mut b, WHITE);
    assert!(b.threat_buff[0][0][0] && b.threat_buff[0][7][1]);
    Rook::generate_threat(4, 4, &mut b, BLACK);
    assert!(b.threat_buff[1][4][0] && b.threat_buff[1][0][4]);
    Queen::generate_threat(0, 7, &mut b, BLACK);
    assert!(b.threat_buff[1][7][0] && b.threat_buff[1][0][0]);
}

#[test]
fn end_turn_flips() {
    let mut b = create_init_board();
    end_turn(&mut b);
    assert!(b.turn);
    end_turn(&mut b);
    assert!(!b.turn);
}

#[test]
fn promo_type_parsing() {
    assert_eq!(promo_type_from_input("queen"), Cell::Queen);
    assert_eq!(promo_type_from_input("bishop"), Cell::Bishop);
    assert_eq!(promo_type_from_input("rook"), Cell::Rook);
    assert_eq!(promo_type_from_input("knight"), Cell::Knight);
    assert_eq!(promo_type_from_input("queen\n"), Cell::Empty);
    assert_eq!(promo_type_from_input("king"), Cell::Empty);
    assert_eq!(promo_type_from_input(""), Cell::Empty);
}

#[test]
fn construct_move_buffer_is_null() {
    let buf = construct_move_buffer();
    assert_eq!(buf.len(), MAX_MOVES);
    for m in buf.iter() {
        assert_eq!(*m, null_move());
    }
}

#[test]
fn listed_moves_pass_the_check() {
    let mut b = create_init_board();
    let m = create_move((6, 4), (4, 4), &b, Cell::Empty).unwrap();
    make_move(&mut b, &m);
    let m = create_move((1, 3), (3, 3), &b, Cell::Empty).unwrap();
    make_move(&mut b, &m);
    for r in 0..8 {
        for c in 0..8 {
            for l in listed(&mut b, (r, c)) {
                assert!(move_check(&b, &l));
                assert_ne!(b._board_types[l.to.0 as usize][l.to.1 as usize], Cell::King);
            }
        }
    }
}

#[test]
fn initial_kings_where_recorded() {
    let b = create_init_board();
    for color in 0..2 {
        let (x, y) = b.king_pos[color];
        assert_eq!(b._board_types[x][y], Cell::King);
        assert_eq!(b._board_color[x][y], color == 1);
    }
}

#[test]
fn pawn_capture_keeps_kings_recorded() {
    let mut b = create_init_board();
    for (from, to) in [((6, 4), (4, 4)), ((1, 3), (3, 3)), ((4, 4), (3, 3))] {
        let m = create_move(from, to, &b, Cell::Empty).unwrap();
        assert!(is_valid_move(&mut b, &m));
        make_move(&mut b, &m);
    }
    assert_eq!(b._board_types[3][3], Cell::Pawn);
    assert!(!b._board_color[3][3]);
    for color in 0..2 {
        let (x, y) = b.king_pos[color];
        assert_eq!(b._board_types[x][y], Cell::King);
    }
    assert_eq!(b.turn, BLACK);
}

#[test]
fn capture_onto_last_row_promotes() {
    let mut b = create_blank_board();
    place(&mut b, 1, 1, Cell::Pawn, WHITE);
    place(&mut b, 0, 0, Cell::Rook, BLACK);
    place(&mut b, 6, 6, Cell::Pawn, BLACK);
    place(&mut b, 7, 7, Cell::Knight, WHITE);
    place(&mut b, 7, 0, Cell::King, WHITE);
    place(&mut b, 0, 7, Cell::King, BLACK);
    b.king_pos = [(7, 0), (0, 7)];
    update_threat_buffer(&mut b);
    assert_eq!(get_move_type((1, 1), (0, 0), &b), Some(Move_type::Promotion));
    assert_eq!(get_move_type((6, 6), (7, 7), &b), Some(Move_type::Promotion));
    assert_eq!(get_move_type((1, 1), (0, 1), &b), Some(Move_type::Promotion));
    let m = create_move((1, 1), (0, 0), &b, Cell::Queen).unwrap();
    assert!(move_check(&b, &m));
    make_move(&mut b, &m);
    assert_eq!(b._board_types[0][0], Cell::Queen);
    assert!(!b._board_color[0][0]);
    assert_eq!(b._board_types[1][1], Cell::Empty);
}

#[test]
fn promotions_compare_their_piece() {
    let mut a = mv((1, 1), (0, 1), Move_type::Promotion, WHITE);
    a.promo_type = Cell::Queen;
    let mut q = a;
    q.promo_type = Cell::Rook;
    assert_ne!(a, q);
    let mut p = mv((6, 1), (5, 1), Move_type::Move, WHITE);
    let o = p;
    p.promo_type = Cell::Knight;
    assert_eq!(p, o);
}
