//! The mathematical model of the game: a board view over sequences, what each
//! piece attacks, how a move changes the board, and which moves the generators
//! produce.

use vstd::prelude::*;
use super::{Board_state, Cell, Move, Move_type, WHITE, BLACK};

verus! {

/// The abstract content of a `Board_state`.
#[verifier::ext_equal]
pub struct BoardView {
    pub types: Seq<Seq<Cell>>,
    pub colors: Seq<Seq<bool>>,
    pub moved: Seq<Seq<bool>>,
    pub threat: Seq<Seq<Seq<bool>>>,
    pub turn: bool,
    pub castling: Seq<bool>,
    pub king_pos: Seq<(usize, usize)>,
}

pub open spec fn in_bounds(r: int, c: int) -> bool {
    0 <= r < 8 && 0 <= c < 8
}

pub open spec fn fits_i32(x: int) -> bool {
    i32::MIN <= x <= i32::MAX
}

/// The index of a colour in the per-colour arrays.
pub open spec fn color_index(color: bool) -> int {
    if color { 1 } else { 0 }
}

pub open spec fn occupied(types: Seq<Seq<Cell>>, r: int, c: int) -> bool {
    types[r][c] != Cell::Empty
}

impl BoardView {
    pub open spec fn piece(self, r: int, c: int) -> Cell {
        self.types[r][c]
    }

    pub open spec fn color_at(self, r: int, c: int) -> bool {
        self.colors[r][c]
    }

    pub open spec fn is_occupied(self, r: int, c: int) -> bool {
        occupied(self.types, r, c)
    }

    /// A view has the shape of a real board.
    pub open spec fn well_shaped(self) -> bool {
        &&& self.types.len() == 8
        &&& self.colors.len() == 8
        &&& self.moved.len() == 8
        &&& self.threat.len() == 2
        &&& self.castling.len() == 2
        &&& self.king_pos.len() == 2
        &&& forall|r: int| 0 <= r < 8 ==> #[trigger] self.types[r].len() == 8
        &&& forall|r: int| 0 <= r < 8 ==> #[trigger] self.colors[r].len() == 8
        &&& forall|r: int| 0 <= r < 8 ==> #[trigger] self.moved[r].len() == 8
        &&& forall|k: int| 0 <= k < 2 ==> #[trigger] self.threat[k].len() == 8
        &&& forall|k: int, r: int| 0 <= k < 2 && 0 <= r < 8 ==> #[trigger] self.threat[k][r].len() == 8
    }
}

// ---------------------------------------------------------------------------
// Attacks
// ---------------------------------------------------------------------------

/// A bound on how many more steps a ray from `(r, c)` in direction `(d0, d1)`
/// stays on the board.
pub open spec fn ray_measure(r: int, c: int, d0: int, d1: int) -> int {
    if !in_bounds(r, c) {
        0
    } else if d0 > 0 {
        8 - r
    } else if d0 < 0 {
        r + 1
    } else if d1 > 0 {
        8 - c
    } else if d1 < 0 {
        c + 1
    } else {
        0
    }
}

/// A ray that visits `(r, c)`, then continues in direction `(d0, d1)` over empty
/// squares, reaches `(tr, tc)`: it visits squares until it leaves the board or
/// stands on an occupied square (which is itself reached).
pub open spec fn ray_reaches(types: Seq<Seq<Cell>>, r: int, c: int, d0: int, d1: int, tr: int, tc: int) -> bool
    decreases ray_measure(r, c, d0, d1),
{
    if !in_bounds(r, c) {
        false
    } else if r == tr && c == tc {
        true
    } else if occupied(types, r, c) || (d0 == 0 && d1 == 0) {
        false
    } else {
        ray_reaches(types, r + d0, c + d1, d0, d1, tr, tc)
    }
}

/// A slider on `(r, c)` attacks `(tr, tc)` along direction `(d0, d1)`.
pub open spec fn ray_attacks(types: Seq<Seq<Cell>>, r: int, c: int, d0: int, d1: int, tr: int, tc: int) -> bool {
    ray_reaches(types, r + d0, c + d1, d0, d1, tr, tc)
}

/// Some direction of `dirs` lets a slider on `(r, c)` attack `(tr, tc)`.
pub open spec fn rays_attack(types: Seq<Seq<Cell>>, r: int, c: int, dirs: Seq<(i32, i32)>, tr: int, tc: int) -> bool
    decreases dirs.len(),
{
    if dirs.len() == 0 {
        false
    } else {
        rays_attack(types, r, c, dirs.drop_last(), tr, tc)
            || ray_attacks(types, r, c, dirs.last().0 as int, dirs.last().1 as int, tr, tc)
    }
}

/// `(r, c)` is one of the on-board squares of the list `li`.
pub open spec fn listed(li: Seq<(i32, i32)>, r: int, c: int) -> bool {
    in_bounds(r, c) && exists|i: int| 0 <= i < li.len() && #[trigger] li[i].0 == r && li[i].1 == c
}

/// The squares a knight on `(row, col)` jumps to, in generation order.
pub open spec fn knight_targets(row: i32, col: i32) -> Seq<(i32, i32)> {
    seq![
        ((row + 1) as i32, (col - 2) as i32),
        ((row + 2) as i32, (col - 1) as i32),
        ((row + 2) as i32, (col + 1) as i32),
        ((row + 1) as i32, (col + 2) as i32),
        ((row - 1) as i32, (col + 2) as i32),
        ((row - 2) as i32, (col + 1) as i32),
        ((row - 2) as i32, (col - 1) as i32),
        ((row - 1) as i32, (col - 2) as i32),
    ]
}

/// The squares next to `(row, col)`, in generation order.
pub open spec fn king_targets(row: i32, col: i32) -> Seq<(i32, i32)> {
    seq![
        ((row + 1) as i32, (col + 1) as i32),
        ((row - 1) as i32, (col + 1) as i32),
        ((row + 1) as i32, (col - 1) as i32),
        ((row - 1) as i32, (col - 1) as i32),
        ((row - 1) as i32, col),
        (row, (col - 1) as i32),
        ((row + 1) as i32, col),
        (row, (col + 1) as i32),
    ]
}

/// The row direction in which pawns of `color` advance: white moves up (towards row 0).
pub open spec fn pawn_step(color: bool) -> int {
    if color == WHITE { -1 } else { 1 }
}

/// The two squares a pawn of `color` on `(row, col)` threatens.
pub open spec fn pawn_threat_targets(row: i32, col: i32, color: bool) -> Seq<(i32, i32)> {
    seq![
        ((row + pawn_step(color)) as i32, (col + 1) as i32),
        ((row + pawn_step(color)) as i32, (col - 1) as i32),
    ]
}

/// The coordinates stay within `i32` while the targets around `(row, col)`
/// at distance at most `d` are computed.
pub open spec fn offsets_fit(row: i32, col: i32, d: int) -> bool {
    fits_i32(row - d) && fits_i32(row + d) && fits_i32(col - d) && fits_i32(col + d)
}

/// A piece `p` of colour `color` on `(r, c)` attacks `(tr, tc)`.
pub open spec fn piece_attacks(types: Seq<Seq<Cell>>, p: Cell, r: int, c: int, color: bool, tr: int, tc: int) -> bool {
    match p {
        Cell::Pawn => listed(pawn_threat_targets(r as i32, c as i32, color), tr, tc),
        Cell::Knight => listed(knight_targets(r as i32, c as i32), tr, tc),
        Cell::Bishop => rays_attack(types, r, c, diagonal_dirs(), tr, tc),
        Cell::Rook => rays_attack(types, r, c, straight_dirs(), tr, tc),
        Cell::Queen => rays_attack(types, r, c, queen_dirs(), tr, tc),
        Cell::King => listed(king_targets(r as i32, c as i32), tr, tc),
        Cell::Empty => false,
    }
}

/// The piece on `(r, c)` belongs to the colour with index `k` and attacks `(tr, tc)`.
pub open spec fn attacks_from(
    types: Seq<Seq<Cell>>,
    colors: Seq<Seq<bool>>,
    r: int,
    c: int,
    k: int,
    tr: int,
    tc: int,
) -> bool {
    &&& in_bounds(r, c)
    &&& occupied(types, r, c)
    &&& color_index(colors[r][c]) == k
    &&& piece_attacks(types, types[r][c], r, c, colors[r][c], tr, tc)
}

/// Some piece of the colour with index `k` attacks `(tr, tc)`.
pub open spec fn attacked_by(types: Seq<Seq<Cell>>, colors: Seq<Seq<bool>>, k: int, tr: int, tc: int) -> bool {
    exists|r: int, c: int| #[trigger] attacks_from(types, colors, r, c, k, tr, tc)
}

/// Some piece among the first `n` squares (row-major) of the colour with
/// index `k` attacks `(tr, tc)`.
pub open spec fn attacked_before(types: Seq<Seq<Cell>>, colors: Seq<Seq<bool>>, k: int, tr: int, tc: int, n: int) -> bool {
    exists|r: int, c: int| r * 8 + c < n && #[trigger] attacks_from(types, colors, r, c, k, tr, tc)
}

/// The view after recomputing threats: the buffer of each colour holds
/// exactly the squares its pieces attack in this position; earlier threats
/// are discarded.
pub open spec fn with_threats(v: BoardView) -> BoardView {
    BoardView {
        threat: Seq::new(
            2,
            |k: int| Seq::new(8, |r: int| Seq::new(8, |c: int| attacked_by(v.types, v.colors, k, r, c))),
        ),
        ..v
    }
}

/// Entry `(k, r, c)` of the threat buffer.
pub open spec fn threat_at(b: Board_state, k: int, r: int, c: int) -> bool {
    b.threat_buff[k][r][c]
}

/// Two boards agree on everything but the threat buffer.
pub open spec fn same_but_threats(a: Board_state, b: Board_state) -> bool {
    &&& a._board_types == b._board_types
    &&& a._board_hasmoved == b._board_hasmoved
    &&& a._board_color == b._board_color
    &&& a.turn == b.turn
    &&& a.castling == b.castling
    &&& a.king_pos == b.king_pos
}

/// `after` is `before` with the squares satisfying `hit` added to the
/// threats of the colour with index `k`.
pub open spec fn threats_added(before: Board_state, after: Board_state, k: int, hit: spec_fn(int, int) -> bool) -> bool {
    &&& same_but_threats(before, after)
    &&& forall|kk: int, r: int, c: int|
        0 <= kk < 2 && in_bounds(r, c) ==> #[trigger] threat_at(after, kk, r, c) == (threat_at(before, kk, r, c)
            || (kk == k && hit(r, c)))
}

// ---------------------------------------------------------------------------
// Set-up
// ---------------------------------------------------------------------------

/// The pieces of a back rank, from column 0 to column 7.
pub open spec fn back_rank(c: int) -> Cell {
    seq![
        Cell::Rook,
        Cell::Knight,
        Cell::Bishop,
        Cell::Queen,
        Cell::King,
        Cell::Bishop,
        Cell::Knight,
        Cell::Rook,
    ][c]
}

/// The back rank of `color`: row 7 for white, row 0 for black.
pub open spec fn home_row(color: bool) -> int {
    if color == WHITE { 7 } else { 0 }
}

/// The row on which the pawns of `color` start.
pub open spec fn pawn_row(color: bool) -> int {
    if color == WHITE { 6 } else { 1 }
}

pub open spec fn start_piece(r: int, c: int) -> Cell {
    if r == 0 || r == 7 {
        back_rank(c)
    } else if r == 1 || r == 6 {
        Cell::Pawn
    } else {
        Cell::Empty
    }
}

pub open spec fn grid<T>(x: T) -> Seq<Seq<T>> {
    Seq::new(8, |r: int| Seq::new(8, |c: int| x))
}

/// A board with no pieces, no threats, white to move, both king positions at `(0, 0)`.
pub open spec fn blank_view() -> BoardView {
    BoardView {
        types: grid(Cell::Empty),
        colors: grid(WHITE),
        moved: grid(false),
        threat: seq![grid(false), grid(false)],
        turn: WHITE,
        castling: seq![false, false],
        king_pos: seq![(0usize, 0usize), (0usize, 0usize)],
    }
}

/// The opening position before threats are computed: black on rows 0 and 1,
/// white on rows 6 and 7, white to move.
pub open spec fn start_position() -> BoardView {
    BoardView {
        types: Seq::new(8, |r: int| Seq::new(8, |c: int| start_piece(r, c))),
        colors: Seq::new(8, |r: int| Seq::new(8, |c: int| if r <= 1 { BLACK } else { WHITE })),
        moved: grid(false),
        threat: seq![grid(false), grid(false)],
        turn: WHITE,
        castling: seq![false, false],
        king_pos: seq![(7usize, 4usize), (0usize, 4usize)],
    }
}

// ---------------------------------------------------------------------------
// Making moves
// ---------------------------------------------------------------------------

pub open spec fn square_in_bounds(sq: (i32, i32)) -> bool {
    in_bounds(sq.0 as int, sq.1 as int)
}

pub open spec fn move_in_bounds(mv: Move) -> bool {
    square_in_bounds(mv.from) && square_in_bounds(mv.to)
}

/// The kinds of move that `make_move` carries out.
pub open spec fn playable_type(t: Move_type) -> bool {
    t is Move || t is Capture || t is Promotion
}

pub open spec fn set2<T>(s: Seq<Seq<T>>, r: int, c: int, x: T) -> Seq<Seq<T>> {
    s.update(r, s[r].update(c, x))
}

/// The board after the piece on `mv.from` is moved onto `mv.to`: the target
/// square gets the piece, then the origin is cleared (so a move onto its own
/// square empties it). A moving king updates the king position of `mv.color`.
pub open spec fn moved_view(v: BoardView, mv: Move) -> BoardView {
    let fr = mv.from.0 as int;
    let fc = mv.from.1 as int;
    let tr = mv.to.0 as int;
    let tc = mv.to.1 as int;
    BoardView {
        types: set2(set2(v.types, tr, tc, v.types[fr][fc]), fr, fc, Cell::Empty),
        colors: set2(set2(v.colors, tr, tc, v.colors[fr][fc]), fr, fc, WHITE),
        moved: set2(set2(v.moved, tr, tc, true), fr, fc, false),
        king_pos: if v.types[fr][fc] == Cell::King {
            v.king_pos.update(color_index(mv.color), (mv.to.0 as usize, mv.to.1 as usize))
        } else {
            v.king_pos
        },
        ..v
    }
}

/// A promotion: the move, then the target square holds `promo`.
pub open spec fn promoted_view(v: BoardView, mv: Move, promo: Cell) -> BoardView {
    let m = moved_view(v, mv);
    BoardView { types: set2(m.types, mv.to.0 as int, mv.to.1 as int, promo), ..m }
}

/// The board after `make_move`: the pieces move, threats are recomputed and
/// the turn passes.
pub open spec fn played_view(v: BoardView, mv: Move) -> BoardView {
    let m = if mv.typ is Promotion { promoted_view(v, mv, mv.promo_type) } else { moved_view(v, mv) };
    let t = with_threats(m);
    BoardView { turn: !t.turn, ..t }
}

/// The king of `color` stands on a square of the board.
pub open spec fn king_square_ok(v: BoardView, color: bool) -> bool {
    let kp = v.king_pos[color_index(color)];
    kp.0 < 8 && kp.1 < 8
}

/// The king of `color` stands on a square threatened by the other colour.
pub open spec fn spec_scheck(v: BoardView, color: bool) -> bool {
    let kp = v.king_pos[color_index(color)];
    v.threat[color_index(!color)][kp.0 as int][kp.1 as int]
}

/// The two quick refusals of `move_check`: a king stepping onto a threatened
/// square, and any move onto a king.
pub open spec fn rejects_early(v: BoardView, mv: Move) -> bool {
    ||| v.piece(mv.from.0 as int, mv.from.1 as int) == Cell::King
        && v.threat[color_index(!mv.color)][mv.to.0 as int][mv.to.1 as int]
    ||| v.piece(mv.to.0 as int, mv.to.1 as int) == Cell::King
}

/// What `move_check` answers: the move is not refused early and, once played,
/// does not leave the mover's king threatened.
pub open spec fn spec_move_check(v: BoardView, mv: Move) -> bool {
    !rejects_early(v, mv) && !spec_scheck(played_view(v, mv), mv.color)
}

/// `move_check` runs to completion on `mv`.
pub open spec fn check_safe(v: BoardView, mv: Move) -> bool {
    &&& move_in_bounds(mv)
    &&& (rejects_early(v, mv) || (playable_type(mv.typ) && king_square_ok(played_view(v, mv), mv.color)))
}

// ---------------------------------------------------------------------------
// Creating moves
// ---------------------------------------------------------------------------

/// The kind of a move from `from` to `to`, if a move may be created there.
/// A pawn reaching its last row is promoted, whether or not it captures.
pub open spec fn spec_move_type(v: BoardView, from: (i32, i32), to: (i32, i32)) -> Option<Move_type> {
    let fp = v.piece(from.0 as int, from.1 as int);
    let tp = v.piece(to.0 as int, to.1 as int);
    let fcolor = v.color_at(from.0 as int, from.1 as int);
    if fp == Cell::Empty {
        None
    } else if tp != Cell::Empty && v.color_at(to.0 as int, to.1 as int) == fcolor {
        None
    } else if fp == Cell::Pawn && ((to.0 == 0 && fcolor == WHITE) || (to.0 == 7 && fcolor == BLACK)) {
        Some(Move_type::Promotion)
    } else if tp == Cell::Empty {
        Some(Move_type::Move)
    } else {
        Some(Move_type::Capture)
    }
}

pub open spec fn spec_create_move(v: BoardView, from: (i32, i32), to: (i32, i32), promo: Cell) -> Option<Move> {
    match spec_move_type(v, from, to) {
        Some(t) => Some(
            Move { from, to, typ: t, color: v.color_at(from.0 as int, from.1 as int), promo_type: promo },
        ),
        None => None,
    }
}

/// The entry with which move buffers are filled.
pub open spec fn default_move() -> Move {
    Move { from: (0, 0), to: (0, 0), typ: Move_type::Move, color: false, promo_type: Cell::Empty }
}

pub open spec fn default_buffer() -> Seq<Move> {
    Seq::new(32, |i: int| default_move())
}

/// `buf` with its first entries replaced by `s`.
pub open spec fn overwrite(buf: Seq<Move>, s: Seq<Move>) -> Seq<Move> {
    s + buf.skip(s.len() as int)
}

/// The moves from `from` onto the on-board squares of `li` that can be created,
/// in the order of `li`.
pub open spec fn static_moves(v: BoardView, from: (i32, i32), li: Seq<(i32, i32)>) -> Seq<Move>
    decreases li.len(),
{
    if li.len() == 0 {
        Seq::empty()
    } else {
        let prev = static_moves(v, from, li.drop_last());
        let t = li.last();
        if square_in_bounds(t) && spec_create_move(v, from, t, Cell::Empty) is Some {
            prev.push(spec_create_move(v, from, t, Cell::Empty)->0)
        } else {
            prev
        }
    }
}

/// `generate_moves_simple_static` reads the origin square whenever some target
/// is on the board.
pub open spec fn static_safe(from: (i32, i32), li: Seq<(i32, i32)>) -> bool {
    square_in_bounds(from) || forall|i: int| 0 <= i < li.len() ==> !square_in_bounds(#[trigger] li[i])
}

/// The move a slider on `from` makes onto `(r, c)`.
pub open spec fn ray_move(v: BoardView, from: (i32, i32), r: int, c: int) -> Move {
    Move {
        from,
        to: (r as i32, c as i32),
        typ: spec_move_type(v, from, (r as i32, c as i32))->0,
        color: v.color_at(from.0 as int, from.1 as int),
        promo_type: Cell::Empty,
    }
}

/// The moves of a slider on `from` along a ray that visits `(r, c)` next:
/// onto empty squares, and onto the first occupied square if it holds the
/// other colour.
pub open spec fn ray_moves(v: BoardView, from: (i32, i32), r: int, c: int, d0: int, d1: int) -> Seq<Move>
    decreases ray_measure(r, c, d0, d1),
{
    if !in_bounds(r, c) {
        Seq::empty()
    } else if v.is_occupied(r, c) && v.color_at(r, c) == v.color_at(from.0 as int, from.1 as int) {
        Seq::empty()
    } else if v.is_occupied(r, c) || (d0 == 0 && d1 == 0) {
        seq![ray_move(v, from, r, c)]
    } else {
        seq![ray_move(v, from, r, c)] + ray_moves(v, from, r + d0, c + d1, d0, d1)
    }
}

/// The moves of a slider on `from` in direction `dir`.
pub open spec fn dir_moves(v: BoardView, from: (i32, i32), dir: (i32, i32)) -> Seq<Move> {
    ray_moves(v, from, from.0 + dir.0, from.1 + dir.1, dir.0 as int, dir.1 as int)
}

/// `generate_moves_simple_dir` runs to completion: the origin is on the board,
/// a piece stands there or no move is produced, and no coordinate leaves `i32`.
pub open spec fn dir_safe(v: BoardView, from: (i32, i32), dir: (i32, i32)) -> bool {
    let f0 = from.0 + dir.0;
    let f1 = from.1 + dir.1;
    &&& square_in_bounds(from)
    &&& (v.is_occupied(from.0 as int, from.1 as int) || dir_moves(v, from, dir).len() == 0)
    &&& fits_i32(f0) && fits_i32(f1)
    &&& (in_bounds(f0, f1) && !(v.is_occupied(f0, f1) && v.color_at(f0, f1) == v.color_at(from.0 as int, from.1 as int)))
            ==> fits_i32(f0 + dir.0) && fits_i32(f1 + dir.1)
}

/// The buffer after a slider's generator has written the moves of each
/// direction of `dirs` in turn, each from the start of the buffer.
pub open spec fn slider_buffer(v: BoardView, from: (i32, i32), dirs: Seq<(i32, i32)>, buf: Seq<Move>) -> Seq<Move>
    decreases dirs.len(),
{
    if dirs.len() == 0 {
        buf
    } else {
        overwrite(slider_buffer(v, from, dirs.drop_last(), buf), dir_moves(v, from, dirs.last()))
    }
}

/// The count a slider's generator reports: the sum over the directions.
pub open spec fn slider_count(v: BoardView, from: (i32, i32), dirs: Seq<(i32, i32)>) -> int
    decreases dirs.len(),
{
    if dirs.len() == 0 {
        0
    } else {
        slider_count(v, from, dirs.drop_last()) + dir_moves(v, from, dirs.last()).len()
    }
}

pub open spec fn diagonal_dirs() -> Seq<(i32, i32)> {
    seq![(-1i32, -1i32), (-1i32, 1i32), (1i32, -1i32), (1i32, 1i32)]
}

pub open spec fn straight_dirs() -> Seq<(i32, i32)> {
    seq![(1i32, 0i32), (-1i32, 0i32), (0i32, 1i32), (0i32, -1i32)]
}

pub open spec fn queen_dirs() -> Seq<(i32, i32)> {
    straight_dirs() + diagonal_dirs()
}

/// The target list of a pawn on `(row, col)`; `(-1, -1)` marks an unused slot.
pub open spec fn pawn_targets(v: BoardView, row: i32, col: i32) -> Seq<(i32, i32)> {
    let inc = pawn_step(v.color_at(row as int, col as int));
    let n1 = row + inc;
    let n2 = row + 2 * inc;
    let unused = (-1i32, -1i32);
    if !(0 <= n1 < 8) {
        seq![unused, unused, unused, unused]
    } else {
        seq![
            if !v.is_occupied(n1, col as int) { (n1 as i32, col) } else { unused },
            if 0 <= n2 < 8 && !v.moved[row as int][col as int] && !v.is_occupied(n2, col as int) {
                (n2 as i32, col)
            } else {
                unused
            },
            if 0 <= col - 1 < 8 && v.is_occupied(n1, col - 1) { (n1 as i32, (col - 1) as i32) } else { unused },
            if 0 <= col + 1 < 8 && v.is_occupied(n1, col + 1) { (n1 as i32, (col + 1) as i32) } else { unused },
        ]
    }
}

/// The squares a pawn on `(row, col)` moves to, provided the square one step
/// forward is on the board: one step forward onto an empty square, two steps
/// forward onto an empty square while the pawn has not moved (whatever stands
/// in between), and one step diagonally forward onto a piece of the other colour.
pub open spec fn pawn_destination(v: BoardView, row: int, col: int, tr: int, tc: int) -> bool {
    let color = v.color_at(row, col);
    let n1 = row + pawn_step(color);
    &&& 0 <= n1 < 8
    &&& in_bounds(tr, tc)
    &&& {
        ||| tr == n1 && tc == col && !v.is_occupied(tr, tc)
        ||| tr == row + 2 * pawn_step(color) && tc == col && !v.moved[row][col] && !v.is_occupied(tr, tc)
        ||| tr == n1 && (tc == col - 1 || tc == col + 1) && v.is_occupied(tr, tc) && v.color_at(tr, tc) != color
    }
}

/// The buffer and count that the generator of the piece on `cell` leaves,
/// starting from `buf`.
pub open spec fn generated(v: BoardView, cell: (i32, i32), buf: Seq<Move>) -> (Seq<Move>, int) {
    let (row, col) = cell;
    match v.piece(row as int, col as int) {
        Cell::Queen => (slider_buffer(v, cell, queen_dirs(), buf), slider_count(v, cell, queen_dirs())),
        Cell::Bishop => (slider_buffer(v, cell, diagonal_dirs(), buf), slider_count(v, cell, diagonal_dirs())),
        Cell::Rook => (slider_buffer(v, cell, straight_dirs(), buf), slider_count(v, cell, straight_dirs())),
        Cell::King => {
            let s = static_moves(v, cell, king_targets(row, col));
            (overwrite(buf, s), s.len() as int)
        },
        Cell::Knight => {
            let s = static_moves(v, cell, knight_targets(row, col));
            (overwrite(buf, s), s.len() as int)
        },
        Cell::Pawn => {
            let s = static_moves(v, cell, pawn_targets(v, row, col));
            (overwrite(buf, s), s.len() as int)
        },
        Cell::Empty => (buf, 0),
    }
}

/// The moves of `s` that pass `move_check`, in order.
pub open spec fn checked_moves(v: BoardView, s: Seq<Move>) -> Seq<Move>
    decreases s.len(),
{
    if s.len() == 0 {
        Seq::empty()
    } else {
        let prev = checked_moves(v, s.drop_last());
        if spec_move_check(v, s.last()) { prev.push(s.last()) } else { prev }
    }
}

/// The generated candidates for the piece on `cell`: the first entries of a
/// fresh buffer after the piece's generator ran. For a slider these entries
/// can include leftovers of earlier directions and the buffer's null moves,
/// since each direction is written from the start of the buffer.
pub open spec fn candidates(v: BoardView, cell: (i32, i32)) -> Seq<Move> {
    let g = generated(v, cell, default_buffer());
    g.0.take(g.1)
}

/// The entries `get_move_list` lists for the piece on `cell`: the candidates
/// that pass `move_check`, in order (not necessarily moves of that piece, see
/// `candidates`).
pub open spec fn listed_moves(v: BoardView, cell: (i32, i32)) -> Seq<Move> {
    checked_moves(v, candidates(v, cell))
}

/// `get_move_list` runs to completion on `cell`.
pub open spec fn list_safe(v: BoardView, cell: (i32, i32)) -> bool {
    &&& square_in_bounds(cell)
    &&& forall|i: int| 0 <= i < candidates(v, cell).len() ==> check_safe(v, #[trigger] candidates(v, cell)[i])
}

/// Each direction of `dirs` passes `dir_safe` for a slider on `from`.
pub open spec fn slider_safe(v: BoardView, from: (i32, i32), dirs: Seq<(i32, i32)>) -> bool {
    forall|i: int| 0 <= i < dirs.len() ==> dir_safe(v, from, #[trigger] dirs[i])
}

/// The cell with row-major index `n`.
pub open spec fn cell_of(n: int) -> (i32, i32) {
    ((n / 8) as i32, (n % 8) as i32)
}

/// The piece on `cell` belongs to `color` (an empty square belongs to nobody).
pub open spec fn owned_by(v: BoardView, cell: (i32, i32), color: bool) -> bool {
    v.is_occupied(cell.0 as int, cell.1 as int) && v.color_at(cell.0 as int, cell.1 as int) == color
}

/// No piece of `color` among the first `n` cells (row-major) has a listed move.
pub open spec fn color_stuck_before(v: BoardView, color: bool, n: int) -> bool {
    forall|m: int| 0 <= m < n && #[trigger] owned_by(v, cell_of(m), color) ==> listed_moves(v, cell_of(m)).len() == 0
}

/// No piece among the first `n` cells (row-major) has a listed move.
pub open spec fn all_stuck_before(v: BoardView, n: int) -> bool {
    forall|m: int| 0 <= m < n && #[trigger] v.is_occupied(cell_of(m).0 as int, cell_of(m).1 as int)
        ==> listed_moves(v, cell_of(m)).len() == 0
}

// ---------------------------------------------------------------------------
// Facts about the definitions
// ---------------------------------------------------------------------------

pub(crate) proof fn lemma_static_moves_prefix(v: BoardView, from: (i32, i32), s: Seq<(i32, i32)>, i: int)
    requires
        0 <= i <= s.len(),
    ensures
        static_moves(v, from, s.take(i)).len() <= static_moves(v, from, s).len(),
        static_moves(v, from, s).len() <= s.len(),
    decreases s.len(),
{
    if s.len() > 0 {
        if i == s.len() {
            assert(s.take(i) =~= s);
            lemma_static_moves_prefix(v, from, s.drop_last(), 0);
        } else {
            assert(s.take(i) =~= s.drop_last().take(i));
            lemma_static_moves_prefix(v, from, s.drop_last(), i);
        }
    }
}

/// A ray in a non-null direction yields at most as many moves as it has squares left.
pub(crate) proof fn lemma_ray_moves_len(v: BoardView, from: (i32, i32), r: int, c: int, d0: int, d1: int)
    ensures
        ray_moves(v, from, r, c, d0, d1).len() <= if d0 == 0 && d1 == 0 { 1 } else { ray_measure(r, c, d0, d1) },
        ray_moves(v, from, r, c, d0, d1).len() <= 8,
    decreases ray_measure(r, c, d0, d1),
{
    if in_bounds(r, c) && !(d0 == 0 && d1 == 0) && !v.is_occupied(r, c) {
        lemma_ray_moves_len(v, from, r + d0, c + d1, d0, d1);
    }
}

/// The number of moves of a slider along a unit direction is bounded by the
/// distance from `from` to the edge of the board in that direction.
pub(crate) proof fn lemma_unit_dir_len(v: BoardView, from: (i32, i32), dir: (i32, i32))
    requires
        square_in_bounds(from),
        -1 <= dir.0 <= 1,
        -1 <= dir.1 <= 1,
        !(dir.0 == 0 && dir.1 == 0),
    ensures
        dir.0 == 1 ==> dir_moves(v, from, dir).len() <= 7 - from.0,
        dir.0 == -1 ==> dir_moves(v, from, dir).len() <= from.0,
        dir.0 == 0 && dir.1 == 1 ==> dir_moves(v, from, dir).len() <= 7 - from.1,
        dir.0 == 0 && dir.1 == -1 ==> dir_moves(v, from, dir).len() <= from.1,
{
    lemma_ray_moves_len(v, from, from.0 + dir.0, from.1 + dir.1, dir.0 as int, dir.1 as int);
}

/// The generators never report more moves than a buffer holds.
pub(crate) proof fn lemma_slider_counts(v: BoardView, from: (i32, i32))
    requires
        square_in_bounds(from),
    ensures
        0 <= slider_count(v, from, diagonal_dirs()) <= 14,
        0 <= slider_count(v, from, straight_dirs()) <= 14,
        0 <= slider_count(v, from, queen_dirs()) <= 28,
{
    lemma_unit_dir_len(v, from, (-1i32, -1i32));
    lemma_unit_dir_len(v, from, (-1i32, 1i32));
    lemma_unit_dir_len(v, from, (1i32, -1i32));
    lemma_unit_dir_len(v, from, (1i32, 1i32));
    lemma_unit_dir_len(v, from, (1i32, 0i32));
    lemma_unit_dir_len(v, from, (-1i32, 0i32));
    lemma_unit_dir_len(v, from, (0i32, 1i32));
    lemma_unit_dir_len(v, from, (0i32, -1i32));
    reveal_with_fuel(slider_count, 9);
    assert(diagonal_dirs().drop_last().drop_last().drop_last().drop_last() =~= Seq::<(i32, i32)>::empty());
    assert(straight_dirs().drop_last().drop_last().drop_last().drop_last() =~= Seq::<(i32, i32)>::empty());
    assert(queen_dirs().drop_last().drop_last().drop_last().drop_last() =~= straight_dirs());
}

/// A slider standing on the board passes `slider_safe` for unit directions.
pub(crate) proof fn lemma_unit_dirs_safe(v: BoardView, from: (i32, i32), dirs: Seq<(i32, i32)>)
    requires
        square_in_bounds(from),
        v.is_occupied(from.0 as int, from.1 as int),
        forall|i: int| 0 <= i < dirs.len() ==> -1 <= #[trigger] dirs[i].0 <= 1 && -1 <= dirs[i].1 <= 1,
    ensures
        slider_safe(v, from, dirs),
{
}

/// A move that stays on the board and that `make_move` carries out.
pub open spec fn sane_move(mv: Move) -> bool {
    move_in_bounds(mv) && playable_type(mv.typ)
}

pub open spec fn all_sane(s: Seq<Move>) -> bool {
    forall|i: int| 0 <= i < s.len() ==> sane_move(#[trigger] s[i])
}

proof fn lemma_overwrite_sane(buf: Seq<Move>, s: Seq<Move>)
    requires
        all_sane(buf),
        all_sane(s),
        s.len() <= buf.len(),
    ensures
        all_sane(overwrite(buf, s)),
        overwrite(buf, s).len() == buf.len(),
{
    assert forall|i: int| 0 <= i < overwrite(buf, s).len() implies sane_move(#[trigger] overwrite(buf, s)[i]) by {
        if i >= s.len() {
            assert(overwrite(buf, s)[i] == buf[i]);
        }
    }
}

proof fn lemma_static_moves_sane(v: BoardView, from: (i32, i32), li: Seq<(i32, i32)>)
    requires
        square_in_bounds(from),
    ensures
        all_sane(static_moves(v, from, li)),
    decreases li.len(),
{
    if li.len() > 0 {
        lemma_static_moves_sane(v, from, li.drop_last());
    }
}

proof fn lemma_ray_moves_sane(v: BoardView, from: (i32, i32), r: int, c: int, d0: int, d1: int)
    requires
        square_in_bounds(from),
        v.is_occupied(from.0 as int, from.1 as int),
    ensures
        all_sane(ray_moves(v, from, r, c, d0, d1)),
    decreases ray_measure(r, c, d0, d1),
{
    if in_bounds(r, c) && !v.is_occupied(r, c) && !(d0 == 0 && d1 == 0) {
        lemma_ray_moves_sane(v, from, r + d0, c + d1, d0, d1);
    }
}

proof fn lemma_slider_buffer_sane(v: BoardView, from: (i32, i32), dirs: Seq<(i32, i32)>, buf: Seq<Move>)
    requires
        square_in_bounds(from),
        v.is_occupied(from.0 as int, from.1 as int),
        all_sane(buf),
        buf.len() >= 8,
    ensures
        all_sane(slider_buffer(v, from, dirs, buf)),
        slider_buffer(v, from, dirs, buf).len() == buf.len(),
    decreases dirs.len(),
{
    if dirs.len() > 0 {
        lemma_slider_buffer_sane(v, from, dirs.drop_last(), buf);
        let d = dirs.last();
        lemma_ray_moves_sane(v, from, from.0 + d.0, from.1 + d.1, d.0 as int, d.1 as int);
        lemma_ray_moves_len(v, from, from.0 + d.0, from.1 + d.1, d.0 as int, d.1 as int);
        lemma_overwrite_sane(slider_buffer(v, from, dirs.drop_last(), buf), dir_moves(v, from, d));
    }
}

proof fn lemma_sane_check_safe(v: BoardView, mv: Move)
    requires
        sane_move(mv),
        v.king_pos.len() == 2,
        king_square_ok(v, WHITE),
        king_square_ok(v, BLACK),
    ensures
        check_safe(v, mv),
{
    let m = if mv.typ is Promotion { promoted_view(v, mv, mv.promo_type) } else { moved_view(v, mv) };
    assert(m.king_pos == moved_view(v, mv).king_pos);
    assert(played_view(v, mv).king_pos == m.king_pos);
    assert(king_square_ok(v, mv.color));
}

/// On a board whose two king positions are squares of the board, the move
/// listing of every square runs to completion.
pub proof fn lemma_list_safe(v: BoardView, cell: (i32, i32))
    requires
        square_in_bounds(cell),
        v.king_pos.len() == 2,
        king_square_ok(v, WHITE),
        king_square_ok(v, BLACK),
    ensures
        list_safe(v, cell),
{
    let g = generated(v, cell, default_buffer());
    let (row, col) = cell;
    assert(all_sane(default_buffer()));
    match v.piece(row as int, col as int) {
        Cell::Queen => lemma_slider_buffer_sane(v, cell, queen_dirs(), default_buffer()),
        Cell::Bishop => lemma_slider_buffer_sane(v, cell, diagonal_dirs(), default_buffer()),
        Cell::Rook => lemma_slider_buffer_sane(v, cell, straight_dirs(), default_buffer()),
        Cell::King => {
            lemma_static_moves_sane(v, cell, king_targets(row, col));
            lemma_static_moves_prefix(v, cell, king_targets(row, col), 0);
            lemma_overwrite_sane(default_buffer(), static_moves(v, cell, king_targets(row, col)));
        },
        Cell::Knight => {
            lemma_static_moves_sane(v, cell, knight_targets(row, col));
            lemma_static_moves_prefix(v, cell, knight_targets(row, col), 0);
            lemma_overwrite_sane(default_buffer(), static_moves(v, cell, knight_targets(row, col)));
        },
        Cell::Pawn => {
            lemma_static_moves_sane(v, cell, pawn_targets(v, row, col));
            lemma_static_moves_prefix(v, cell, pawn_targets(v, row, col), 0);
            lemma_overwrite_sane(default_buffer(), static_moves(v, cell, pawn_targets(v, row, col)));
        },
        Cell::Empty => {},
    }
    lemma_slider_counts(v, cell);
    assert(all_sane(g.0));
    assert(g.0.len() == 32);
    assert(g.1 <= 32);
    let cands = candidates(v, cell);
    assert(0 <= g.1);
    assert forall|i: int| 0 <= i < cands.len() implies check_safe(v, #[trigger] cands[i]) by {
        assert(cands[i] == g.0[i]);
        assert(sane_move(g.0[i]));
        lemma_sane_check_safe(v, cands[i]);
    }
}

} // verus!
