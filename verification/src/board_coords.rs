//! Numbering of board squares: square `x + 8 * y` is column `x` of row `y`.

use vstd::prelude::*;

verus! {

/// The number of the square in column `xy.0` of row `xy.1`, truncated to 32 bits.
pub fn xy_to_square(xy: (usize, usize)) -> (r: u32)
    requires
        xy.0 + xy.1 * 8 <= usize::MAX,
    ensures
        r == (xy.0 + xy.1 * 8) as u32,
        xy.0 + xy.1 * 8 <= u32::MAX ==> r == xy.0 + xy.1 * 8,
{
    (xy.0 + xy.1 * 8) as u32
}

/// The column and row of square `s`: `(s % 8, s / 8)`.
pub fn square_to_xy(s: u32) -> (r: (usize, usize))
    requires
        s < 0x100_0000,
    ensures
        r == ((s % 8) as usize, (s / 8) as usize),
{
    let y = (s / 8) as usize;
    let x = (s % 8) as usize;
    (x, y)
}

/// Reading back the number of a square gives its column and row again.
pub proof fn law_square_roundtrip(x: usize, y: usize)
    requires
        x < 8,
        y < 0x20_0000,
    ensures
        ({
            let s = (x + y * 8) as u32;
            &&& s < 0x100_0000
            &&& ((s % 8) as usize, (s / 8) as usize) == (x, y)
        }),
{
    assert(x + y * 8 < 0x100_0000);
    assert((x + y * 8) % 8 == x && (x + y * 8) / 8 == y) by (nonlinear_arith)
        requires
            x < 8,
            y < 0x20_0000,
    ;
}

} // verus!
