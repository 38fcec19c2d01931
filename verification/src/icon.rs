//! The application icon, drawn in code: a blue square with a dark border.

use vstd::prelude::*;

verus! {

/// Side of the icon in pixels.
pub const ICON_SIDE: u32 = 32;

/// Width of the border in pixels.
pub const ICON_BORDER: u32 = 3;

/// Is pixel `(x, y)` on the border?
pub open spec fn on_border(x: int, y: int) -> bool {
    x < 3 || y < 3 || x >= 29 || y >= 29
}

/// Byte `c` (red, green, blue, alpha) of pixel `(x, y)`.
pub open spec fn pixel_byte(x: int, y: int, c: int) -> u8 {
    if c == 3 {
        255
    } else if on_border(x, y) {
        if c == 0 {
            30
        } else if c == 1 {
            58
        } else {
            95
        }
    } else {
        if c == 0 {
            59
        } else if c == 1 {
            130
        } else {
            246
        }
    }
}

/// The icon as RGBA bytes, row by row: 32×32 pixels of 4 bytes each.
pub fn icon_rgba() -> (v: Vec<u8>)
    ensures
        v@.len() == 4096,
        forall|y: int, x: int, c: int|
            0 <= y < 32 && 0 <= x < 32 && 0 <= c < 4 ==> #[trigger] v@[128 * y + 4 * x + c] == pixel_byte(
                x,
                y,
                c,
            ),
{
    let mut v: Vec<u8> = Vec::new();
    let mut y: u32 = 0;
    while y < ICON_SIDE
        invariant
            y <= 32,
            v@.len() == 128 * y,
            forall|yy: int, x: int, c: int|
                0 <= yy < y && 0 <= x < 32 && 0 <= c < 4 ==> #[trigger] v@[128 * yy + 4 * x + c]
                    == pixel_byte(x, yy, c),
        decreases 32 - y,
    {
        let mut x: u32 = 0;
        while x < ICON_SIDE
            invariant
                y < 32,
                x <= 32,
                v@.len() == 128 * y + 4 * x,
                forall|yy: int, xx: int, c: int|
                    0 <= yy < y && 0 <= xx < 32 && 0 <= c < 4 ==> #[trigger] v@[128 * yy + 4 * xx + c]
                        == pixel_byte(xx, yy, c),
                forall|xx: int, c: int|
                    0 <= xx < x && 0 <= c < 4 ==> #[trigger] v@[128 * y + 4 * xx + c] == pixel_byte(
                        xx,
                        y as int,
                        c,
                    ),
            decreases 32 - x,
        {
            let border = x < ICON_BORDER || y < ICON_BORDER || x >= ICON_SIDE - ICON_BORDER || y
                >= ICON_SIDE - ICON_BORDER;
            let (r, g, b): (u8, u8, u8) = if border {
                (30, 58, 95)
            } else {
                (59, 130, 246)
            };
            let ghost before = v@;
            v.push(r);
            v.push(g);
            v.push(b);
            v.push(255);
            assert forall|xx: int, c: int|
                0 <= xx < x + 1 && 0 <= c < 4 implies #[trigger] v@[128 * y + 4 * xx + c] == pixel_byte(
                xx,
                y as int,
                c,
            ) by {
                if xx < x {
                    assert(v@[128 * y + 4 * xx + c] == before[128 * y + 4 * xx + c]);
                }
            }
            assert forall|yy: int, xx: int, c: int|
                0 <= yy < y && 0 <= xx < 32 && 0 <= c < 4 implies #[trigger] v@[128 * yy + 4 * xx + c]
                    == pixel_byte(xx, yy, c) by {
                assert(128 * yy + 4 * xx + c < 128 * y) by (nonlinear_arith)
                    requires
                        0 <= yy < y,
                        0 <= xx < 32,
                        0 <= c < 4,
                ;
                assert(v@[128 * yy + 4 * xx + c] == before[128 * yy + 4 * xx + c]);
            }
            x = x + 1;
        }
        proof {
            assert forall|yy: int, xx: int, c: int|
                0 <= yy < y + 1 && 0 <= xx < 32 && 0 <= c < 4 implies #[trigger] v@[128 * yy + 4 * xx + c]
                    == pixel_byte(xx, yy, c) by {
                if yy == y {
                    assert(v@[128 * y + 4 * xx + c] == pixel_byte(xx, y as int, c));
                }
            }
        }
        y = y + 1;
    }
    v
}

} // verus!
