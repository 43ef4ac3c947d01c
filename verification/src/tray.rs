//! The tray icon's picture.

use vstd::prelude::*;

verus! {

/// The icon is this many pixels wide and high.
pub const ICON_SIZE: u32 = 32;

/// The smaller of two numbers.
pub open spec fn min_int(a: int, b: int) -> int {
    if a < b {
        a
    } else {
        b
    }
}

/// Byte `i` of the icon's RGBA pixels, row by row: a teal gradient whose red
/// and blue rise with the column and whose green rises with the row, opaque.
pub open spec fn icon_byte(i: int) -> int {
    let p = i / 4;
    let x = p % 32;
    let y = p / 32;
    let c = i % 4;
    if c == 0 {
        min_int(2 * x, 60)
    } else if c == 1 {
        140 + min_int(3 * y, 115)
    } else if c == 2 {
        180 + min_int(2 * x, 75)
    } else {
        255
    }
}

proof fn lemma_position(y: int, x: int, c: int)
    requires
        0 <= y < 32,
        0 <= x < 32,
        0 <= c < 4,
    ensures
        (4 * (32 * y + x) + c) / 4 == 32 * y + x,
        (4 * (32 * y + x) + c) % 4 == c,
        (32 * y + x) % 32 == x,
        (32 * y + x) / 32 == y,
{
}

/// The icon's 32 by 32 RGBA pixels (see `icon_byte`).
pub fn tray_icon_rgba() -> (r: Vec<u8>)
    ensures
        r@.len() == 4096,
        forall|i: int| 0 <= i < 4096 ==> #[trigger] r@[i] as int == icon_byte(i),
{
    let mut data: Vec<u8> = Vec::new();
    let mut y: u8 = 0;
    while y < 32
        invariant
            y <= 32,
            data@.len() == 128 * y,
            forall|i: int| 0 <= i < data@.len() ==> #[trigger] data@[i] as int == icon_byte(i),
        decreases 32 - y,
    {
        let mut x: u8 = 0;
        while x < 32
            invariant
                y < 32,
                x <= 32,
                data@.len() == 128 * y + 4 * x,
                forall|i: int| 0 <= i < data@.len() ==> #[trigger] data@[i] as int == icon_byte(i),
            decreases 32 - x,
        {
            let red: u8 = if x * 2 < 60 { x * 2 } else { 60 };
            let green: u8 = 140 + if y * 3 < 115 { y * 3 } else { 115 };
            let blue: u8 = 180 + if x * 2 < 75 { x * 2 } else { 75 };
            let base = data.len();
            proof {
                lemma_position(y as int, x as int, 0);
                lemma_position(y as int, x as int, 1);
                lemma_position(y as int, x as int, 2);
                lemma_position(y as int, x as int, 3);
                assert(base == 4 * (32 * y + x));
            }
            data.push(red);
            data.push(green);
            data.push(blue);
            data.push(255);
            x = x + 1;
        }
        y = y + 1;
    }
    data
}

} // verus!
