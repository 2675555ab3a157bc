//! Colours as four 8-bit channels: red, green, blue, alpha.
use vstd::prelude::*;
use crate::text::push_char;

verus! {

/// Whether two colours have the same red, green and blue.
pub fn compare_rgb(a: [u8; 4], b: [u8; 4]) -> (r: bool)
    ensures
        r == (a@.take(3) == b@.take(3)),
{
    let r = a[0] == b[0] && a[1] == b[1] && a[2] == b[2];
    proof {
        if r {
            assert(a@.take(3) =~= b@.take(3));
        } else {
            assert(a@.take(3)[0] != b@.take(3)[0] || a@.take(3)[1] != b@.take(3)[1] || a@.take(3)[2]
                != b@.take(3)[2]);
        }
    }
    r
}

/// Copies red, green and blue of `b` into `a`, keeping the alpha of `a`.
pub fn set_rgb(a: &mut [u8; 4], b: [u8; 4])
    ensures
        final(a)@ == seq![b[0], b[1], b[2], old(a)[3]],
{
    a[0] = b[0];
    a[1] = b[1];
    a[2] = b[2];
    assert(a@ =~= seq![b[0], b[1], b[2], old(a)[3]]);
}

/// The colour with red, green and blue inverted and the same alpha.
pub fn invert(a: [u8; 4]) -> (r: [u8; 4])
    ensures
        r@ == seq![(255 - a[0]) as u8, (255 - a[1]) as u8, (255 - a[2]) as u8, a[3]],
{
    let mut r = a;
    r[0] = 255 - a[0];
    r[1] = 255 - a[1];
    r[2] = 255 - a[2];
    assert(r@ =~= seq![(255 - a[0]) as u8, (255 - a[1]) as u8, (255 - a[2]) as u8, a[3]]);
    r
}

/// The upper-case hexadecimal digit for a value below 16.
pub open spec fn hex_digit(v: u8) -> char {
    if v < 10 {
        (48 + v) as char
    } else {
        (55 + v) as char
    }
}

/// Two upper-case hexadecimal digits for a byte.
pub open spec fn hex_byte(b: u8) -> Seq<char> {
    seq![hex_digit(b / 16), hex_digit(b % 16)]
}

fn digit_char(v: u8) -> (c: char)
    requires
        v < 16,
    ensures
        c == hex_digit(v),
{
    if v < 10 {
        (48 + v) as char
    } else {
        (55 + v) as char
    }
}

/// The red, green and blue of a colour as six upper-case hexadecimal digits.
pub fn rgb_to_hex(rgb: [u8; 4]) -> (r: String)
    ensures
        r@ == hex_byte(rgb[0]) + hex_byte(rgb[1]) + hex_byte(rgb[2]),
{
    let mut s = String::new();
    let mut i: usize = 0;
    while i < 3
        invariant
            i <= 3,
            s@.len() == 2 * i,
            i == 0 ==> s@ == Seq::<char>::empty(),
            i == 1 ==> s@ == hex_byte(rgb[0]),
            i == 2 ==> s@ == hex_byte(rgb[0]) + hex_byte(rgb[1]),
            i == 3 ==> s@ == hex_byte(rgb[0]) + hex_byte(rgb[1]) + hex_byte(rgb[2]),
        decreases 3 - i,
    {
        let b = rgb[i];
        let ghost before = s@;
        push_char(&mut s, digit_char(b / 16));
        push_char(&mut s, digit_char(b % 16));
        assert(s@ =~= before + hex_byte(b));
        i = i + 1;
    }
    s
}

/// An RGBA image: its dimensions and its pixels, row by row.
pub struct RgbaImage {
    pub width: u32,
    pub height: u32,
    pub pixels: Vec<[u8; 4]>,
}

/// Paints `color`'s red, green and blue into the pixels of `target` whose
/// mask pixel is white; alpha is kept.
pub fn write_color_rgb_with_mask_to_image(color: [u8; 4], mask: &RgbaImage, target: &mut RgbaImage)
    requires
        mask.width == old(target).width,
        mask.height == old(target).height,
        mask.pixels@.len() == old(target).pixels@.len(),
    ensures
        final(target).width == old(target).width,
        final(target).height == old(target).height,
        final(target).pixels@.len() == old(target).pixels@.len(),
        forall|i: int| 0 <= i < old(target).pixels@.len() ==> #[trigger] final(target).pixels@[i] == if mask.pixels@[i]@.take(3) == seq![255u8, 255u8, 255u8] {
            [color[0], color[1], color[2], old(target).pixels@[i][3]]
        } else {
            old(target).pixels@[i]
        },
{
    let n = target.pixels.len();
    let mut i: usize = 0;
    while i < n
        invariant
            n == target.pixels@.len(),
            n == old(target).pixels@.len(),
            n == mask.pixels@.len(),
            target.width == old(target).width,
            target.height == old(target).height,
            i <= n,
            forall|j: int| i <= j < n ==> #[trigger] target.pixels@[j] == old(target).pixels@[j],
            forall|j: int| 0 <= j < i ==> #[trigger] target.pixels@[j] == if mask.pixels@[j]@.take(3) == seq![255u8, 255u8, 255u8] {
                [color[0], color[1], color[2], old(target).pixels@[j][3]]
            } else {
                old(target).pixels@[j]
            },
        decreases n - i,
    {
        let m = mask.pixels[i];
        let white = m[0] == 255 && m[1] == 255 && m[2] == 255;
        proof {
            if white {
                assert(m@.take(3) =~= seq![255u8, 255u8, 255u8]);
            } else {
                assert(m@.take(3) != seq![255u8, 255u8, 255u8]) by {
                    if m@.take(3) == seq![255u8, 255u8, 255u8] {
                        assert(m@.take(3)[0] == 255u8 && m@.take(3)[1] == 255u8 && m@.take(3)[2] == 255u8);
                    }
                }
            }
        }
        if white {
            let t = target.pixels[i];
            target.pixels.set(i, [color[0], color[1], color[2], t[3]]);
        }
        i = i + 1;
    }
}

/// Copies the pixels of `overlay` that are not fully transparent over `target`.
pub fn write_overlay_to_image(overlay: &RgbaImage, target: &mut RgbaImage)
    requires
        overlay.width == old(target).width,
        overlay.height == old(target).height,
        overlay.pixels@.len() == old(target).pixels@.len(),
    ensures
        final(target).width == old(target).width,
        final(target).height == old(target).height,
        final(target).pixels@.len() == old(target).pixels@.len(),
        forall|i: int| 0 <= i < old(target).pixels@.len() ==> #[trigger] final(target).pixels@[i] == if overlay.pixels@[i][3] != 0 {
            overlay.pixels@[i]
        } else {
            old(target).pixels@[i]
        },
{
    let n = target.pixels.len();
    let mut i: usize = 0;
    while i < n
        invariant
            n == target.pixels@.len(),
            n == old(target).pixels@.len(),
            n == overlay.pixels@.len(),
            target.width == old(target).width,
            target.height == old(target).height,
            i <= n,
            forall|j: int| i <= j < n ==> #[trigger] target.pixels@[j] == old(target).pixels@[j],
            forall|j: int| 0 <= j < i ==> #[trigger] target.pixels@[j] == if overlay.pixels@[j][3] != 0 {
                overlay.pixels@[j]
            } else {
                old(target).pixels@[j]
            },
        decreases n - i,
    {
        let o = overlay.pixels[i];
        if o[3] != 0 {
            target.pixels.set(i, o);
        }
        i = i + 1;
    }
}

} // verus!
