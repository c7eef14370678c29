//! The icon of the tray and the window.

use vstd::prelude::*;

use crate::sheet::{image_in, image_pixels, resize_rgba, resized_in, LONGEST_SIDE};

verus! {

/// The side of the icon, in pixels.
pub const ICON_SIDE: u32 = 32;

/// The side of the icon that is drawn where there is no picture.
pub const FALLBACK_SIDE: u32 = 16;

/// RGBA bytes with red and blue exchanged.
pub open spec fn swapped(rgba: Seq<u8>) -> Seq<u8> {
    Seq::new(
        rgba.len(),
        |i: int|
            if i % 4 == 0 {
                rgba[i + 2]
            } else if i % 4 == 2 {
                rgba[i - 2]
            } else {
                rgba[i]
            },
    )
}

/// Turns RGBA bytes into BGRA bytes.
pub fn bgra_of(rgba: &Vec<u8>) -> (r: Vec<u8>)
    requires
        rgba@.len() % 4 == 0,
    ensures
        r@ == swapped(rgba@),
{
    let n: usize = rgba.len();
    let mut out: Vec<u8> = Vec::new();
    let mut i: usize = 0;
    while i < n
        invariant
            n == rgba@.len(),
            n % 4 == 0,
            i % 4 == 0,
            i <= n,
            out@ =~= swapped(rgba@).take(i as int),
        decreases n - i,
    {
        let ghost was = out@;
        out.push(rgba[i + 2]);
        out.push(rgba[i + 1]);
        out.push(rgba[i]);
        out.push(rgba[i + 3]);
        proof {
            let g = swapped(rgba@);
            assert(g[i as int] == rgba@[i + 2]);
            assert(g[i + 1] == rgba@[i + 1]);
            assert(g[i + 2] == rgba@[i as int]);
            assert(g[i + 3] == rgba@[i + 3]);
            assert(out@ =~= was.push(g[i as int]).push(g[i + 1]).push(g[i + 2]).push(g[i + 3]));
        }
        i += 4;
    }
    assert(out@ =~= swapped(rgba@));
    out
}

/// A picture of this size can be made into an icon.
pub open spec fn icon_sized(w: u32, h: u32) -> bool {
    0 < w <= LONGEST_SIDE && 0 < h <= LONGEST_SIDE && 16 * w * ICON_SIDE <= isize::MAX
}

/// The icon that a PNG file holds: its picture in the size of an icon.
pub open spec fn icon_in(png: Seq<u8>) -> Option<Seq<u8>> {
    match image_in(png) {
        Ok(p) => if icon_sized(p.width, p.height) {
            Some(
                swapped(
                    resized_in(
                        p.raw.take(4 * (p.width as int * p.height as int)),
                        p.width,
                        p.height,
                        ICON_SIDE,
                        ICON_SIDE,
                    ),
                ),
            )
        } else {
            None
        },
        Err(_) => None,
    }
}

/// The BGRA pixels of the icon that a PNG file holds; none where it cannot be
/// read.
pub fn load_icon(png: &[u8]) -> (r: Option<Vec<u8>>)
    ensures
        r is Some <==> icon_in(png@) is Some,
        r is Some ==> r->0@ == icon_in(png@)->0,
{
    match image_pixels(png) {
        Ok(p) => {
            let wide: u128 = 16 * p.width as u128 * ICON_SIDE as u128;
            if p.width == 0 || p.height == 0 || p.width > LONGEST_SIDE || p.height > LONGEST_SIDE || wide
                > isize::MAX as u128 {
                return None;
            }
            proof {
                let (w, h) = (p.width as int, p.height as int);
                assert(w * h * 4 == 4 * (w * h)) by (nonlinear_arith);
                assert(4 * p.width * p.height == 4 * (w * h)) by (nonlinear_arith)
                    requires
                        w == p.width,
                        h == p.height,
                ;
                assert(0 <= w * h <= 0xffff_ffff * 0xffff_ffff) by (nonlinear_arith)
                    requires
                        0 <= w <= 0xffff_ffff,
                        0 <= h <= 0xffff_ffff,
                ;
                assert(p.raw.len() == p.raw@.len());
            }
            let n: usize = (4 * (p.width as u128 * p.height as u128)) as usize;
            let mut raw = p.raw;
            let ghost all = raw@;
            raw.truncate(n);
            assert(raw@ =~= all.take(n as int));
            let small = resize_rgba(raw, p.width, p.height, ICON_SIDE, ICON_SIDE);
            Some(bgra_of(&small))
        },
        Err(_) => None,
    }
}

/// The square of the distance of a pixel from the middle of a small icon, in
/// quarters.
pub open spec fn from_middle(x: int, y: int) -> int {
    (2 * x - 15) * (2 * x - 15) + (2 * y - 15) * (2 * y - 15)
}

/// A pixel of the icon that is drawn where there is no picture: a green disk of
/// radius seven with a darker ring.
pub open spec fn fallback_at(x: int, y: int) -> (u8, u8, u8, u8) {
    if from_middle(x, y) <= 196 {
        if from_middle(x, y) > 144 {
            (90, 60, 40, 255)
        } else {
            (200, 230, 120, 255)
        }
    } else {
        (0, 0, 0, 0)
    }
}

/// The BGRA pixels of the icon that is drawn where there is no picture.
pub fn fallback_icon() -> (r: Vec<u8>)
    ensures
        r@.len() == 1024,
        forall|x: int, y: int|
            #![trigger fallback_at(x, y)]
            0 <= x < 16 && 0 <= y < 16 ==> {
                let o = 4 * (16 * y + x);
                (r@[o], r@[o + 1], r@[o + 2], r@[o + 3]) == fallback_at(x, y)
            },
{
    let mut out: Vec<u8> = Vec::new();
    let mut y: i32 = 0;
    while y < 16
        invariant
            0 <= y <= 16,
            out@.len() == 64 * y,
            forall|p: int, q: int|
                #![trigger fallback_at(p, q)]
                0 <= p < 16 && 0 <= q < y ==> {
                    let o = 4 * (16 * q + p);
                    (out@[o], out@[o + 1], out@[o + 2], out@[o + 3]) == fallback_at(p, q)
                },
        decreases 16 - y,
    {
        let mut x: i32 = 0;
        while x < 16
            invariant
                0 <= x <= 16,
                0 <= y < 16,
                out@.len() == 64 * y + 4 * x,
                forall|p: int, q: int|
                    #![trigger fallback_at(p, q)]
                    0 <= p < 16 && 0 <= q <= y && (q < y || p < x) ==> {
                        let o = 4 * (16 * q + p);
                        (out@[o], out@[o + 1], out@[o + 2], out@[o + 3]) == fallback_at(p, q)
                    },
            decreases 16 - x,
        {
            let dx: i32 = 2 * x - 15;
            let dy: i32 = 2 * y - 15;
            proof {
                assert(0 <= dx * dx <= 17 * 17) by (nonlinear_arith)
                    requires
                        -17 <= dx <= 17,
                ;
                assert(0 <= dy * dy <= 17 * 17) by (nonlinear_arith)
                    requires
                        -17 <= dy <= 17,
                ;
            }
            let d: i32 = dx * dx + dy * dy;
            assert(d == from_middle(x as int, y as int));
            let (b, g, r, a): (u8, u8, u8, u8) = if d <= 196 {
                if d > 144 {
                    (90, 60, 40, 255)
                } else {
                    (200, 230, 120, 255)
                }
            } else {
                (0, 0, 0, 0)
            };
            assert((b, g, r, a) == fallback_at(x as int, y as int));
            out.push(b);
            out.push(g);
            out.push(r);
            out.push(a);
            x += 1;
        }
        y += 1;
    }
    out
}

} // verus!
