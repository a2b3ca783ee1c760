//! Drawing one RGBA8 buffer over another.

use vstd::prelude::*;

use crate::render::pixels::{
    byte_index, channel, column, lemma_byte_bound, lemma_byte_index, lemma_byte_place, line,
};

verus! {

/// A channel value `s` of a pixel with alpha `alpha` (and colours multiplied by
/// it) drawn over a value `d`.
pub open spec fn over(s: u8, alpha: u8, d: u8) -> u8 {
    let sum = s + d * (255 - alpha) / 255;
    if sum > 255 {
        255
    } else {
        sum as u8
    }
}

/// The pixel `(x, y)` of the canvas is covered by a `w`x`h` picture at
/// `(px, py)`.
pub open spec fn covers(px: int, py: int, w: int, h: int, x: int, y: int) -> bool {
    px <= x < px + w && py <= y < py + h
}

/// The byte at `k` of a canvas `cw` pixels wide after a picture was drawn.
pub open spec fn drawn_byte(
    canvas: Seq<u8>,
    cw: int,
    px: int,
    py: int,
    pixels: Seq<u8>,
    w: int,
    h: int,
    k: int,
) -> u8 {
    let (x, y) = (column(k, cw), line(k, cw));
    if covers(px, py, w, h, x, y) {
        over(
            pixels[byte_index(x - px, y - py, w, channel(k))],
            pixels[byte_index(x - px, y - py, w, 3)],
            canvas[k],
        )
    } else {
        canvas[k]
    }
}

/// A canvas `cw` pixels wide after a `w`x`h` picture was drawn over it at
/// `(px, py)`. What lies outside the canvas is cut off.
pub open spec fn drawn(
    canvas: Seq<u8>,
    cw: int,
    px: int,
    py: int,
    pixels: Seq<u8>,
    w: int,
    h: int,
) -> Seq<u8> {
    Seq::new(canvas.len(), |k: int| drawn_byte(canvas, cw, px, py, pixels, w, h, k))
}

/// One channel drawn over another.
fn blend(s: u8, alpha: u8, d: u8) -> (r: u8)
    ensures
        r == over(s, alpha, d),
{
    assert(0 <= d * (255 - alpha) <= 255 * 255) by (nonlinear_arith)
        requires
            0 <= d <= 255,
            0 <= alpha <= 255,
    ;
    let product: u32 = d as u32 * (255 - alpha as u32);
    let sum: u32 = s as u32 + product / 255;
    if sum > 255 {
        255
    } else {
        sum as u8
    }
}

/// The pixel `(x, y)` of the canvas, with the pixel of the picture over it.
fn blend_pixel(canvas: &mut Vec<u8>, at: usize, pixels: &Vec<u8>, from: usize)
    requires
        at + 4 <= old(canvas).len(),
        from + 4 <= pixels.len(),
    ensures
        final(canvas)@ == old(canvas)@.update(
            at as int,
            over(pixels@[from as int], pixels@[from + 3], old(canvas)@[at as int]),
        ).update(
            at + 1,
            over(pixels@[from + 1], pixels@[from + 3], old(canvas)@[at + 1]),
        ).update(
            at + 2,
            over(pixels@[from + 2], pixels@[from + 3], old(canvas)@[at + 2]),
        ).update(at + 3, over(pixels@[from + 3], pixels@[from + 3], old(canvas)@[at + 3])),
{
    let alpha = pixels[from + 3];
    let r = blend(pixels[from], alpha, canvas[at]);
    let g = blend(pixels[from + 1], alpha, canvas[at + 1]);
    let b = blend(pixels[from + 2], alpha, canvas[at + 2]);
    let a = blend(alpha, alpha, canvas[at + 3]);
    canvas.set(at, r);
    canvas.set(at + 1, g);
    canvas.set(at + 2, b);
    canvas.set(at + 3, a);
}

/// The byte comes before the pixel `(x, y)` in reading order.
spec fn done(k: int, cw: int, x: int, y: int) -> bool {
    line(k, cw) < y || (line(k, cw) == y && column(k, cw) < x)
}

/// Draw a `w`x`h` picture over a `cw`x`ch` canvas at `(px, py)`.
pub fn blit_over(
    canvas: &mut Vec<u8>,
    cw: usize,
    ch: usize,
    px: i32,
    py: i32,
    pixels: &Vec<u8>,
    w: usize,
    h: usize,
)
    requires
        old(canvas).len() == cw * ch * 4,
        pixels.len() == w * h * 4,
        cw <= u32::MAX,
        ch <= u32::MAX,
        w <= u32::MAX,
        h <= u32::MAX,
    ensures
        final(canvas)@ == drawn(
            old(canvas)@,
            cw as int,
            px as int,
            py as int,
            pixels@,
            w as int,
            h as int,
        ),
{
    let ghost before = canvas@;
    let ghost goal = drawn(before, cw as int, px as int, py as int, pixels@, w as int, h as int);
    let len = canvas.len();
    let source = pixels.len();
    if cw == 0 {
        assert(0 * ch * 4 == 0) by (nonlinear_arith);
        assert(canvas@ =~= goal);
        return;
    }
    // The rows and columns of the canvas that the picture covers.
    let x0: i64 = if px < 0 {
        0
    } else {
        px as i64
    };
    let y0: i64 = if py < 0 {
        0
    } else {
        py as i64
    };
    let right: i64 = px as i64 + w as i64;
    let bottom: i64 = py as i64 + h as i64;
    let x1: i64 = if right < cw as i64 {
        right
    } else {
        cw as i64
    };
    let y1: i64 = if bottom < ch as i64 {
        bottom
    } else {
        ch as i64
    };
    let mut y: i64 = y0;
    proof {
        assert forall|k: int| 0 <= k < len && done(k, cw as int, 0, y0 as int) implies before[k]
            == goal[k] by {
            lemma_byte_place(k, cw as int, ch as int);
        }
    }
    while y < y1
        invariant
            cw > 0,
            cw <= u32::MAX,
            ch <= u32::MAX,
            w <= u32::MAX,
            h <= u32::MAX,
            len == cw * ch * 4,
            canvas.len() == len,
            before.len() == len,
            pixels.len() == source,
            source == w * h * 4,
            goal == drawn(before, cw as int, px as int, py as int, pixels@, w as int, h as int),
            0 <= y0 <= y,
            y0 == if py < 0 {
                0
            } else {
                py as int
            },
            x0 == if px < 0 {
                0
            } else {
                px as int
            },
            right == px + w,
            bottom == py + h,
            x1 == if right < cw {
                right as int
            } else {
                cw as int
            },
            y1 == if bottom < ch {
                bottom as int
            } else {
                ch as int
            },
            forall|k: int|
                0 <= k < len ==> canvas@[k] == if done(k, cw as int, 0, y as int) {
                    goal[k]
                } else {
                    before[k]
                },
        decreases y1 - y,
    {
        let mut x: i64 = x0;
        proof {
            assert forall|k: int| 0 <= k < len implies canvas@[k] == if done(
                k,
                cw as int,
                x0 as int,
                y as int,
            ) {
                goal[k]
            } else {
                before[k]
            } by {
                lemma_byte_place(k, cw as int, ch as int);
            }
        }
        while x < x1
            invariant
                cw > 0,
                cw <= u32::MAX,
                ch <= u32::MAX,
                w <= u32::MAX,
                h <= u32::MAX,
                len == cw * ch * 4,
                canvas.len() == len,
                before.len() == len,
                pixels.len() == source,
                source == w * h * 4,
                goal == drawn(
                    before,
                    cw as int,
                    px as int,
                    py as int,
                    pixels@,
                    w as int,
                    h as int,
                ),
                0 <= x0 <= x,
                x0 >= px,
                0 <= y < y1,
                y >= py,
                y1 <= ch,
                y1 <= py + h,
                x1 <= cw,
                x1 <= px + w,
                forall|k: int|
                    0 <= k < len ==> canvas@[k] == if done(k, cw as int, x as int, y as int) {
                        goal[k]
                    } else {
                        before[k]
                    },
            decreases x1 - x,
        {
            let ghost last = canvas@;
            proof {
                lemma_byte_bound(x as int, y as int, cw as int, ch as int, 3);
                lemma_byte_bound(x - px, y - py, w as int, h as int, 3);
                lemma_byte_index(x as int, y as int, cw as int, 0);
                lemma_byte_index(x as int, y as int, cw as int, 1);
                lemma_byte_index(x as int, y as int, cw as int, 2);
                lemma_byte_index(x as int, y as int, cw as int, 3);
                assert(y * cw >= 0) by (nonlinear_arith)
                    requires
                        y >= 0,
                ;
                assert((y - py) * w >= 0) by (nonlinear_arith)
                    requires
                        y >= py,
                ;
            }
            let at: usize = (y as usize * cw + x as usize) * 4;
            let from: usize = ((y - py as i64) as usize * w + (x - px as i64) as usize) * 4;
            blend_pixel(canvas, at, pixels, from);
            proof {
                assert forall|k: int| 0 <= k < len implies canvas@[k] == if done(
                    k,
                    cw as int,
                    x + 1,
                    y as int,
                ) {
                    goal[k]
                } else {
                    before[k]
                } by {
                    lemma_byte_place(k, cw as int, ch as int);
                    if line(k, cw as int) == y && column(k, cw as int) == x {
                        assert(k == byte_index(x as int, y as int, cw as int, channel(k)));
                        assert(last[k] == before[k]);
                    } else {
                        assert(canvas@[k] == last[k]);
                    }
                }
            }
            x += 1;
        }
        proof {
            assert forall|k: int| 0 <= k < len implies canvas@[k] == if done(
                k,
                cw as int,
                0,
                y + 1,
            ) {
                goal[k]
            } else {
                before[k]
            } by {
                lemma_byte_place(k, cw as int, ch as int);
            }
        }
        y += 1;
    }
    proof {
        assert forall|k: int| 0 <= k < len implies canvas@[k] == goal[k] by {
            lemma_byte_place(k, cw as int, ch as int);
        }
        assert(canvas@ =~= goal);
    }
}

/// An opaque pixel hides what it covers, an empty one hides nothing, and a picture
/// changes nothing that it does not cover.
pub proof fn law_opaque_hides_and_transparent_shows(
    canvas: Seq<u8>,
    cw: int,
    px: int,
    py: int,
    pixels: Seq<u8>,
    w: int,
    h: int,
    k: int,
)
    requires
        0 <= k < canvas.len(),
    ensures
        ({
            let (x, y) = (column(k, cw), line(k, cw));
            let color = pixels[byte_index(x - px, y - py, w, channel(k))];
            let alpha = pixels[byte_index(x - px, y - py, w, 3)];
            let after = drawn(canvas, cw, px, py, pixels, w, h);
            &&& after.len() == canvas.len()
            &&& covers(px, py, w, h, x, y) && alpha == 255 ==> after[k] == color
            &&& covers(px, py, w, h, x, y) && alpha == 0 && color == 0 ==> after[k] == canvas[k]
            &&& !covers(px, py, w, h, x, y) ==> after[k] == canvas[k]
        }),
{
}

/// A pixel that is partly transparent lets through what its alpha leaves: the value
/// under it, less its share, is added to the pixel's own and never wraps round.
pub proof fn law_transparency_lets_through_its_share(s: u8, alpha: u8, d: u8)
    ensures
        ({
            let r = over(s, alpha, d) as int;
            let share = d * (255 - alpha);
            &&& r >= s
            &&& r < 255 ==> 255 * (r - s) <= share < 255 * (r - s) + 255
            &&& r == 255 ==> 255 * (255 - s) <= share || s == 255
        }),
{
    let share = d * (255 - alpha);
    assert(share >= 0) by (nonlinear_arith)
        requires
            share == d * (255 - alpha),
            0 <= d,
            alpha <= 255,
    ;
}

} // verus!
