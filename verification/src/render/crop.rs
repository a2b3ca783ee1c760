//! Cropping a window's buffer to the geometry that its client declared.

use vstd::prelude::*;

use crate::render::pixels::{
    byte_index, channel, column, lemma_byte_bound, lemma_byte_index, line,
};

verus! {

/// A window geometry in surface-logical coordinates.
#[derive(Debug, Clone, Copy, PartialEq, Eq, Structural)]
pub struct Geometry {
    pub x: i32,
    pub y: i32,
    pub width: i32,
    pub height: i32,
}

/// `n` within `0..=max`.
pub open spec fn within(n: int, max: int) -> int {
    if n < 0 {
        0
    } else if n > max {
        max
    } else {
        n
    }
}

/// The part of a buffer that a geometry covers: its left and top edge, its width
/// and its height, which may be nothing or less.
pub open spec fn covered(width: int, height: int, g: Geometry) -> (int, int, int, int) {
    let x0 = within(g.x as int, width);
    let y0 = within(g.y as int, height);
    let x1 = within(g.x + g.width, width);
    let y1 = within(g.y + g.height, height);
    (x0, y0, x1 - x0, y1 - y0)
}

/// The geometry covers a part of the buffer and not all of it.
pub open spec fn crops(width: int, height: int, geometry: Option<Geometry>) -> bool {
    match geometry {
        Some(g) => {
            let (x0, y0, w, h) = covered(width, height, g);
            w > 0 && h > 0 && !(x0 == 0 && y0 == 0 && w == width && h == height)
        },
        None => false,
    }
}

/// The `w`x`h` pixels from `(x0, y0)` on of a buffer `width` pixels wide.
pub open spec fn part(pixels: Seq<u8>, width: int, x0: int, y0: int, w: int, h: int) -> Seq<u8> {
    Seq::new(
        (w * h * 4) as nat,
        |k: int| pixels[byte_index(x0 + column(k, w), y0 + line(k, w), width, channel(k))],
    )
}

/// The buffer cropped to a geometry, and the offset of the part that is left.
pub open spec fn cropped(
    width: u32,
    height: u32,
    pixels: Seq<u8>,
    geometry: Option<Geometry>,
) -> ((u32, u32, Seq<u8>), (i32, i32)) {
    if crops(width as int, height as int, geometry) {
        let (x0, y0, w, h) = covered(width as int, height as int, geometry.unwrap());
        (
            (w as u32, h as u32, part(pixels, width as int, x0, y0, w, h)),
            (x0 as i32, y0 as i32),
        )
    } else {
        ((width, height, pixels), (0, 0))
    }
}

/// `n` within `0..=max`.
fn clamp(n: i64, max: i64) -> (r: i64)
    requires
        max >= 0,
    ensures
        r == within(n as int, max as int),
{
    if n < 0 {
        0
    } else if n > max {
        max
    } else {
        n
    }
}

/// Copy a part of a buffer.
fn copy_part(
    pixels: &Vec<u8>,
    width: usize,
    height: usize,
    x0: usize,
    y0: usize,
    w: usize,
    h: usize,
) -> (r: Vec<u8>)
    requires
        w > 0,
        h > 0,
        x0 + w <= width,
        y0 + h <= height,
        width * height * 4 <= pixels.len(),
    ensures
        r@ == part(pixels@, width as int, x0 as int, y0 as int, w as int, h as int),
{
    let ghost goal = part(pixels@, width as int, x0 as int, y0 as int, w as int, h as int);
    let mut out: Vec<u8> = Vec::new();
    let len = pixels.len();
    proof {
        assert(w * h * 4 >= 0) by (nonlinear_arith);
        assert(byte_index(0, 0, w as int, 0) == 0) by (nonlinear_arith);
    }
    for y in 0..h
        invariant
            w > 0,
            x0 + w <= width,
            y0 + h <= height,
            width * height * 4 <= pixels.len(),
            len == pixels@.len(),
            goal == part(pixels@, width as int, x0 as int, y0 as int, w as int, h as int),
            goal.len() == w * h * 4,
            out.len() == byte_index(0, y as int, w as int, 0),
            forall|k: int| 0 <= k < out.len() ==> out@[k] == goal[k],
    {
        proof {
            lemma_byte_bound(x0 as int, y0 + y, width as int, height as int, 0);
            assert((y0 + y) * width >= 0) by (nonlinear_arith);
            assert((y0 + y) * width <= len);
        }
        let row: usize = (y0 + y) * width;
        for x in 0..w
            invariant
                w > 0,
                y < h,
                x0 + w <= width,
                y0 + h <= height,
                width * height * 4 <= pixels.len(),
                len == pixels@.len(),
                row == (y0 + y) * width,
                goal == part(pixels@, width as int, x0 as int, y0 as int, w as int, h as int),
                goal.len() == w * h * 4,
                out.len() == byte_index(x as int, y as int, w as int, 0),
                forall|k: int| 0 <= k < out.len() ==> out@[k] == goal[k],
        {
            proof {
                lemma_byte_bound(x0 + x, y0 + y, width as int, height as int, 3);
                lemma_byte_bound(x as int, y as int, w as int, h as int, 3);
                lemma_byte_index(x as int, y as int, w as int, 0);
                lemma_byte_index(x as int, y as int, w as int, 1);
                lemma_byte_index(x as int, y as int, w as int, 2);
                lemma_byte_index(x as int, y as int, w as int, 3);
            }
            let at: usize = (row + x0 + x) * 4;
            out.push(pixels[at]);
            out.push(pixels[at + 1]);
            out.push(pixels[at + 2]);
            out.push(pixels[at + 3]);
        }
        assert(byte_index(w as int, y as int, w as int, 0) == byte_index(0, y + 1, w as int, 0))
            by (nonlinear_arith);
    }
    assert(byte_index(0, h as int, w as int, 0) == w * h * 4) by (nonlinear_arith);
    assert(out@ =~= goal);
    out
}

/// Crop a tightly-packed RGBA8 `(w, h, pixels)` buffer to `geometry` (clamped to
/// the buffer), returning the cropped buffer and the top-left offset used.
///
/// Client-side-decorated apps pad their buffer with a transparent shadow/resize
/// margin and report the real window rectangle as the window geometry. Cropping
/// to it drops that margin so the shell shows only the window, not a big box
/// around it. A missing or full-buffer geometry is a no-op (offset `(0, 0)`).
pub fn crop_to_geometry(buffer: (u32, u32, Vec<u8>), geometry: Option<Geometry>) -> (r: (
    (u32, u32, Vec<u8>),
    (i32, i32),
))
    requires
        geometry is Some ==> buffer.2.len() >= buffer.0 * buffer.1 * 4,
    ensures
        ((r.0.0, r.0.1, r.0.2@), r.1) == cropped(buffer.0, buffer.1, buffer.2@, geometry),
        buffer.2.len() == buffer.0 * buffer.1 * 4 ==> r.0.2.len() == r.0.0 * r.0.1 * 4,
{
    let (w, h, pixels) = buffer;
    let Some(rect) = geometry else {
        return ((w, h, pixels), (0, 0));
    };
    let (cw, ch) = (w as i64, h as i64);
    let x0 = clamp(rect.x as i64, cw);
    let y0 = clamp(rect.y as i64, ch);
    let x1 = clamp(rect.x as i64 + rect.width as i64, cw);
    let y1 = clamp(rect.y as i64 + rect.height as i64, ch);
    let nw: i64 = x1 - x0;
    let nh: i64 = y1 - y0;
    // Degenerate or already full-size: nothing to crop.
    if nw <= 0 || nh <= 0 || (x0 == 0 && y0 == 0 && nw == cw && nh == ch) {
        return ((w, h, pixels), (0, 0));
    }
    let out = copy_part(
        &pixels,
        w as usize,
        h as usize,
        x0 as usize,
        y0 as usize,
        nw as usize,
        nh as usize,
    );
    assert(out@.len() == nw * nh * 4) by {
        assert(nw * nh * 4 >= 0) by (nonlinear_arith)
            requires
                nw > 0,
                nh > 0,
        ;
    }
    ((nw as u32, nh as u32, out), (x0 as i32, y0 as i32))
}

/// A crop is never larger than the buffer, lies in it, and shows at each place
/// the pixel of the buffer that lies its offset further on.
pub proof fn law_crop_shows_the_covered_part(
    width: u32,
    height: u32,
    pixels: Seq<u8>,
    geometry: Option<Geometry>,
    x: int,
    y: int,
    c: int,
)
    requires
        pixels.len() == width * height * 4,
        0 <= c < 4,
        0 <= x < cropped(width, height, pixels, geometry).0.0,
        0 <= y < cropped(width, height, pixels, geometry).0.1,
    ensures
        ({
            let ((w, h, out), (x0, y0)) = cropped(width, height, pixels, geometry);
            &&& 0 <= x0 && x0 + w <= width
            &&& 0 <= y0 && y0 + h <= height
            &&& out[byte_index(x, y, w as int, c)] == pixels[byte_index(
                x0 + x,
                y0 + y,
                width as int,
                c,
            )]
        }),
{
    let ((w, h, out), (x0, y0)) = cropped(width, height, pixels, geometry);
    lemma_byte_index(x, y, w as int, c);
    lemma_byte_bound(x, y, w as int, h as int, c);
}

/// The pixels that a crop shows are those that lie in the buffer and in the
/// geometry, if there are any; else, and without a geometry, all are shown.
pub proof fn law_crop_is_the_intersection(
    width: u32,
    height: u32,
    pixels: Seq<u8>,
    geometry: Option<Geometry>,
    x: int,
    y: int,
)
    requires
        0 <= x < width <= i32::MAX,
        0 <= y < height <= i32::MAX,
    ensures
        ({
            let ((w, h, _), (x0, y0)) = cropped(width, height, pixels, geometry);
            let shown = x0 <= x < x0 + w && y0 <= y < y0 + h;
            match geometry {
                Some(g) => {
                    let inside = g.x <= x < g.x + g.width && g.y <= y < g.y + g.height;
                    &&& inside ==> shown
                    &&& shown && !inside ==> !overlaps(width as int, height as int, g)
                },
                None => shown && x0 == 0 && y0 == 0 && w == width && h == height,
            }
        }),
{
}

/// A geometry and a buffer have a pixel in common.
pub open spec fn overlaps(width: int, height: int, g: Geometry) -> bool {
    &&& 0 < g.width && 0 < g.height
    &&& g.x < width && g.y < height
    &&& 0 < g.x + g.width && 0 < g.y + g.height
    &&& 0 < width && 0 < height
}

} // verus!
