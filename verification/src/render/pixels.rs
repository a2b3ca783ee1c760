//! Tightly-packed RGBA8 buffers: four bytes per pixel, row by row.

use vstd::arithmetic::div_mod::lemma_fundamental_div_mod_converse;
use vstd::prelude::*;

verus! {

/// The column of the byte at an index in a buffer of a width.
pub open spec fn column(k: int, width: int) -> int {
    (k / 4) % width
}

/// The row of the byte at an index in a buffer of a width.
pub open spec fn line(k: int, width: int) -> int {
    (k / 4) / width
}

/// The channel of the byte at an index: red, green, blue, alpha.
pub open spec fn channel(k: int) -> int {
    k % 4
}

/// The index of a byte.
pub open spec fn byte_index(x: int, y: int, width: int, c: int) -> int {
    (y * width + x) * 4 + c
}

/// The place of a byte is where its index says.
pub proof fn lemma_byte_index(x: int, y: int, width: int, c: int)
    requires
        0 <= x < width,
        0 <= y,
        0 <= c < 4,
    ensures
        column(byte_index(x, y, width, c), width) == x,
        line(byte_index(x, y, width, c), width) == y,
        channel(byte_index(x, y, width, c)) == c,
        byte_index(x, y, width, c) >= 0,
{
    let k = byte_index(x, y, width, c);
    let p = y * width + x;
    assert(k / 4 == p && k % 4 == c);
    lemma_fundamental_div_mod_converse(p, width, y, x);
    assert(p >= 0) by (nonlinear_arith)
        requires
            p == y * width + x,
            0 <= x < width,
            0 <= y,
    ;
}

/// The byte of a pixel lies in the buffer.
pub proof fn lemma_byte_bound(x: int, y: int, width: int, height: int, c: int)
    requires
        0 <= x < width,
        0 <= y < height,
        0 <= c < 4,
    ensures
        0 <= byte_index(x, y, width, c) < width * height * 4,
        byte_index(0, y, width, 0) + width * 4 <= width * height * 4,
{
    assert(y * width + x < width * height) by (nonlinear_arith)
        requires
            0 <= x < width,
            0 <= y < height,
    ;
    assert(y * width + x >= 0) by (nonlinear_arith)
        requires
            0 <= x < width,
            0 <= y,
    ;
    assert(y * width + width <= width * height) by (nonlinear_arith)
        requires
            0 <= width,
            0 <= y < height,
    ;
}

/// A byte of the buffer is the byte of a pixel.
pub proof fn lemma_byte_place(k: int, width: int, height: int)
    requires
        0 <= k < width * height * 4,
        width > 0,
    ensures
        0 <= column(k, width) < width,
        0 <= line(k, width) < height,
        0 <= channel(k) < 4,
        byte_index(column(k, width), line(k, width), width, channel(k)) == k,
{
    let p = k / 4;
    let x = column(k, width);
    let y = line(k, width);
    assert(0 <= x < width && p == y * width + x) by (nonlinear_arith)
        requires
            x == p % width,
            y == p / width,
            width > 0,
    ;
    assert(y >= 0) by (nonlinear_arith)
        requires
            p == y * width + x,
            0 <= x < width,
            p >= 0,
    ;
    assert(y < height) by (nonlinear_arith)
        requires
            p == y * width + x,
            0 <= x < width,
            p < width * height,
            y >= 0,
    ;
}

} // verus!
