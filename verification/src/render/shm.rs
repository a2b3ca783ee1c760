//! Conversion of `wl_shm` buffer contents into tightly-packed RGBA8.
//!
//! `wl_shm`'s ARGB8888/XRGB8888 formats are little-endian 32-bit words
//! (`0xAARRGGBB`), i.e. the bytes in memory are `[B, G, R, A]`. The user
//! interface wants `[R, G, B, A]`, so the bytes are swapped and (for XRGB) alpha
//! is forced.

use vstd::prelude::*;

use crate::render::pixels::{
    byte_index, channel, column, lemma_byte_bound, lemma_byte_index, line,
};

verus! {

/// The shm pixel formats that are supported.
#[derive(Clone, Copy, Debug, PartialEq, Eq, Structural)]
pub enum ShmFormat {
    /// 32-bit ARGB, alpha honored.
    Argb8888,
    /// 32-bit XRGB, alpha ignored (treated as opaque).
    Xrgb8888,
}

/// The bytes of row `y` all lie in the buffer.
pub open spec fn row_present(src: Seq<u8>, width: int, stride: int, y: int) -> bool {
    y * stride + width * 4 <= src.len()
}

/// Red, green, blue or alpha of the pixel whose bytes start at `at`.
pub open spec fn swapped(src: Seq<u8>, at: int, c: int, format: ShmFormat) -> u8 {
    if c == 0 {
        src[at + 2]
    } else if c == 1 {
        src[at + 1]
    } else if c == 2 {
        src[at]
    } else if format == ShmFormat::Argb8888 {
        src[at + 3]
    } else {
        255
    }
}

/// The RGBA8 buffer for an shm buffer. Rows that do not lie in the buffer are
/// zero.
pub open spec fn converted(
    src: Seq<u8>,
    width: int,
    height: int,
    stride: int,
    format: ShmFormat,
) -> Seq<u8> {
    Seq::new(
        (width * height * 4) as nat,
        |k: int|
            if row_present(src, width, stride, line(k, width)) {
                swapped(
                    src,
                    line(k, width) * stride + column(k, width) * 4,
                    channel(k),
                    format,
                )
            } else {
                0
            },
    )
}

/// What stands at the byte of a pixel.
proof fn lemma_converted_at(
    src: Seq<u8>,
    width: int,
    height: int,
    stride: int,
    format: ShmFormat,
    x: int,
    y: int,
    c: int,
)
    requires
        0 <= x < width,
        0 <= y < height,
        0 <= c < 4,
    ensures
        0 <= byte_index(x, y, width, c) < width * height * 4,
        converted(src, width, height, stride, format)[byte_index(x, y, width, c)]
            == if row_present(src, width, stride, y) {
            swapped(src, y * stride + x * 4, c, format)
        } else {
            0
        },
{
    lemma_byte_index(x, y, width, c);
    lemma_byte_bound(x, y, width, height, c);
}

/// Convert `src` (which has `stride` bytes per row) into a tightly-packed
/// `width * height * 4` RGBA8 buffer. Rows beyond `width*4` (stride padding)
/// are skipped.
pub fn convert_to_rgba(
    src: &[u8],
    width: usize,
    height: usize,
    stride: usize,
    format: ShmFormat,
) -> (r: Vec<u8>)
    requires
        width * height * 4 <= usize::MAX,
    ensures
        r@ == converted(src@, width as int, height as int, stride as int, format),
{
    let ghost goal = converted(src@, width as int, height as int, stride as int, format);
    let len = src.len();
    let mut out: Vec<u8> = Vec::new();
    if width == 0 {
        assert(0 * height * 4 == 0) by (nonlinear_arith);
        assert(out@ =~= goal);
        return out;
    }
    proof {
        assert(goal.len() == width * height * 4) by {
            assert(width * height * 4 >= 0) by (nonlinear_arith);
        }
        assert(byte_index(0, 0, width as int, 0) == 0) by (nonlinear_arith);
    }
    for y in 0..height
        invariant
            width > 0,
            len == src@.len(),
            width * height * 4 <= usize::MAX,
            goal == converted(src@, width as int, height as int, stride as int, format),
            goal.len() == width * height * 4,
            out.len() == byte_index(0, y as int, width as int, 0),
            forall|k: int| 0 <= k < out.len() ==> out@[k] == goal[k],
    {
        proof {
            lemma_byte_bound(0, y as int, width as int, height as int, 0);
        }
        // Where the row starts, if it lies in the buffer.
        let start: Option<usize> = match y.checked_mul(stride) {
            Some(s) => match s.checked_add(width * 4) {
                Some(end) => if end <= len {
                    Some(s)
                } else {
                    None
                },
                None => None,
            },
            None => None,
        };
        assert(row_present(src@, width as int, stride as int, y as int) <==> start is Some);
        assert(start matches Some(s) ==> s == y * stride);
        for x in 0..width
            invariant
                width > 0,
                y < height,
                len == src@.len(),
                width * height * 4 <= usize::MAX,
                goal == converted(src@, width as int, height as int, stride as int, format),
                goal.len() == width * height * 4,
                row_present(src@, width as int, stride as int, y as int) <==> start is Some,
                start matches Some(s) ==> s == y * stride,
                out.len() == byte_index(x as int, y as int, width as int, 0),
                forall|k: int| 0 <= k < out.len() ==> out@[k] == goal[k],
        {
            proof {
                let (w, h, s) = (width as int, height as int, stride as int);
                lemma_converted_at(src@, w, h, s, format, x as int, y as int, 0);
                lemma_converted_at(src@, w, h, s, format, x as int, y as int, 1);
                lemma_converted_at(src@, w, h, s, format, x as int, y as int, 2);
                lemma_converted_at(src@, w, h, s, format, x as int, y as int, 3);
            }
            match start {
                Some(s) => {
                    let at: usize = s + x * 4;
                    out.push(src[at + 2]);
                    out.push(src[at + 1]);
                    out.push(src[at]);
                    out.push(
                        match format {
                            ShmFormat::Argb8888 => src[at + 3],
                            ShmFormat::Xrgb8888 => 255,
                        },
                    );
                },
                None => {
                    out.push(0);
                    out.push(0);
                    out.push(0);
                    out.push(0);
                },
            }
        }
        assert(byte_index(width as int, y as int, width as int, 0) == byte_index(
            0,
            y + 1,
            width as int,
            0,
        )) by (nonlinear_arith);
    }
    assert(byte_index(0, height as int, width as int, 0) == width * height * 4)
        by (nonlinear_arith);
    assert(out@ =~= goal);
    out
}

/// The description of an shm buffer as its client gave it.
#[derive(Debug, Clone, Copy)]
pub struct BufferData {
    /// The pixel format, if it is one of those supported.
    pub format: Option<ShmFormat>,
    pub offset: i32,
    pub width: i32,
    pub height: i32,
    pub stride: i32,
}

/// The picture that an shm pool holds, or nothing if the format is not
/// supported, the picture is empty or starts behind the end of the pool.
pub open spec fn shm_picture(pool: Seq<u8>, data: BufferData) -> Option<(u32, u32, Seq<u8>)> {
    let offset = if data.offset < 0 {
        0
    } else {
        data.offset as int
    };
    match data.format {
        Some(format) => if data.width > 0 && data.height > 0 && offset <= pool.len() {
            Some(
                (
                    data.width as u32,
                    data.height as u32,
                    converted(
                        pool.skip(offset),
                        data.width as int,
                        data.height as int,
                        stride_bytes(data.stride),
                        format,
                    ),
                ),
            )
        } else {
            None
        },
        None => None,
    }
}

/// A stride as a number of bytes. A negative one counts from the end of the
/// address space, so that no row but the first lies in the pool.
pub open spec fn stride_bytes(stride: i32) -> int {
    if stride < 0 {
        usize::MAX + 1 + stride
    } else {
        stride as int
    }
}

/// Read an shm buffer's contents into a tightly-packed RGBA8 buffer.
pub fn read_shm(pool: &[u8], data: BufferData) -> (r: Option<(u32, u32, Vec<u8>)>)
    requires
        data.width > 0 && data.height > 0 ==> data.width * data.height * 4 <= usize::MAX,
    ensures
        match r {
            Some((width, height, pixels)) => shm_picture(pool@, data) == Some(
                (width, height, pixels@),
            ) && pixels.len() == width * height * 4,
            None => shm_picture(pool@, data) is None,
        },
{
    let format = data.format?;
    if data.width <= 0 || data.height <= 0 {
        return None;
    }
    let offset: usize = if data.offset < 0 {
        0
    } else {
        data.offset as usize
    };
    if offset > pool.len() {
        return None;
    }
    let slice = vstd::slice::slice_subrange(pool, offset, pool.len());
    assert(slice@ =~= pool@.skip(offset as int));
    let stride: usize = if data.stride < 0 {
        usize::MAX - (-(data.stride + 1)) as usize
    } else {
        data.stride as usize
    };
    let rgba = convert_to_rgba(
        slice,
        data.width as usize,
        data.height as usize,
        stride,
        format,
    );
    assert(rgba@.len() == data.width * data.height * 4) by {
        assert(data.width * data.height * 4 >= 0) by (nonlinear_arith)
            requires
                data.width > 0,
                data.height > 0,
        ;
    }
    Some((data.width as u32, data.height as u32, rgba))
}

// ---------------------------------------------------------------------------
// Laws

/// The pixel `(x, y)` of a picture is read from the four bytes at `y` strides and
/// `x` times four: blue, green, red and alpha. Without alpha the pixel is opaque.
/// The pixels of a row that is not all there are zero.
pub proof fn law_shm_pixels_are_bgra(
    src: Seq<u8>,
    width: int,
    height: int,
    stride: int,
    format: ShmFormat,
    x: int,
    y: int,
)
    requires
        0 <= x < width,
        0 <= y < height,
    ensures
        ({
            let out = converted(src, width, height, stride, format);
            let to = (y * width + x) * 4;
            let from = y * stride + x * 4;
            &&& out.len() == width * height * 4
            &&& 0 <= to && to + 4 <= out.len()
            &&& y * stride + width * 4 <= src.len() ==> {
                &&& out[to] == src[from + 2]
                &&& out[to + 1] == src[from + 1]
                &&& out[to + 2] == src[from]
                &&& format is Argb8888 ==> out[to + 3] == src[from + 3]
                &&& format is Xrgb8888 ==> out[to + 3] == 255
            }
            &&& y * stride + width * 4 > src.len() ==> out[to] == 0 && out[to + 1] == 0 && out[to
                + 2] == 0 && out[to + 3] == 0
        }),
{
    lemma_converted_at(src, width, height, stride, format, x, y, 0);
    lemma_converted_at(src, width, height, stride, format, x, y, 1);
    lemma_converted_at(src, width, height, stride, format, x, y, 2);
    lemma_converted_at(src, width, height, stride, format, x, y, 3);
}

/// A buffer is read exactly if its format is known, its sides are positive and it
/// starts in the pool; the picture has its sides and starts at its offset.
pub proof fn law_buffers_are_read(pool: Seq<u8>, data: BufferData)
    ensures
        shm_picture(pool, data) is Some <==> data.format is Some && data.width > 0 && data.height
            > 0 && data.offset <= pool.len(),
        shm_picture(pool, data) matches Some((w, h, pixels)) ==> {
            &&& w == data.width && h == data.height
            &&& data.stride >= 0 && data.offset >= 0 ==> pixels == converted(
                pool.skip(data.offset as int),
                data.width as int,
                data.height as int,
                data.stride as int,
                data.format.unwrap(),
            )
            &&& data.stride >= 0 && data.offset < 0 ==> pixels == converted(
                pool,
                data.width as int,
                data.height as int,
                data.stride as int,
                data.format.unwrap(),
            )
        },
{
    assert(pool.skip(0) =~= pool);
}

} // verus!
