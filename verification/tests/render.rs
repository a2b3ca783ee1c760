use s_compositor::render::blit::blit_over;
use s_compositor::render::crop::{crop_to_geometry, Geometry};
use s_compositor::render::shm::{convert_to_rgba, read_shm, BufferData, ShmFormat};
use s_compositor::render::texture_cache::TextureCache;
use s_compositor::render::Size;

#[test]
fn swaps_bgra_to_rgba() {
    // One pixel, bytes in memory [B, G, R, A] = [10, 20, 30, 40].
    let src = [10u8, 20, 30, 40];
    let out = convert_to_rgba(&src, 1, 1, 4, ShmFormat::Argb8888);
    assert_eq!(out, vec![30, 20, 10, 40]);
}

#[test]
fn xrgb_forces_opaque_alpha() {
    let src = [10u8, 20, 30, 0];
    let out = convert_to_rgba(&src, 1, 1, 4, ShmFormat::Xrgb8888);
    assert_eq!(out, vec![30, 20, 10, 255]);
}

#[test]
fn honors_stride_padding() {
    // 1x2 image with stride 8 (4 bytes padding per row).
    let src = [
        1, 2, 3, 4, /*pad*/ 0, 0, 0, 0, // row 0 pixel [B,G,R,A]=1,2,3,4
        5, 6, 7, 8, /*pad*/ 0, 0, 0, 0, // row 1
    ];
    let out = convert_to_rgba(&src, 1, 2, 8, ShmFormat::Argb8888);
    assert_eq!(out, vec![3, 2, 1, 4, 7, 6, 5, 8]);
}

#[test]
fn short_buffers_leave_rows_zeroed() {
    let src = [1, 2, 3, 4, 5, 6, 7];
    let out = convert_to_rgba(&src, 1, 3, 4, ShmFormat::Argb8888);
    assert_eq!(out, vec![3, 2, 1, 4, 0, 0, 0, 0, 0, 0, 0, 0]);
    assert!(convert_to_rgba(&src, 0, 3, 4, ShmFormat::Argb8888).is_empty());
    let far = convert_to_rgba(&src, 1, 2, usize::MAX, ShmFormat::Argb8888);
    assert_eq!(far, vec![3, 2, 1, 4, 0, 0, 0, 0]);
}

fn data(width: i32, height: i32, offset: i32, stride: i32) -> BufferData {
    BufferData {
        format: Some(ShmFormat::Xrgb8888),
        offset,
        width,
        height,
        stride,
    }
}

#[test]
fn reads_shm_pools() {
    let pool = [9, 9, 9, 9, 1, 2, 3, 4];
    let read = |d| read_shm(&pool, d);
    assert_eq!(read(data(1, 1, 4, 4)), Some((1, 1, vec![3, 2, 1, 255])));
    assert_eq!(read(data(1, 1, -5, 4)), Some((1, 1, vec![9, 9, 9, 255])));
    assert_eq!(read(data(1, 1, 8, 4)), Some((1, 1, vec![0, 0, 0, 0])));
    assert_eq!(read(data(1, 1, 9, 4)), None);
    assert_eq!(read(data(0, 1, 0, 4)), None);
    assert_eq!(read(data(1, -1, 0, 4)), None);
    let unsupported = BufferData { format: None, ..data(1, 1, 0, 4) };
    assert_eq!(read(unsupported), None);
}

#[test]
fn generation_increments_on_reimport() {
    let mut cache = TextureCache::new();
    let size = Size {
        width: 4,
        height: 4,
    };
    assert_eq!(cache.insert(1, 10, size), 0);
    assert_eq!(cache.insert(1, 11, size), 1);
    assert_eq!(cache.get(1).unwrap().gl_id, 11);
    assert_eq!(cache.remove(1), Some(11));
    assert!(cache.get(1).is_none());
}

#[test]
fn forgotten_surfaces_start_anew() {
    let mut cache = TextureCache::default();
    let size = Size { width: 1, height: 2 };
    cache.insert(7, 1, size);
    cache.insert(7, 2, size);
    cache.insert(8, 3, size);
    cache.remove(7);
    assert_eq!(cache.remove(7), None);
    assert_eq!(cache.insert(7, 4, size), 0);
    assert_eq!(cache.get(8).unwrap().size, size);
}

/// Build a `w`x`h` RGBA8 buffer whose every pixel's R channel is its column
/// and G channel is its row, so a crop is easy to verify positionally.
fn ramp(w: i32, h: i32) -> (u32, u32, Vec<u8>) {
    let mut px = Vec::with_capacity((w * h * 4) as usize);
    for y in 0..h {
        for x in 0..w {
            px.extend_from_slice(&[x as u8, y as u8, 0, 255]);
        }
    }
    (w as u32, h as u32, px)
}

fn pixel(buf: &(u32, u32, Vec<u8>), x: i32, y: i32) -> [u8; 4] {
    let i = ((y * buf.0 as i32 + x) * 4) as usize;
    buf.2[i..i + 4].try_into().unwrap()
}

fn rect(x: i32, y: i32, width: i32, height: i32) -> Option<Geometry> {
    Some(Geometry { x, y, width, height })
}

#[test]
fn no_geometry_is_identity() {
    let (out, off) = crop_to_geometry(ramp(4, 4), None);
    assert_eq!((out.0, out.1), (4, 4));
    assert_eq!(off, (0, 0));
}

#[test]
fn full_geometry_is_identity() {
    let geo = rect(0, 0, 4, 4);
    let (out, off) = crop_to_geometry(ramp(4, 4), geo);
    assert_eq!((out.0, out.1), (4, 4));
    assert_eq!(off, (0, 0));
}

#[test]
fn crops_away_shadow_margin() {
    // A 10x10 buffer with the real window a 6x6 rect at (2,2): the
    // surrounding 2px is the CSD shadow that must be dropped.
    let geo = rect(2, 2, 6, 6);
    let (out, off) = crop_to_geometry(ramp(10, 10), geo);
    assert_eq!((out.0, out.1), (6, 6));
    assert_eq!(off, (2, 2));
    // Top-left of the crop is the original (2,2) pixel.
    assert_eq!(pixel(&out, 0, 0), [2, 2, 0, 255]);
    // Bottom-right of the crop is the original (7,7) pixel.
    assert_eq!(pixel(&out, 5, 5), [7, 7, 0, 255]);
}

#[test]
fn geometry_is_clamped_to_buffer() {
    // Geometry larger than the buffer (or partly outside) is clamped, never
    // panics or reads OOB.
    let geo = rect(-3, -3, 100, 100);
    let (out, off) = crop_to_geometry(ramp(8, 8), geo);
    assert_eq!((out.0, out.1), (8, 8));
    assert_eq!(off, (0, 0));
}

#[test]
fn degenerate_geometry_is_identity() {
    let geo = rect(4, 4, 0, 0);
    let (out, off) = crop_to_geometry(ramp(8, 8), geo);
    assert_eq!((out.0, out.1), (8, 8));
    assert_eq!(off, (0, 0));
}

#[test]
fn partly_outside_geometry_keeps_the_inside() {
    let (out, off) = crop_to_geometry(ramp(5, 4), rect(3, 1, 10, 2));
    assert_eq!((out.0, out.1), (2, 2));
    assert_eq!(off, (3, 1));
    assert_eq!(pixel(&out, 1, 1), [4, 2, 0, 255]);
}

#[test]
fn pictures_are_drawn_over_each_other() {
    let mut canvas = vec![0u8; 2 * 2 * 4];
    let opaque = vec![10, 20, 30, 255, 1, 2, 3, 255];
    blit_over(&mut canvas, 2, 2, 0, 0, &opaque, 2, 1);
    assert_eq!(&canvas[..8], &opaque[..]);
    assert_eq!(&canvas[8..], &[0; 8]);
    // Half-transparent white (colours multiplied by alpha) over the first pixel.
    blit_over(&mut canvas, 2, 2, 0, 0, &vec![128, 128, 128, 128], 1, 1);
    assert_eq!(&canvas[..4], &[132, 137, 142, 255]);
    // Transparent pixels change nothing.
    let before = canvas.clone();
    blit_over(&mut canvas, 2, 2, 0, 0, &vec![0; 16], 2, 2);
    assert_eq!(canvas, before);
}

#[test]
fn pictures_are_cut_off_at_the_canvas() {
    let mut canvas = vec![0u8; 2 * 2 * 4];
    let (w, h, pixels) = ramp(3, 3);
    blit_over(&mut canvas, 2, 2, -2, -2, &pixels, w as usize, h as usize);
    assert_eq!(&canvas[..4], &[2, 2, 0, 255]);
    assert_eq!(&canvas[4..], &[0; 12]);
    blit_over(&mut canvas, 2, 2, 1, 1, &pixels, w as usize, h as usize);
    assert_eq!(&canvas[12..], &[0, 0, 0, 255]);
    blit_over(&mut canvas, 2, 2, 5, i32::MIN, &pixels, w as usize, h as usize);
    assert_eq!(&canvas[4..12], &[0; 8]);
}
