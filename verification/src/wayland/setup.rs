//! What the compositor advertises at startup.

use vstd::prelude::*;

use crate::wayland::event::Event;
use crate::wayland::outputs::OutputInfo;

verus! {

/// The refresh rate of every output, in thousandths of a hertz.
pub const REFRESH: i32 = 60_000;

/// How long a client's key is held before it repeats, in milliseconds, and how
/// often it then repeats, in hertz.
pub const REPEAT_DELAY: i32 = 200;

/// How often a held key repeats, in hertz.
pub const REPEAT_RATE: i32 = 25;

/// How far apart frame callbacks are fired, in milliseconds, so clients pace
/// their rendering to roughly display rate instead of busy-looping.
pub const FRAME_MS: u64 = 16;

/// The pixel format of a GPU buffer.
#[derive(Debug, Clone, Copy, PartialEq, Eq, Structural)]
pub enum Fourcc {
    Argb8888,
    Xrgb8888,
}

/// The memory layout of a GPU buffer.
#[derive(Debug, Clone, Copy, PartialEq, Eq, Structural)]
pub enum Modifier {
    /// Implicit: known to the driver alone.
    Invalid,
    Linear,
}

/// The formats of GPU buffers that are advertised: the common 32-bit formats,
/// each with implicit and linear layout.
pub fn dmabuf_formats() -> (r: Vec<(Fourcc, Modifier)>)
    ensures
        r@ == seq![
            (Fourcc::Argb8888, Modifier::Invalid),
            (Fourcc::Argb8888, Modifier::Linear),
            (Fourcc::Xrgb8888, Modifier::Invalid),
            (Fourcc::Xrgb8888, Modifier::Linear),
        ],
{
    let mut out: Vec<(Fourcc, Modifier)> = Vec::new();
    out.push((Fourcc::Argb8888, Modifier::Invalid));
    out.push((Fourcc::Argb8888, Modifier::Linear));
    out.push((Fourcc::Xrgb8888, Modifier::Invalid));
    out.push((Fourcc::Xrgb8888, Modifier::Linear));
    out
}

/// The mode of an output: its size and its refresh rate.
#[derive(Debug, Clone, Copy, PartialEq, Eq, Structural)]
pub struct OutputMode {
    pub width: i32,
    pub height: i32,
    pub refresh: i32,
}

/// The mode and the position of each output of a layout.
pub open spec fn modes(layout: Seq<OutputInfo>) -> Seq<(OutputMode, (i32, i32))> {
    Seq::new(
        layout.len(),
        |i: int|
            (
                OutputMode { width: layout[i].w, height: layout[i].h, refresh: REFRESH },
                (layout[i].x, layout[i].y),
            ),
    )
}

/// The mode and the position to advertise for each output of a layout.
pub fn output_modes(layout: &Vec<OutputInfo>) -> (r: Vec<(OutputMode, (i32, i32))>)
    ensures
        r@ == modes(layout@),
{
    let mut out: Vec<(OutputMode, (i32, i32))> = Vec::new();
    for i in 0..layout.len()
        invariant
            out@ =~= modes(layout@).take(i as int),
    {
        let o = &layout[i];
        out.push((OutputMode { width: o.w, height: o.h, refresh: REFRESH }, (o.x, o.y)));
    }
    assert(out@ =~= modes(layout@));
    out
}

/// The event that the compositor accepts clients.
pub fn ready<F>(socket_name: String, runtime_dir: String, outputs: Vec<OutputInfo>) -> (r: Event<F>)
    ensures
        r == (Event::<F>::Ready { socket_name, runtime_dir, outputs }),
{
    Event::Ready { socket_name, runtime_dir, outputs }
}

// ---------------------------------------------------------------------------
// Laws

/// Every output is advertised with its own size and position, at 60 hertz.
pub proof fn law_outputs_are_advertised_as_laid_out(layout: Seq<OutputInfo>, i: int)
    requires
        0 <= i < layout.len(),
    ensures
        modes(layout).len() == layout.len(),
        modes(layout)[i].0.width == layout[i].w,
        modes(layout)[i].0.height == layout[i].h,
        modes(layout)[i].0.refresh == 60_000,
        modes(layout)[i].1 == (layout[i].x, layout[i].y),
{
}

/// Keys repeat 25 times a second after 200 milliseconds, and frames are paced at
/// 16 milliseconds.
pub proof fn law_seat_timings()
    ensures
        REPEAT_DELAY == 200,
        REPEAT_RATE == 25,
        FRAME_MS == 16,
{
}

} // verus!
