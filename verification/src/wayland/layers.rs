//! Size and position of layer-shell surfaces (bars, wallpapers, notifications).

use vstd::prelude::*;

verus! {

/// The layer of a layer-shell surface.
#[derive(Debug, Clone, Copy, PartialEq, Eq, Structural)]
pub enum Layer {
    Background,
    Bottom,
    Top,
    Overlay,
}

/// The output edges that a layer surface is anchored to.
#[derive(Debug, Clone, Copy, PartialEq, Eq, Structural)]
pub struct Anchor {
    pub top: bool,
    pub bottom: bool,
    pub left: bool,
    pub right: bool,
}

/// The distances that a layer surface keeps from the edges it is anchored to.
#[derive(Debug, Clone, Copy, PartialEq, Eq, Structural)]
pub struct Margins {
    pub top: i32,
    pub right: i32,
    pub bottom: i32,
    pub left: i32,
}

/// The number of a layer: 0=background, 1=bottom, 2=top, 3=overlay.
pub open spec fn layer_number(layer: Layer) -> u8 {
    match layer {
        Layer::Background => 0,
        Layer::Bottom => 1,
        Layer::Top => 2,
        Layer::Overlay => 3,
    }
}

/// The number of a layer.
pub fn layer_to_u8(layer: Layer) -> (r: u8)
    ensures
        r == layer_number(layer),
{
    match layer {
        Layer::Background => 0,
        Layer::Bottom => 1,
        Layer::Top => 2,
        Layer::Overlay => 3,
    }
}

/// The position on one axis of a surface of a size on an output: at the far edge
/// when it is anchored to that one only, else at the near edge.
pub open spec fn axis_position(
    out: i32,
    near: bool,
    far: bool,
    near_margin: i32,
    far_margin: i32,
    size: i32,
) -> i32 {
    if far && !near {
        out.wrapping_sub(size).wrapping_sub(far_margin)
    } else {
        near_margin
    }
}

/// The position of a layer surface on an output.
pub open spec fn position(output: (i32, i32), anchor: Anchor, margin: Margins, w: i32, h: i32) -> (
    i32,
    i32,
) {
    (
        axis_position(output.0, anchor.left, anchor.right, margin.left, margin.right, w),
        axis_position(output.1, anchor.top, anchor.bottom, margin.top, margin.bottom, h),
    )
}

/// Position a layer surface against the output edges per its anchors+margins.
/// `output` is the current output size in logical pixels.
pub fn layer_position(output: (i32, i32), anchor: Anchor, margin: Margins, w: i32, h: i32) -> (r: (
    i32,
    i32,
))
    ensures
        r == position(output, anchor, margin, w, h),
{
    let x = if anchor.right && !anchor.left {
        output.0.wrapping_sub(w).wrapping_sub(margin.right)
    } else {
        margin.left
    };
    let y = if anchor.bottom && !anchor.top {
        output.1.wrapping_sub(h).wrapping_sub(margin.bottom)
    } else {
        margin.top
    };
    (x, y)
}

/// The size of a layer surface: what it asked for, with the output's size where
/// it asked for nothing.
pub open spec fn filled(desired: (i32, i32), output: (i32, i32)) -> (i32, i32) {
    (
        if desired.0 > 0 {
            desired.0
        } else {
            output.0
        },
        if desired.1 > 0 {
            desired.1
        } else {
            output.1
        },
    )
}

/// The size of a layer surface that asked for `desired`.
pub fn layer_size(desired: (i32, i32), output: (i32, i32)) -> (r: (i32, i32))
    ensures
        r == filled(desired, output),
{
    let w = if desired.0 > 0 {
        desired.0
    } else {
        output.0
    };
    let h = if desired.1 > 0 {
        desired.1
    } else {
        output.1
    };
    (w, h)
}

/// The layer surfaces that follow the output's size, each with its new size: those
/// that left a side to the output.
pub open spec fn refilled(desired: Seq<(u64, (i32, i32))>, output: (i32, i32)) -> Seq<
    (u64, (i32, i32)),
>
    decreases desired.len(),
{
    if desired.len() == 0 {
        seq![]
    } else {
        let rest = refilled(desired.drop_last(), output);
        let (surface, size) = desired.last();
        if size.0 > 0 && size.1 > 0 {
            rest
        } else {
            rest.push((surface, filled(size, output)))
        }
    }
}

/// The layer surfaces to configure anew for an output size, from what each of
/// them asked for.
pub fn refill_layers(desired: &Vec<(u64, (i32, i32))>, output: (i32, i32)) -> (r: Vec<
    (u64, (i32, i32)),
>)
    ensures
        r@ == refilled(desired@, output),
{
    let mut out: Vec<(u64, (i32, i32))> = Vec::new();
    for i in 0..desired.len()
        invariant
            out@ == refilled(desired@.take(i as int), output),
    {
        proof {
            assert(desired@.take(i + 1).drop_last() =~= desired@.take(i as int));
        }
        let (surface, size) = desired[i];
        if !(size.0 > 0 && size.1 > 0) {
            out.push((surface, layer_size(size, output)));
        }
    }
    assert(desired@.take(desired@.len() as int) =~= desired@);
    out
}

/// A surface that fits on the output and is anchored to the right or bottom edge
/// alone ends its margin before that edge; any other starts its margin behind
/// the left or top edge.
pub proof fn law_anchored_surface_keeps_its_margin(
    output: (i32, i32),
    anchor: Anchor,
    margin: Margins,
    w: i32,
    h: i32,
)
    requires
        0 <= w <= output.0,
        0 <= h <= output.1,
        margin.right >= 0,
        margin.bottom >= 0,
    ensures
        ({
            let (x, y) = position(output, anchor, margin, w, h);
            &&& if anchor.right && !anchor.left {
                x + w + margin.right == output.0
            } else {
                x == margin.left
            }
            &&& if anchor.bottom && !anchor.top {
                y + h + margin.bottom == output.1
            } else {
                y == margin.top
            }
        }),
{
}

/// The layers are numbered from the bottom to the top.
pub proof fn law_layers_are_numbered_upwards()
    ensures
        layer_number(Layer::Background) == 0,
        layer_number(Layer::Bottom) == 1,
        layer_number(Layer::Top) == 2,
        layer_number(Layer::Overlay) == 3,
{
}

/// A layer surface has the sides that it asked for, and those of the output where
/// it asked for none.
pub proof fn law_layer_surfaces_fill_the_output(desired: (i32, i32), output: (i32, i32))
    ensures
        desired.0 > 0 ==> filled(desired, output).0 == desired.0,
        desired.1 > 0 ==> filled(desired, output).1 == desired.1,
        desired.0 <= 0 ==> filled(desired, output).0 == output.0,
        desired.1 <= 0 ==> filled(desired, output).1 == output.1,
{
}

/// When the output changes its size, exactly the layer surfaces that left a side
/// to it are configured anew, each with its size on that output, in their order.
pub proof fn law_only_filling_layers_are_configured(
    desired: Seq<(u64, (i32, i32))>,
    output: (i32, i32),
) -> (rows: Seq<int>)
    ensures
        ({
            let out = refilled(desired, output);
            &&& rows.len() == out.len()
            &&& forall|a: int, b: int| 0 <= a < b < rows.len() ==> rows[a] < rows[b]
            &&& forall|k: int|
                0 <= k < rows.len() ==> {
                    let (surface, size) = desired[#[trigger] rows[k]];
                    &&& 0 <= rows[k] < desired.len()
                    &&& size.0 <= 0 || size.1 <= 0
                    &&& out[k].0 == surface
                    &&& out[k].1.0 == (if size.0 > 0 {
                        size.0
                    } else {
                        output.0
                    })
                    &&& out[k].1.1 == (if size.1 > 0 {
                        size.1
                    } else {
                        output.1
                    })
                }
            &&& forall|i: int|
                0 <= i < desired.len() && ((#[trigger] desired[i]).1.0 <= 0 || desired[i].1.1 <= 0)
                    ==> rows.contains(i)
        }),
    decreases desired.len(),
{
    if desired.len() == 0 {
        seq![]
    } else {
        let last = desired.len() - 1;
        let less = desired.drop_last();
        let before = law_only_filling_layers_are_configured(less, output);
        let size = desired[last].1;
        let rows = if size.0 > 0 && size.1 > 0 {
            before
        } else {
            before.push(last)
        };
        assert(desired.last() == desired[last]);
        assert forall|k: int| 0 <= k < before.len() implies desired[#[trigger] before[k]]
            == less[before[k]] by {}
        assert forall|i: int|
            0 <= i < desired.len() && ((#[trigger] desired[i]).1.0 <= 0 || desired[i].1.1
                <= 0) implies rows.contains(i) by {
            if i < last {
                assert(less[i] == desired[i]);
                let k = choose|k: int| 0 <= k < before.len() && before[k] == i;
                assert(rows[k] == i);
            } else {
                assert(rows[before.len() as int] == i);
            }
        }
        rows
    }
}

} // verus!
