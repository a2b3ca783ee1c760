//! Flattening a tree of surfaces into one picture.

use vstd::prelude::*;

use crate::render::blit::{blit_over, drawn, over};
use crate::render::pixels::{byte_index, channel, column, lemma_byte_index, line};
use crate::table::Table;

verus! {

/// A tightly-packed RGBA8 picture.
#[derive(Debug)]
pub struct Picture {
    pub width: u32,
    pub height: u32,
    pub pixels: Vec<u8>,
}

impl Picture {
    /// There are four bytes for every pixel, and the sides are signed numbers in
    /// the protocol.
    pub open spec fn wf(&self) -> bool {
        &&& self.pixels.len() == self.width * self.height * 4
        &&& self.width <= i32::MAX
        &&& self.height <= i32::MAX
    }
}

/// What a commit did to the buffer of a surface.
#[derive(Debug)]
pub enum BufferChange {
    /// A new buffer was attached; there is a picture if it could be read.
    New(Option<Picture>),
    /// The buffer was removed.
    Removed,
    /// The buffer is the one it was.
    Unchanged,
}

/// A surface of a tree.
#[derive(Debug)]
pub struct SurfaceNode {
    pub surface: u64,
    /// The position of the parent.
    pub location: (i32, i32),
    /// The subsurface offset (0 for the root).
    pub offset: (i32, i32),
    pub change: BufferChange,
}

impl SurfaceNode {
    /// The position can be computed, and the picture is sound.
    pub open spec fn wf(&self) -> bool {
        &&& i32::MIN <= self.location.0 + self.offset.0 <= i32::MAX
        &&& i32::MIN <= self.location.1 + self.offset.1 <= i32::MAX
        &&& self.change matches BufferChange::New(Some(p)) ==> p.wf()
    }
}

/// The position of a surface: that of its parent plus its offset. It is also
/// what the positions of its children are counted from.
pub fn surface_position(location: (i32, i32), offset: (i32, i32)) -> (r: (i32, i32))
    requires
        i32::MIN <= location.0 + offset.0 <= i32::MAX,
        i32::MIN <= location.1 + offset.1 <= i32::MAX,
    ensures
        r.0 == location.0 + offset.0,
        r.1 == location.1 + offset.1,
{
    (location.0 + offset.0, location.1 + offset.1)
}

/// A picture to draw: whose it is and where it goes.
#[verifier::ext_equal]
pub struct Draw {
    pub surface: u64,
    pub x: int,
    pub y: int,
}

/// The last-known pictures of surfaces.
pub type Cache = Map<u64, Picture>;

/// The pictures of the surfaces that are not dead.
pub open spec fn pruned(cache: Cache, dead: Seq<u64>) -> Cache {
    Map::new(|s: u64| cache.contains_key(s) && !dead.contains(s), |s: u64| cache[s])
}

/// The pictures after a change of one surface's buffer. A buffer that could not
/// be read leaves the picture that was there.
pub open spec fn changed(cache: Cache, surface: u64, change: BufferChange) -> Cache {
    match change {
        BufferChange::New(Some(picture)) => cache.insert(surface, picture),
        BufferChange::Removed => cache.remove(surface),
        _ => cache,
    }
}

/// The pictures after the changes of all surfaces of a tree, and what is to be
/// drawn, in order: each surface that then has a picture.
pub open spec fn walked(cache: Cache, nodes: Seq<SurfaceNode>) -> (Cache, Seq<Draw>)
    decreases nodes.len(),
{
    if nodes.len() == 0 {
        (cache, seq![])
    } else {
        let (before, draws) = walked(cache, nodes.drop_last());
        let node = nodes.last();
        let now = changed(before, node.surface, node.change);
        let draw = Draw {
            surface: node.surface,
            x: node.location.0 + node.offset.0,
            y: node.location.1 + node.offset.1,
        };
        if now.contains_key(node.surface) {
            (now, draws.push(draw))
        } else {
            (now, draws)
        }
    }
}

/// A transparent `w`x`h` canvas.
pub open spec fn blank(w: int, h: int) -> Seq<u8> {
    Seq::new((w * h * 4) as nat, |k: int| 0u8)
}

/// A `w`x`h` canvas with pictures drawn over each other, the first at the
/// bottom.
pub open spec fn painted(cache: Cache, draws: Seq<Draw>, w: int, h: int) -> Seq<u8>
    decreases draws.len(),
{
    if draws.len() == 0 {
        blank(w, h)
    } else {
        let below = painted(cache, draws.drop_last(), w, h);
        let d = draws.last();
        if cache.contains_key(d.surface) {
            let p = cache[d.surface];
            drawn(below, w, d.x, d.y, p.pixels@, p.width as int, p.height as int)
        } else {
            below
        }
    }
}

/// The picture of a tree, as large as the picture of its root; none if the root
/// has no picture.
pub open spec fn flattened(cache: Cache, draws: Seq<Draw>, root: u64) -> Option<
    (u32, u32, Seq<u8>),
> {
    if cache.contains_key(root) {
        let (w, h) = (cache[root].width, cache[root].height);
        Some((w, h, painted(cache, draws, w as int, h as int)))
    } else {
        None
    }
}

/// Every picture is sound.
pub open spec fn cache_wf(cache: Cache) -> bool {
    forall|s: u64| #[trigger] cache.contains_key(s) ==> cache[s].wf()
}

/// A position and whose picture goes there.
struct Placed {
    surface: u64,
    x: i32,
    y: i32,
}

/// The values of placed pictures.
spec fn placed_views(v: Seq<Placed>) -> Seq<Draw> {
    Seq::new(v.len(), |i: int| Draw { surface: v[i].surface, x: v[i].x as int, y: v[i].y as int })
}

/// Drop the pictures of dead surfaces.
fn prune(cache: &mut Table<Picture>, dead: &Vec<u64>)
    requires
        old(cache).wf(),
    ensures
        final(cache).wf(),
        final(cache)@ == pruned(old(cache)@, dead@),
{
    let ghost before = cache@;
    assert(before =~= pruned(before, dead@.take(0)));
    for i in 0..dead.len()
        invariant
            cache.wf(),
            cache@ == pruned(before, dead@.take(i as int)),
    {
        cache.remove(dead[i]);
        proof {
            assert forall|s: u64| dead@.take(i + 1).contains(s) <==> dead@.take(i as int).contains(
                s,
            ) || s == dead@[i as int] by {
                let a = dead@.take(i as int);
                let b = dead@.take(i + 1);
                if a.contains(s) {
                    let k = choose|k: int| 0 <= k < a.len() && a[k] == s;
                    assert(b[k] == s);
                }
                if b.contains(s) {
                    let k = choose|k: int| 0 <= k < b.len() && b[k] == s;
                    if k < i {
                        assert(a[k] == s);
                    }
                }
                assert(b[i as int] == dead@[i as int]);
            }
            assert(cache@ =~= pruned(before, dead@.take(i + 1)));
        }
    }
    assert(dead@.take(dead@.len() as int) =~= dead@);
}

/// A transparent canvas.
fn blank_canvas(len: usize) -> (r: Vec<u8>)
    ensures
        r.len() == len,
        forall|k: int| 0 <= k < len ==> r@[k] == 0,
{
    let mut out: Vec<u8> = Vec::new();
    for i in 0..len
        invariant
            out.len() == i,
            forall|k: int| 0 <= k < i ==> out@[k] == 0,
    {
        out.push(0);
    }
    out
}

/// Apply the buffer changes of a tree and note what is to be drawn.
fn walk(cache: &mut Table<Picture>, nodes: Vec<SurfaceNode>) -> (r: Vec<Placed>)
    requires
        old(cache).wf(),
        cache_wf(old(cache)@),
        forall|i: int| 0 <= i < nodes.len() ==> (#[trigger] nodes@[i]).wf(),
    ensures
        final(cache).wf(),
        cache_wf(final(cache)@),
        (final(cache)@, placed_views(r@)) == walked(old(cache)@, nodes@),
{
    let ghost before = cache@;
    let mut draw: Vec<Placed> = Vec::new();
    let ghost all = nodes@;
    assert(placed_views(draw@) =~= seq![]);
    for node in it: nodes.into_iter()
        invariant
            it.seq() == all,
            cache.wf(),
            cache_wf(cache@),
            forall|i: int| 0 <= i < all.len() ==> (#[trigger] all[i]).wf(),
            (cache@, placed_views(draw@)) == walked(before, all.take(it.index() as int)),
    {
        let ghost n = it.index() as int;
        let ghost marks = draw@;
        proof {
            assert(node == all[n]);
            assert(all[n].wf());
            assert(all.take(n + 1).drop_last() =~= all.take(n));
            assert(all.take(n + 1).last() == all[n]);
        }
        let pos = surface_position(node.location, node.offset);
        let surface = node.surface;
        match node.change {
            BufferChange::New(Some(picture)) => {
                cache.insert(surface, picture);
            },
            BufferChange::New(None) => {},
            BufferChange::Removed => {
                cache.remove(surface);
            },
            BufferChange::Unchanged => {},
        }
        if cache.contains_key(surface) {
            draw.push(Placed { surface, x: pos.0, y: pos.1 });
            assert(placed_views(draw@) =~= placed_views(marks).push(
                Draw { surface, x: pos.0 as int, y: pos.1 as int },
            ));
        }
    }
    assert(all.take(all.len() as int) =~= all);
    draw
}

/// Draw the pictures over each other.
fn paint(cache: &Table<Picture>, draw: &Vec<Placed>, w: u32, h: u32) -> (r: Vec<u8>)
    requires
        cache.wf(),
        cache_wf(cache@),
        w * h * 4 <= usize::MAX,
    ensures
        r@ == painted(cache@, placed_views(draw@), w as int, h as int),
        r.len() == w * h * 4,
{
    proof {
        assert(w * h >= 0 && w * h * 4 >= 0) by (nonlinear_arith);
        assert(w * h <= w * h * 4);
    }
    let mut canvas = blank_canvas(w as usize * h as usize * 4);
    let ghost draws = placed_views(draw@);
    assert(canvas@ =~= blank(w as int, h as int));
    for i in 0..draw.len()
        invariant
            cache.wf(),
            cache_wf(cache@),
            draws == placed_views(draw@),
            canvas.len() == w * h * 4,
            canvas@ == painted(cache@, draws.take(i as int), w as int, h as int),
    {
        let ghost below = canvas@;
        proof {
            assert(draws.take(i + 1).drop_last() =~= draws.take(i as int));
            assert(draws.take(i + 1).last() == draws[i as int]);
        }
        let d = &draw[i];
        if let Some(p) = cache.get(d.surface) {
            blit_over(
                &mut canvas,
                w as usize,
                h as usize,
                d.x,
                d.y,
                &p.pixels,
                p.width as usize,
                p.height as usize,
            );
        }
    }
    assert(draws.take(draws.len() as int) =~= draws);
    canvas
}

/// Flatten a surface tree (a root plus its subsurfaces, in render order) into a
/// single tightly-packed RGBA8 picture sized to the root's buffer.
///
/// `cache` holds the last-known picture of each surface so subsurfaces that
/// don't re-attach a buffer on every parent commit stay visible. Dead surfaces
/// are pruned from it.
pub fn composite_tree(
    root: u64,
    dead: &Vec<u64>,
    nodes: Vec<SurfaceNode>,
    cache: &mut Table<Picture>,
) -> (r: Option<Picture>)
    requires
        old(cache).wf(),
        cache_wf(old(cache)@),
        forall|i: int| 0 <= i < nodes.len() ==> (#[trigger] nodes@[i]).wf(),
    ensures
        final(cache).wf(),
        cache_wf(final(cache)@),
        ({
            let (pictures, draws) = walked(pruned(old(cache)@, dead@), nodes@);
            &&& final(cache)@ == pictures
            &&& match r {
                Some(p) => flattened(pictures, draws, root) == Some((p.width, p.height, p.pixels@))
                    && p.wf(),
                None => flattened(pictures, draws, root) is None,
            }
        }),
{
    prune(cache, dead);
    let draw = walk(cache, nodes);
    let ghost pictures = cache@;
    // The canvas is as large as the root's own picture.
    let p = cache.get(root)?;
    let (w, h) = (p.width, p.height);
    proof {
        assert(cache@.contains_key(root));
        assert(p.wf());
    }
    let len = p.pixels.len();
    let pixels = paint(cache, &draw, w, h);
    Some(Picture { width: w, height: h, pixels })
}

// ---------------------------------------------------------------------------
// Laws

/// A surface that attaches no buffer stays visible: it keeps its picture, and the
/// picture is among those that are drawn.
pub proof fn law_unchanged_surfaces_stay_visible(
    cache: Cache,
    dead: Seq<u64>,
    nodes: Seq<SurfaceNode>,
    i: int,
)
    requires
        0 <= i < nodes.len(),
        cache.contains_key(nodes[i].surface),
        !dead.contains(nodes[i].surface),
        forall|k: int|
            0 <= k < nodes.len() && (#[trigger] nodes[k]).surface == nodes[i].surface
                ==> nodes[k].change is Unchanged,
    ensures
        ({
            let (pictures, draws) = walked(pruned(cache, dead), nodes);
            let node = nodes[i];
            &&& pictures.contains_key(node.surface)
            &&& pictures[node.surface] == cache[node.surface]
            &&& draws.contains(
                (Draw {
                    surface: node.surface,
                    x: node.location.0 + node.offset.0,
                    y: node.location.1 + node.offset.1,
                }),
            )
        }),
{
    lemma_unchanged(pruned(cache, dead), nodes, nodes[i].surface);
    lemma_drawn(pruned(cache, dead), nodes, i);
}

/// A surface that attaches no buffer keeps its picture.
proof fn lemma_unchanged(cache: Cache, nodes: Seq<SurfaceNode>, surface: u64)
    requires
        cache.contains_key(surface),
        forall|k: int|
            0 <= k < nodes.len() && (#[trigger] nodes[k]).surface == surface
                ==> nodes[k].change is Unchanged,
    ensures
        walked(cache, nodes).0.contains_key(surface),
        walked(cache, nodes).0[surface] == cache[surface],
    decreases nodes.len(),
{
    if nodes.len() > 0 {
        let rest = nodes.drop_last();
        assert forall|k: int| 0 <= k < rest.len() && (#[trigger] rest[k]).surface == surface implies
            rest[k].change is Unchanged by {
            assert(nodes[k] == rest[k]);
        }
        lemma_unchanged(cache, rest, surface);
        assert(nodes.last() == nodes[nodes.len() - 1]);
    }
}

/// A surface that has a picture and attaches no buffer is drawn.
proof fn lemma_drawn(cache: Cache, nodes: Seq<SurfaceNode>, i: int)
    requires
        0 <= i < nodes.len(),
        cache.contains_key(nodes[i].surface),
        forall|k: int|
            0 <= k < nodes.len() && (#[trigger] nodes[k]).surface == nodes[i].surface
                ==> nodes[k].change is Unchanged,
    ensures
        walked(cache, nodes).1.contains(
            (Draw {
                surface: nodes[i].surface,
                x: nodes[i].location.0 + nodes[i].offset.0,
                y: nodes[i].location.1 + nodes[i].offset.1,
            }),
        ),
    decreases nodes.len(),
{
    let rest = nodes.drop_last();
    let node = nodes[i];
    let draw = Draw {
        surface: node.surface,
        x: node.location.0 + node.offset.0,
        y: node.location.1 + node.offset.1,
    };
    let below = walked(cache, rest).1;
    let all = walked(cache, nodes).1;
    assert forall|k: int| 0 <= k < rest.len() && (#[trigger] rest[k]).surface
        == node.surface implies rest[k].change is Unchanged by {
        assert(nodes[k] == rest[k]);
    }
    if i < rest.len() {
        assert(rest[i] == node);
        lemma_drawn(cache, rest, i);
        let k = choose|k: int| 0 <= k < below.len() && below[k] == draw;
        assert(all[k] == draw);
    } else {
        lemma_unchanged(cache, rest, node.surface);
        assert(all[below.len() as int] == draw);
    }
}

/// The last change of a surface's buffer decides: after a readable new buffer the
/// surface has its picture, whatever it had before, and after a removal it has
/// none.
pub proof fn law_new_pictures_replace_old_ones(
    cache: Cache,
    dead: Seq<u64>,
    nodes: Seq<SurfaceNode>,
    i: int,
)
    requires
        0 <= i < nodes.len(),
        forall|k: int|
            i < k < nodes.len() && (#[trigger] nodes[k]).surface == nodes[i].surface
                ==> nodes[k].change is Unchanged || nodes[k].change == BufferChange::New(None),
    ensures
        ({
            let after = walked(pruned(cache, dead), nodes).0;
            &&& nodes[i].change matches BufferChange::New(Some(p)) ==> after.contains_key(
                nodes[i].surface,
            ) && after[nodes[i].surface] == p
            &&& nodes[i].change is Removed ==> !after.contains_key(nodes[i].surface)
        }),
{
    lemma_last_change(pruned(cache, dead), nodes, i);
}

/// The last change of a surface's buffer decides.
proof fn lemma_last_change(cache: Cache, nodes: Seq<SurfaceNode>, i: int)
    requires
        0 <= i < nodes.len(),
        forall|k: int|
            i < k < nodes.len() && (#[trigger] nodes[k]).surface == nodes[i].surface
                ==> nodes[k].change is Unchanged || nodes[k].change == BufferChange::New(None),
    ensures
        ({
            let after = walked(cache, nodes).0;
            &&& nodes[i].change matches BufferChange::New(Some(p)) ==> after.contains_key(
                nodes[i].surface,
            ) && after[nodes[i].surface] == p
            &&& nodes[i].change is Removed ==> !after.contains_key(nodes[i].surface)
        }),
    decreases nodes.len(),
{
    let less = nodes.drop_last();
    assert(nodes.last() == nodes[nodes.len() - 1]);
    if i < less.len() {
        assert(less[i] == nodes[i]);
        assert forall|k: int|
            i < k < less.len() && (#[trigger] less[k]).surface == less[i].surface implies less[k].change is Unchanged
            || less[k].change == BufferChange::New(None) by {
            assert(less[k] == nodes[k]);
        }
        lemma_last_change(cache, less, i);
    }
}

/// A surface whose buffer does not change has the picture it had, and none if it
/// had none or is gone.
pub proof fn law_other_pictures_stay(
    cache: Cache,
    dead: Seq<u64>,
    nodes: Seq<SurfaceNode>,
    surface: u64,
)
    requires
        forall|k: int|
            0 <= k < nodes.len() && (#[trigger] nodes[k]).surface == surface
                ==> nodes[k].change is Unchanged || nodes[k].change == BufferChange::New(None),
    ensures
        ({
            let after = walked(pruned(cache, dead), nodes).0;
            &&& after.contains_key(surface) <==> cache.contains_key(surface) && !dead.contains(
                surface,
            )
            &&& after.contains_key(surface) ==> after[surface] == cache[surface]
        }),
    decreases nodes.len(),
{
    if nodes.len() > 0 {
        let less = nodes.drop_last();
        assert(nodes.last() == nodes[nodes.len() - 1]);
        assert forall|k: int| 0 <= k < less.len() && (#[trigger] less[k]).surface
            == surface implies less[k].change is Unchanged || less[k].change == BufferChange::New(
            None,
        ) by {
            assert(less[k] == nodes[k]);
        }
        law_other_pictures_stay(cache, dead, less, surface);
    }
}

/// The pictures are drawn in the order of the surfaces, each surface that has a
/// picture by then once, at the position of its parent plus its offset.
pub proof fn law_pictures_are_drawn_in_order(cache: Cache, nodes: Seq<SurfaceNode>) -> (rows: Seq<
    int,
>)
    ensures
        ({
            let draws = walked(cache, nodes).1;
            &&& rows.len() == draws.len()
            &&& forall|a: int, b: int| 0 <= a < b < rows.len() ==> rows[a] < rows[b]
            &&& forall|k: int|
                0 <= k < rows.len() ==> {
                    &&& 0 <= #[trigger] rows[k] < nodes.len()
                    &&& draws[k].surface == nodes[rows[k]].surface
                    &&& draws[k].x == nodes[rows[k]].location.0 + nodes[rows[k]].offset.0
                    &&& draws[k].y == nodes[rows[k]].location.1 + nodes[rows[k]].offset.1
                }
            &&& forall|i: int|
                0 <= i < nodes.len() ==> (rows.contains(i) <==> walked(
                    cache,
                    #[trigger] nodes.take(i + 1),
                ).0.contains_key(nodes[i].surface))
        }),
    decreases nodes.len(),
{
    if nodes.len() == 0 {
        seq![]
    } else {
        let less = nodes.drop_last();
        let last = nodes.len() - 1;
        let before = law_pictures_are_drawn_in_order(cache, less);
        assert(nodes.last() == nodes[last]);
        assert(nodes.take(last + 1) =~= nodes);
        let rows = if walked(cache, nodes).0.contains_key(nodes[last].surface) {
            before.push(last)
        } else {
            before
        };
        assert forall|k: int| 0 <= k < rows.len() implies {
            &&& 0 <= #[trigger] rows[k] < nodes.len()
            &&& walked(cache, nodes).1[k].surface == nodes[rows[k]].surface
            &&& walked(cache, nodes).1[k].x == nodes[rows[k]].location.0 + nodes[rows[k]].offset.0
            &&& walked(cache, nodes).1[k].y == nodes[rows[k]].location.1 + nodes[rows[k]].offset.1
        } by {
            if k < before.len() {
                assert(rows[k] == before[k]);
                assert(less[before[k]] == nodes[before[k]]);
            }
        }
        assert forall|i: int| 0 <= i < nodes.len() implies (rows.contains(i) <==> walked(
            cache,
            #[trigger] nodes.take(i + 1),
        ).0.contains_key(nodes[i].surface)) by {
            if i < last {
                assert(less.take(i + 1) =~= nodes.take(i + 1));
                if rows.contains(i) {
                    let k = choose|k: int| 0 <= k < rows.len() && rows[k] == i;
                    assert(before[k] == i);
                }
                if before.contains(i) {
                    let k = choose|k: int| 0 <= k < before.len() && before[k] == i;
                    assert(rows[k] == i);
                }
            } else {
                if rows.contains(i) {
                    let k = choose|k: int| 0 <= k < rows.len() && rows[k] == i;
                    if k < before.len() {
                        assert(before[k] == i);
                    }
                }
                if rows.len() > before.len() {
                    assert(rows[before.len() as int] == i);
                }
            }
        }
        rows
    }
}

/// Where an opaque pixel of a picture is drawn and no later picture covers it, the
/// canvas has its colour. The byte of the channel `c` of the pixel `(x, y)` of a
/// picture `w` pixels wide is at `(y * w + x) * 4 + c`.
pub proof fn law_the_topmost_picture_shows(
    cache: Cache,
    draws: Seq<Draw>,
    w: int,
    h: int,
    j: int,
    x: int,
    y: int,
    c: int,
)
    requires
        0 <= j < draws.len(),
        0 <= x < w,
        0 <= y < h,
        0 <= c < 4,
        cache.contains_key(draws[j].surface),
        ({
            let p = cache[draws[j].surface];
            let (px, py) = (x - draws[j].x, y - draws[j].y);
            &&& 0 <= px < p.width
            &&& 0 <= py < p.height
            &&& p.pixels@[(py * p.width + px) * 4 + 3] == 255
        }),
        forall|k: int|
            j < k < draws.len() && cache.contains_key((#[trigger] draws[k]).surface) ==> {
                let q = cache[draws[k].surface];
                !(draws[k].x <= x < draws[k].x + q.width && draws[k].y <= y < draws[k].y + q.height)
            },
    ensures
        ({
            let p = cache[draws[j].surface];
            let (px, py) = (x - draws[j].x, y - draws[j].y);
            painted(cache, draws, w, h)[(y * w + x) * 4 + c] == p.pixels@[(py * p.width + px) * 4
                + c]
        }),
    decreases draws.len(),
{
    let less = draws.drop_last();
    let d = draws.last();
    let k = (y * w + x) * 4 + c;
    assert(d == draws[draws.len() - 1]);
    lemma_painted_len(cache, less, w, h);
    lemma_pixel_place(x, y, w, h, c);
    if j < less.len() {
        assert(less[j] == draws[j]);
        assert forall|n: int|
            j < n < less.len() && cache.contains_key((#[trigger] less[n]).surface) implies {
            let q = cache[less[n].surface];
            !(less[n].x <= x < less[n].x + q.width && less[n].y <= y < less[n].y + q.height)
        } by {
            assert(less[n] == draws[n]);
        }
        law_the_topmost_picture_shows(cache, less, w, h, j, x, y, c);
    } else {
        let p = cache[d.surface];
        let under = painted(cache, less, w, h)[k];
        let (px, py) = (x - d.x, y - d.y);
        assert(byte_index(px, py, p.width as int, c) == (py * p.width + px) * 4 + c);
        assert(byte_index(px, py, p.width as int, 3) == (py * p.width + px) * 4 + 3);
        let color = p.pixels@[(py * p.width + px) * 4 + c];
        lemma_opaque(color, under);
    }
}

/// An opaque value hides what is under it.
proof fn lemma_opaque(s: u8, d: u8)
    ensures
        over(s, 255, d) == s,
{
    assert(d * (255 - 255) / 255 == 0) by (nonlinear_arith);
}

/// The byte of a channel of a pixel is in the canvas, and is that of the pixel.
proof fn lemma_pixel_place(x: int, y: int, w: int, h: int, c: int)
    requires
        0 <= x < w,
        0 <= y < h,
        0 <= c < 4,
    ensures
        0 <= (y * w + x) * 4 + c < w * h * 4,
        column((y * w + x) * 4 + c, w) == x,
        line((y * w + x) * 4 + c, w) == y,
        channel((y * w + x) * 4 + c) == c,
{
    assert(0 <= y * w + x < w * h) by (nonlinear_arith)
        requires
            0 <= x < w,
            0 <= y < h,
    ;
    lemma_byte_index(x, y, w, c);
}

/// A window of one surface shows the picture that its client attached last, if the
/// picture is opaque, whatever it showed before.
pub proof fn law_a_new_frame_is_shown(cache: Cache, dead: Seq<u64>, node: SurfaceNode, p: Picture)
    requires
        node.change == BufferChange::New(Some(p)),
        node.location.0 + node.offset.0 == 0,
        node.location.1 + node.offset.1 == 0,
        p.wf(),
        forall|n: int|
            0 <= n < p.width * p.height ==> #[trigger] p.pixels@[n * 4 + 3] == 255,
    ensures
        ({
            let (pictures, draws) = walked(pruned(cache, dead), seq![node]);
            &&& pictures.contains_key(node.surface) && pictures[node.surface] == p
            &&& flattened(pictures, draws, node.surface) == Some((p.width, p.height, p.pixels@))
        }),
{
    let nodes = seq![node];
    let start = pruned(cache, dead);
    assert(nodes.drop_last() =~= seq![]);
    assert(walked(start, nodes.drop_last()) == (start, Seq::<Draw>::empty()));
    let (pictures, draws) = walked(start, nodes);
    let (w, h) = (p.width as int, p.height as int);
    assert(draws =~= seq![Draw { surface: node.surface, x: 0, y: 0 }]);
    let all = painted(pictures, draws, w, h);
    lemma_painted_len(pictures, draws, w, h);
    assert forall|k: int| 0 <= k < all.len() implies all[k] == p.pixels@[k] by {
        let (n, c) = (k / 4, k % 4);
        assert(w > 0) by (nonlinear_arith)
            requires
                0 <= k < w * h * 4,
                w >= 0,
        ;
        let (x, y) = (n % w, n / w);
        assert(n < w * h);
        assert(n == y * w + x && 0 <= x < w) by (nonlinear_arith)
            requires
                w > 0,
                x == n % w,
                y == n / w,
        ;
        assert(0 <= y < h) by (nonlinear_arith)
            requires
                0 <= n < w * h,
                n == y * w + x,
                0 <= x < w,
        ;
        assert(p.pixels@[n * 4 + 3] == 255);
        assert((y - 0) * p.width + (x - 0) == n);
        law_the_topmost_picture_shows(pictures, draws, w, h, 0, x, y, c);
    }
    assert(all =~= p.pixels@);
}

/// Whatever is drawn, the picture of a tree is as large as that of its root.
pub proof fn law_flattened_size_is_the_roots(cache: Cache, draws: Seq<Draw>, root: u64)
    requires
        cache.contains_key(root),
        cache[root].wf(),
    ensures
        flattened(cache, draws, root) is Some,
        flattened(cache, draws, root).unwrap().2.len() == cache[root].width * cache[root].height
            * 4,
{
    lemma_painted_len(cache, draws, cache[root].width as int, cache[root].height as int);
}

/// A canvas keeps its size.
proof fn lemma_painted_len(cache: Cache, draws: Seq<Draw>, w: int, h: int)
    requires
        w >= 0,
        h >= 0,
    ensures
        painted(cache, draws, w, h).len() == w * h * 4,
    decreases draws.len(),
{
    assert(w * h * 4 >= 0) by (nonlinear_arith)
        requires
            w >= 0,
            h >= 0,
    ;
    if draws.len() > 0 {
        lemma_painted_len(cache, draws.drop_last(), w, h);
    }
}

} // verus!
