//! What a commit of a surface shows.

use vstd::prelude::*;

use crate::render::crop::{crop_to_geometry, cropped, Geometry};
use crate::table::Table;
use crate::wayland::composite::{
    composite_tree, flattened, pruned, walked, Cache, Picture, SurfaceNode,
};
use crate::wayland::event::{DmabufPlane, Event};
use crate::wayland::layers::{layer_number, layer_position, layer_to_u8, position, Anchor, Margins};
use crate::wayland::state::{ids_wf, slot_id, state_wf, SlickState, Slot, StateView, WindowEntry};

verus! {

/// A GPU buffer that a window committed.
#[derive(Debug)]
pub struct Dmabuf<F> {
    pub width: u32,
    pub height: u32,
    /// DRM FourCC format code.
    pub fourcc: u32,
    /// DRM format modifier.
    pub modifier: u64,
    pub planes: Vec<DmabufPlane<F>>,
}

/// A commit, read out of the protocol library.
#[derive(Debug)]
pub struct Commit<F> {
    /// The root of the surface tree that was committed to.
    pub root: u64,
    /// Surfaces that are gone since they were last drawn.
    pub dead: Vec<u64>,
    /// The surfaces of the tree, in render order.
    pub nodes: Vec<SurfaceNode>,
    /// The root's new buffer, if it is a GPU buffer and was taken (see
    /// [`SlickState::takes_dmabuf`]).
    pub dmabuf: Option<Dmabuf<F>>,
    pub title: String,
    pub app_id: String,
    /// Whether an X11 window asked not to be managed.
    pub override_redirect: bool,
    /// The window geometry that the client declared.
    pub geometry: Option<Geometry>,
    /// The edges and margins that a layer surface asked for.
    pub anchor: Anchor,
    pub margin: Margins,
}

impl<F> Commit<F> {
    /// The surfaces of the tree are sound.
    pub open spec fn wf(&self) -> bool {
        forall|i: int| 0 <= i < self.nodes.len() ==> (#[trigger] self.nodes@[i]).wf()
    }
}

/// What a root surface is.
#[derive(Debug, Clone, Copy, PartialEq, Eq, Structural)]
pub enum Role {
    Window,
    Popup,
    Layer,
    X11,
    /// A surface that has not taken a role yet, or an orphan subsurface.
    Unknown,
}

/// The role of a root surface.
pub open spec fn role_of(v: StateView, root: u64) -> Role {
    if v.windows.contains_key(root) {
        Role::Window
    } else if v.popups.contains_key(root) {
        Role::Popup
    } else if v.layers.contains_key(root) {
        Role::Layer
    } else if v.x11.contains_key(root) {
        Role::X11
    } else {
        Role::Unknown
    }
}

/// The GPU buffers of a window's commits are handed on as they are.
pub open spec fn takes(v: StateView, root: u64) -> bool {
    v.windows.contains_key(root) && v.dmabuf_enabled
}

/// The picture of the committed tree, and the pictures of surfaces after the
/// commit.
pub open spec fn committed_picture<F>(v: StateView, c: Commit<F>) -> (
    Cache,
    Option<(u32, u32, Seq<u8>)>,
) {
    let (pictures, draws) = walked(pruned(v.pictures, c.dead@), c.nodes@);
    (pictures, flattened(pictures, draws, c.root))
}

/// The commit hands on a GPU buffer.
pub open spec fn commits_dmabuf<F>(v: StateView, c: Commit<F>) -> bool {
    takes(v, c.root) && c.dmabuf is Some
}

/// The state after a commit. The pictures of surfaces change, and a window
/// remembers what was cropped off its buffer.
pub open spec fn committed<F>(v: StateView, c: Commit<F>) -> StateView {
    let role = role_of(v, c.root);
    if role is Unknown || commits_dmabuf(v, c) {
        v
    } else {
        let (pictures, picture) = committed_picture(v, c);
        match picture {
            Some((w, h, pixels)) => if role is Window {
                StateView {
                    pictures,
                    windows: v.windows.insert(
                        c.root,
                        WindowEntry {
                            geometry_offset: cropped(w, h, pixels, c.geometry).1,
                            ..v.windows[c.root]
                        },
                    ),
                    ..v
                }
            } else {
                StateView { pictures, ..v }
            },
            None => StateView { pictures, ..v },
        }
    }
}

/// `event` is what a commit with a picture shows.
pub open spec fn shows<F>(
    v: StateView,
    c: Commit<F>,
    picture: (u32, u32, Seq<u8>),
    event: Event<F>,
) -> bool {
    let (w, h, all) = picture;
    match role_of(v, c.root) {
        Role::Window => {
            let part = cropped(w, h, all, c.geometry).0;
            event matches Event::WindowBuffer {
                id,
                width,
                height,
                pixels,
                title,
                app_id,
                decorated,
            } && {
                &&& id == v.windows[c.root].id
                &&& decorated == v.windows[c.root].decorated
                &&& (width, height, pixels@) == part
                &&& title == c.title
                &&& app_id == c.app_id
            }
        },
        Role::Popup => event matches Event::PopupBuffer {
            id,
            parent,
            ox,
            oy,
            width,
            height,
            pixels,
        } && {
            &&& id == v.popups[c.root].id
            &&& parent == v.popups[c.root].parent_id
            &&& (ox, oy) == v.popups[c.root].offset
            &&& (width, height, pixels@) == picture
        },
        Role::Layer => event matches Event::LayerBuffer {
            id,
            layer,
            x,
            y,
            width,
            height,
            pixels,
        } && {
            &&& id == v.layers[c.root].id
            &&& layer == layer_number(v.layers[c.root].layer)
            &&& (x, y) == position(v.output, c.anchor, c.margin, w as i32, h as i32)
            &&& (width, height, pixels@) == picture
        },
        Role::X11 => event matches Event::WindowBuffer {
            id,
            width,
            height,
            pixels,
            title,
            app_id,
            decorated,
        } && {
            &&& id == v.x11[c.root].id
            &&& decorated == !c.override_redirect
            &&& (width, height, pixels@) == picture
            &&& title == c.title
            &&& app_id == c.app_id
        },
        Role::Unknown => false,
    }
}

/// `r` is the event for the shell of a commit: the GPU buffer, or the picture of
/// the tree if its root has one.
pub open spec fn commit_event<F>(v: StateView, c: Commit<F>, r: Option<Event<F>>) -> bool {
    if role_of(v, c.root) is Unknown {
        r is None
    } else if commits_dmabuf(v, c) {
        let d = c.dmabuf.unwrap();
        r == Some(
            Event::WindowDmabuf {
                id: v.windows[c.root].id,
                width: d.width,
                height: d.height,
                fourcc: d.fourcc,
                modifier: d.modifier,
                planes: d.planes,
            },
        )
    } else {
        match committed_picture(v, c).1 {
            Some(picture) => r matches Some(event) && shows(v, c, picture, event),
            None => r is None,
        }
    }
}

/// New pictures and a new geometry offset keep the ids sound.
proof fn lemma_committed_ids(v: StateView, after: StateView, root: u64)
    requires
        state_wf(v),
        after.next_window_id == v.next_window_id,
        after.popups == v.popups,
        after.layers == v.layers,
        after.x11 == v.x11,
        after.windows == v.windows || (v.windows.contains_key(root) && exists|e: WindowEntry|
            e.id == v.windows[root].id && after.windows == #[trigger] v.windows.insert(root, e)),
    ensures
        ids_wf(after),
{
    assert forall|b: Slot| #[trigger] slot_id(after, b) == slot_id(v, b) by {}
    assert forall|a: Slot, b: Slot|
        #![trigger slot_id(after, a), slot_id(after, b)]
        slot_id(after, a) is Some && slot_id(after, a) == slot_id(after, b) implies a == b by {
        assert(slot_id(after, a) == slot_id(v, a));
        assert(slot_id(after, b) == slot_id(v, b));
    }
}

impl SlickState {
    /// Whether the GPU buffer of a commit to `root` is to be taken from it.
    pub fn takes_dmabuf(&self, root: u64) -> (r: bool)
        requires
            self.wf(),
        ensures
            r == takes(self@, root),
    {
        self.dmabuf_enabled && self.windows.contains_key(root)
    }

    /// The role of a root surface.
    pub fn role(&self, root: u64) -> (r: Role)
        requires
            self.wf(),
        ensures
            r == role_of(self@, root),
    {
        if self.windows.contains_key(root) {
            Role::Window
        } else if self.popups.contains_key(root) {
            Role::Popup
        } else if self.layer_surfaces.contains_key(root) {
            Role::Layer
        } else if self.x11_windows.contains_key(root) {
            Role::X11
        } else {
            Role::Unknown
        }
    }

    /// Flatten the committed tree.
    fn flatten(&mut self, root: u64, dead: &Vec<u64>, nodes: Vec<SurfaceNode>) -> (r: Option<
        Picture,
    >)
        requires
            old(self).wf(),
            forall|i: int| 0 <= i < nodes.len() ==> (#[trigger] nodes@[i]).wf(),
        ensures
            final(self).wf(),
            ({
                let (pictures, draws) = walked(pruned(old(self)@.pictures, dead@), nodes@);
                &&& final(self)@ == (StateView { pictures, ..old(self)@ })
                &&& match r {
                    Some(p) => flattened(pictures, draws, root) == Some(
                        (p.width, p.height, p.pixels@),
                    ) && p.wf(),
                    None => flattened(pictures, draws, root) is None,
                }
            }),
    {
        let ghost before = self@;
        let picture = composite_tree(root, dead, nodes, &mut self.surface_pixels);
        proof {
            let (pictures, draws) = walked(pruned(before.pictures, dead@), nodes@);
            assert(self@ =~= StateView { pictures, ..before });
            lemma_committed_ids(before, self@, root);
        }
        picture
    }

    /// A surface tree was committed to. Returns the event for the shell, if
    /// there is anything to show.
    pub fn commit<F>(&mut self, c: Commit<F>) -> (r: Option<Event<F>>)
        requires
            old(self).wf(),
            c.wf(),
        ensures
            final(self).wf(),
            final(self)@ == committed(old(self)@, c),
            commit_event(old(self)@, c, r),
    {
        let ghost before = self@;
        let ghost whole = c;
        let root = c.root;
        // Toplevel window?
        if let Some(entry) = self.windows.get(root) {
            let entry = *entry;
            // A GPU (dmabuf) buffer is handed to the UI thread to import.
            if self.dmabuf_enabled {
                if let Some(d) = c.dmabuf {
                    return Some(
                        Event::WindowDmabuf {
                            id: entry.id,
                            width: d.width,
                            height: d.height,
                            fourcc: d.fourcc,
                            modifier: d.modifier,
                            planes: d.planes,
                        },
                    );
                }
            }
            let p = self.flatten(root, &c.dead, c.nodes)?;
            // Crop to the client's declared window geometry, and remember the
            // offset so pointer input maps back to surface-local coordinates.
            let ((width, height, pixels), geometry_offset) = crop_to_geometry(
                (p.width, p.height, p.pixels),
                c.geometry,
            );
            self.windows.insert(root, WindowEntry { geometry_offset, ..entry });
            proof {
                assert(self@ =~= committed(before, whole));
                lemma_committed_ids(before, self@, root);
            }
            return Some(
                Event::WindowBuffer {
                    id: entry.id,
                    width,
                    height,
                    pixels,
                    title: c.title,
                    app_id: c.app_id,
                    decorated: entry.decorated,
                },
            );
        }
        // Popup (menu, dropdown, tooltip)?
        if let Some(entry) = self.popups.get(root) {
            let entry = *entry;
            let p = self.flatten(root, &c.dead, c.nodes)?;
            return Some(
                Event::PopupBuffer {
                    id: entry.id,
                    parent: entry.parent_id,
                    ox: entry.offset.0,
                    oy: entry.offset.1,
                    width: p.width,
                    height: p.height,
                    pixels: p.pixels,
                },
            );
        }
        // Layer-shell surface (bar, wallpaper, notification)?
        if let Some(entry) = self.layer_surfaces.get(root) {
            let entry = *entry;
            let p = self.flatten(root, &c.dead, c.nodes)?;
            let (x, y) = layer_position(
                self.current_output_size,
                c.anchor,
                c.margin,
                p.width as i32,
                p.height as i32,
            );
            return Some(
                Event::LayerBuffer {
                    id: entry.id,
                    layer: layer_to_u8(entry.layer),
                    x,
                    y,
                    width: p.width,
                    height: p.height,
                    pixels: p.pixels,
                },
            );
        }
        // X11 (XWayland) window?
        if let Some(entry) = self.x11_windows.get(root) {
            let entry = *entry;
            let p = self.flatten(root, &c.dead, c.nodes)?;
            return Some(
                Event::WindowBuffer {
                    id: entry.id,
                    width: p.width,
                    height: p.height,
                    pixels: p.pixels,
                    title: c.title,
                    app_id: c.app_id,
                    decorated: !c.override_redirect,
                },
            );
        }
        None
    }
}

// ---------------------------------------------------------------------------
// GPU buffers

/// How many planes a GPU buffer has: as many as it has handles, offsets and
/// strides.
pub open spec fn plane_count(handles: nat, offsets: nat, strides: nat) -> nat {
    if handles <= offsets && handles <= strides {
        handles
    } else if offsets <= strides {
        offsets
    } else {
        strides
    }
}

/// The planes whose handle could be duplicated, of the first `n`.
pub open spec fn planes<F>(
    handles: Seq<Option<F>>,
    offsets: Seq<u32>,
    strides: Seq<u32>,
    n: nat,
) -> Seq<DmabufPlane<F>>
    decreases n,
{
    if n == 0 {
        seq![]
    } else {
        let rest = planes(handles, offsets, strides, (n - 1) as nat);
        match handles[n - 1] {
            Some(fd) => rest.push(
                DmabufPlane { fd, offset: offsets[n - 1], stride: strides[n - 1] },
            ),
            None => rest,
        }
    }
}

/// The planes of a GPU buffer: each duplicated handle with its offset and its
/// stride. A handle that could not be duplicated is left out.
pub fn dmabuf_planes<F>(handles: Vec<Option<F>>, offsets: &Vec<u32>, strides: &Vec<u32>) -> (r: Vec<
    DmabufPlane<F>,
>)
    ensures
        r@ == planes(
            handles@,
            offsets@,
            strides@,
            plane_count(handles@.len(), offsets@.len(), strides@.len()),
        ),
{
    let ghost all = handles@;
    let ghost count = plane_count(all.len(), offsets@.len(), strides@.len());
    let mut out: Vec<DmabufPlane<F>> = Vec::new();
    let mut i: usize = 0;
    for handle in it: handles.into_iter()
        invariant
            it.seq() == all,
            count == plane_count(all.len(), offsets@.len(), strides@.len()),
            i <= offsets.len(),
            i <= strides.len(),
            i == if it.index() < count {
                it.index() as int
            } else {
                count as int
            },
            out@ == planes(all, offsets@, strides@, i as nat),
    {
        if i < offsets.len() && i < strides.len() {
            if let Some(fd) = handle {
                out.push(DmabufPlane { fd, offset: offsets[i], stride: strides[i] });
            }
            i += 1;
        }
    }
    out
}

// ---------------------------------------------------------------------------
// Surface trees

/// The surface `n` steps up from a surface; it stops at a root.
pub open spec fn ancestor(parents: Map<u64, u64>, surface: u64, n: nat) -> u64
    decreases n,
{
    if n == 0 {
        surface
    } else {
        let below = ancestor(parents, surface, (n - 1) as nat);
        if parents.contains_key(below) {
            parents[below]
        } else {
            below
        }
    }
}

/// The parent chain of a surface ends.
pub open spec fn has_root(parents: Map<u64, u64>, surface: u64) -> bool {
    exists|n: nat| !parents.contains_key(#[trigger] ancestor(parents, surface, n))
}

/// Walk up the subsurface parent chain to the root surface of a tree. `parents`
/// maps each subsurface to its parent.
///
/// A commit may arrive on a subsurface rather than on the window's root surface;
/// the whole tree is flattened and answered in either case.
pub fn root_surface(parents: &Table<u64>, surface: u64) -> (r: u64)
    requires
        parents.wf(),
        has_root(parents@, surface),
    ensures
        !parents@.contains_key(r),
        exists|n: nat| r == #[trigger] ancestor(parents@, surface, n),
{
    let ghost end = choose|n: nat|
        !parents@.contains_key(#[trigger] ancestor(parents@, surface, n));
    let ghost mut n: nat = 0;
    let mut current = surface;
    loop
        invariant
            parents.wf(),
            n <= end,
            current == ancestor(parents@, surface, n),
            !parents@.contains_key(ancestor(parents@, surface, end)),
        decreases end - n,
    {
        match parents.get(current) {
            Some(parent) => {
                current = *parent;
                proof {
                    n = n + 1;
                }
            },
            None => {
                return current;
            },
        }
    }
}

/// Steps up the chain add up.
proof fn lemma_steps_add_up(parents: Map<u64, u64>, surface: u64, k: nat, m: nat)
    ensures
        ancestor(parents, ancestor(parents, surface, k), m) == ancestor(parents, surface, k + m),
    decreases m,
{
    if m > 0 {
        lemma_steps_add_up(parents, surface, k, (m - 1) as nat);
    }
}

/// Going up from a root stays there.
proof fn lemma_root_stays(parents: Map<u64, u64>, surface: u64, m: nat, n: nat)
    requires
        !parents.contains_key(ancestor(parents, surface, m)),
        m <= n,
    ensures
        ancestor(parents, surface, n) == ancestor(parents, surface, m),
    decreases n,
{
    if m < n {
        lemma_root_stays(parents, surface, m, (n - 1) as nat);
    }
}

/// A surface has the same root as every surface above it: a commit to either
/// flattens the same tree.
pub proof fn law_root_is_shared_by_the_tree(
    parents: Map<u64, u64>,
    surface: u64,
    up: nat,
    m: nat,
    n: nat,
)
    requires
        !parents.contains_key(ancestor(parents, surface, m)),
        !parents.contains_key(ancestor(parents, ancestor(parents, surface, up), n)),
    ensures
        ancestor(parents, ancestor(parents, surface, up), n) == ancestor(parents, surface, m),
{
    lemma_steps_add_up(parents, surface, up, n);
    if m <= up + n {
        lemma_root_stays(parents, surface, m, up + n);
    } else {
        lemma_root_stays(parents, surface, up + n, m);
    }
}

/// A commit to a window shows the picture of its tree, cropped to the geometry
/// that its client declared, with its title, and remembers how much was cropped
/// off; only if GPU buffers are enabled and one was attached, that is handed on
/// instead, and nothing changes. A tree whose root has no picture shows nothing.
pub proof fn law_window_commits_show_their_tree<F>(v: StateView, c: Commit<F>, r: Option<Event<F>>)
    requires
        v.windows.contains_key(c.root),
        commit_event(v, c, r),
    ensures
        ({
            let (pictures, picture) = committed_picture(v, c);
            let after = committed(v, c);
            let e = v.windows[c.root];
            if v.dmabuf_enabled && c.dmabuf is Some {
                let d = c.dmabuf.unwrap();
                &&& after == v
                &&& r matches Some(event) && event is WindowDmabuf && event->WindowDmabuf_id == e.id
                    && event->WindowDmabuf_width == d.width && event->WindowDmabuf_height == d.height
                    && event->WindowDmabuf_fourcc == d.fourcc && event->WindowDmabuf_modifier
                    == d.modifier && event->WindowDmabuf_planes == d.planes
            } else {
                &&& after.pictures == pictures
                &&& picture is None ==> r is None && after.windows == v.windows
                &&& picture matches Some((w, h, all)) ==> {
                    let ((cw, ch, part), offset) = cropped(w, h, all, c.geometry);
                    &&& r matches Some(event) && event is WindowBuffer && event->WindowBuffer_id
                        == e.id && event->WindowBuffer_width == cw && event->WindowBuffer_height
                        == ch && event->WindowBuffer_pixels@ == part && event->WindowBuffer_title
                        == c.title && event->WindowBuffer_app_id == c.app_id
                        && event->WindowBuffer_decorated == e.decorated
                    &&& after.windows[c.root].geometry_offset == offset
                    &&& after.windows[c.root].id == e.id
                    &&& after.windows[c.root].decorated == e.decorated
                }
                &&& forall|s: u64|
                    s != c.root ==> (after.windows.contains_key(s) <==> v.windows.contains_key(s))
                        && after.windows[s] == v.windows[s]
                &&& after.popups == v.popups && after.layers == v.layers && after.lists == v.lists
                    && after.next_window_id == v.next_window_id
            }
        }),
{
}

/// A commit to a popup or a layer surface shows the whole picture of its tree, a
/// popup's at its offset from its parent, a layer surface's on its layer at the
/// edges it is anchored to. A commit to an X11 window shows the whole picture, with
/// decorations unless it asked not to be managed. A surface without a role shows
/// nothing, and its picture is not kept.
pub proof fn law_other_commits_show_their_tree<F>(v: StateView, c: Commit<F>, r: Option<Event<F>>)
    requires
        !v.windows.contains_key(c.root),
        commit_event(v, c, r),
    ensures
        ({
            let (pictures, picture) = committed_picture(v, c);
            let known = v.popups.contains_key(c.root) || v.layers.contains_key(c.root)
                || v.x11.contains_key(c.root);
            &&& !known ==> r is None && committed(v, c) == v
            &&& known ==> committed(v, c) == (StateView { pictures, ..v })
            &&& known ==> (r is Some <==> picture is Some)
            &&& v.popups.contains_key(c.root) ==> (r matches Some(event) ==> {
                &&& event is PopupBuffer && event->PopupBuffer_id == v.popups[c.root].id
                &&& event->PopupBuffer_parent == v.popups[c.root].parent_id
                &&& event->PopupBuffer_ox == v.popups[c.root].offset.0
                &&& event->PopupBuffer_oy == v.popups[c.root].offset.1
                &&& Some(
                    (
                        event->PopupBuffer_width,
                        event->PopupBuffer_height,
                        event->PopupBuffer_pixels@,
                    ),
                ) == picture
            })
            &&& !v.popups.contains_key(c.root) && v.layers.contains_key(c.root) ==> (r matches Some(
                event,
            ) ==> {
                &&& event is LayerBuffer && event->LayerBuffer_id == v.layers[c.root].id
                &&& event->LayerBuffer_layer == layer_number(v.layers[c.root].layer)
                &&& (event->LayerBuffer_x, event->LayerBuffer_y) == position(
                    v.output,
                    c.anchor,
                    c.margin,
                    event->LayerBuffer_width as i32,
                    event->LayerBuffer_height as i32,
                )
                &&& Some(
                    (
                        event->LayerBuffer_width,
                        event->LayerBuffer_height,
                        event->LayerBuffer_pixels@,
                    ),
                ) == picture
            })
            &&& !v.popups.contains_key(c.root) && !v.layers.contains_key(c.root)
                && v.x11.contains_key(c.root) ==> (r matches Some(event) ==> {
                &&& event is WindowBuffer && event->WindowBuffer_id == v.x11[c.root].id
                &&& event->WindowBuffer_decorated == !c.override_redirect
                &&& event->WindowBuffer_title == c.title && event->WindowBuffer_app_id == c.app_id
                &&& Some(
                    (
                        event->WindowBuffer_width,
                        event->WindowBuffer_height,
                        event->WindowBuffer_pixels@,
                    ),
                ) == picture
            })
        }),
{
}

/// The planes of a GPU buffer whose handles were all duplicated are its handles,
/// each with its own offset and stride, in their order.
pub proof fn law_planes_keep_their_offsets<F>(
    handles: Seq<Option<F>>,
    offsets: Seq<u32>,
    strides: Seq<u32>,
    n: nat,
    i: int,
)
    requires
        n <= handles.len(),
        n <= offsets.len(),
        n <= strides.len(),
        forall|k: int| 0 <= k < n ==> (#[trigger] handles[k]) is Some,
        0 <= i < n,
    ensures
        planes(handles, offsets, strides, n).len() == n,
        planes(handles, offsets, strides, n)[i].fd == handles[i].unwrap(),
        planes(handles, offsets, strides, n)[i].offset == offsets[i],
        planes(handles, offsets, strides, n)[i].stride == strides[i],
        plane_count(handles.len(), handles.len(), handles.len()) == handles.len(),
    decreases n,
{
    assert(handles[n - 1] is Some);
    if n > 1 {
        let m = (n - 1) as nat;
        if i < m {
            law_planes_keep_their_offsets(handles, offsets, strides, m, i);
        } else {
            law_planes_keep_their_offsets(handles, offsets, strides, m, 0);
        }
    } else {
        assert(planes(handles, offsets, strides, 0).len() == 0);
    }
}

} // verus!
