//! The windows, popups and layer surfaces that the desktop shows.
//!
//! Positions and sizes are of a type `C` that the user interface picks: they are
//! kept, compared with nothing and handed back. Where a new tile goes is decided
//! here as a [`Placement`] in whole pixels; the user interface turns it into a
//! [`Rect`] of its own coordinates.

pub mod actions;
pub mod manage;

use vstd::prelude::*;

use crate::launch::{name_view, x_display_name, x_display_text};
use crate::shell::model::WindowId;
use crate::table::Table;
use crate::text::number::decimal;
use crate::wayland::event::Event;

verus! {

/// Height of a server-side title bar.
pub const TITLEBAR: u32 = 28;

/// A rectangle on the desktop.
#[derive(Debug, Clone, Copy, PartialEq)]
pub struct Rect<C> {
    pub x: C,
    pub y: C,
    pub width: C,
    pub height: C,
}

/// A window on the desktop.
#[derive(Debug)]
pub struct WindowTile<C> {
    pub id: u64,
    pub title: String,
    /// The app-id that the icon is looked up by.
    pub app_id: String,
    pub decorated: bool,
    pub focused: bool,
    pub minimized: bool,
    pub maximized: bool,
    pub workspace: i32,
    pub rect: Rect<C>,
}

/// A popup on the desktop.
#[derive(Debug)]
pub struct PopupTile<C> {
    pub id: u64,
    pub rect: Rect<C>,
}

/// A layer surface on the desktop.
#[derive(Debug)]
pub struct LayerTile<C> {
    pub id: u64,
    pub layer: u8,
    pub rect: Rect<C>,
}

/// A frame awaiting upload.
#[derive(Debug)]
pub struct Frame {
    pub width: u32,
    pub height: u32,
    pub pixels: Vec<u8>,
}

/// Where a tile goes.
#[derive(Debug)]
pub enum Placement<C> {
    /// The event places no tile.
    Nowhere,
    /// At whole pixels from the origin of the desktop.
    At { x: i128, y: i128, width: u32, height: u32 },
    /// At an offset from the origin of another tile, below a title bar of the
    /// given height.
    Against { base: Rect<C>, titlebar: u32, ox: i32, oy: i32, width: u32, height: u32 },
}

/// The row of a tile among the tiles of its kind.
#[derive(Debug, Clone, Copy, PartialEq, Eq, Structural)]
pub enum TileRow {
    Window(usize),
    Popup(usize),
    Layer(usize),
}

/// What the desktop shows.
#[derive(Debug)]
pub struct Shell<C> {
    /// Windows from the bottom to the top of the stack.
    pub windows: Vec<WindowTile<C>>,
    pub popups: Vec<PopupTile<C>>,
    pub layers: Vec<LayerTile<C>>,
    /// Latest frame per surface awaiting upload.
    pub pending: Table<Frame>,
    /// Surfaces removed since the last frame, whose textures must be freed.
    pub closed: Vec<u64>,
    /// The currently focused window.
    pub focused: Option<u64>,
    /// Pre-maximize geometry to restore on un-maximize.
    pub restore: Table<Rect<C>>,
    /// `(WAYLAND_DISPLAY, XDG_RUNTIME_DIR)` of the compositor once it is ready.
    pub wayland_env: Option<(String, String)>,
    /// The name of the X display: the one that was named at the start, or that of
    /// XWayland once it is ready.
    pub x_display: Option<String>,
}

/// A [`Shell`] as a mathematical value.
#[verifier::ext_equal]
#[verifier::reject_recursive_types(C)]
pub struct ShellView<C> {
    pub windows: Seq<WindowTile<C>>,
    pub popups: Seq<PopupTile<C>>,
    pub layers: Seq<LayerTile<C>>,
    pub pending: Map<u64, Frame>,
    pub closed: Seq<u64>,
    pub focused: Option<u64>,
    pub restore: Map<u64, Rect<C>>,
    pub wayland_env: Option<(String, String)>,
    pub x_display: Option<Seq<char>>,
}

impl<C> View for Shell<C> {
    type V = ShellView<C>;

    open spec fn view(&self) -> ShellView<C> {
        ShellView {
            windows: self.windows@,
            popups: self.popups@,
            layers: self.layers@,
            pending: self.pending@,
            closed: self.closed@,
            focused: self.focused,
            restore: self.restore@,
            wayland_env: self.wayland_env,
            x_display: name_view(self.x_display),
        }
    }
}

/// The ids of windows.
pub open spec fn window_ids<C>(tiles: Seq<WindowTile<C>>) -> Seq<u64> {
    Seq::new(tiles.len(), |i: int| tiles[i].id)
}

/// The ids of popups.
pub open spec fn popup_ids<C>(tiles: Seq<PopupTile<C>>) -> Seq<u64> {
    Seq::new(tiles.len(), |i: int| tiles[i].id)
}

/// The ids of layer surfaces.
pub open spec fn layer_ids<C>(tiles: Seq<LayerTile<C>>) -> Seq<u64> {
    Seq::new(tiles.len(), |i: int| tiles[i].id)
}

/// The row with an id.
pub open spec fn row(ids: Seq<u64>, id: u64) -> Option<int> {
    if ids.contains(id) {
        Some(ids.index_of(id))
    } else {
        None
    }
}

/// The row of a window.
pub open spec fn window_row<C>(v: ShellView<C>, id: u64) -> Option<int> {
    row(window_ids(v.windows), id)
}

/// The row of a popup.
pub open spec fn popup_row<C>(v: ShellView<C>, id: u64) -> Option<int> {
    row(popup_ids(v.popups), id)
}

/// The row of a layer surface.
pub open spec fn layer_row<C>(v: ShellView<C>, id: u64) -> Option<int> {
    row(layer_ids(v.layers), id)
}

/// Every surface is shown once, and only the focused window is marked so.
pub open spec fn shell_wf<C>(v: ShellView<C>) -> bool {
    &&& window_ids(v.windows).no_duplicates()
    &&& popup_ids(v.popups).no_duplicates()
    &&& layer_ids(v.layers).no_duplicates()
    &&& forall|i: int|
        0 <= i < v.windows.len() && (#[trigger] v.windows[i]).focused ==> v.focused == Some(
            v.windows[i].id,
        )
}

/// The row of an id, found.
pub proof fn lemma_row(ids: Seq<u64>, i: int)
    requires
        ids.no_duplicates(),
        0 <= i < ids.len(),
    ensures
        row(ids, ids[i]) == Some(i),
{
    assert(ids.contains(ids[i]));
    let j = ids.index_of(ids[i]);
    assert(0 <= j < ids.len() && ids[j] == ids[i]);
}

/// The height of a window's title bar.
pub open spec fn titlebar_height(decorated: bool) -> u32 {
    if decorated {
        TITLEBAR
    } else {
        0
    }
}

/// The height of a window's title bar.
pub fn titlebar(decorated: bool) -> (r: u32)
    ensures
        r == titlebar_height(decorated),
{
    if decorated {
        TITLEBAR
    } else {
        0
    }
}

/// Where a popup goes: against its parent window's content origin (below the
/// title bar) or its parent popup's origin, or against the desktop.
pub open spec fn popup_placement<C>(
    v: ShellView<C>,
    parent: Option<WindowId>,
    ox: i32,
    oy: i32,
    width: u32,
    height: u32,
) -> Placement<C> {
    match parent {
        Some(parent) => match window_row(v, parent.0) {
            Some(i) => Placement::Against {
                base: v.windows[i].rect,
                titlebar: titlebar_height(v.windows[i].decorated),
                ox,
                oy,
                width,
                height,
            },
            None => match popup_row(v, parent.0) {
                Some(i) => Placement::Against {
                    base: v.popups[i].rect,
                    titlebar: 0,
                    ox,
                    oy,
                    width,
                    height,
                },
                None => Placement::At { x: ox as i128, y: oy as i128, width, height },
            },
        },
        None => Placement::At { x: ox as i128, y: oy as i128, width, height },
    }
}

/// Where the tile that an event shows goes. A window that is new is placed in a
/// cascade; one that is already shown stays where it is.
pub open spec fn placed<C, F>(v: ShellView<C>, event: Event<F>) -> Placement<C> {
    match event {
        Event::WindowBuffer { id, width, height, .. } => if window_row(v, id.0) is Some {
            Placement::Nowhere
        } else {
            let offset = 40 + v.windows.len() * 40;
            Placement::At { x: offset as i128, y: offset as i128, width, height }
        },
        Event::PopupBuffer { parent, ox, oy, width, height, .. } => popup_placement(
            v,
            parent,
            ox,
            oy,
            width,
            height,
        ),
        Event::LayerBuffer { x, y, width, height, .. } => Placement::At {
            x: x as i128,
            y: y as i128,
            width,
            height,
        },
        _ => Placement::Nowhere,
    }
}

/// The desktop after an event. `place` is the place of the tile that the event
/// shows, and `workspace` the active workspace.
pub open spec fn handled<C, F>(
    v: ShellView<C>,
    event: Event<F>,
    workspace: i32,
    place: Rect<C>,
) -> ShellView<C> {
    match event {
        Event::Ready { socket_name, runtime_dir, .. } => ShellView {
            wayland_env: Some((socket_name, runtime_dir)),
            ..v
        },
        Event::WindowBuffer { id, width, height, pixels, title, app_id, decorated } => ShellView {
            windows: match window_row(v, id.0) {
                Some(i) => v.windows.update(
                    i,
                    WindowTile { title, decorated, ..v.windows[i] },
                ),
                None => v.windows.push(
                    WindowTile {
                        id: id.0,
                        title,
                        app_id,
                        decorated,
                        focused: false,
                        minimized: false,
                        maximized: false,
                        workspace,
                        rect: place,
                    },
                ),
            },
            pending: v.pending.insert(id.0, Frame { width, height, pixels }),
            ..v
        },
        Event::WindowDecorated { id, decorated } => match window_row(v, id.0) {
            Some(i) => ShellView {
                windows: v.windows.update(i, WindowTile { decorated, ..v.windows[i] }),
                ..v
            },
            None => v,
        },
        Event::WindowRemoved(id) => {
            let pending = v.pending.remove(id.0);
            match window_row(v, id.0) {
                Some(i) => ShellView {
                    windows: v.windows.remove(i),
                    closed: v.closed.push(id.0),
                    pending,
                    ..v
                },
                None => ShellView { pending, ..v },
            }
        },
        Event::PopupBuffer { id, width, height, pixels, .. } => ShellView {
            popups: match popup_row(v, id.0) {
                Some(i) => v.popups.update(i, PopupTile { rect: place, ..v.popups[i] }),
                None => v.popups.push(PopupTile { id: id.0, rect: place }),
            },
            pending: v.pending.insert(id.0, Frame { width, height, pixels }),
            ..v
        },
        Event::PopupRemoved(id) => {
            let pending = v.pending.remove(id.0);
            match popup_row(v, id.0) {
                Some(i) => ShellView {
                    popups: v.popups.remove(i),
                    closed: v.closed.push(id.0),
                    pending,
                    ..v
                },
                None => ShellView { pending, ..v },
            }
        },
        Event::LayerBuffer { id, layer, width, height, pixels, .. } => ShellView {
            layers: match layer_row(v, id.0) {
                Some(i) => v.layers.update(i, LayerTile { rect: place, ..v.layers[i] }),
                None => v.layers.push(LayerTile { id: id.0, layer, rect: place }),
            },
            pending: v.pending.insert(id.0, Frame { width, height, pixels }),
            ..v
        },
        Event::LayerRemoved(id) => {
            let pending = v.pending.remove(id.0);
            match layer_row(v, id.0) {
                Some(i) => ShellView {
                    layers: v.layers.remove(i),
                    closed: v.closed.push(id.0),
                    pending,
                    ..v
                },
                None => ShellView { pending, ..v },
            }
        },
        Event::XwaylandReady { display } => ShellView {
            x_display: Some(x_display_text(display)),
            ..v
        },
        _ => v,
    }
}

/// Whether the desktop must be drawn again after an event.
pub open spec fn redraws<F>(event: Event<F>) -> bool {
    event is WindowBuffer || event is WindowDecorated || event is WindowRemoved
        || event is PopupBuffer || event is PopupRemoved || event is LayerBuffer
        || event is LayerRemoved
}

/// Dropping an element keeps the others distinct.
pub proof fn lemma_remove_distinct(ids: Seq<u64>, i: int)
    requires
        ids.no_duplicates(),
        0 <= i < ids.len(),
    ensures
        ids.remove(i).no_duplicates(),
        !ids.remove(i).contains(ids[i]),
        forall|x: u64| x != ids[i] ==> (ids.remove(i).contains(x) <==> ids.contains(x)),
{
    let t = ids.remove(i);
    let back = |k: int| if k < i { k } else { k + 1 };
    assert forall|a: int, b: int| 0 <= a < t.len() && 0 <= b < t.len() && a != b implies t[a]
        != t[b] by {
        assert(t[a] == ids[back(a)] && t[b] == ids[back(b)]);
    }
    if t.contains(ids[i]) {
        let k = choose|k: int| 0 <= k < t.len() && t[k] == ids[i];
        assert(t[k] == ids[back(k)]);
    }
    assert forall|x: u64| x != ids[i] implies (t.contains(x) <==> ids.contains(x)) by {
        if t.contains(x) {
            let k = choose|k: int| 0 <= k < t.len() && t[k] == x;
            assert(ids[back(k)] == x);
        }
        if ids.contains(x) {
            let k = choose|k: int| 0 <= k < ids.len() && ids[k] == x;
            if k < i {
                assert(t[k] == x);
            } else {
                assert(t[k - 1] == x);
            }
        }
    }
}

/// A new element keeps the elements distinct.
pub proof fn lemma_push_distinct(ids: Seq<u64>, id: u64)
    requires
        ids.no_duplicates(),
        !ids.contains(id),
    ensures
        ids.push(id).no_duplicates(),
{
    let t = ids.push(id);
    assert forall|a: int, b: int| 0 <= a < t.len() && 0 <= b < t.len() && a != b implies t[a]
        != t[b] by {
        if a == ids.len() {
            assert(ids[b] == t[b]);
        } else if b == ids.len() {
            assert(ids[a] == t[a]);
        }
    }
}

/// An event keeps every surface shown once.
proof fn lemma_handled_wf<C, F>(v: ShellView<C>, event: Event<F>, workspace: i32, place: Rect<C>)
    requires
        shell_wf(v),
    ensures
        shell_wf(handled(v, event, workspace, place)),
{
    let after = handled(v, event, workspace, place);
    match event {
        Event::WindowBuffer { id, .. } => {
            match window_row(v, id.0) {
                Some(i) => {
                    assert(window_ids(after.windows) =~= window_ids(v.windows));
                },
                None => {
                    lemma_push_distinct(window_ids(v.windows), id.0);
                    assert(window_ids(after.windows) =~= window_ids(v.windows).push(id.0));
                },
            }
        },
        Event::WindowDecorated { id, .. } => {
            assert(window_ids(after.windows) =~= window_ids(v.windows));
        },
        Event::WindowRemoved(id) => {
            if let Some(i) = window_row(v, id.0) {
                lemma_remove_distinct(window_ids(v.windows), i);
                assert(window_ids(after.windows) =~= window_ids(v.windows).remove(i));
                assert forall|k: int|
                    0 <= k < after.windows.len()
                        && (#[trigger] after.windows[k]).focused implies after.focused == Some(
                    after.windows[k].id,
                ) by {
                    let b = if k < i {
                        k
                    } else {
                        k + 1
                    };
                    assert(after.windows[k] == v.windows[b]);
                }
            }
        },
        Event::PopupBuffer { id, .. } => {
            match popup_row(v, id.0) {
                Some(i) => {
                    assert(popup_ids(after.popups) =~= popup_ids(v.popups));
                },
                None => {
                    lemma_push_distinct(popup_ids(v.popups), id.0);
                    assert(popup_ids(after.popups) =~= popup_ids(v.popups).push(id.0));
                },
            }
        },
        Event::PopupRemoved(id) => {
            if let Some(i) = popup_row(v, id.0) {
                lemma_remove_distinct(popup_ids(v.popups), i);
                assert(popup_ids(after.popups) =~= popup_ids(v.popups).remove(i));
            }
        },
        Event::LayerBuffer { id, .. } => {
            match layer_row(v, id.0) {
                Some(i) => {
                    assert(layer_ids(after.layers) =~= layer_ids(v.layers));
                },
                None => {
                    lemma_push_distinct(layer_ids(v.layers), id.0);
                    assert(layer_ids(after.layers) =~= layer_ids(v.layers).push(id.0));
                },
            }
        },
        Event::LayerRemoved(id) => {
            if let Some(i) = layer_row(v, id.0) {
                lemma_remove_distinct(layer_ids(v.layers), i);
                assert(layer_ids(after.layers) =~= layer_ids(v.layers).remove(i));
            }
        },
        _ => {},
    }
}

impl<C: Copy> Shell<C> {
    /// The tables are sound, every surface is shown once, and only the focused
    /// window is marked so.
    pub open spec fn wf(&self) -> bool {
        self.pending.wf() && self.restore.wf() && shell_wf(self@)
    }

    /// An empty desktop. `x_display` is the name of the X display to use until
    /// XWayland is ready, if there is one.
    pub fn new(x_display: Option<String>) -> (r: Self)
        ensures
            r.wf(),
            r@.windows.len() == 0,
            r@.popups.len() == 0,
            r@.layers.len() == 0,
            r@.pending == Map::<u64, Frame>::empty(),
            r@.closed.len() == 0,
            r@.focused is None,
            r@.restore == Map::<u64, Rect<C>>::empty(),
            r@.wayland_env is None,
            r@.x_display == name_view(x_display),
    {
        Shell {
            windows: Vec::new(),
            popups: Vec::new(),
            layers: Vec::new(),
            pending: Table::new(),
            closed: Vec::new(),
            focused: None,
            restore: Table::new(),
            wayland_env: None,
            x_display,
        }
    }

    /// The row of a window.
    pub fn find_window(&self, id: u64) -> (r: Option<usize>)
        requires
            self.wf(),
        ensures
            match r {
                Some(i) => i < self.windows.len() && self.windows@[i as int].id == id && window_row(
                    self@,
                    id,
                ) == Some(i as int),
                None => window_row(self@, id) is None,
            },
    {
        let ghost ids = window_ids(self.windows@);
        for i in 0..self.windows.len()
            invariant
                ids == window_ids(self.windows@),
                ids.no_duplicates(),
                forall|k: int| 0 <= k < i ==> ids[k] != id,
        {
            assert(ids[i as int] == self.windows@[i as int].id);
            if self.windows[i].id == id {
                proof {
                    lemma_row(ids, i as int);
                }
                return Some(i);
            }
        }
        None
    }

    /// The row of a popup.
    pub fn find_popup(&self, id: u64) -> (r: Option<usize>)
        requires
            self.wf(),
        ensures
            match r {
                Some(i) => i < self.popups.len() && self.popups@[i as int].id == id && popup_row(
                    self@,
                    id,
                ) == Some(i as int),
                None => popup_row(self@, id) is None,
            },
    {
        let ghost ids = popup_ids(self.popups@);
        for i in 0..self.popups.len()
            invariant
                ids == popup_ids(self.popups@),
                ids.no_duplicates(),
                forall|k: int| 0 <= k < i ==> ids[k] != id,
        {
            assert(ids[i as int] == self.popups@[i as int].id);
            if self.popups[i].id == id {
                proof {
                    lemma_row(ids, i as int);
                }
                return Some(i);
            }
        }
        None
    }

    /// The row of a layer surface.
    pub fn find_layer(&self, id: u64) -> (r: Option<usize>)
        requires
            self.wf(),
        ensures
            match r {
                Some(i) => i < self.layers.len() && self.layers@[i as int].id == id && layer_row(
                    self@,
                    id,
                ) == Some(i as int),
                None => layer_row(self@, id) is None,
            },
    {
        let ghost ids = layer_ids(self.layers@);
        for i in 0..self.layers.len()
            invariant
                ids == layer_ids(self.layers@),
                ids.no_duplicates(),
                forall|k: int| 0 <= k < i ==> ids[k] != id,
        {
            assert(ids[i as int] == self.layers@[i as int].id);
            if self.layers[i].id == id {
                proof {
                    lemma_row(ids, i as int);
                }
                return Some(i);
            }
        }
        None
    }

    /// Where a popup goes, from its parent and its offset.
    pub fn popup_origin(
        &self,
        parent: Option<WindowId>,
        ox: i32,
        oy: i32,
        width: u32,
        height: u32,
    ) -> (r: Placement<C>)
        requires
            self.wf(),
        ensures
            r == popup_placement(self@, parent, ox, oy, width, height),
    {
        if let Some(parent) = parent {
            if let Some(i) = self.find_window(parent.0) {
                let titlebar = titlebar(self.windows[i].decorated);
                let base = self.windows[i].rect;
                return Placement::Against { base, titlebar, ox, oy, width, height };
            }
            if let Some(i) = self.find_popup(parent.0) {
                let base = self.popups[i].rect;
                return Placement::Against { base, titlebar: 0, ox, oy, width, height };
            }
        }
        Placement::At { x: ox as i128, y: oy as i128, width, height }
    }

    /// Where the tile that an event shows goes.
    pub fn placement<F>(&self, event: &Event<F>) -> (r: Placement<C>)
        requires
            self.wf(),
        ensures
            r == placed(self@, *event),
    {
        match event {
            Event::WindowBuffer { id, width, height, .. } => {
                if self.find_window(id.0).is_some() {
                    Placement::Nowhere
                } else {
                    let offset: i128 = 40 + self.windows.len() as i128 * 40;
                    Placement::At { x: offset, y: offset, width: *width, height: *height }
                }
            },
            Event::PopupBuffer { parent, ox, oy, width, height, .. } => self.popup_origin(
                *parent,
                *ox,
                *oy,
                *width,
                *height,
            ),
            Event::LayerBuffer { x, y, width, height, .. } => Placement::At {
                x: *x as i128,
                y: *y as i128,
                width: *width,
                height: *height,
            },
            _ => Placement::Nowhere,
        }
    }

    /// Apply a compositor event. `place` is the place that [`Shell::placement`]
    /// gave for it, in the coordinates of the user interface. Returns true if a
    /// redraw is needed.
    pub fn handle_event<F>(
        &mut self,
        event: Event<F>,
        active_workspace: i32,
        place: Rect<C>,
    ) -> (r: bool)
        requires
            old(self).wf(),
        ensures
            final(self).wf(),
            final(self)@ == handled(old(self)@, event, active_workspace, place),
            r == redraws(event),
    {
        let ghost before = self@;
        proof {
            lemma_handled_wf(before, event, active_workspace, place);
        }
        let redraw = match event {
            Event::Ready { socket_name, runtime_dir, .. } => {
                self.wayland_env = Some((socket_name, runtime_dir));
                false
            },
            Event::WindowBuffer { id, width, height, pixels, title, app_id, decorated } => {
                match self.find_window(id.0) {
                    Some(i) => {
                        self.windows[i].title = title;
                        self.windows[i].decorated = decorated;
                    },
                    None => {
                        self.windows.push(
                            WindowTile {
                                id: id.0,
                                title,
                                app_id,
                                decorated,
                                focused: false,
                                minimized: false,
                                maximized: false,
                                workspace: active_workspace,
                                rect: place,
                            },
                        );
                    },
                }
                self.pending.insert(id.0, Frame { width, height, pixels });
                true
            },
            Event::WindowDecorated { id, decorated } => {
                if let Some(i) = self.find_window(id.0) {
                    self.windows[i].decorated = decorated;
                }
                true
            },
            Event::WindowRemoved(id) => {
                let found = self.find_window(id.0);
                self.pending.remove(id.0);
                if let Some(i) = found {
                    self.windows.remove(i);
                    self.closed.push(id.0);
                }
                true
            },
            Event::PopupBuffer { id, width, height, pixels, .. } => {
                match self.find_popup(id.0) {
                    Some(i) => {
                        self.popups[i].rect = place;
                    },
                    None => {
                        self.popups.push(PopupTile { id: id.0, rect: place });
                    },
                }
                self.pending.insert(id.0, Frame { width, height, pixels });
                true
            },
            Event::PopupRemoved(id) => {
                let found = self.find_popup(id.0);
                self.pending.remove(id.0);
                if let Some(i) = found {
                    self.popups.remove(i);
                    self.closed.push(id.0);
                }
                true
            },
            Event::LayerBuffer { id, layer, width, height, pixels, .. } => {
                match self.find_layer(id.0) {
                    Some(i) => {
                        self.layers[i].rect = place;
                    },
                    None => {
                        self.layers.push(LayerTile { id: id.0, layer, rect: place });
                    },
                }
                self.pending.insert(id.0, Frame { width, height, pixels });
                true
            },
            Event::LayerRemoved(id) => {
                let found = self.find_layer(id.0);
                self.pending.remove(id.0);
                if let Some(i) = found {
                    self.layers.remove(i);
                    self.closed.push(id.0);
                }
                true
            },
            Event::XwaylandReady { display } => {
                self.x_display = Some(x_display_name(display));
                false
            },
            _ => false,
        };
        assert(self@ =~= handled(before, event, active_workspace, place));
        redraw
    }
}

// ---------------------------------------------------------------------------
// Laws

/// The first frame of a window shows it on top of the stack, on the active
/// workspace and where it was placed, neither focused nor minimized nor
/// maximized. A later frame gives it its title and decorations and moves nothing.
/// Either way the frame awaits upload, and all other windows are as they were.
pub proof fn law_frames_show_windows<C, F>(
    v: ShellView<C>,
    event: Event<F>,
    workspace: i32,
    place: Rect<C>,
    i: int,
)
    requires
        shell_wf(v),
        event is WindowBuffer,
    ensures
        ({
            let after = handled(v, event, workspace, place);
            let w = after.windows;
            let id = event->WindowBuffer_id.0;
            let n = v.windows.len() as int;
            &&& 0 <= i < n && v.windows[i].id != id ==> w[i] == v.windows[i]
            &&& 0 <= i < n && v.windows[i].id == id ==> w.len() == n && w[i] == (WindowTile {
                title: event->WindowBuffer_title,
                decorated: event->WindowBuffer_decorated,
                ..v.windows[i]
            })
            &&& (forall|k: int| 0 <= k < n ==> (#[trigger] v.windows[k]).id != id) ==> {
                &&& w.len() == n + 1
                &&& w[n].id == id && w[n].title == event->WindowBuffer_title && w[n].app_id
                    == event->WindowBuffer_app_id
                &&& w[n].decorated == event->WindowBuffer_decorated
                &&& !w[n].focused && !w[n].minimized && !w[n].maximized
                &&& w[n].workspace == workspace && w[n].rect == place
            }
            &&& after.pending.contains_key(id)
            &&& after.pending[id].width == event->WindowBuffer_width
            &&& after.pending[id].height == event->WindowBuffer_height
            &&& after.pending[id].pixels == event->WindowBuffer_pixels
            &&& after.popups == v.popups && after.layers == v.layers && after.focused == v.focused
            &&& after.restore == v.restore && after.closed == v.closed
        }),
{
    let ids = window_ids(v.windows);
    let id = event->WindowBuffer_id.0;
    if 0 <= i < v.windows.len() {
        lemma_row(ids, i);
    }
    if let Some(k) = window_row(v, id) {
        assert(ids[k] == id);
        assert(v.windows[k].id == id);
    }
}

/// A frame of a popup or of a layer surface shows it where it was placed, also if
/// it was shown elsewhere before; the frame awaits upload and nothing else
/// changes.
pub proof fn law_frames_show_popups_and_layers<C, F>(
    v: ShellView<C>,
    event: Event<F>,
    workspace: i32,
    place: Rect<C>,
)
    requires
        shell_wf(v),
    ensures
        ({
            let after = handled(v, event, workspace, place);
            &&& event matches Event::PopupBuffer { id, width, height, pixels, .. } ==> {
                &&& exists|k: int|
                    0 <= k < after.popups.len() && (#[trigger] after.popups[k]).id == id.0
                        && after.popups[k].rect == place
                &&& forall|i: int|
                    0 <= i < v.popups.len() && (#[trigger] v.popups[i]).id != id.0
                        ==> after.popups[i] == v.popups[i]
                &&& after.pending.contains_key(id.0) && after.pending[id.0] == (Frame {
                    width,
                    height,
                    pixels,
                })
                &&& after.windows == v.windows && after.layers == v.layers
            }
            &&& event matches Event::LayerBuffer { id, layer, width, height, pixels, .. } ==> {
                &&& exists|k: int|
                    0 <= k < after.layers.len() && (#[trigger] after.layers[k]).id == id.0
                        && after.layers[k].rect == place && (layer_row(v, id.0) is None
                        ==> after.layers[k].layer == layer)
                &&& forall|i: int|
                    0 <= i < v.layers.len() && (#[trigger] v.layers[i]).id != id.0
                        ==> after.layers[i] == v.layers[i]
                &&& after.pending.contains_key(id.0) && after.pending[id.0] == (Frame {
                    width,
                    height,
                    pixels,
                })
                &&& after.windows == v.windows && after.popups == v.popups
            }
        }),
{
    let after = handled(v, event, workspace, place);
    if let Event::PopupBuffer { id, .. } = event {
        match popup_row(v, id.0) {
            Some(k) => {
                assert(popup_ids(v.popups)[k] == id.0);
                assert(after.popups[k].id == id.0);
            },
            None => {
                assert(after.popups[v.popups.len() as int].id == id.0);
            },
        }
    }
    if let Event::LayerBuffer { id, .. } = event {
        match layer_row(v, id.0) {
            Some(k) => {
                assert(layer_ids(v.layers)[k] == id.0);
                assert(after.layers[k].id == id.0);
            },
            None => {
                assert(after.layers[v.layers.len() as int].id == id.0);
            },
        }
    }
}

/// The other events: a window's decorations change, the socket or the X display
/// is ready. Requests to move, new windows without a frame and the rest change
/// nothing.
pub proof fn law_other_events<C, F>(
    v: ShellView<C>,
    event: Event<F>,
    workspace: i32,
    place: Rect<C>,
    i: int,
)
    requires
        shell_wf(v),
    ensures
        ({
            let after = handled(v, event, workspace, place);
            &&& event matches Event::Ready { socket_name, runtime_dir, .. } ==> after == (
            ShellView { wayland_env: Some((socket_name, runtime_dir)), ..v })
            &&& event matches Event::XwaylandReady { display } ==> after == (ShellView {
                x_display: Some(seq![':'] + decimal(display as nat)),
                ..v
            })
            &&& event matches Event::WindowDecorated { id, decorated } ==> {
                &&& 0 <= i < v.windows.len() ==> after.windows[i] == (if v.windows[i].id == id.0 {
                    WindowTile { decorated, ..v.windows[i] }
                } else {
                    v.windows[i]
                })
                &&& after == (ShellView { windows: after.windows, ..v })
            }
            &&& event is WindowAdded || event is WindowMoveRequested || event is WindowDmabuf
                ==> after == v
        }),
        redraws(event) <==> event is WindowBuffer || event is PopupBuffer || event is LayerBuffer
            || event is WindowRemoved || event is PopupRemoved || event is LayerRemoved
            || event is WindowDecorated,
{
    let ids = window_ids(v.windows);
    if 0 <= i < v.windows.len() {
        lemma_row(ids, i);
    }
    if let Event::WindowDecorated { id, .. } = event {
        if let Some(k) = window_row(v, id.0) {
            assert(ids[k] == id.0);
        }
    }
}

/// New windows cascade: each begins 40 pixels further right and down than the one
/// before it, the first at 40. A window that is shown stays. A popup is placed at
/// its offset from its parent, below the parent's title bar of 28 pixels if that is
/// a decorated window, and a layer surface where it asks to be.
pub proof fn law_tiles_are_placed<C, F>(v: ShellView<C>, event: Event<F>, i: int)
    requires
        shell_wf(v),
    ensures
        event matches Event::WindowBuffer { id, width, height, .. } ==> {
            &&& (forall|k: int| 0 <= k < v.windows.len() ==> (#[trigger] v.windows[k]).id != id.0)
                ==> placed(v, event) == (Placement::<C>::At {
                x: (40 * (v.windows.len() + 1)) as i128,
                y: (40 * (v.windows.len() + 1)) as i128,
                width,
                height,
            })
            &&& 0 <= i < v.windows.len() && v.windows[i].id == id.0 ==> placed(v, event) is Nowhere
        },
        event matches Event::LayerBuffer { x, y, width, height, .. } ==> placed(v, event) == (
        Placement::<C>::At { x: x as i128, y: y as i128, width, height }),
        event matches Event::PopupBuffer { parent, ox, oy, width, height, .. } ==> {
            &&& parent is Some && 0 <= i < v.windows.len() && v.windows[i].id == parent.unwrap().0
                ==> placed(v, event) == (Placement::Against {
                base: v.windows[i].rect,
                titlebar: if v.windows[i].decorated {
                    28
                } else {
                    0
                },
                ox,
                oy,
                width,
                height,
            })
            &&& parent is Some && window_row(v, parent.unwrap().0) is None && 0 <= i
                < v.popups.len() && v.popups[i].id == parent.unwrap().0 ==> placed(v, event) == (Placement::Against {
                base: v.popups[i].rect,
                titlebar: 0,
                ox,
                oy,
                width,
                height,
            })
            &&& parent is None ==> placed(v, event) == (Placement::<C>::At {
                x: ox as i128,
                y: oy as i128,
                width,
                height,
            })
        },
{
    if 0 <= i < v.windows.len() {
        lemma_row(window_ids(v.windows), i);
        assert(window_ids(v.windows)[i] == v.windows[i].id);
    }
    if 0 <= i < v.popups.len() {
        lemma_row(popup_ids(v.popups), i);
        assert(popup_ids(v.popups)[i] == v.popups[i].id);
    }
    if let Event::WindowBuffer { id, .. } = event {
        if let Some(k) = window_row(v, id.0) {
            assert(window_ids(v.windows)[k] == id.0);
            assert(v.windows[k].id == id.0);
        }
    }
}

} // verus!
