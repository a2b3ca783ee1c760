//! The surfaces that the compositor tracks, and the ids it gave them.
//!
//! A surface is known by the number of its protocol object.

use vstd::prelude::*;

use crate::render::crop::Geometry;
use crate::shell::model::WindowId;
use crate::shell::workspace::{all_without, lemma_without, without, Workspaces};
use crate::table::{has_key, index_of, lemma_entry, Table};
use crate::wayland::composite::{cache_wf, Cache, Picture};
use crate::wayland::event::Event;
use crate::wayland::layers::{filled, layer_size, refill_layers, refilled, Layer};
use crate::wayland::outputs::{OUTPUT_H, OUTPUT_W};

verus! {

/// Number of virtual desktops created at startup.
pub const WORKSPACE_COUNT: usize = 4;

/// A tracked toplevel window.
#[derive(Debug, Clone, Copy, PartialEq, Eq)]
pub struct WindowEntry {
    pub id: WindowId,
    /// Whether server-side decorations are drawn for this window. False when the
    /// client draws its own.
    pub decorated: bool,
    /// What was cropped off at the left and the top of the window's buffer.
    pub geometry_offset: (i32, i32),
}

/// A tracked popup (menu, dropdown, tooltip).
#[derive(Debug, Clone, Copy, PartialEq, Eq)]
pub struct PopupEntry {
    pub id: WindowId,
    /// The id of the parent window/popup this is positioned against.
    pub parent_id: Option<WindowId>,
    /// Offset from the parent surface, from the positioner geometry.
    pub offset: (i32, i32),
}

/// A tracked layer-shell surface (panel, bar, wallpaper, notification).
#[derive(Debug, Clone, Copy, PartialEq, Eq, Structural)]
pub struct LayerEntry {
    pub id: WindowId,
    pub layer: Layer,
}

/// A tracked X11 (XWayland) window.
#[derive(Debug, Clone, Copy, PartialEq, Eq, Structural)]
pub struct X11Entry {
    pub id: WindowId,
}

/// Who draws a window's decorations.
#[derive(Debug, Clone, Copy, PartialEq, Eq, Structural)]
pub enum DecorationMode {
    ClientSide,
    ServerSide,
}

/// What the compositor knows of its clients' surfaces.
#[derive(Debug)]
pub struct SlickState {
    pub workspaces: Workspaces,
    pub next_window_id: u64,
    /// Mapped toplevel windows, keyed by their root surface.
    pub windows: Table<WindowEntry>,
    /// Mapped popups (menus etc.), keyed by their surface.
    pub popups: Table<PopupEntry>,
    /// Mapped layer-shell surfaces (bars, wallpapers), keyed by their surface.
    pub layer_surfaces: Table<LayerEntry>,
    /// Mapped X11 windows, keyed by their surface.
    pub x11_windows: Table<X11Entry>,
    /// The last-known picture of each surface.
    pub surface_pixels: Table<Picture>,
    /// The size of the primary output in logical pixels.
    pub current_output_size: (i32, i32),
    /// Whether GPU (dmabuf) buffers are accepted.
    pub dmabuf_enabled: bool,
}

/// A [`SlickState`] as a mathematical value.
#[verifier::ext_equal]
pub struct StateView {
    pub lists: Seq<Seq<WindowId>>,
    pub active: int,
    pub next_window_id: u64,
    pub windows: Map<u64, WindowEntry>,
    pub popups: Map<u64, PopupEntry>,
    pub layers: Map<u64, LayerEntry>,
    pub x11: Map<u64, X11Entry>,
    pub pictures: Cache,
    pub output: (i32, i32),
    pub dmabuf_enabled: bool,
}

impl View for SlickState {
    type V = StateView;

    open spec fn view(&self) -> StateView {
        StateView {
            lists: self.workspaces.lists(),
            active: self.workspaces.active_index(),
            next_window_id: self.next_window_id,
            windows: self.windows@,
            popups: self.popups@,
            layers: self.layer_surfaces@,
            x11: self.x11_windows@,
            pictures: self.surface_pixels@,
            output: self.current_output_size,
            dmabuf_enabled: self.dmabuf_enabled,
        }
    }
}

/// A surface in one of its roles.
pub enum Slot {
    Window(u64),
    Popup(u64),
    Layer(u64),
    X11(u64),
}

/// The id of a surface in a role.
pub open spec fn slot_id(v: StateView, slot: Slot) -> Option<WindowId> {
    match slot {
        Slot::Window(s) => if v.windows.contains_key(s) {
            Some(v.windows[s].id)
        } else {
            None
        },
        Slot::Popup(s) => if v.popups.contains_key(s) {
            Some(v.popups[s].id)
        } else {
            None
        },
        Slot::Layer(s) => if v.layers.contains_key(s) {
            Some(v.layers[s].id)
        } else {
            None
        },
        Slot::X11(s) => if v.x11.contains_key(s) {
            Some(v.x11[s].id)
        } else {
            None
        },
    }
}

/// Every id was handed out, and no two surfaces have the same one.
pub open spec fn ids_wf(v: StateView) -> bool {
    &&& forall|a: Slot|
        (#[trigger] slot_id(v, a)) matches Some(id) ==> id.0 < v.next_window_id
    &&& forall|a: Slot, b: Slot|
        #![trigger slot_id(v, a), slot_id(v, b)]
        slot_id(v, a) is Some && slot_id(v, a) == slot_id(v, b) ==> a == b
}

/// There is an active workspace, and every window on a workspace was handed its
/// id.
pub open spec fn lists_wf(v: StateView) -> bool {
    &&& 0 <= v.active < v.lists.len()
    &&& forall|i: int, id: WindowId|
        0 <= i < v.lists.len() && #[trigger] v.lists[i].contains(id) ==> id.0 < v.next_window_id
}

/// The ids are sound, the workspaces and the pictures are, and the output has a
/// size.
pub open spec fn state_wf(v: StateView) -> bool {
    ids_wf(v) && lists_wf(v) && cache_wf(v.pictures) && v.output.0 > 0 && v.output.1 > 0
}

/// `surface` is the window, popup or layer surface with the id.
pub open spec fn owns_id(v: StateView, surface: u64, id: WindowId) -> bool {
    ||| slot_id(v, Slot::Window(surface)) == Some(id)
    ||| slot_id(v, Slot::Popup(surface)) == Some(id)
    ||| slot_id(v, Slot::Layer(surface)) == Some(id)
}

/// The id of the window or popup that a surface is.
pub open spec fn owner_id(v: StateView, surface: u64) -> Option<WindowId> {
    match slot_id(v, Slot::Window(surface)) {
        Some(id) => Some(id),
        None => slot_id(v, Slot::Popup(surface)),
    }
}

/// The state after a new toplevel window.
pub open spec fn with_toplevel(v: StateView, surface: u64) -> StateView {
    let id = WindowId(v.next_window_id);
    StateView {
        lists: v.lists.update(v.active, v.lists[v.active].push(id)),
        next_window_id: (v.next_window_id + 1) as u64,
        windows: v.windows.insert(
            surface,
            WindowEntry { id, decorated: false, geometry_offset: (0, 0) },
        ),
        ..v
    }
}

/// The state after a toplevel window went away.
pub open spec fn without_toplevel(v: StateView, surface: u64) -> StateView {
    if v.windows.contains_key(surface) {
        StateView {
            lists: all_without(v.lists, v.windows[surface].id),
            windows: v.windows.remove(surface),
            ..v
        }
    } else {
        v
    }
}

/// The state after a new popup.
pub open spec fn with_popup(
    v: StateView,
    surface: u64,
    parent: Option<u64>,
    offset: (i32, i32),
) -> StateView {
    let parent_id = match parent {
        Some(p) => owner_id(v, p),
        None => None,
    };
    StateView {
        next_window_id: (v.next_window_id + 1) as u64,
        popups: v.popups.insert(
            surface,
            PopupEntry { id: WindowId(v.next_window_id), parent_id, offset },
        ),
        ..v
    }
}

/// The state after a new layer surface.
pub open spec fn with_layer(v: StateView, surface: u64, layer: Layer) -> StateView {
    StateView {
        next_window_id: (v.next_window_id + 1) as u64,
        layers: v.layers.insert(surface, LayerEntry { id: WindowId(v.next_window_id), layer }),
        ..v
    }
}

/// The state after a window's decorations were decided.
pub open spec fn with_decoration(v: StateView, surface: u64, decorated: bool) -> StateView {
    if v.windows.contains_key(surface) {
        StateView {
            windows: v.windows.insert(surface, WindowEntry { decorated, ..v.windows[surface] }),
            ..v
        }
    } else {
        v
    }
}

/// At least 1.
pub open spec fn at_least_one(n: i32) -> i32 {
    if n < 1 {
        1
    } else {
        n
    }
}

/// A surface in a new role with the next id keeps the ids sound.
proof fn lemma_new_slot(v: StateView, after: StateView, slot: Slot)
    requires
        ids_wf(v),
        v.next_window_id < u64::MAX,
        after.next_window_id == v.next_window_id + 1,
        slot_id(after, slot) == Some(WindowId(v.next_window_id)),
        forall|b: Slot| b != slot ==> #[trigger] slot_id(after, b) == slot_id(v, b),
    ensures
        ids_wf(after),
{
    assert forall|a: Slot| (#[trigger] slot_id(after, a)) matches Some(id) ==> id.0
        < after.next_window_id by {
        if a != slot {
            assert(slot_id(after, a) == slot_id(v, a));
        }
    }
    assert forall|a: Slot, b: Slot|
        #![trigger slot_id(after, a), slot_id(after, b)]
        slot_id(after, a) is Some && slot_id(after, a) == slot_id(after, b) implies a == b by {
        if a != slot {
            assert(slot_id(after, a) == slot_id(v, a));
        }
        if b != slot {
            assert(slot_id(after, b) == slot_id(v, b));
        }
    }
}

/// Fewer surfaces with the ids they had keep the ids sound.
proof fn lemma_fewer_slots(v: StateView, after: StateView)
    requires
        ids_wf(v),
        after.next_window_id == v.next_window_id,
        forall|b: Slot|
            (#[trigger] slot_id(after, b)) is Some ==> slot_id(after, b) == slot_id(v, b),
    ensures
        ids_wf(after),
{
    assert forall|a: Slot| (#[trigger] slot_id(after, a)) matches Some(id) ==> id.0
        < after.next_window_id by {
        if slot_id(after, a) is Some {
            assert(slot_id(after, a) == slot_id(v, a));
        }
    }
    assert forall|a: Slot, b: Slot|
        #![trigger slot_id(after, a), slot_id(after, b)]
        slot_id(after, a) is Some && slot_id(after, a) == slot_id(after, b) implies a == b by {
        assert(slot_id(after, a) == slot_id(v, a));
        assert(slot_id(after, b) == slot_id(v, b));
    }
}

/// A new window on the active workspace keeps the workspaces sound.
proof fn lemma_pushed(v: StateView, surface: u64)
    requires
        lists_wf(v),
        v.next_window_id < u64::MAX,
    ensures
        lists_wf(with_toplevel(v, surface)),
{
    let after = with_toplevel(v, surface);
    assert forall|i: int, id: WindowId|
        0 <= i < after.lists.len() && #[trigger] after.lists[i].contains(id) implies id.0
        < after.next_window_id by {
        let k = choose|k: int| 0 <= k < after.lists[i].len() && after.lists[i][k] == id;
        if k < v.lists[i].len() {
            assert(v.lists[i][k] == id);
            assert(v.lists[i].contains(id));
        }
    }
}

/// An entry of a table has its key in the table.
proof fn lemma_table_entry<V>(table: &Table<V>, i: int)
    requires
        table.wf(),
        0 <= i < table.seq().len(),
    ensures
        table@.contains_key(table.seq()[i].0),
        table@[table.seq()[i].0] == table.seq()[i].1,
{
    lemma_entry(table.seq(), i);
}

impl SlickState {
    /// The tables are sound and so is what they hold.
    pub open spec fn wf(&self) -> bool {
        &&& self.workspaces.wf()
        &&& self.windows.wf()
        &&& self.popups.wf()
        &&& self.layer_surfaces.wf()
        &&& self.x11_windows.wf()
        &&& self.surface_pixels.wf()
        &&& state_wf(self@)
    }

    /// No surfaces, on an output of the default size.
    pub fn new(dmabuf_enabled: bool) -> (r: Self)
        ensures
            r.wf(),
            r@.next_window_id == 0,
            r@.lists.len() == WORKSPACE_COUNT,
            forall|i: int| 0 <= i < r@.lists.len() ==> (#[trigger] r@.lists[i]).len() == 0,
            r@.active == 0,
            r@.windows == Map::<u64, WindowEntry>::empty(),
            r@.popups == Map::<u64, PopupEntry>::empty(),
            r@.layers == Map::<u64, LayerEntry>::empty(),
            r@.x11 == Map::<u64, X11Entry>::empty(),
            r@.pictures == Map::<u64, Picture>::empty(),
            r@.output == (OUTPUT_W, OUTPUT_H),
            r@.dmabuf_enabled == dmabuf_enabled,
    {
        SlickState {
            workspaces: Workspaces::new(WORKSPACE_COUNT),
            next_window_id: 0,
            windows: Table::new(),
            popups: Table::new(),
            layer_surfaces: Table::new(),
            x11_windows: Table::new(),
            surface_pixels: Table::new(),
            current_output_size: (OUTPUT_W, OUTPUT_H),
            dmabuf_enabled,
        }
    }

    /// Allocate the next stable window id.
    pub fn allocate_window_id(&mut self) -> (r: WindowId)
        requires
            old(self).wf(),
            old(self).next_window_id < u64::MAX,
        ensures
            final(self).wf(),
            r == WindowId(old(self).next_window_id),
            final(self)@ == (StateView {
                next_window_id: (old(self).next_window_id + 1) as u64,
                ..old(self)@
            }),
            forall|slot: Slot| #[trigger] slot_id(old(self)@, slot) != Some(r),
    {
        let ghost before = self@;
        let id = WindowId(self.next_window_id);
        self.next_window_id += 1;
        proof {
            assert forall|slot: Slot| #[trigger] slot_id(self@, slot) == slot_id(before, slot) by {}
        }
        id
    }

    /// The surface of the window, popup or layer surface with the given id, if
    /// mapped.
    pub fn surface_for(&self, id: WindowId) -> (r: Option<u64>)
        requires
            self.wf(),
        ensures
            match r {
                Some(surface) => owns_id(self@, surface, id),
                None => forall|surface: u64| !owns_id(self@, surface, id),
            },
    {
        let n = self.windows.len();
        for i in 0..n
            invariant
                n == self.windows.seq().len(),
                self.wf(),
                forall|k: int| 0 <= k < i ==> (#[trigger] self.windows.seq()[k]).1.id != id,
        {
            if self.windows.value_at(i).id == id {
                proof {
                    lemma_table_entry(&self.windows, i as int);
                }
                return Some(self.windows.key_at(i));
            }
        }
        let n = self.popups.len();
        for i in 0..n
            invariant
                n == self.popups.seq().len(),
                self.wf(),
                forall|k: int| 0 <= k < i ==> (#[trigger] self.popups.seq()[k]).1.id != id,
        {
            if self.popups.value_at(i).id == id {
                proof {
                    lemma_table_entry(&self.popups, i as int);
                }
                return Some(self.popups.key_at(i));
            }
        }
        let n = self.layer_surfaces.len();
        for i in 0..n
            invariant
                n == self.layer_surfaces.seq().len(),
                self.wf(),
                forall|k: int| 0 <= k < i ==> (#[trigger] self.layer_surfaces.seq()[k]).1.id != id,
        {
            if self.layer_surfaces.value_at(i).id == id {
                proof {
                    lemma_table_entry(&self.layer_surfaces, i as int);
                }
                return Some(self.layer_surfaces.key_at(i));
            }
        }
        proof {
            assert forall|surface: u64| !owns_id(self@, surface, id) by {
                if self.windows@.contains_key(surface) {
                    let s = self.windows.seq();
                    assert(has_key(s, surface));
                    lemma_entry(s, index_of(s, surface));
                }
                if self.popups@.contains_key(surface) {
                    let s = self.popups.seq();
                    assert(has_key(s, surface));
                    lemma_entry(s, index_of(s, surface));
                }
                if self.layer_surfaces@.contains_key(surface) {
                    let s = self.layer_surfaces.seq();
                    assert(has_key(s, surface));
                    lemma_entry(s, index_of(s, surface));
                }
            }
        }
        None
    }

    /// The surface of the toplevel window with the given id, if mapped.
    pub fn window_surface(&self, id: WindowId) -> (r: Option<u64>)
        requires
            self.wf(),
        ensures
            match r {
                Some(surface) => slot_id(self@, Slot::Window(surface)) == Some(id),
                None => forall|surface: u64|
                    slot_id(self@, Slot::Window(surface)) != Some(id),
            },
    {
        let n = self.windows.len();
        for i in 0..n
            invariant
                n == self.windows.seq().len(),
                self.wf(),
                forall|k: int| 0 <= k < i ==> (#[trigger] self.windows.seq()[k]).1.id != id,
        {
            if self.windows.value_at(i).id == id {
                proof {
                    lemma_table_entry(&self.windows, i as int);
                }
                return Some(self.windows.key_at(i));
            }
        }
        proof {
            assert forall|surface: u64| slot_id(self@, Slot::Window(surface)) != Some(id) by {
                if self.windows@.contains_key(surface) {
                    let s = self.windows.seq();
                    assert(has_key(s, surface));
                    lemma_entry(s, index_of(s, surface));
                }
            }
        }
        None
    }

    /// The window/popup id owning a surface (to resolve a popup's parent).
    pub fn id_of_surface(&self, surface: u64) -> (r: Option<WindowId>)
        requires
            self.wf(),
        ensures
            r == owner_id(self@, surface),
    {
        match self.windows.get(surface) {
            Some(e) => Some(e.id),
            None => match self.popups.get(surface) {
                Some(e) => Some(e.id),
                None => None,
            },
        }
    }

    /// Track a new toplevel window, on the active workspace. Returns the event
    /// for the shell.
    ///
    /// The client is assumed to draw its own decorations unless it negotiates
    /// server-side ones. This avoids double title bars on clients that always
    /// draw their own but don't speak the decoration protocol.
    pub fn new_toplevel<F>(&mut self, surface: u64) -> (r: Event<F>)
        requires
            old(self).wf(),
            old(self).next_window_id < u64::MAX,
        ensures
            final(self).wf(),
            final(self)@ == with_toplevel(old(self)@, surface),
            r == Event::<F>::WindowAdded(WindowId(old(self).next_window_id)),
    {
        let ghost before = self@;
        let id = self.allocate_window_id();
        self.workspaces.add_window(id);
        self.windows.insert(
            surface,
            WindowEntry { id, decorated: false, geometry_offset: (0, 0) },
        );
        proof {
            assert(self@ =~= with_toplevel(before, surface));
            assert forall|b: Slot| b != Slot::Window(surface) implies #[trigger] slot_id(self@, b)
                == slot_id(before, b) by {}
            lemma_new_slot(before, self@, Slot::Window(surface));
            lemma_pushed(before, surface);
        }
        Event::WindowAdded(id)
    }

    /// Forget a toplevel window. Returns the event for the shell.
    pub fn toplevel_destroyed<F>(&mut self, surface: u64) -> (r: Option<Event<F>>)
        requires
            old(self).wf(),
        ensures
            final(self).wf(),
            final(self)@ == without_toplevel(old(self)@, surface),
            r == if old(self)@.windows.contains_key(surface) {
                Some(Event::<F>::WindowRemoved(old(self)@.windows[surface].id))
            } else {
                None
            },
    {
        let ghost before = self@;
        match self.windows.remove(surface) {
            Some(entry) => {
                self.workspaces.remove_window(entry.id);
                proof {
                    assert(self@ =~= without_toplevel(before, surface));
                    lemma_fewer_slots(before, self@);
                    assert forall|i: int, id: WindowId|
                        0 <= i < self@.lists.len() && #[trigger] self@.lists[i].contains(
                            id,
                        ) implies id.0 < self@.next_window_id by {
                        lemma_without(before.lists[i], entry.id);
                        assert(before.lists[i].contains(id));
                    }
                }
                Some(Event::WindowRemoved(entry.id))
            },
            None => {
                proof {
                    assert(self@ =~= before);
                }
                None
            },
        }
    }

    /// Track a new popup of a parent surface, whose client asked for a geometry.
    /// Returns its id.
    pub fn new_popup(&mut self, surface: u64, parent: Option<u64>, geometry: Geometry) -> (r:
        WindowId)
        requires
            old(self).wf(),
            old(self).next_window_id < u64::MAX,
        ensures
            final(self).wf(),
            final(self)@ == with_popup(old(self)@, surface, parent, (geometry.x, geometry.y)),
            r == WindowId(old(self).next_window_id),
    {
        let ghost before = self@;
        let offset = (geometry.x, geometry.y);
        let parent_id = match parent {
            Some(p) => self.id_of_surface(p),
            None => None,
        };
        let id = self.allocate_window_id();
        self.popups.insert(surface, PopupEntry { id, parent_id, offset });
        proof {
            assert(self@ =~= with_popup(before, surface, parent, offset));
            assert forall|b: Slot| b != Slot::Popup(surface) implies #[trigger] slot_id(self@, b)
                == slot_id(before, b) by {}
            lemma_new_slot(before, self@, Slot::Popup(surface));
        }
        id
    }

    /// Forget a popup. Returns the event for the shell.
    pub fn popup_destroyed<F>(&mut self, surface: u64) -> (r: Option<Event<F>>)
        requires
            old(self).wf(),
        ensures
            final(self).wf(),
            final(self)@ == (StateView {
                popups: old(self)@.popups.remove(surface),
                ..old(self)@
            }),
            r == if old(self)@.popups.contains_key(surface) {
                Some(Event::<F>::PopupRemoved(old(self)@.popups[surface].id))
            } else {
                None
            },
    {
        let ghost before = self@;
        let entry = self.popups.remove(surface);
        proof {
            assert(self@ =~= StateView { popups: before.popups.remove(surface), ..before });
            lemma_fewer_slots(before, self@);
        }
        match entry {
            Some(e) => Some(Event::PopupRemoved(e.id)),
            None => None,
        }
    }

    /// A client asked to be moved. The shell owns window positions, so it drives
    /// the move; returns the event for it.
    pub fn move_request<F>(&self, surface: u64) -> (r: Option<Event<F>>)
        requires
            self.wf(),
        ensures
            r == if self@.windows.contains_key(surface) {
                Some(Event::<F>::WindowMoveRequested { id: self@.windows[surface].id })
            } else {
                None
            },
    {
        match self.windows.get(surface) {
            Some(e) => Some(Event::WindowMoveRequested { id: e.id }),
            None => None,
        }
    }

    /// A client asked to be (un)maximized. The shell owns geometry, so it picks
    /// the work area; returns the event for it.
    pub fn maximize_request<F>(&self, surface: u64, maximized: bool) -> (r: Option<Event<F>>)
        requires
            self.wf(),
        ensures
            r == if self@.windows.contains_key(surface) {
                Some(
                    Event::<F>::WindowMaximizeRequested {
                        id: self@.windows[surface].id,
                        maximized,
                    },
                )
            } else {
                None
            },
    {
        match self.windows.get(surface) {
            Some(e) => Some(Event::WindowMaximizeRequested { id: e.id, maximized }),
            None => None,
        }
    }

    /// Apply a decoration mode to a toplevel window: record whether decorations
    /// are drawn for it. Returns the event for the shell.
    pub fn set_decoration_mode<F>(&mut self, surface: u64, mode: DecorationMode) -> (r: Option<
        Event<F>,
    >)
        requires
            old(self).wf(),
        ensures
            final(self).wf(),
            final(self)@ == with_decoration(old(self)@, surface, mode is ServerSide),
            r == if old(self)@.windows.contains_key(surface) {
                Some(
                    Event::<F>::WindowDecorated {
                        id: old(self)@.windows[surface].id,
                        decorated: mode is ServerSide,
                    },
                )
            } else {
                None
            },
    {
        let ghost before = self@;
        let decorated = mode == DecorationMode::ServerSide;
        let entry = match self.windows.get(surface) {
            Some(e) => *e,
            None => return None,
        };
        self.windows.insert(surface, WindowEntry { decorated, ..entry });
        proof {
            assert(self@ =~= with_decoration(before, surface, decorated));
            assert forall|b: Slot| #[trigger] slot_id(self@, b) == slot_id(before, b) by {}
            lemma_fewer_slots(before, self@);
        }
        Some(Event::WindowDecorated { id: entry.id, decorated })
    }

    /// A client set up decorations, or dropped its preference: server-side ones
    /// are drawn. Clients that prefer their own follow up with a request.
    pub fn default_decoration<F>(&mut self, surface: u64) -> (r: Option<Event<F>>)
        requires
            old(self).wf(),
        ensures
            final(self).wf(),
            final(self)@ == with_decoration(old(self)@, surface, true),
            r == if old(self)@.windows.contains_key(surface) {
                Some(
                    Event::<F>::WindowDecorated {
                        id: old(self)@.windows[surface].id,
                        decorated: true,
                    },
                )
            } else {
                None
            },
    {
        self.set_decoration_mode(surface, DecorationMode::ServerSide)
    }

    /// Track a new layer surface that asked for a size. Returns its id and the
    /// size to configure it with.
    pub fn new_layer_surface(&mut self, surface: u64, layer: Layer, desired: (i32, i32)) -> (r: (
        WindowId,
        (i32, i32),
    ))
        requires
            old(self).wf(),
            old(self).next_window_id < u64::MAX,
        ensures
            final(self).wf(),
            final(self)@ == with_layer(old(self)@, surface, layer),
            r.0 == WindowId(old(self).next_window_id),
            r.1 == filled(desired, old(self)@.output),
    {
        let ghost before = self@;
        let size = layer_size(desired, self.current_output_size);
        let id = self.allocate_window_id();
        self.layer_surfaces.insert(surface, LayerEntry { id, layer });
        proof {
            assert(self@ =~= with_layer(before, surface, layer));
            assert forall|b: Slot| b != Slot::Layer(surface) implies #[trigger] slot_id(self@, b)
                == slot_id(before, b) by {}
            lemma_new_slot(before, self@, Slot::Layer(surface));
        }
        (id, size)
    }

    /// Forget a layer surface. Returns the event for the shell.
    pub fn layer_destroyed<F>(&mut self, surface: u64) -> (r: Option<Event<F>>)
        requires
            old(self).wf(),
        ensures
            final(self).wf(),
            final(self)@ == (StateView {
                layers: old(self)@.layers.remove(surface),
                ..old(self)@
            }),
            r == if old(self)@.layers.contains_key(surface) {
                Some(Event::<F>::LayerRemoved(old(self)@.layers[surface].id))
            } else {
                None
            },
    {
        let ghost before = self@;
        let entry = self.layer_surfaces.remove(surface);
        proof {
            assert(self@ =~= StateView { layers: before.layers.remove(surface), ..before });
            lemma_fewer_slots(before, self@);
        }
        match entry {
            Some(e) => Some(Event::LayerRemoved(e.id)),
            None => None,
        }
    }

    /// Resize the primary output to `width`x`height` (logical px). `desired` is
    /// what each layer surface asked for. Returns the size to advertise and the
    /// layer surfaces to configure anew, those that span the output (a 0 in a
    /// dimension means "fill"), unless the size is the one it was.
    pub fn resize_output(
        &mut self,
        width: i32,
        height: i32,
        desired: &Vec<(u64, (i32, i32))>,
    ) -> (r: Option<((i32, i32), Vec<(u64, (i32, i32))>)>)
        requires
            old(self).wf(),
        ensures
            final(self).wf(),
            ({
                let size = (at_least_one(width), at_least_one(height));
                &&& final(self)@ == (StateView { output: size, ..old(self)@ })
                &&& match r {
                    Some((advertised, configured)) => {
                        &&& size != old(self)@.output
                        &&& advertised == size
                        &&& configured@ == refilled(desired@, size)
                    },
                    None => size == old(self)@.output,
                }
            }),
    {
        let ghost before = self@;
        let w: i32 = if width < 1 {
            1
        } else {
            width
        };
        let h: i32 = if height < 1 {
            1
        } else {
            height
        };
        if self.current_output_size.0 == w && self.current_output_size.1 == h {
            assert(self@ =~= StateView { output: (w, h), ..before });
            return None;
        }
        self.current_output_size = (w, h);
        proof {
            assert(self@ =~= StateView { output: (w, h), ..before });
            assert forall|b: Slot| #[trigger] slot_id(self@, b) == slot_id(before, b) by {}
        }
        Some(((w, h), refill_layers(desired, (w, h))))
    }
}

// ---------------------------------------------------------------------------
// Laws

/// An id belongs to one surface, in one role.
pub proof fn law_ids_are_unique(v: StateView, a: Slot, b: Slot, id: WindowId)
    requires
        state_wf(v),
        slot_id(v, a) == Some(id),
        slot_id(v, b) == Some(id),
    ensures
        a == b,
{
}

/// A window that was added and removed again leaves the other surfaces as they
/// were.
pub proof fn law_removing_undoes_adding(v: StateView, surface: u64)
    requires
        state_wf(v),
        !v.windows.contains_key(surface),
    ensures
        without_toplevel(with_toplevel(v, surface), surface) == (StateView {
            next_window_id: (v.next_window_id + 1) as u64,
            ..v
        }),
{
    let id = WindowId(v.next_window_id);
    let mid = with_toplevel(v, surface);
    let after = without_toplevel(mid, surface);
    assert(after.windows =~= v.windows);
    assert forall|i: int| 0 <= i < v.lists.len() implies #[trigger] after.lists[i]
        == v.lists[i] by {
        lemma_without(v.lists[i], id);
        if i == v.active {
            let pushed = v.lists[i].push(id);
            assert(pushed.drop_last() =~= v.lists[i]);
            assert(without(pushed, id) == v.lists[i]);
        }
    }
    assert(after.lists =~= v.lists);
}

/// A new window gets the next id, stands on the active workspace and nowhere else,
/// draws its own decorations and begins at its buffer's corner. Nothing else
/// changes.
pub proof fn law_new_windows(v: StateView, surface: u64, i: int)
    requires
        state_wf(v),
        v.next_window_id < u64::MAX,
        0 <= i < v.lists.len(),
    ensures
        ({
            let after = with_toplevel(v, surface);
            let id = WindowId(v.next_window_id);
            &&& after.windows.contains_key(surface)
            &&& after.windows[surface].id == id
            &&& !after.windows[surface].decorated
            &&& after.windows[surface].geometry_offset == (0i32, 0i32)
            &&& after.next_window_id == v.next_window_id + 1
            &&& after.lists[i].contains(id) <==> i == v.active
            &&& forall|other: WindowId|
                other != id ==> (after.lists[i].contains(other) <==> v.lists[i].contains(other))
            &&& forall|s: u64|
                s != surface ==> (after.windows.contains_key(s) <==> v.windows.contains_key(s))
                    && after.windows[s] == v.windows[s]
            &&& after.popups == v.popups && after.layers == v.layers && after.x11 == v.x11
            &&& after.pictures == v.pictures && after.output == v.output && after.active == v.active
        }),
{
    let after = with_toplevel(v, surface);
    let id = WindowId(v.next_window_id);
    if v.lists[i].contains(id) {
        assert(id.0 < v.next_window_id);
    }
    if i == v.active {
        let list = v.lists[i];
        assert(after.lists[i] == list.push(id));
        assert(after.lists[i][list.len() as int] == id);
        assert forall|other: WindowId| other != id implies (after.lists[i].contains(other)
            <==> list.contains(other)) by {
            if list.contains(other) {
                let k = choose|k: int| 0 <= k < list.len() && list[k] == other;
                assert(after.lists[i][k] == other);
            }
            if after.lists[i].contains(other) {
                let k = choose|k: int| 0 <= k < after.lists[i].len() && after.lists[i][k] == other;
                assert(list[k] == other);
            }
        }
    }
}

/// A window that is gone is on no workspace; all other windows, and all other
/// surfaces, are as they were.
pub proof fn law_gone_windows(v: StateView, surface: u64, i: int)
    requires
        state_wf(v),
        0 <= i < v.lists.len(),
        v.windows.contains_key(surface),
    ensures
        ({
            let after = without_toplevel(v, surface);
            let id = v.windows[surface].id;
            &&& !after.windows.contains_key(surface)
            &&& !after.lists[i].contains(id)
            &&& forall|other: WindowId|
                other != id ==> (after.lists[i].contains(other) <==> v.lists[i].contains(other))
            &&& forall|s: u64|
                s != surface ==> (after.windows.contains_key(s) <==> v.windows.contains_key(s))
                    && after.windows[s] == v.windows[s]
            &&& after.popups == v.popups && after.layers == v.layers && after.x11 == v.x11
            &&& after.next_window_id == v.next_window_id
        }),
{
    lemma_without(v.lists[i], v.windows[surface].id);
}

/// A new popup and a new layer surface get the next id. A popup remembers the
/// window, or else the popup, that its parent is, and its offset from it; a layer
/// surface remembers its layer.
pub proof fn law_new_popups_and_layers(
    v: StateView,
    surface: u64,
    parent: Option<u64>,
    offset: (i32, i32),
    layer: Layer,
)
    requires
        state_wf(v),
        v.next_window_id < u64::MAX,
    ensures
        ({
            let after = with_popup(v, surface, parent, offset);
            let p = after.popups[surface];
            &&& after.popups.contains_key(surface)
            &&& p.id.0 == v.next_window_id && p.offset == offset
            &&& parent is None ==> p.parent_id is None
            &&& parent matches Some(s) ==> {
                &&& v.windows.contains_key(s) ==> p.parent_id == Some(v.windows[s].id)
                &&& !v.windows.contains_key(s) && v.popups.contains_key(s) ==> p.parent_id == Some(
                    v.popups[s].id,
                )
                &&& !v.windows.contains_key(s) && !v.popups.contains_key(s) ==> p.parent_id is None
            }
            &&& after.next_window_id == v.next_window_id + 1
            &&& after.windows == v.windows && after.layers == v.layers && after.lists == v.lists
        }),
        ({
            let after = with_layer(v, surface, layer);
            &&& after.layers.contains_key(surface)
            &&& after.layers[surface].id.0 == v.next_window_id
            &&& after.layers[surface].layer == layer
            &&& after.next_window_id == v.next_window_id + 1
            &&& after.windows == v.windows && after.popups == v.popups && after.lists == v.lists
        }),
{
}

/// Decorations change on the window they are decided for and on no other, and
/// nothing else of it changes. Sizes are one pixel at least.
pub proof fn law_decorations_and_sizes(v: StateView, surface: u64, decorated: bool, s: u64, n: i32)
    ensures
        ({
            let after = with_decoration(v, surface, decorated);
            &&& after.windows.contains_key(s) <==> v.windows.contains_key(s)
            &&& v.windows.contains_key(s) ==> {
                &&& after.windows[s].id == v.windows[s].id
                &&& after.windows[s].geometry_offset == v.windows[s].geometry_offset
                &&& after.windows[s].decorated == (if s == surface {
                    decorated
                } else {
                    v.windows[s].decorated
                })
            }
            &&& after == (StateView { windows: after.windows, ..v })
        }),
        at_least_one(n) >= 1,
        n >= 1 ==> at_least_one(n) == n,
        n < 1 ==> at_least_one(n) == 1,
        WORKSPACE_COUNT == 4,
{
}

} // verus!
