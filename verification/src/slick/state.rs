//! The windows that the compositor tracks.

use vstd::prelude::*;

use crate::shell::model::WindowId;
use crate::shell::workspace::{all_without, Workspaces};
use crate::slick::event::Event;
use crate::table::Table;
use crate::wayland::composite::BufferChange;
use crate::wayland::state::{DecorationMode, WORKSPACE_COUNT};

verus! {

/// A tracked toplevel window.
#[derive(Debug, Clone, Copy)]
pub struct WindowEntry {
    pub id: WindowId,
    /// Whether server-side decorations are drawn for this window.
    pub decorated: bool,
}

/// What the compositor knows of its clients' windows. A surface is known by the
/// number of its protocol object.
#[derive(Debug)]
pub struct SlickState {
    pub workspaces: Workspaces,
    pub next_window_id: u64,
    pub windows: Table<WindowEntry>,
}

/// A [`SlickState`] as a mathematical value.
#[verifier::ext_equal]
pub struct StateView {
    pub lists: Seq<Seq<WindowId>>,
    pub active: int,
    pub next_window_id: u64,
    pub windows: Map<u64, WindowEntry>,
}

impl View for SlickState {
    type V = StateView;

    open spec fn view(&self) -> StateView {
        StateView {
            lists: self.workspaces.lists(),
            active: self.workspaces.active_index(),
            next_window_id: self.next_window_id,
            windows: self.windows@,
        }
    }
}

/// Every id was handed out, and no two windows have the same one.
pub open spec fn ids_wf(v: StateView) -> bool {
    &&& forall|s: u64|
        #[trigger] v.windows.contains_key(s) ==> v.windows[s].id.0 < v.next_window_id
    &&& forall|s: u64, t: u64|
        #[trigger] v.windows.contains_key(s) && #[trigger] v.windows.contains_key(t)
            && v.windows[s].id == v.windows[t].id ==> s == t
}

/// Fewer windows with the ids they had keep the ids sound.
proof fn lemma_fewer_windows(v: StateView, after: StateView)
    requires
        ids_wf(v),
        after.next_window_id == v.next_window_id,
        forall|s: u64| #[trigger]
            after.windows.contains_key(s) ==> v.windows.contains_key(s) && after.windows[s].id
                == v.windows[s].id,
    ensures
        ids_wf(after),
{
    assert forall|s: u64, t: u64|
        #[trigger] after.windows.contains_key(s) && #[trigger] after.windows.contains_key(t)
            && after.windows[s].id == after.windows[t].id implies s == t by {
        assert(v.windows.contains_key(s) && v.windows.contains_key(t));
    }
}

impl SlickState {
    /// The table is sound and so are the ids.
    pub open spec fn wf(&self) -> bool {
        self.workspaces.wf() && self.windows.wf() && ids_wf(self@)
    }

    /// No windows.
    pub fn new() -> (r: Self)
        ensures
            r.wf(),
            r@.next_window_id == 0,
            r@.windows == Map::<u64, WindowEntry>::empty(),
            r@.lists.len() == WORKSPACE_COUNT,
            forall|i: int| 0 <= i < r@.lists.len() ==> (#[trigger] r@.lists[i]).len() == 0,
            r@.active == 0,
    {
        SlickState {
            workspaces: Workspaces::new(WORKSPACE_COUNT),
            next_window_id: 0,
            windows: Table::new(),
        }
    }

    /// Allocate the next stable window id.
    pub fn allocate_window_id(&mut self) -> (r: WindowId)
        requires
            old(self).wf(),
            old(self).next_window_id < u64::MAX,
        ensures
            final(self).wf(),
            r == WindowId(old(self).next_window_id),
            final(self)@ == (StateView {
                next_window_id: (old(self).next_window_id + 1) as u64,
                ..old(self)@
            }),
    {
        let id = WindowId(self.next_window_id);
        self.next_window_id += 1;
        id
    }

    /// Track a new toplevel window, on the active workspace, with decorations.
    /// Returns the event for the shell.
    pub fn new_toplevel(&mut self, surface: u64) -> (r: Event)
        requires
            old(self).wf(),
            old(self).next_window_id < u64::MAX,
        ensures
            final(self).wf(),
            r == Event::WindowAdded(WindowId(old(self).next_window_id)),
            ({
                let v = old(self)@;
                let id = WindowId(v.next_window_id);
                final(self)@ == (StateView {
                    lists: v.lists.update(v.active, v.lists[v.active].push(id)),
                    next_window_id: (v.next_window_id + 1) as u64,
                    windows: v.windows.insert(surface, WindowEntry { id, decorated: true }),
                    ..v
                })
            }),
    {
        let id = self.allocate_window_id();
        self.workspaces.add_window(id);
        self.windows.insert(surface, WindowEntry { id, decorated: true });
        Event::WindowAdded(id)
    }

    /// Forget a toplevel window. Returns the event for the shell.
    pub fn toplevel_destroyed(&mut self, surface: u64) -> (r: Option<Event>)
        requires
            old(self).wf(),
        ensures
            final(self).wf(),
            ({
                let v = old(self)@;
                if v.windows.contains_key(surface) {
                    let id = v.windows[surface].id;
                    &&& r == Some(Event::WindowRemoved(id))
                    &&& final(self)@ == (StateView {
                        lists: all_without(v.lists, id),
                        windows: v.windows.remove(surface),
                        ..v
                    })
                } else {
                    r is None && final(self)@ == v
                }
            }),
    {
        let ghost before = self@;
        match self.windows.remove(surface) {
            Some(entry) => {
                self.workspaces.remove_window(entry.id);
                proof {
                    lemma_fewer_windows(before, self@);
                }
                Some(Event::WindowRemoved(entry.id))
            },
            None => {
                assert(self@ =~= before);
                None
            },
        }
    }

    /// Apply a decoration mode to a toplevel window. Returns the event for the
    /// shell.
    pub fn set_decoration_mode(&mut self, surface: u64, mode: DecorationMode) -> (r: Option<Event>)
        requires
            old(self).wf(),
        ensures
            final(self).wf(),
            ({
                let v = old(self)@;
                let decorated = mode is ServerSide;
                if v.windows.contains_key(surface) {
                    let id = v.windows[surface].id;
                    &&& r == Some(Event::WindowDecorated { id, decorated })
                    &&& final(self)@ == (StateView {
                        windows: v.windows.insert(surface, WindowEntry { id, decorated }),
                        ..v
                    })
                } else {
                    r is None && final(self)@ == v
                }
            }),
    {
        let ghost before = self@;
        let decorated = mode == DecorationMode::ServerSide;
        let id = match self.windows.get(surface) {
            Some(e) => e.id,
            None => return None,
        };
        self.windows.insert(surface, WindowEntry { id, decorated });
        proof {
            lemma_fewer_windows(before, self@);
        }
        Some(Event::WindowDecorated { id, decorated })
    }

    /// A surface was committed to. Returns the event for the shell, if it is a
    /// window and a new buffer was attached that could be read.
    pub fn commit(&self, surface: u64, change: BufferChange, title: String) -> (r: Option<Event>)
        requires
            self.wf(),
        ensures
            match change {
                BufferChange::New(Some(p)) => r == if self@.windows.contains_key(surface) {
                    Some(
                        Event::WindowBuffer {
                            id: self@.windows[surface].id,
                            width: p.width,
                            height: p.height,
                            pixels: p.pixels,
                            title,
                            decorated: self@.windows[surface].decorated,
                        },
                    )
                } else {
                    None
                },
                _ => r is None,
            },
    {
        let entry = match self.windows.get(surface) {
            Some(e) => *e,
            None => return None,
        };
        match change {
            BufferChange::New(Some(p)) => Some(
                Event::WindowBuffer {
                    id: entry.id,
                    width: p.width,
                    height: p.height,
                    pixels: p.pixels,
                    title,
                    decorated: entry.decorated,
                },
            ),
            _ => None,
        }
    }
}

} // verus!
