//! Stacking, focus and geometry of the windows on the desktop.

use vstd::prelude::*;

use crate::desktop::{
    handled, layer_ids, layer_row, lemma_push_distinct, lemma_remove_distinct, lemma_row, popup_ids,
    popup_row, redraws, row, shell_wf, titlebar, titlebar_height, window_ids, window_row, Frame,
    LayerTile, PopupTile, Rect, Shell, ShellView, TileRow, WindowTile,
};
use crate::table::{distinct, to_map};
use crate::wayland::event::Event;

verus! {

// ---------------------------------------------------------------------------
// Areas

/// The screen edge that the panel is docked to.
#[derive(Debug, Clone, Copy, PartialEq, Eq, Structural)]
pub enum PanelEdge {
    Left,
    Top,
    Bottom,
    Right,
}

/// The edge with a number: 1 is left, 2 is top, 3 is bottom, and any other
/// number is right.
pub open spec fn edge_of(n: int) -> PanelEdge {
    if n == 1 {
        PanelEdge::Left
    } else if n == 2 {
        PanelEdge::Top
    } else if n == 3 {
        PanelEdge::Bottom
    } else {
        PanelEdge::Right
    }
}

/// The screen edge that a panel setting stands for. The work area is the screen
/// minus the panel on that edge.
pub fn panel_edge(n: i32) -> (r: PanelEdge)
    ensures
        r == edge_of(n as int),
{
    match n {
        1 => PanelEdge::Left,
        2 => PanelEdge::Top,
        3 => PanelEdge::Bottom,
        _ => PanelEdge::Right,
    }
}

/// Which half of the work area to snap a window to.
#[derive(Debug, Clone, Copy, PartialEq, Eq, Structural)]
pub enum Snap {
    Left,
    Right,
    Up,
    Down,
}

/// The part of the work area that a window is to fill.
#[derive(Debug, Clone, Copy, PartialEq, Eq, Structural)]
pub struct Area {
    /// Half of the width, not all of it.
    pub half_width: bool,
    /// Half of the height, not all of it.
    pub half_height: bool,
    /// The half on the right.
    pub right: bool,
    /// The half at the bottom.
    pub bottom: bool,
    /// The height that a title bar takes from the window.
    pub titlebar: u32,
}

/// The half that a snap stands for.
pub open spec fn snapped_area(snap: Snap, decorated: bool) -> Area {
    Area {
        half_width: snap is Left || snap is Right,
        half_height: snap is Up || snap is Down,
        right: snap is Right,
        bottom: snap is Down,
        titlebar: titlebar_height(decorated),
    }
}

/// The whole work area.
pub open spec fn full_area(decorated: bool) -> Area {
    Area {
        half_width: false,
        half_height: false,
        right: false,
        bottom: false,
        titlebar: titlebar_height(decorated),
    }
}

// ---------------------------------------------------------------------------
// What the operations do

/// A window on top of the stack, from row `i`.
pub open spec fn to_top<C>(windows: Seq<WindowTile<C>>, i: int) -> Seq<WindowTile<C>> {
    windows.remove(i).push(windows[i])
}

/// Exactly the window `id` marked as focused, and not minimized.
pub open spec fn marked<C>(windows: Seq<WindowTile<C>>, id: u64) -> Seq<WindowTile<C>> {
    Seq::new(
        windows.len(),
        |k: int|
            WindowTile {
                focused: windows[k].id == id,
                minimized: windows[k].minimized && windows[k].id != id,
                ..windows[k]
            },
    )
}

/// The desktop after a window was raised and focused.
pub open spec fn raised<C>(v: ShellView<C>, id: u64) -> ShellView<C> {
    ShellView {
        windows: marked(
            match window_row(v, id) {
                Some(i) => to_top(v.windows, i),
                None => v.windows,
            },
            id,
        ),
        focused: Some(id),
        ..v
    }
}

/// The windows on a workspace that are not minimized.
pub open spec fn candidates<C>(windows: Seq<WindowTile<C>>, workspace: i32) -> Seq<u64>
    decreases windows.len(),
{
    if windows.len() == 0 {
        seq![]
    } else {
        let rest = candidates(windows.drop_last(), workspace);
        let t = windows.last();
        if t.workspace == workspace && !t.minimized {
            rest.push(t.id)
        } else {
            rest
        }
    }
}

/// The window after or before the focused one, round the list.
pub open spec fn next_in(ids: Seq<u64>, focused: Option<u64>, forward: bool) -> Option<u64> {
    if ids.len() == 0 {
        None
    } else {
        let n = ids.len() as int;
        let current = match focused {
            Some(id) => row(ids, id),
            None => None,
        };
        let next = match current {
            Some(i) => if forward {
                (i + 1) % n
            } else {
                (i + n - 1) % n
            },
            None => 0,
        };
        Some(ids[next])
    }
}

/// The row of the focused window.
pub open spec fn focused_row<C>(v: ShellView<C>) -> Option<int> {
    match v.focused {
        Some(id) => window_row(v, id),
        None => None,
    }
}

/// The desktop after the focused window was snapped into a rectangle.
pub open spec fn snapped<C>(v: ShellView<C>, rect: Rect<C>) -> ShellView<C> {
    match focused_row(v) {
        Some(i) => ShellView {
            windows: v.windows.update(i, WindowTile { rect, maximized: false, ..v.windows[i] }),
            restore: v.restore.remove(v.windows[i].id),
            ..v
        },
        None => v,
    }
}

/// Whether a request to (un)maximize a window changes anything.
pub open spec fn changes_maximized<C>(v: ShellView<C>, id: u64, maximized: bool) -> bool {
    match window_row(v, id) {
        Some(i) => v.windows[i].maximized != maximized,
        None => false,
    }
}

/// The rectangle of a window after it was maximized into `area` or restored.
pub open spec fn maximized_rect<C>(
    v: ShellView<C>,
    id: u64,
    maximized: bool,
    area: Rect<C>,
) -> Rect<C> {
    if maximized {
        area
    } else if v.restore.contains_key(id) {
        v.restore[id]
    } else {
        v.windows[window_row(v, id).unwrap()].rect
    }
}

/// The desktop after a window was maximized into `area` or restored.
pub open spec fn with_maximized<C>(
    v: ShellView<C>,
    id: u64,
    maximized: bool,
    area: Rect<C>,
) -> ShellView<C> {
    if changes_maximized(v, id, maximized) {
        let i = window_row(v, id).unwrap();
        ShellView {
            windows: v.windows.update(
                i,
                WindowTile {
                    rect: maximized_rect(v, id, maximized, area),
                    maximized,
                    ..v.windows[i]
                },
            ),
            restore: if maximized {
                v.restore.insert(id, v.windows[i].rect)
            } else {
                v.restore.remove(id)
            },
            ..v
        }
    } else {
        v
    }
}

/// The desktop after a window was minimized.
pub open spec fn minimized<C>(v: ShellView<C>, id: u64) -> ShellView<C> {
    ShellView {
        windows: match window_row(v, id) {
            Some(i) => v.windows.update(
                i,
                WindowTile { minimized: true, focused: false, ..v.windows[i] },
            ),
            None => v.windows,
        },
        focused: if v.focused == Some(id) {
            None
        } else {
            v.focused
        },
        ..v
    }
}

/// The desktop after the focused window went to a workspace.
pub open spec fn sent_to_workspace<C>(v: ShellView<C>, workspace: i32) -> ShellView<C> {
    match focused_row(v) {
        Some(i) => ShellView {
            windows: v.windows.update(i, WindowTile { workspace, ..v.windows[i] }),
            ..v
        },
        None => v,
    }
}

/// The desktop after a window was moved to a point.
pub open spec fn moved_to<C>(v: ShellView<C>, id: u64, x: C, y: C) -> ShellView<C> {
    match window_row(v, id) {
        Some(i) => ShellView {
            windows: v.windows.update(
                i,
                WindowTile { rect: Rect { x, y, ..v.windows[i].rect }, ..v.windows[i] },
            ),
            ..v
        },
        None => v,
    }
}

/// The tile that shows the frames of a surface: a window before a popup before
/// a layer surface.
pub open spec fn tile_row<C>(v: ShellView<C>, id: u64) -> Option<TileRow> {
    match window_row(v, id) {
        Some(i) => Some(TileRow::Window(i as usize)),
        None => match popup_row(v, id) {
            Some(i) => Some(TileRow::Popup(i as usize)),
            None => match layer_row(v, id) {
                Some(i) => Some(TileRow::Layer(i as usize)),
                None => None,
            },
        },
    }
}

/// The desktop after a frame of the given size was uploaded for a tile.
pub open spec fn uploaded<C>(v: ShellView<C>, id: u64, width: C, height: C) -> ShellView<C> {
    match tile_row(v, id) {
        Some(TileRow::Window(i)) => {
            let t = v.windows[i as int];
            ShellView {
                windows: v.windows.update(
                    i as int,
                    WindowTile { rect: Rect { width, height, ..t.rect }, ..t },
                ),
                ..v
            }
        },
        Some(TileRow::Popup(i)) => {
            let t = v.popups[i as int];
            ShellView {
                popups: v.popups.update(
                    i as int,
                    PopupTile { rect: Rect { width, height, ..t.rect }, ..t },
                ),
                ..v
            }
        },
        Some(TileRow::Layer(i)) => {
            let t = v.layers[i as int];
            ShellView {
                layers: v.layers.update(
                    i as int,
                    LayerTile { rect: Rect { width, height, ..t.rect }, ..t },
                ),
                ..v
            }
        },
        None => v,
    }
}

// ---------------------------------------------------------------------------
// Keeping the desktop sound

/// Windows whose ids and focus marks are as before are sound.
proof fn lemma_same_marks<C>(v: ShellView<C>, after: ShellView<C>)
    requires
        shell_wf(v),
        after.windows.len() == v.windows.len(),
        forall|i: int|
            0 <= i < v.windows.len() ==> (#[trigger] after.windows[i]).id == v.windows[i].id && (
            after.windows[i].focused ==> v.windows[i].focused),
        after.popups == v.popups,
        after.layers == v.layers,
        after.focused == v.focused,
    ensures
        shell_wf(after),
{
    assert(window_ids(after.windows) =~= window_ids(v.windows));
}

/// Bringing a window to the top keeps every window once.
proof fn lemma_to_top<C>(windows: Seq<WindowTile<C>>, i: int)
    requires
        window_ids(windows).no_duplicates(),
        0 <= i < windows.len(),
    ensures
        window_ids(to_top(windows, i)).no_duplicates(),
        window_ids(to_top(windows, i)) == window_ids(windows).remove(i).push(windows[i].id),
{
    let ids = window_ids(windows);
    lemma_remove_distinct(ids, i);
    lemma_push_distinct(ids.remove(i), ids[i]);
    assert(window_ids(to_top(windows, i)) =~= ids.remove(i).push(ids[i]));
}

/// Raising a window keeps the desktop sound.
proof fn lemma_raised_wf<C>(v: ShellView<C>, id: u64)
    requires
        shell_wf(v),
    ensures
        shell_wf(raised(v, id)),
{
    if let Some(i) = window_row(v, id) {
        lemma_to_top(v.windows, i);
        assert(window_ids(raised(v, id).windows) =~= window_ids(to_top(v.windows, i)));
    } else {
        assert(window_ids(raised(v, id).windows) =~= window_ids(v.windows));
    }
}

impl<C: Copy> Shell<C> {
    /// Raise a window to the top of the stack and mark it focused.
    pub fn raise_and_focus(&mut self, id: u64)
        requires
            old(self).wf(),
        ensures
            final(self).wf(),
            final(self)@ == raised(old(self)@, id),
    {
        let ghost before = self@;
        proof {
            lemma_raised_wf(before, id);
        }
        let found = self.find_window(id);
        self.focused = Some(id);
        if let Some(i) = found {
            let tile = self.windows.remove(i);
            self.windows.push(tile);
        }
        let ghost stacked = self.windows@;
        let count = self.windows.len();
        for k in 0..count
            invariant
                count == self.windows.len(),
                count == stacked.len(),
                forall|j: int|
                    0 <= j < count ==> (#[trigger] self.windows@[j]) == if j < k {
                        marked(stacked, id)[j]
                    } else {
                        stacked[j]
                    },
                self@ == (ShellView { windows: self.windows@, focused: Some(id), ..before }),
                self.pending == old(self).pending,
                self.restore == old(self).restore,
        {
            let want = self.windows[k].id == id;
            self.windows[k].focused = want;
            if want {
                self.windows[k].minimized = false;
            }
            assert(self.windows@[k as int] == marked(stacked, id)[k as int]);
            assert(self@ =~= ShellView { windows: self.windows@, focused: Some(id), ..before });
        }
        assert(self.windows@ =~= marked(stacked, id));
    }

    /// The windows on a workspace that are not minimized.
    fn window_candidates(&self, workspace: i32) -> (r: Vec<u64>)
        ensures
            r@ == candidates(self.windows@, workspace),
    {
        let mut ids: Vec<u64> = Vec::new();
        for i in 0..self.windows.len()
            invariant
                ids@ == candidates(self.windows@.take(i as int), workspace),
        {
            proof {
                assert(self.windows@.take(i + 1).drop_last() =~= self.windows@.take(i as int));
            }
            let t = &self.windows[i];
            if t.workspace == workspace && !t.minimized {
                ids.push(t.id);
            }
        }
        assert(self.windows@.take(self.windows@.len() as int) =~= self.windows@);
        ids
    }

    /// Focus the next/previous window on the active workspace (Alt-Tab). Returns
    /// the window to give the keyboard focus to.
    pub fn cycle_focus(&mut self, workspace: i32, forward: bool) -> (r: Option<u64>)
        requires
            old(self).wf(),
        ensures
            final(self).wf(),
            r == next_in(candidates(old(self)@.windows, workspace), old(self)@.focused, forward),
            final(self)@ == match r {
                Some(id) => raised(old(self)@, id),
                None => old(self)@,
            },
            r matches Some(id) ==> exists|j: int|
                0 <= j < old(self)@.windows.len() && (#[trigger] old(self)@.windows[j]).id == id
                    && old(self)@.windows[j].workspace == workspace
                    && !old(self)@.windows[j].minimized,
            r is None ==> forall|j: int|
                0 <= j < old(self)@.windows.len() ==> (#[trigger] old(self)@.windows[j]).workspace
                    != workspace || old(self)@.windows[j].minimized,
    {
        proof {
            law_cycling_skips_minimized_windows(self@, workspace, forward);
        }
        let ids = self.window_candidates(workspace);
        if ids.len() == 0 {
            return None;
        }
        proof {
            lemma_candidates_distinct(self.windows@, workspace);
        }
        let current = match self.focused {
            Some(f) => position(&ids, f),
            None => None,
        };
        let n = ids.len();
        let next: usize = match current {
            Some(i) => if forward {
                if i + 1 == n {
                    0
                } else {
                    i + 1
                }
            } else if i == 0 {
                n - 1
            } else {
                i - 1
            },
            None => 0,
        };
        proof {
            if let Some(i) = current {
                lemma_round(i as int, n as int);
            }
        }
        let id = ids[next];
        self.raise_and_focus(id);
        Some(id)
    }

    /// The half of the work area that a snap would put the focused window in.
    pub fn snap_area(&self, snap: Snap) -> (r: Option<Area>)
        requires
            self.wf(),
        ensures
            r == match focused_row(self@) {
                Some(i) => Some(snapped_area(snap, self@.windows[i].decorated)),
                None => None,
            },
    {
        let id = self.focused?;
        let i = self.find_window(id)?;
        let (half_width, half_height, right, bottom) = match snap {
            Snap::Left => (true, false, false, false),
            Snap::Right => (true, false, true, false),
            Snap::Up => (false, true, false, false),
            Snap::Down => (false, true, false, true),
        };
        let titlebar = titlebar(self.windows[i].decorated);
        Some(Area { half_width, half_height, right, bottom, titlebar })
    }

    /// Snap the focused window into `rect`, a half of the work area (keyboard
    /// tiling). Returns the window and the size to ask its client for.
    pub fn snap_focused(&mut self, rect: Rect<C>) -> (r: Option<(u64, Rect<C>)>)
        requires
            old(self).wf(),
        ensures
            final(self).wf(),
            final(self)@ == snapped(old(self)@, rect),
            r == match focused_row(old(self)@) {
                Some(i) => Some((old(self)@.windows[i].id, rect)),
                None => None,
            },
    {
        let ghost before = self@;
        let id = self.focused?;
        let i = self.find_window(id)?;
        self.windows[i].rect = rect;
        self.windows[i].maximized = false;
        self.restore.remove(id);
        proof {
            assert(self@ =~= snapped(before, rect));
            lemma_same_marks(before, self@);
        }
        Some((id, rect))
    }

    /// The part of the work area that a maximized window fills.
    pub fn maximize_area(&self, id: u64) -> (r: Option<Area>)
        requires
            self.wf(),
        ensures
            r == match window_row(self@, id) {
                Some(i) => Some(full_area(self@.windows[i].decorated)),
                None => None,
            },
    {
        let i = self.find_window(id)?;
        let titlebar = titlebar(self.windows[i].decorated);
        Some(
            Area { half_width: false, half_height: false, right: false, bottom: false, titlebar },
        )
    }

    /// Maximize a window into `area`, or restore it to where it was. Returns the
    /// window and the size to ask its client for, if anything changed.
    pub fn set_maximized(&mut self, id: u64, maximized: bool, area: Rect<C>) -> (r: Option<
        (u64, Rect<C>),
    >)
        requires
            old(self).wf(),
        ensures
            final(self).wf(),
            final(self)@ == with_maximized(old(self)@, id, maximized, area),
            r == if changes_maximized(old(self)@, id, maximized) {
                Some((id, maximized_rect(old(self)@, id, maximized, area)))
            } else {
                None
            },
    {
        let ghost before = self@;
        let i = self.find_window(id)?;
        if self.windows[i].maximized == maximized {
            return None;
        }
        if maximized {
            self.restore.insert(id, self.windows[i].rect);
            self.windows[i].rect = area;
        } else {
            if let Some(rect) = self.restore.remove(id) {
                self.windows[i].rect = rect;
            }
        }
        self.windows[i].maximized = maximized;
        proof {
            assert(self@ =~= with_maximized(before, id, maximized, area));
            lemma_same_marks(before, self@);
        }
        Some((id, self.windows[i].rect))
    }

    /// Maximize a window into `area` if it is not maximized, else restore it.
    pub fn toggle_maximized(&mut self, id: u64, area: Rect<C>) -> (r: Option<(u64, Rect<C>)>)
        requires
            old(self).wf(),
        ensures
            final(self).wf(),
            match window_row(old(self)@, id) {
                Some(i) => {
                    let on = !old(self)@.windows[i].maximized;
                    &&& final(self)@ == with_maximized(old(self)@, id, on, area)
                    &&& r == Some((id, maximized_rect(old(self)@, id, on, area)))
                },
                None => final(self)@ == old(self)@ && r is None,
            },
    {
        let i = self.find_window(id)?;
        let on = !self.windows[i].maximized;
        self.set_maximized(id, on, area)
    }

    /// Apply a compositor event, client-initiated (un)maximize requests among
    /// them. `place` is the place of the tile that the event shows, `area` the
    /// part of the work area that a maximized window fills. Returns whether a
    /// redraw is needed, and the window and size to ask a client for.
    pub fn pump_event<F>(
        &mut self,
        event: Event<F>,
        active_workspace: i32,
        place: Rect<C>,
        area: Rect<C>,
    ) -> (r: (bool, Option<(u64, Rect<C>)>))
        requires
            old(self).wf(),
        ensures
            final(self).wf(),
            match event {
                Event::WindowMaximizeRequested { id, maximized } => {
                    &&& final(self)@ == with_maximized(old(self)@, id.0, maximized, area)
                    &&& r.0
                    &&& r.1 == if changes_maximized(old(self)@, id.0, maximized) {
                        Some((id.0, maximized_rect(old(self)@, id.0, maximized, area)))
                    } else {
                        None
                    }
                },
                _ => {
                    &&& final(self)@ == handled(old(self)@, event, active_workspace, place)
                    &&& r == (redraws(event), None::<(u64, Rect<C>)>)
                },
            },
    {
        match event {
            Event::WindowMaximizeRequested { id, maximized } => {
                let resize = self.set_maximized(id.0, maximized, area);
                (true, resize)
            },
            other => (self.handle_event(other, active_workspace, place), None),
        }
    }

    /// Hide a window; it stays in the taskbar.
    pub fn minimize_window(&mut self, id: u64)
        requires
            old(self).wf(),
        ensures
            final(self).wf(),
            final(self)@ == minimized(old(self)@, id),
    {
        let ghost before = self@;
        let found = self.find_window(id);
        if self.focused == Some(id) {
            self.focused = None;
        }
        if let Some(i) = found {
            self.windows[i].minimized = true;
            self.windows[i].focused = false;
        }
        proof {
            let after = self@;
            assert(after =~= minimized(before, id));
            assert(window_ids(after.windows) =~= window_ids(before.windows));
            assert forall|k: int|
                0 <= k < after.windows.len()
                    && (#[trigger] after.windows[k]).focused implies after.focused == Some(
                after.windows[k].id,
            ) by {
                assert(before.windows[k].focused);
                if before.focused == Some(id) {
                    lemma_row(window_ids(before.windows), k);
                }
            }
        }
    }

    /// Move the focused window to a workspace (it disappears from the current
    /// one).
    pub fn move_focused_to_workspace(&mut self, workspace: i32)
        requires
            old(self).wf(),
        ensures
            final(self).wf(),
            final(self)@ == sent_to_workspace(old(self)@, workspace),
    {
        let ghost before = self@;
        if let Some(id) = self.focused {
            if let Some(i) = self.find_window(id) {
                self.windows[i].workspace = workspace;
            }
        }
        proof {
            assert(self@ =~= sent_to_workspace(before, workspace));
            lemma_same_marks(before, self@);
        }
    }

    /// Raise and focus a window. Returns the workspace it is on, to follow it
    /// there.
    pub fn activate_window(&mut self, id: u64) -> (r: Option<i32>)
        requires
            old(self).wf(),
        ensures
            final(self).wf(),
            final(self)@ == raised(old(self)@, id),
            r == match window_row(old(self)@, id) {
                Some(i) => Some(old(self)@.windows[i].workspace),
                None => None,
            },
    {
        let workspace = match self.find_window(id) {
            Some(i) => Some(self.windows[i].workspace),
            None => None,
        };
        self.raise_and_focus(id);
        workspace
    }

    /// The rectangle of a window.
    pub fn window_rect(&self, id: u64) -> (r: Option<Rect<C>>)
        requires
            self.wf(),
        ensures
            r == match window_row(self@, id) {
                Some(i) => Some(self@.windows[i].rect),
                None => None,
            },
    {
        let i = self.find_window(id)?;
        Some(self.windows[i].rect)
    }

    /// Move a window to a point.
    pub fn move_window(&mut self, id: u64, x: C, y: C)
        requires
            old(self).wf(),
        ensures
            final(self).wf(),
            final(self)@ == moved_to(old(self)@, id, x, y),
    {
        let ghost before = self@;
        if let Some(i) = self.find_window(id) {
            self.windows[i].rect.x = x;
            self.windows[i].rect.y = y;
        }
        proof {
            assert(self@ =~= moved_to(before, id, x, y));
            lemma_same_marks(before, self@);
        }
    }

    /// Note that a frame of the given size was uploaded. Returns the tile that
    /// shows it.
    pub fn frame_uploaded(&mut self, id: u64, width: C, height: C) -> (r: Option<TileRow>)
        requires
            old(self).wf(),
        ensures
            final(self).wf(),
            final(self)@ == uploaded(old(self)@, id, width, height),
            r == tile_row(old(self)@, id),
    {
        let ghost before = self@;
        if let Some(i) = self.find_window(id) {
            self.windows[i].rect.width = width;
            self.windows[i].rect.height = height;
            proof {
                assert(self@ =~= uploaded(before, id, width, height));
                lemma_same_marks(before, self@);
            }
            return Some(TileRow::Window(i));
        }
        if let Some(i) = self.find_popup(id) {
            self.popups[i].rect.width = width;
            self.popups[i].rect.height = height;
            proof {
                assert(self@ =~= uploaded(before, id, width, height));
                assert(popup_ids(self@.popups) =~= popup_ids(before.popups));
            }
            return Some(TileRow::Popup(i));
        }
        if let Some(i) = self.find_layer(id) {
            self.layers[i].rect.width = width;
            self.layers[i].rect.height = height;
            proof {
                assert(self@ =~= uploaded(before, id, width, height));
                assert(layer_ids(self@.layers) =~= layer_ids(before.layers));
            }
            return Some(TileRow::Layer(i));
        }
        None
    }

    /// Take the surfaces whose textures must be freed.
    pub fn take_closed(&mut self) -> (r: Vec<u64>)
        requires
            old(self).wf(),
        ensures
            final(self).wf(),
            r@ == old(self)@.closed,
            final(self)@ == (ShellView { closed: Seq::empty(), ..old(self)@ }),
    {
        let ghost before = self@;
        let mut out: Vec<u64> = Vec::new();
        out.append(&mut self.closed);
        proof {
            assert(out@ =~= before.closed);
            assert(self@ =~= ShellView { closed: Seq::empty(), ..before });
        }
        out
    }

    /// Take the frames that await upload.
    pub fn take_frames(&mut self) -> (r: Vec<(u64, Frame)>)
        requires
            old(self).wf(),
        ensures
            final(self).wf(),
            distinct(r@),
            to_map(r@) == old(self)@.pending,
            final(self)@ == (ShellView { pending: Map::empty(), ..old(self)@ }),
    {
        let ghost before = self@;
        let out = self.pending.take();
        assert(self@ =~= ShellView { pending: Map::empty(), ..before });
        out
    }
}

/// The index of an id.
fn position(ids: &Vec<u64>, id: u64) -> (r: Option<usize>)
    requires
        ids@.no_duplicates(),
    ensures
        match r {
            Some(i) => i < ids.len() && row(ids@, id) == Some(i as int),
            None => row(ids@, id) is None,
        },
{
    for i in 0..ids.len()
        invariant
            ids@.no_duplicates(),
            forall|k: int| 0 <= k < i ==> ids@[k] != id,
    {
        if ids[i] == id {
            proof {
                lemma_row(ids@, i as int);
            }
            return Some(i);
        }
    }
    None
}

/// One step round a list of `n`.
proof fn lemma_round(i: int, n: int)
    requires
        0 <= i < n,
    ensures
        (i + 1) % n == if i + 1 == n {
            0
        } else {
            i + 1
        },
        (i + n - 1) % n == if i == 0 {
            n - 1
        } else {
            i - 1
        },
{
    if i + 1 == n {
        assert((i + 1) % n == 0) by (nonlinear_arith)
            requires
                i + 1 == n,
                n > 0,
        ;
    } else {
        assert((i + 1) % n == i + 1) by (nonlinear_arith)
            requires
                0 <= i + 1 < n,
        ;
    }
    if i == 0 {
        assert((n - 1) % n == n - 1) by (nonlinear_arith)
            requires
                n > 0,
        ;
    } else {
        assert((i + n - 1) % n == i - 1) by (nonlinear_arith)
            requires
                0 < i < n,
        ;
    }
}

/// The candidates are distinct, and each is a window on the workspace.
proof fn lemma_candidates_distinct<C>(windows: Seq<WindowTile<C>>, workspace: i32)
    requires
        window_ids(windows).no_duplicates(),
    ensures
        candidates(windows, workspace).no_duplicates(),
        forall|id: u64|
            candidates(windows, workspace).contains(id) ==> window_ids(windows).contains(id),
    decreases windows.len(),
{
    if windows.len() > 0 {
        let ids = window_ids(windows);
        let rest = windows.drop_last();
        assert(window_ids(rest) =~= ids.drop_last());
        assert(window_ids(rest).no_duplicates()) by {
            assert forall|a: int, b: int|
                0 <= a < rest.len() && 0 <= b < rest.len() && a != b implies window_ids(rest)[a]
                != window_ids(rest)[b] by {
                assert(ids[a] != ids[b]);
            }
        }
        lemma_candidates_distinct(rest, workspace);
        let less = candidates(rest, workspace);
        let last = windows.last().id;
        assert(ids[ids.len() - 1] == last);
        assert(!window_ids(rest).contains(last)) by {
            if window_ids(rest).contains(last) {
                let k = choose|k: int| 0 <= k < rest.len() && window_ids(rest)[k] == last;
                assert(ids[k] == last);
            }
        }
        assert(!less.contains(last));
        lemma_push_distinct(less, last);
        assert forall|id: u64| candidates(windows, workspace).contains(id) implies ids.contains(
            id,
        ) by {
            let all = candidates(windows, workspace);
            let k = choose|k: int| 0 <= k < all.len() && all[k] == id;
            if k < less.len() {
                assert(less[k] == id);
                assert(window_ids(rest).contains(id));
                let j = choose|j: int| 0 <= j < rest.len() && window_ids(rest)[j] == id;
                assert(ids[j] == id);
            }
        }
    }
}

// ---------------------------------------------------------------------------
// Laws

/// Restoring a window undoes maximizing it: all windows are as they were.
pub proof fn law_restore_undoes_maximize<C>(
    v: ShellView<C>,
    id: u64,
    area: Rect<C>,
    other: Rect<C>,
)
    requires
        shell_wf(v),
        changes_maximized(v, id, true),
    ensures
        with_maximized(with_maximized(v, id, true, area), id, false, other) == (ShellView {
            restore: v.restore.remove(id),
            ..v
        }),
{
    let i = window_row(v, id).unwrap();
    let big = with_maximized(v, id, true, area);
    assert(window_ids(big.windows) =~= window_ids(v.windows));
    let back = with_maximized(big, id, false, other);
    assert(back.windows =~= v.windows);
    assert(back.restore =~= v.restore.remove(id));
}

/// A maximized window fills the area, is marked as maximized, and no other
/// window changes.
pub proof fn law_maximized_window_fills_area<C>(v: ShellView<C>, id: u64, area: Rect<C>)
    requires
        shell_wf(v),
        changes_maximized(v, id, true),
    ensures
        ({
            let i = window_row(v, id).unwrap();
            let after = with_maximized(v, id, true, area);
            &&& after.windows[i].rect == area
            &&& after.windows[i].maximized
            &&& forall|k: int|
                0 <= k < v.windows.len() && k != i ==> after.windows[k] == v.windows[k]
        }),
{
}

/// A raised window is on top, is the only one marked as focused, and is not
/// minimized.
pub proof fn law_raised_window_is_on_top<C>(v: ShellView<C>, id: u64)
    requires
        shell_wf(v),
        window_row(v, id) is Some,
    ensures
        raised(v, id).windows.len() == v.windows.len(),
        raised(v, id).windows.last().id == id,
        raised(v, id).windows.last().focused,
        !raised(v, id).windows.last().minimized,
        forall|k: int|
            0 <= k < v.windows.len() - 1 ==> !(#[trigger] raised(v, id).windows[k]).focused,
{
    let i = window_row(v, id).unwrap();
    lemma_to_top(v.windows, i);
    let ids = window_ids(to_top(v.windows, i));
    assert forall|k: int| 0 <= k < v.windows.len() - 1 implies !(#[trigger] raised(
        v,
        id,
    ).windows[k]).focused by {
        assert(ids[k] != ids[v.windows.len() - 1]);
    }
}

/// Cycling forward from a window and then back from the one reached comes back,
/// as long as the order of the windows is the same.
pub proof fn law_cycling_back_undoes_forward(ids: Seq<u64>, current: u64)
    requires
        ids.no_duplicates(),
        ids.contains(current),
    ensures
        next_in(ids, next_in(ids, Some(current), true), false) == Some(current),
{
    let i = ids.index_of(current);
    lemma_row(ids, i);
    lemma_round(i, ids.len() as int);
    let j = (i + 1) % (ids.len() as int);
    lemma_row(ids, j);
    lemma_round(j, ids.len() as int);
}

/// Raising a window takes it out of the stack and puts it on top. All windows
/// keep their place in the order, their workspace, their rectangle and their
/// name; the others stay minimized if they were. Raising what is no window leaves
/// none marked as focused.
pub proof fn law_raising_keeps_the_order<C>(v: ShellView<C>, id: u64)
    requires
        shell_wf(v),
    ensures
        ({
            let w = v.windows;
            let after = raised(v, id);
            &&& after.focused == Some(id)
            &&& after.popups == v.popups && after.layers == v.layers && after.pending == v.pending
            &&& after.closed == v.closed && after.restore == v.restore
            &&& after.windows.len() == w.len()
            &&& forall|i: int|
                0 <= i < w.len() && (#[trigger] w[i]).id == id ==> {
                    &&& after.windows[w.len() - 1] == (WindowTile {
                        focused: true,
                        minimized: false,
                        ..w[i]
                    })
                    &&& forall|k: int|
                        0 <= k < w.len() - 1 ==> (#[trigger] after.windows[k]) == (WindowTile {
                            focused: false,
                            ..w[if k < i {
                                k
                            } else {
                                k + 1
                            }]
                        })
                }
            &&& (forall|i: int| 0 <= i < w.len() ==> (#[trigger] w[i]).id != id) ==> forall|k: int|
                0 <= k < w.len() ==> (#[trigger] after.windows[k]) == (WindowTile {
                    focused: false,
                    ..w[k]
                })
        }),
{
    let w = v.windows;
    let ids = window_ids(w);
    let after = raised(v, id);
    assert forall|i: int| 0 <= i < w.len() && (#[trigger] w[i]).id == id implies {
        &&& after.windows[w.len() - 1] == (WindowTile { focused: true, minimized: false, ..w[i] })
        &&& forall|k: int|
            0 <= k < w.len() - 1 ==> (#[trigger] after.windows[k]) == (WindowTile {
                focused: false,
                ..w[if k < i {
                    k
                } else {
                    k + 1
                }]
            })
    } by {
        assert(ids[i] == id);
        lemma_row(ids, i);
        assert forall|k: int| 0 <= k < w.len() - 1 implies (#[trigger] after.windows[k]) == (
        WindowTile {
            focused: false,
            ..w[if k < i {
                k
            } else {
                k + 1
            }]
        }) by {
            let from = if k < i {
                k
            } else {
                k + 1
            };
            assert(ids[from] != ids[i]);
        }
    }
    if forall|i: int| 0 <= i < w.len() ==> (#[trigger] w[i]).id != id {
        if ids.contains(id) {
            let i = ids.index_of(id);
            assert(w[i].id == id);
        }
    }
}

/// Snapping puts the focused window into the rectangle and makes it a window that
/// is not maximized and has nothing to restore; nothing else changes, and nothing
/// at all if no window has the focus.
pub proof fn law_snapping_moves_the_focused_window<C>(v: ShellView<C>, rect: Rect<C>, i: int)
    requires
        shell_wf(v),
        0 <= i < v.windows.len(),
    ensures
        ({
            let after = snapped(v, rect);
            let t = v.windows[i];
            &&& after.windows.len() == v.windows.len()
            &&& after.windows[i] == if v.focused == Some(t.id) {
                WindowTile { rect, maximized: false, ..t }
            } else {
                t
            }
            &&& after.focused == v.focused && after.popups == v.popups && after.layers == v.layers
            &&& after.pending == v.pending && after.closed == v.closed
            &&& v.focused == Some(t.id) ==> !after.restore.contains_key(t.id)
            &&& forall|id: u64|
                v.focused != Some(id) ==> (after.restore.contains_key(id)
                    <==> v.restore.contains_key(id)) && after.restore[id] == v.restore[id]
        }),
{
    let ids = window_ids(v.windows);
    lemma_row(ids, i);
    if let Some(k) = focused_row(v) {
        assert(ids[k] == v.focused.unwrap());
    }
}

/// Minimizing hides the window and takes the focus from it; no other window
/// changes, and another window keeps the focus.
pub proof fn law_minimizing_hides_one_window<C>(v: ShellView<C>, id: u64, i: int)
    requires
        shell_wf(v),
        0 <= i < v.windows.len(),
    ensures
        ({
            let after = minimized(v, id);
            let t = v.windows[i];
            &&& after.windows.len() == v.windows.len()
            &&& after.windows[i] == if t.id == id {
                WindowTile { minimized: true, focused: false, ..t }
            } else {
                t
            }
            &&& after.focused != Some(id)
            &&& v.focused != Some(id) ==> after.focused == v.focused
            &&& after.restore == v.restore && after.pending == v.pending
            &&& after.popups == v.popups && after.layers == v.layers && after.closed == v.closed
        }),
{
    let ids = window_ids(v.windows);
    lemma_row(ids, i);
    if let Some(k) = window_row(v, id) {
        assert(ids[k] == id);
    }
}

/// Sending the focused window to a workspace changes the workspace of that window
/// and nothing else.
pub proof fn law_sending_moves_the_focused_window<C>(v: ShellView<C>, workspace: i32, i: int)
    requires
        shell_wf(v),
        0 <= i < v.windows.len(),
    ensures
        ({
            let after = sent_to_workspace(v, workspace);
            let t = v.windows[i];
            &&& after.windows.len() == v.windows.len()
            &&& after.windows[i] == if v.focused == Some(t.id) {
                WindowTile { workspace, ..t }
            } else {
                t
            }
            &&& after == (ShellView { windows: after.windows, ..v })
        }),
{
    let ids = window_ids(v.windows);
    lemma_row(ids, i);
    if let Some(k) = focused_row(v) {
        assert(ids[k] == v.focused.unwrap());
    }
}

/// Moving a window changes where that window begins and nothing else.
pub proof fn law_moving_keeps_the_size<C>(v: ShellView<C>, id: u64, x: C, y: C, i: int)
    requires
        shell_wf(v),
        0 <= i < v.windows.len(),
    ensures
        ({
            let after = moved_to(v, id, x, y);
            let t = v.windows[i];
            &&& after.windows.len() == v.windows.len()
            &&& after.windows[i] == if t.id == id {
                WindowTile {
                    rect: Rect { x, y, width: t.rect.width, height: t.rect.height },
                    ..t
                }
            } else {
                t
            }
            &&& after == (ShellView { windows: after.windows, ..v })
        }),
{
    let ids = window_ids(v.windows);
    lemma_row(ids, i);
    if let Some(k) = window_row(v, id) {
        assert(ids[k] == id);
    }
}

/// A frame gives a window its size and leaves where it begins; a frame of a
/// surface that is no window changes no window.
pub proof fn law_frames_size_their_window<C>(v: ShellView<C>, id: u64, width: C, height: C, i: int)
    requires
        shell_wf(v),
        0 <= i < v.windows.len(),
        v.windows.len() <= usize::MAX,
    ensures
        ({
            let after = uploaded(v, id, width, height);
            let t = v.windows[i];
            &&& after.windows.len() == v.windows.len()
            &&& after.windows[i] == if t.id == id {
                WindowTile { rect: Rect { x: t.rect.x, y: t.rect.y, width, height }, ..t }
            } else {
                t
            }
            &&& after.pending == v.pending && after.closed == v.closed && after.restore == v.restore
            &&& after.focused == v.focused
        }),
{
    let ids = window_ids(v.windows);
    lemma_row(ids, i);
    if let Some(k) = window_row(v, id) {
        assert(ids[k] == id);
    }
}

/// A frame gives a popup, or a layer surface, its size and leaves where it begins,
/// if the surface is not shown as another kind of tile.
pub proof fn law_frames_size_popups_and_layers<C>(
    v: ShellView<C>,
    id: u64,
    width: C,
    height: C,
    i: int,
)
    requires
        shell_wf(v),
        v.popups.len() <= usize::MAX,
        v.layers.len() <= usize::MAX,
        window_row(v, id) is None,
    ensures
        ({
            let after = uploaded(v, id, width, height);
            &&& after.windows == v.windows
            &&& 0 <= i < v.popups.len() && v.popups[i].id == id ==> after.popups[i] == (PopupTile {
                rect: Rect { x: v.popups[i].rect.x, y: v.popups[i].rect.y, width, height },
                ..v.popups[i]
            }) && after.layers == v.layers
            &&& 0 <= i < v.layers.len() && v.layers[i].id == id && popup_row(v, id) is None
                ==> after.layers[i] == (LayerTile {
                rect: Rect { x: v.layers[i].rect.x, y: v.layers[i].rect.y, width, height },
                ..v.layers[i]
            }) && after.popups == v.popups
        }),
{
    if 0 <= i < v.popups.len() && v.popups[i].id == id {
        assert(popup_ids(v.popups)[i] == id);
        lemma_row(popup_ids(v.popups), i);
    }
    if 0 <= i < v.layers.len() && v.layers[i].id == id {
        assert(layer_ids(v.layers)[i] == id);
        lemma_row(layer_ids(v.layers), i);
    }
}

/// Asking for a window to be maximized that is, or restored that is not, changes
/// nothing; restoring one that has no place to go back to only clears its mark.
pub proof fn law_maximizing_changes_one_window<C>(
    v: ShellView<C>,
    id: u64,
    on: bool,
    area: Rect<C>,
    i: int,
)
    requires
        shell_wf(v),
        0 <= i < v.windows.len(),
    ensures
        ({
            let after = with_maximized(v, id, on, area);
            let t = v.windows[i];
            &&& after.windows.len() == v.windows.len()
            &&& t.id != id || t.maximized == on ==> after.windows[i] == t
            &&& t.id == id && t.maximized == on ==> after == v
            &&& t.id == id && !t.maximized && on ==> after.windows[i] == (WindowTile {
                rect: area,
                maximized: true,
                ..t
            }) && after.restore.contains_key(id) && after.restore[id] == t.rect
            &&& t.id == id && t.maximized && !on ==> after.windows[i] == (WindowTile {
                rect: if v.restore.contains_key(id) {
                    v.restore[id]
                } else {
                    t.rect
                },
                maximized: false,
                ..t
            }) && !after.restore.contains_key(id)
            &&& after.focused == v.focused && after.popups == v.popups && after.layers == v.layers
            &&& after.pending == v.pending && after.closed == v.closed
            &&& forall|other: u64|
                other != id ==> (after.restore.contains_key(other)
                    <==> v.restore.contains_key(other)) && after.restore[other] == v.restore[other]
        }),
{
    let ids = window_ids(v.windows);
    lemma_row(ids, i);
    if let Some(k) = window_row(v, id) {
        assert(ids[k] == id);
    }
}

/// The panel's edges are numbered: 1 is left, 2 is top, 3 is bottom, and every
/// other number is right.
pub proof fn law_panel_edges_are_numbered(n: int)
    ensures
        edge_of(n) is Left <==> n == 1,
        edge_of(n) is Top <==> n == 2,
        edge_of(n) is Bottom <==> n == 3,
        edge_of(n) is Right <==> n < 1 || n > 3,
{
}

/// Whether a point of a work area of `w` by `h` pixels lies in a part of it. Each
/// point is taken for the pixel that begins there.
pub open spec fn in_part(area: Area, w: int, h: int, x: int, y: int) -> bool {
    &&& area.half_width ==> (if area.right {
        2 * x >= w
    } else {
        2 * x < w
    })
    &&& area.half_height ==> (if area.bottom {
        2 * y >= h
    } else {
        2 * y < h
    })
}

/// The four snaps are the four halves of the work area: the left one is what lies
/// left of the middle, the right one the rest, the upper one what lies above the
/// middle, and the lower one the rest. A decorated window gives 28 pixels of the
/// height to its title bar.
pub proof fn law_snaps_are_the_four_halves(decorated: bool, w: int, h: int, x: int, y: int)
    ensures
        in_part(snapped_area(Snap::Left, decorated), w, h, x, y) <==> 2 * x < w,
        in_part(snapped_area(Snap::Right, decorated), w, h, x, y) <==> 2 * x >= w,
        in_part(snapped_area(Snap::Up, decorated), w, h, x, y) <==> 2 * y < h,
        in_part(snapped_area(Snap::Down, decorated), w, h, x, y) <==> 2 * y >= h,
        in_part(full_area(decorated), w, h, x, y),
        snapped_area(Snap::Left, decorated).half_width && !snapped_area(
            Snap::Left,
            decorated,
        ).half_height && !snapped_area(Snap::Left, decorated).right && !snapped_area(
            Snap::Left,
            decorated,
        ).bottom,
        snapped_area(Snap::Right, decorated).half_width && !snapped_area(
            Snap::Right,
            decorated,
        ).half_height && snapped_area(Snap::Right, decorated).right && !snapped_area(
            Snap::Right,
            decorated,
        ).bottom,
        !snapped_area(Snap::Up, decorated).half_width && snapped_area(
            Snap::Up,
            decorated,
        ).half_height && !snapped_area(Snap::Up, decorated).right && !snapped_area(
            Snap::Up,
            decorated,
        ).bottom,
        !snapped_area(Snap::Down, decorated).half_width && snapped_area(
            Snap::Down,
            decorated,
        ).half_height && !snapped_area(Snap::Down, decorated).right && snapped_area(
            Snap::Down,
            decorated,
        ).bottom,
        forall|snap: Snap|
            (#[trigger] snapped_area(snap, decorated)).titlebar == (if decorated {
                28
            } else {
                0int
            }),
        full_area(decorated).titlebar == (if decorated {
            28
        } else {
            0int
        }),
{
}

/// The rows of the candidates, from the bottom to the top of the stack.
spec fn candidate_rows<C>(windows: Seq<WindowTile<C>>, workspace: i32) -> Seq<int>
    decreases windows.len(),
{
    if windows.len() == 0 {
        seq![]
    } else {
        let rest = candidate_rows(windows.drop_last(), workspace);
        if windows.last().workspace == workspace && !windows.last().minimized {
            rest.push(windows.len() - 1)
        } else {
            rest
        }
    }
}

/// The candidates are the windows on the workspace that are not minimized, in the
/// order of the stack.
proof fn lemma_candidate_rows<C>(windows: Seq<WindowTile<C>>, workspace: i32)
    ensures
        ({
            let ids = candidates(windows, workspace);
            let rows = candidate_rows(windows, workspace);
            &&& ids.len() == rows.len()
            &&& forall|k: int|
                0 <= k < rows.len() ==> 0 <= #[trigger] rows[k] < windows.len() && ids[k]
                    == windows[rows[k]].id && windows[rows[k]].workspace == workspace
                    && !windows[rows[k]].minimized
            &&& forall|a: int, b: int| 0 <= a < b < rows.len() ==> rows[a] < rows[b]
            &&& forall|i: int|
                0 <= i < windows.len() && (#[trigger] windows[i]).workspace == workspace
                    && !windows[i].minimized ==> rows.contains(i)
        }),
    decreases windows.len(),
{
    if windows.len() > 0 {
        let less = windows.drop_last();
        lemma_candidate_rows(less, workspace);
        let ids = candidates(windows, workspace);
        let rows = candidate_rows(windows, workspace);
        let before = candidate_rows(less, workspace);
        assert forall|k: int| 0 <= k < rows.len() implies 0 <= #[trigger] rows[k] < windows.len()
            && ids[k] == windows[rows[k]].id && windows[rows[k]].workspace == workspace
            && !windows[rows[k]].minimized by {
            if k < before.len() {
                assert(rows[k] == before[k]);
                assert(less[before[k]] == windows[before[k]]);
            }
        }
        assert forall|i: int|
            0 <= i < windows.len() && (#[trigger] windows[i]).workspace == workspace
                && !windows[i].minimized implies rows.contains(i) by {
            if i < less.len() {
                assert(less[i] == windows[i]);
                let k = choose|k: int| 0 <= k < before.len() && before[k] == i;
                assert(rows[k] == i);
            } else {
                assert(rows[before.len() as int] == i);
            }
        }
    }
}

/// Cycling goes to a window on the workspace that is not minimized, and to none
/// exactly if there is no such window. From such a window it goes to the nearest
/// above it in the stack, or below it when cycling backwards, and from the last
/// one to the first; from anything else to the lowest.
pub proof fn law_cycling_skips_minimized_windows<C>(
    v: ShellView<C>,
    workspace: i32,
    forward: bool,
)
    requires
        shell_wf(v),
    ensures
        ({
            let w = v.windows;
            match next_in(candidates(w, workspace), v.focused, forward) {
                Some(id) => exists|j: int|
                    0 <= j < w.len() && (#[trigger] w[j]).id == id && w[j].workspace == workspace
                        && !w[j].minimized && if exists|i: int|
                        0 <= i < w.len() && v.focused == Some((#[trigger] w[i]).id)
                            && w[i].workspace == workspace && !w[i].minimized {
                        forall|i: int|
                            0 <= i < w.len() && v.focused == Some((#[trigger] w[i]).id) ==> if forward {
                                forall|k: int|
                                    0 <= k < w.len() && (#[trigger] w[k]).workspace == workspace
                                        && !w[k].minimized ==> if j > i {
                                        k <= i || k >= j
                                    } else {
                                        j <= k <= i
                                    }
                            } else {
                                forall|k: int|
                                    0 <= k < w.len() && (#[trigger] w[k]).workspace == workspace
                                        && !w[k].minimized ==> if j < i {
                                        k >= i || k <= j
                                    } else {
                                        i <= k <= j
                                    }
                            }
                    } else {
                        forall|k: int|
                            0 <= k < w.len() && (#[trigger] w[k]).workspace == workspace
                                && !w[k].minimized ==> j <= k
                    },
                None => forall|k: int|
                    0 <= k < w.len() ==> (#[trigger] w[k]).workspace != workspace
                        || w[k].minimized,
            }
        }),
{
    let w = v.windows;
    let ids = candidates(w, workspace);
    let rows = candidate_rows(w, workspace);
    let all = window_ids(w);
    lemma_candidate_rows(w, workspace);
    lemma_candidates_distinct(w, workspace);
    let n = ids.len() as int;
    if n == 0 {
        assert forall|k: int| 0 <= k < w.len() implies (#[trigger] w[k]).workspace != workspace
            || w[k].minimized by {
            if w[k].workspace == workspace && !w[k].minimized {
                assert(rows.contains(k));
            }
        }
    } else {
        let current = match v.focused {
            Some(id) => row(ids, id),
            None => None,
        };
        let next = match current {
            Some(c) => {
                if forward {
                    (c + 1) % n
                } else {
                    (c + n - 1) % n
                }
            },
            None => 0,
        };
        if let Some(c) = current {
            lemma_round(c, n);
        }
        let j = rows[next];
        assert(w[j].id == ids[next]);
        assert forall|k: int|
            0 <= k < w.len() && (#[trigger] w[k]).workspace == workspace
                && !w[k].minimized implies exists|p: int| 0 <= p < n && rows[p] == k by {
            assert(rows.contains(k));
        }
        if exists|i: int|
            0 <= i < w.len() && v.focused == Some((#[trigger] w[i]).id) && w[i].workspace
                == workspace && !w[i].minimized {
            let i0 = choose|i: int|
                0 <= i < w.len() && v.focused == Some((#[trigger] w[i]).id) && w[i].workspace
                    == workspace && !w[i].minimized;
            let c0 = choose|p: int| 0 <= p < n && rows[p] == i0;
            assert(ids[c0] == w[i0].id);
            lemma_row(ids, c0);
            assert(current == Some(c0));
            assert forall|i: int| 0 <= i < w.len() && v.focused == Some((#[trigger] w[i]).id) implies i
                == i0 by {
                assert(all[i] == all[i0]);
            }
            assert forall|k: int|
                0 <= k < w.len() && (#[trigger] w[k]).workspace == workspace
                    && !w[k].minimized implies (if forward {
                if j > i0 {
                    k <= i0 || k >= j
                } else {
                    j <= k <= i0
                }
            } else {
                if j < i0 {
                    k >= i0 || k <= j
                } else {
                    i0 <= k <= j
                }
            }) by {
                let p = choose|p: int| 0 <= p < n && rows[p] == k;
                assert(rows[p] == k && rows[c0] == i0 && rows[next] == j);
                assert(p < c0 ==> rows[p] < rows[c0]);
                assert(p > c0 ==> rows[c0] < rows[p]);
                assert(p < next ==> rows[p] < rows[next]);
                assert(p > next ==> rows[next] < rows[p]);
                assert(c0 < next ==> rows[c0] < rows[next]);
                assert(next < c0 ==> rows[next] < rows[c0]);
            }
        } else {
            assert(current is None) by {
                if let Some(c) = current {
                    assert(ids[c] == v.focused.unwrap());
                    let i = rows[c];
                    assert(w[i].id == ids[c]);
                }
            }
            assert forall|k: int|
                0 <= k < w.len() && (#[trigger] w[k]).workspace == workspace
                    && !w[k].minimized implies j <= k by {
                let p = choose|p: int| 0 <= p < n && rows[p] == k;
                assert(p > 0 ==> rows[0] < rows[p]);
            }
        }
    }
}

/// A removed window is no longer shown and its texture is due to be freed; every
/// other window is shown as before.
pub proof fn law_removed_window_is_gone<C, F>(
    v: ShellView<C>,
    event: Event<F>,
    workspace: i32,
    place: Rect<C>,
)
    requires
        shell_wf(v),
        event is WindowRemoved,
    ensures
        ({
            let id = event->WindowRemoved_0.0;
            let after = handled(v, event, workspace, place);
            &&& window_row(after, id) is None
            &&& !after.pending.contains_key(id)
            &&& window_row(v, id) is Some ==> after.closed.contains(id)
            &&& forall|other: u64|
                other != id ==> match (#[trigger] window_row(after, other)) {
                    Some(k) => window_row(v, other) matches Some(i) && after.windows[k] == v.windows[i],
                    None => window_row(v, other) is None,
                }
        }),
{
    let id = event->WindowRemoved_0.0;
    let after = handled(v, event, workspace, place);
    if let Some(i) = window_row(v, id) {
        let ids = window_ids(v.windows);
        assert(window_ids(after.windows) =~= ids.remove(i));
        assert(after.closed[v.closed.len() as int] == id);
        lemma_others_stay(ids, i);
    }
}

/// A removed popup is no longer shown and its texture is due to be freed; every
/// other popup is shown as before.
pub proof fn law_removed_popup_is_gone<C, F>(
    v: ShellView<C>,
    event: Event<F>,
    workspace: i32,
    place: Rect<C>,
)
    requires
        shell_wf(v),
        event is PopupRemoved,
    ensures
        ({
            let id = event->PopupRemoved_0.0;
            let after = handled(v, event, workspace, place);
            &&& popup_row(after, id) is None
            &&& !after.pending.contains_key(id)
            &&& popup_row(v, id) is Some ==> after.closed.contains(id)
            &&& forall|other: u64|
                other != id ==> match (#[trigger] popup_row(after, other)) {
                    Some(k) => popup_row(v, other) matches Some(i) && after.popups[k] == v.popups[i],
                    None => popup_row(v, other) is None,
                }
        }),
{
    let id = event->PopupRemoved_0.0;
    let after = handled(v, event, workspace, place);
    if let Some(i) = popup_row(v, id) {
        let ids = popup_ids(v.popups);
        assert(popup_ids(after.popups) =~= ids.remove(i));
        assert(after.closed[v.closed.len() as int] == id);
        lemma_others_stay(ids, i);
    }
}

/// A removed layer surface is no longer shown and its texture is due to be freed; every
/// other layer surface is shown as before.
pub proof fn law_removed_layer_is_gone<C, F>(
    v: ShellView<C>,
    event: Event<F>,
    workspace: i32,
    place: Rect<C>,
)
    requires
        shell_wf(v),
        event is LayerRemoved,
    ensures
        ({
            let id = event->LayerRemoved_0.0;
            let after = handled(v, event, workspace, place);
            &&& layer_row(after, id) is None
            &&& !after.pending.contains_key(id)
            &&& layer_row(v, id) is Some ==> after.closed.contains(id)
            &&& forall|other: u64|
                other != id ==> match (#[trigger] layer_row(after, other)) {
                    Some(k) => layer_row(v, other) matches Some(i) && after.layers[k] == v.layers[i],
                    None => layer_row(v, other) is None,
                }
        }),
{
    let id = event->LayerRemoved_0.0;
    let after = handled(v, event, workspace, place);
    if let Some(i) = layer_row(v, id) {
        let ids = layer_ids(v.layers);
        assert(layer_ids(after.layers) =~= ids.remove(i));
        assert(after.closed[v.closed.len() as int] == id);
        lemma_others_stay(ids, i);
    }
}

/// Where the other ids are after one was dropped.
proof fn lemma_others_stay(ids: Seq<u64>, i: int)
    requires
        ids.no_duplicates(),
        0 <= i < ids.len(),
    ensures
        row(ids.remove(i), ids[i]) is None,
        forall|other: u64|
            other != ids[i] ==> match (#[trigger] row(ids.remove(i), other)) {
                Some(k) => 0 <= k < ids.len() - 1 && row(ids, other) == Some(
                    if k < i {
                        k
                    } else {
                        k + 1
                    },
                ),
                None => row(ids, other) is None,
            },
{
    lemma_remove_distinct(ids, i);
    assert forall|other: u64| other != ids[i] implies match (#[trigger] row(
        ids.remove(i),
        other,
    )) {
        Some(k) => 0 <= k < ids.len() - 1 && row(ids, other) == Some(
            if k < i {
                k
            } else {
                k + 1
            },
        ),
        None => row(ids, other) is None,
    } by {
        if let Some(k) = row(ids.remove(i), other) {
            let j = if k < i {
                k
            } else {
                k + 1
            };
            assert(ids.remove(i)[k] == other);
            assert(ids[j] == other);
            lemma_row(ids, j);
        }
    }
}

/// The area that a snap asks for is that half of the work area, of the focused
/// window; without a focused window there is none.
pub proof fn law_snap_areas<C: Copy>(shell: &Shell<C>, snap: Snap, r: Option<Area>)
    requires
        shell.wf(),
        call_ensures(Shell::<C>::snap_area, (shell, snap), r),
    ensures
        r is Some <==> focused_row(shell@) is Some,
        r matches Some(area) ==> {
            &&& area.half_width == (snap is Left || snap is Right)
            &&& area.half_height == (snap is Up || snap is Down)
            &&& area.right == snap is Right
            &&& area.bottom == snap is Down
        },
{
}

} // verus!
