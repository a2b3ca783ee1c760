//! Virtual desktops (workspaces).
//!
//! Workspaces are a pure compositor-side concept: clients are unaware of them.
//! A workspace owns a set of window ids; switching workspaces is purely a matter
//! of which windows are included in the render/input set.

use vstd::prelude::*;

use crate::shell::model::{WindowId, WorkspaceId};

verus! {

/// The set of virtual desktops and which one is active.
#[derive(Debug)]
pub struct Workspaces {
    /// `windows[i]` holds the windows assigned to workspace `i`.
    windows: Vec<Vec<WindowId>>,
    active: usize,
}

/// The windows of `s` other than `window`, in their order.
pub open spec fn without(s: Seq<WindowId>, window: WindowId) -> Seq<WindowId>
    decreases s.len(),
{
    if s.len() == 0 {
        s
    } else if s.last() == window {
        without(s.drop_last(), window)
    } else {
        without(s.drop_last(), window).push(s.last())
    }
}

/// The lists without `window`.
pub open spec fn all_without(lists: Seq<Seq<WindowId>>, window: WindowId) -> Seq<Seq<WindowId>> {
    Seq::new(lists.len(), |i: int| without(lists[i], window))
}

/// Some workspace holds `window`.
pub open spec fn held(lists: Seq<Seq<WindowId>>, window: WindowId) -> bool {
    exists|i: int| 0 <= i < lists.len() && (#[trigger] lists[i]).contains(window)
}

/// `id` as an index into `count` workspaces.
pub open spec fn clamped(id: WorkspaceId, count: int) -> int {
    if id.0 < count {
        id.0 as int
    } else {
        count - 1
    }
}

/// Leaving out a window leaves out that window only.
pub proof fn lemma_without(s: Seq<WindowId>, window: WindowId)
    ensures
        !without(s, window).contains(window),
        forall|w: WindowId| w != window ==> (without(s, window).contains(w) <==> s.contains(w)),
        !s.contains(window) ==> without(s, window) == s,
    decreases s.len(),
{
    if s.len() > 0 {
        let rest = s.drop_last();
        lemma_without(rest, window);
        let out = without(s, window);
        assert(s == rest.push(s.last()));
        assert forall|w: WindowId| w != window implies (out.contains(w) <==> s.contains(w)) by {
            if s.contains(w) {
                let i = choose|i: int| 0 <= i < s.len() && s[i] == w;
                if i < rest.len() {
                    assert(rest[i] == w);
                    assert(rest.contains(w));
                    assert(without(rest, window).contains(w));
                    let j = choose|j: int|
                        0 <= j < without(rest, window).len() && without(rest, window)[j] == w;
                    assert(out[j] == w);
                } else {
                    assert(out.last() == w);
                    assert(out[out.len() - 1] == w);
                }
            }
            if out.contains(w) {
                let i = choose|i: int| 0 <= i < out.len() && out[i] == w;
                if i < without(rest, window).len() {
                    assert(without(rest, window)[i] == w);
                    assert(rest.contains(w));
                    let j = choose|j: int| 0 <= j < rest.len() && rest[j] == w;
                    assert(s[j] == w);
                } else {
                    assert(s[s.len() - 1] == w);
                }
            }
        }
        if out.contains(window) {
            let i = choose|i: int| 0 <= i < out.len() && out[i] == window;
            if i < without(rest, window).len() {
                assert(without(rest, window)[i] == window);
            }
        }
        if !s.contains(window) {
            assert(s.last() != window) by {
                assert(s[s.len() - 1] == s.last());
            }
            assert(!rest.contains(window)) by {
                if rest.contains(window) {
                    let i = choose|i: int| 0 <= i < rest.len() && rest[i] == window;
                    assert(s[i] == window);
                }
            }
        }
    }
}

/// The windows of `list` other than `window`.
fn retained(list: &Vec<WindowId>, window: WindowId) -> (r: Vec<WindowId>)
    ensures
        r@ == without(list@, window),
{
    let mut out: Vec<WindowId> = Vec::new();
    for i in 0..list.len()
        invariant
            out@ == without(list@.take(i as int), window),
    {
        proof {
            assert(list@.take(i + 1).drop_last() =~= list@.take(i as int));
        }
        if list[i] != window {
            out.push(list[i]);
        }
    }
    assert(list@.take(list@.len() as int) =~= list@);
    out
}

impl Workspaces {
    /// The windows of each workspace, in stacking order.
    pub closed spec fn lists(&self) -> Seq<Seq<WindowId>> {
        Seq::new(self.windows@.len(), |i: int| self.windows@[i]@)
    }

    /// The index of the active workspace.
    pub closed spec fn active_index(&self) -> int {
        self.active as int
    }

    /// There is an active workspace.
    pub open spec fn wf(&self) -> bool {
        0 <= self.active_index() < self.lists().len() && self.active_index() <= u32::MAX
    }

    /// Create `count` (>= 1) empty workspaces with the first one active.
    pub fn new(count: usize) -> (r: Self)
        ensures
            r.wf(),
            r.lists().len() == if count == 0 {
                1
            } else {
                count as int
            },
            forall|i: int| 0 <= i < r.lists().len() ==> (#[trigger] r.lists()[i]).len() == 0,
            r.active_index() == 0,
    {
        let count = if count == 0 {
            1
        } else {
            count
        };
        let mut windows: Vec<Vec<WindowId>> = Vec::new();
        for i in 0..count
            invariant
                windows.len() == i,
                forall|k: int| 0 <= k < i ==> (#[trigger] windows@[k])@.len() == 0,
        {
            windows.push(Vec::new());
        }
        Workspaces { windows, active: 0 }
    }

    /// How many workspaces there are.
    pub fn count(&self) -> (r: usize)
        ensures
            r == self.lists().len(),
    {
        self.windows.len()
    }

    /// The active workspace.
    pub fn active(&self) -> (r: WorkspaceId)
        requires
            self.wf(),
        ensures
            r.0 == self.active_index(),
    {
        WorkspaceId(self.active as u32)
    }

    /// Switch to `id`, clamped to the valid range. Returns the new active id.
    pub fn switch_to(&mut self, id: WorkspaceId) -> (r: WorkspaceId)
        requires
            old(self).wf(),
        ensures
            final(self).wf(),
            final(self).lists() == old(self).lists(),
            final(self).active_index() == clamped(id, old(self).lists().len() as int),
            r.0 == final(self).active_index(),
    {
        let last = self.windows.len() - 1;
        let idx: usize = if (id.0 as usize) < last {
            id.0 as usize
        } else {
            last
        };
        self.active = idx;
        self.active()
    }

    /// Add a new window to the currently active workspace.
    pub fn add_window(&mut self, window: WindowId)
        requires
            old(self).wf(),
        ensures
            final(self).wf(),
            final(self).active_index() == old(self).active_index(),
            final(self).lists() == old(self).lists().update(
                old(self).active_index(),
                old(self).lists()[old(self).active_index()].push(window),
            ),
    {
        let ghost before = self.lists();
        let active = self.active;
        self.windows[active].push(window);
        assert(self.lists() =~= before.update(active as int, before[active as int].push(window)));
    }

    /// Remove a window from whichever workspace holds it.
    pub fn remove_window(&mut self, window: WindowId)
        requires
            old(self).wf(),
        ensures
            final(self).wf(),
            final(self).active_index() == old(self).active_index(),
            final(self).lists() == all_without(old(self).lists(), window),
    {
        let ghost before = self.lists();
        let count = self.windows.len();
        for i in 0..count
            invariant
                count == self.windows.len(),
                self.active == old(self).active,
                self.windows.len() == old(self).windows.len(),
                before == old(self).lists(),
                forall|k: int|
                    0 <= k < self.windows.len() ==> (#[trigger] self.windows@[k])@ == if k < i {
                        without(before[k], window)
                    } else {
                        before[k]
                    },
        {
            let kept = retained(&self.windows[i], window);
            self.windows.set(i, kept);
        }
        assert(self.lists() =~= all_without(before, window));
    }

    /// Move a window to another workspace (clamped). No-op if not found.
    pub fn move_window(&mut self, window: WindowId, to: WorkspaceId)
        requires
            old(self).wf(),
        ensures
            final(self).wf(),
            final(self).active_index() == old(self).active_index(),
            final(self).lists() == moved(old(self).lists(), window, to),
    {
        let ghost before = self.lists();
        if !self.holds(window) {
            return;
        }
        let last = self.windows.len() - 1;
        let to: usize = if (to.0 as usize) < last {
            to.0 as usize
        } else {
            last
        };
        self.remove_window(window);
        let ghost removed = self.lists();
        self.windows[to].push(window);
        assert(self.lists() =~= removed.update(to as int, removed[to as int].push(window)));
    }

    /// Whether some workspace holds `window`.
    fn holds(&self, window: WindowId) -> (r: bool)
        ensures
            r == held(self.lists(), window),
    {
        let ghost lists = self.lists();
        for i in 0..self.windows.len()
            invariant
                lists == self.lists(),
                forall|k: int| 0 <= k < i ==> !(#[trigger] lists[k]).contains(window),
        {
            let list = &self.windows[i];
            assert(lists[i as int] == list@);
            if list_contains(list, window) {
                return true;
            }
        }
        false
    }

    /// The windows visible on the active workspace, in stacking order.
    pub fn active_windows(&self) -> (r: &[WindowId])
        requires
            self.wf(),
        ensures
            r@ == self.lists()[self.active_index()],
    {
        self.windows[self.active].as_slice()
    }

    /// Whether a window is on the active workspace (i.e. currently visible).
    pub fn is_visible(&self, window: WindowId) -> (r: bool)
        requires
            self.wf(),
        ensures
            r == self.lists()[self.active_index()].contains(window),
    {
        list_contains(&self.windows[self.active], window)
    }
}

/// The lists after `window` moved to the end of the workspace `to`; a window
/// that no workspace holds is not moved.
pub open spec fn moved(
    lists: Seq<Seq<WindowId>>,
    window: WindowId,
    to: WorkspaceId,
) -> Seq<Seq<WindowId>> {
    if held(lists, window) {
        let rest = all_without(lists, window);
        let i = clamped(to, lists.len() as int);
        rest.update(i, rest[i].push(window))
    } else {
        lists
    }
}

/// Whether `list` holds `window`.
fn list_contains(list: &Vec<WindowId>, window: WindowId) -> (r: bool)
    ensures
        r == list@.contains(window),
{
    for i in 0..list.len()
        invariant
            forall|k: int| 0 <= k < i ==> list@[k] != window,
    {
        if list[i] == window {
            return true;
        }
    }
    false
}

/// A window that was moved is on the workspace it was moved to and on no other,
/// and every other window stays where it was.
pub proof fn law_moved_window_is_in_one_place(
    lists: Seq<Seq<WindowId>>,
    window: WindowId,
    to: WorkspaceId,
    i: int,
)
    requires
        held(lists, window),
        0 <= i < lists.len(),
    ensures
        moved(lists, window, to)[i].contains(window) <==> i == clamped(to, lists.len() as int),
        forall|w: WindowId|
            w != window ==> (moved(lists, window, to)[i].contains(w) <==> lists[i].contains(w)),
{
    lemma_without(lists[i], window);
    let kept = without(lists[i], window);
    if i == clamped(to, lists.len() as int) {
        let out = kept.push(window);
        assert(out[kept.len() as int] == window);
        assert forall|w: WindowId| w != window implies (out.contains(w) <==> kept.contains(w)) by {
            if kept.contains(w) {
                let j = choose|j: int| 0 <= j < kept.len() && kept[j] == w;
                assert(out[j] == w);
            }
            if out.contains(w) {
                let j = choose|j: int| 0 <= j < out.len() && out[j] == w;
                assert(kept[j] == w);
            }
        }
    }
}

/// A window that was removed is on no workspace, and every other window stays
/// where it was.
pub proof fn law_removed_window_is_nowhere(lists: Seq<Seq<WindowId>>, window: WindowId)
    ensures
        !held(all_without(lists, window), window),
        forall|i: int, w: WindowId|
            0 <= i < lists.len() && w != window ==> (#[trigger] all_without(
                lists,
                window,
            )[i].contains(w) <==> lists[i].contains(w)),
{
    assert forall|i: int| 0 <= i < lists.len() implies !(#[trigger] all_without(
        lists,
        window,
    )[i]).contains(window) by {
        lemma_without(lists[i], window);
    }
    assert forall|i: int, w: WindowId| 0 <= i < lists.len() && w != window implies (
    #[trigger] all_without(lists, window)[i].contains(w) <==> lists[i].contains(w)) by {
        lemma_without(lists[i], window);
    }
}

/// A window that is moved goes to the end of the workspace with its number,
/// counted from 0, or of the last one if there are fewer; a window that no
/// workspace holds is not moved.
pub proof fn law_workspaces_are_numbered_from_zero(
    lists: Seq<Seq<WindowId>>,
    window: WindowId,
    to: WorkspaceId,
)
    requires
        lists.len() > 0,
    ensures
        to.0 < lists.len() ==> clamped(to, lists.len() as int) == to.0,
        to.0 >= lists.len() ==> clamped(to, lists.len() as int) == lists.len() - 1,
        held(lists, window) ==> {
            let i = if to.0 < lists.len() {
                to.0 as int
            } else {
                lists.len() - 1
            };
            moved(lists, window, to).len() == lists.len() && moved(lists, window, to)[i].last()
                == window
        },
        !held(lists, window) ==> moved(lists, window, to) == lists,
{
}

/// Taking a window away keeps the others in their order.
pub proof fn law_the_others_keep_their_order(list: Seq<WindowId>, window: WindowId) -> (rows: Seq<
    int,
>)
    ensures
        rows.len() == without(list, window).len(),
        forall|a: int, b: int| 0 <= a < b < rows.len() ==> rows[a] < rows[b],
        forall|k: int|
            0 <= k < rows.len() ==> 0 <= #[trigger] rows[k] < list.len() && list[rows[k]]
                == without(list, window)[k] && list[rows[k]] != window,
        forall|i: int|
            0 <= i < list.len() && #[trigger] list[i] != window ==> rows.contains(i),
    decreases list.len(),
{
    if list.len() == 0 {
        seq![]
    } else {
        let last = list.len() - 1;
        let less = list.drop_last();
        let before = law_the_others_keep_their_order(less, window);
        let rows = if list[last] == window {
            before
        } else {
            before.push(last)
        };
        assert forall|k: int| 0 <= k < before.len() implies list[#[trigger] before[k]]
            == less[before[k]] by {}
        assert forall|i: int| 0 <= i < list.len() && #[trigger] list[i]
            != window implies rows.contains(i) by {
            if i < last {
                assert(less[i] == list[i]);
                let k = choose|k: int| 0 <= k < before.len() && before[k] == i;
                assert(rows[k] == i);
            } else {
                assert(rows[before.len() as int] == i);
            }
        }
        rows
    }
}

} // verus!
