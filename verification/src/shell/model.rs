//! Shared data models describing windows and workspaces.

use vstd::prelude::*;

verus! {

/// Stable identifier for a top-level window, assigned by the compositor.
#[derive(Debug, Clone, Copy, PartialEq, Eq, Hash, PartialOrd, Ord, Structural)]
pub struct WindowId(pub u64);

/// Identifier for a virtual desktop / workspace (0-based index).
#[derive(Debug, Clone, Copy, PartialEq, Eq, Hash, PartialOrd, Ord, Structural)]
pub struct WorkspaceId(pub u32);

/// Information about a top-level window, used to drive the taskbar.
#[derive(Debug, Clone, PartialEq, Eq)]
pub struct WindowInfo {
    pub id: WindowId,
    pub app_id: String,
    pub title: String,
    pub workspace: WorkspaceId,
    pub focused: bool,
}

/// The first text that is not empty, or a placeholder.
pub open spec fn label_text(title: Seq<char>, app_id: Seq<char>) -> Seq<char> {
    if title.len() > 0 {
        title
    } else if app_id.len() > 0 {
        app_id
    } else {
        "(untitled)"@
    }
}

impl WindowInfo {
    /// A window without a title or an app id that does not have the focus.
    pub fn new(id: WindowId, workspace: WorkspaceId) -> (r: Self)
        ensures
            r.id == id,
            r.workspace == workspace,
            r.app_id@ == Seq::<char>::empty(),
            r.title@ == Seq::<char>::empty(),
            !r.focused,
    {
        WindowInfo {
            id,
            app_id: String::new(),
            title: String::new(),
            workspace,
            focused: false,
        }
    }

    /// A human-friendly label for the taskbar: the title, falling back to the
    /// app id, falling back to a placeholder.
    pub fn label(&self) -> (r: &str)
        ensures
            r@ == label_text(self.title@, self.app_id@),
    {
        if !self.title.as_str().is_empty() {
            self.title.as_str()
        } else if !self.app_id.as_str().is_empty() {
            self.app_id.as_str()
        } else {
            "(untitled)"
        }
    }
}

/// A tray item to be displayed in the panel.
#[derive(Debug, Clone, PartialEq, Eq)]
pub struct TrayItem {
    pub id: String,
    pub title: String,
    pub icon_name: String,
}

impl Default for TrayItem {
    fn default() -> (r: Self)
        ensures
            r.id@ == Seq::<char>::empty(),
            r.title@ == Seq::<char>::empty(),
            r.icon_name@ == Seq::<char>::empty(),
    {
        TrayItem { id: String::new(), title: String::new(), icon_name: String::new() }
    }
}

/// The label of a window is its title, else its app id, and never empty.
pub proof fn law_labels_are_never_empty(title: Seq<char>, app_id: Seq<char>)
    ensures
        label_text(title, app_id).len() > 0,
        title.len() > 0 ==> label_text(title, app_id) == title,
        title.len() == 0 && app_id.len() > 0 ==> label_text(title, app_id) == app_id,
        title.len() == 0 && app_id.len() == 0 ==> label_text(title, app_id) == "(untitled)"@,
{
    reveal_strlit("(untitled)");
}

} // verus!
