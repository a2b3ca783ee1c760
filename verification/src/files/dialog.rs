//! The reusable file-open dialog.
//!
//! The same controller backs both the in-shell settings flow and the desktop
//! portal. It says which directory to read and what a request is answered; the
//! file system is read outside. Paths are the texts of
//! [`path_text`](crate::text::ospath::path_text).

use vstd::prelude::*;

use crate::files::browser::{
    expand_tilde, find_path, first_at, first_selection, lead, leads, move_in_list, moved_selection,
    path_at, shown_name, tilde_expanded, Visit,
};
use crate::files::listing::{list_rows, lists, row_views, DirEntry, Row, RowView};
use crate::text::ospath::shown;
use crate::text::paths::{file_name, parent, parent_of, same_path};

verus! {

/// The dialog.
#[derive(Debug)]
pub struct Controller {
    pub title: String,
    pub cwd: String,
    /// The rows currently shown.
    pub rows: Vec<Row>,
    pub image_only: bool,
    /// Whether a request is being served.
    pub open: bool,
    /// Whether the dialog is on screen.
    pub visible: bool,
    /// The selected row, or -1.
    pub selected: i32,
}

/// A [`Controller`] as a mathematical value.
#[verifier::ext_equal]
pub struct ControllerView {
    pub title: Seq<char>,
    pub cwd: Seq<char>,
    pub rows: Seq<RowView>,
    pub image_only: bool,
    pub open: bool,
    pub visible: bool,
    pub selected: int,
}

impl View for Controller {
    type V = ControllerView;

    open spec fn view(&self) -> ControllerView {
        ControllerView {
            title: self.title@,
            cwd: self.cwd@,
            rows: row_views(self.rows@),
            image_only: self.image_only,
            open: self.open,
            visible: self.visible,
            selected: self.selected as int,
        }
    }
}

/// What accepting or activating a row comes to.
#[derive(Debug, PartialEq)]
pub enum Choice {
    /// Nothing is selected.
    Nothing,
    /// A directory is entered.
    Enter(String),
    /// The dialog is closed; the request, if there is one, is answered with a
    /// path.
    Answer(Option<String>),
}

/// `choice` is what opening the selected row comes to, which is a directory or
/// not.
pub open spec fn chosen(v: ControllerView, is_dir: bool, choice: Choice) -> bool {
    match path_at(v.rows, v.selected) {
        Some(path) => if is_dir {
            choice matches Choice::Enter(p) && p@ == path
        } else if v.open {
            choice matches Choice::Answer(Some(p)) && p@ == path
        } else {
            choice == Choice::Answer(None)
        },
        None => choice is Nothing,
    }
}

/// The dialog after opening the selected row: a file ends the request.
pub open spec fn after_choice(v: ControllerView, is_dir: bool) -> ControllerView {
    if path_at(v.rows, v.selected) is Some && !is_dir {
        ControllerView { open: false, visible: false, ..v }
    } else {
        v
    }
}

impl Controller {
    /// The selection is a row or nothing.
    pub open spec fn wf(&self) -> bool {
        self.rows.len() <= i32::MAX && -1 <= self.selected < self.rows.len()
    }

    /// A dialog that is not open.
    pub fn new() -> (r: Self)
        ensures
            r.wf(),
            r@ == (ControllerView {
                title: seq![],
                cwd: "/"@,
                rows: seq![],
                image_only: false,
                open: false,
                visible: false,
                selected: -1,
            }),
    {
        let r = Controller {
            title: String::new(),
            cwd: "/".to_string(),
            rows: Vec::new(),
            image_only: false,
            open: false,
            visible: false,
            selected: -1,
        };
        assert(r@.rows =~= seq![]);
        assert(r@.title =~= seq![]);
        r
    }

    /// Open the dialog for a request. If a dialog is already open the request is
    /// rejected, and is to be answered with no path; else the start directory is
    /// to be read and shown.
    pub fn open(&mut self, title: &str, image_only: bool) -> (accepted: bool)
        requires
            old(self).wf(),
        ensures
            final(self).wf(),
            accepted == !old(self)@.open,
            final(self)@ == if old(self)@.open {
                old(self)@
            } else {
                ControllerView {
                    title: title@,
                    image_only,
                    open: true,
                    visible: true,
                    ..old(self)@
                }
            },
    {
        let ghost before = self@;
        if self.open {
            return false;
        }
        self.image_only = image_only;
        self.open = true;
        self.title = title.to_string();
        self.visible = true;
        assert(self@ =~= ControllerView {
            title: title@,
            image_only,
            open: true,
            visible: true,
            ..before
        });
        true
    }

    /// Show the directory `dir` with the entries that were read, and select the
    /// first, so keyboard navigation and the preview work immediately.
    pub fn navigate(&mut self, dir: String, entries: Vec<DirEntry>)
        requires
            entries.len() <= i32::MAX,
        ensures
            final(self).wf(),
            lists(dir@, entries@, old(self)@.image_only, final(self)@.rows),
            final(self)@ == (ControllerView {
                cwd: dir@,
                rows: final(self)@.rows,
                selected: first_selection(final(self)@.rows.len() as int),
                ..old(self)@
            }),
    {
        let ghost before = self@;
        self.rows = list_rows(dir.as_str(), entries, self.image_only);
        self.cwd = dir;
        self.selected = if self.rows.len() > 0 {
            0
        } else {
            -1
        };
        assert(self@ =~= ControllerView {
            cwd: dir@,
            rows: self@.rows,
            selected: self@.selected,
            ..before
        });
    }

    /// A row was clicked: it is selected (and previewed). A directory is entered
    /// on double-click, Enter or →, keeping mouse and keyboard consistent.
    pub fn entry_clicked(&mut self, idx: i32)
        requires
            old(self).wf(),
        ensures
            final(self).wf(),
            final(self)@ == (ControllerView {
                selected: if 0 <= idx < old(self)@.rows.len() {
                    idx as int
                } else {
                    old(self)@.selected
                },
                ..old(self)@
            }),
    {
        let ghost before = self@;
        if idx >= 0 && (idx as usize) < self.rows.len() {
            self.selected = idx;
        }
        assert(self@ =~= ControllerView { selected: self@.selected, ..before });
    }

    /// The directory to enter to go up, if there is one.
    pub fn go_up(&self) -> (r: Option<String>)
        ensures
            match r {
                Some(p) => parent_of(self@.cwd) == Some(p@),
                None => parent_of(self@.cwd) is None,
            },
    {
        match parent(self.cwd.as_str()) {
            Some(p) => Some(p.to_string()),
            None => None,
        }
    }

    /// Where a path typed into the editable path bar leads: a directory is to be
    /// entered; a file's parent is to be entered and the file then selected.
    pub fn navigate_to<D: Fn(&str) -> bool, E: Fn(&str) -> bool>(
        &self,
        path: &str,
        home: &str,
        is_dir: &D,
        is_file: &E,
    ) -> (r: Visit)
        requires
            forall|s: &str| call_requires(*is_dir, (s,)),
            forall|s: &str| call_requires(*is_file, (s,)),
        ensures
            leads(*is_dir, *is_file, tilde_expanded(path@, home@), r),
    {
        lead(expand_tilde(path, home).as_str(), is_dir, is_file)
    }

    /// Select the row of a path that was navigated to, if it is shown.
    pub fn select_path(&mut self, path: &str)
        requires
            old(self).wf(),
        ensures
            final(self).wf(),
            final(self)@ == (ControllerView { selected: final(self)@.selected, ..old(self)@ }),
            first_at(old(self)@.rows, path@, final(self)@.selected) || (final(self)@.selected
                == old(self)@.selected && forall|k: int|
                0 <= k < old(self)@.rows.len() ==> !same_path(
                    #[trigger] old(self)@.rows[k].path,
                    path@,
                )),
    {
        let ghost before = self@;
        if let Some(i) = find_path(&self.rows, path) {
            self.selected = i as i32;
        }
        assert(self@ =~= ControllerView { selected: self@.selected, ..before });
    }

    /// Move the keyboard selection by `delta` rows (clamped to the list). Large
    /// magnitudes act as Home/End.
    pub fn move_selection(&mut self, delta: i32)
        requires
            old(self).wf(),
        ensures
            final(self).wf(),
            final(self)@ == (ControllerView {
                selected: if old(self)@.rows.len() == 0 {
                    old(self)@.selected
                } else {
                    moved_selection(
                        old(self)@.rows.len() as int,
                        old(self)@.selected,
                        delta as int,
                    )
                },
                ..old(self)@
            }),
    {
        let ghost before = self@;
        if self.rows.len() > 0 {
            self.selected = move_in_list(self.rows.len(), self.selected, delta);
        }
        assert(self@ =~= ControllerView { selected: self@.selected, ..before });
    }

    /// The path of the selected row.
    pub fn selected_path(&self) -> (r: Option<&str>)
        ensures
            match r {
                Some(p) => path_at(self@.rows, self@.selected) == Some(p@),
                None => path_at(self@.rows, self@.selected) is None,
            },
    {
        if self.selected >= 0 && (self.selected as usize) < self.rows.len() {
            assert(self@.rows[self.selected as int].path == self.rows@[self.selected as int].path@);
            Some(self.rows[self.selected as usize].path.as_str())
        } else {
            None
        }
    }

    /// The file name of the selected row, or nothing.
    pub fn selected_name(&self) -> (r: String)
        ensures
            r@ == shown_name(path_at(self@.rows, self@.selected)),
    {
        match self.selected_path() {
            Some(p) => match file_name(p) {
                Some(name) => shown(name),
                None => String::new(),
            },
            None => String::new(),
        }
    }

    /// Accept the selected row, which is a directory or not: "Open" on a
    /// directory enters it rather than returning it as a result.
    pub fn accept(&mut self, is_dir: bool) -> (r: Choice)
        requires
            old(self).wf(),
        ensures
            final(self).wf(),
            chosen(old(self)@, is_dir, r),
            final(self)@ == after_choice(old(self)@, is_dir),
    {
        let ghost before = self@;
        let path = match self.selected_path() {
            Some(p) => p.to_string(),
            None => return Choice::Nothing,
        };
        if is_dir {
            return Choice::Enter(path);
        }
        let answers = self.open;
        self.visible = false;
        self.open = false;
        assert(self@ =~= ControllerView { open: false, visible: false, ..before });
        if answers {
            Choice::Answer(Some(path))
        } else {
            Choice::Answer(None)
        }
    }

    /// Enter the selected directory, or accept the selected file (Enter key).
    pub fn activate_selected(&mut self, is_dir: bool) -> (r: Choice)
        requires
            old(self).wf(),
        ensures
            final(self).wf(),
            chosen(old(self)@, is_dir, r),
            final(self)@ == after_choice(old(self)@, is_dir),
    {
        self.accept(is_dir)
    }

    /// Close the dialog. Returns whether a request is to be answered with no
    /// path.
    pub fn cancel(&mut self) -> (answers: bool)
        requires
            old(self).wf(),
        ensures
            final(self).wf(),
            answers == old(self)@.open,
            final(self)@ == (ControllerView { open: false, visible: false, ..old(self)@ }),
    {
        let ghost before = self@;
        let answers = self.open;
        self.visible = false;
        self.open = false;
        assert(self@ =~= ControllerView { open: false, visible: false, ..before });
        answers
    }
}

// ---------------------------------------------------------------------------
// Laws

/// A request is answered at most once: an answer with a path, like a
/// cancellation, ends it, so that the next accept or cancel answers nothing.
pub proof fn law_request_is_answered_once(v: ControllerView, is_dir: bool, choice: Choice)
    requires
        chosen(v, is_dir, choice),
        choice matches Choice::Answer(Some(_)),
    ensures
        v.open,
        !after_choice(v, is_dir).open,
        forall|again: Choice|
            #[trigger] chosen(after_choice(v, is_dir), false, again) ==> again
                == Choice::Answer(None),
{
}

/// Accepting with a selection enters a directory, and leaves the dialog open; on a
/// file it closes the dialog and answers the request with the path of the row.
/// Without a selection nothing happens.
pub proof fn law_accepting_answers_with_the_row(v: ControllerView, is_dir: bool, choice: Choice)
    requires
        chosen(v, is_dir, choice),
    ensures
        ({
            let after = after_choice(v, is_dir);
            let row = 0 <= v.selected < v.rows.len();
            &&& !row ==> choice is Nothing && after == v
            &&& row && is_dir ==> after == v && (choice matches Choice::Enter(p) && p@
                == v.rows[v.selected].path)
            &&& row && !is_dir ==> !after.open && !after.visible
            &&& row && !is_dir && v.open ==> (choice matches Choice::Answer(Some(p)) && p@
                == v.rows[v.selected].path)
            &&& row && !is_dir && !v.open ==> choice == Choice::Answer(None)
            &&& after.rows == v.rows && after.selected == v.selected && after.cwd == v.cwd
        }),
{
}

} // verus!
