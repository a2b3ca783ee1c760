//! The file-open dialog. Directories are entered on a click, and any selected
//! entry can be accepted.

use vstd::prelude::*;

use crate::files::browser::path_at;
use crate::files::listing::{list_rows, lists, row_views, DirEntry, Row, RowView};
use crate::text::paths::{parent, parent_of};

verus! {

/// The dialog.
#[derive(Debug)]
pub struct Controller {
    pub title: String,
    pub cwd: String,
    /// The rows currently shown.
    pub rows: Vec<Row>,
    pub image_only: bool,
    /// Whether a request is being served.
    pub open: bool,
    /// Whether the dialog is on screen.
    pub visible: bool,
    /// The selected row, or -1.
    pub selected: i32,
}

/// A [`Controller`] as a mathematical value.
#[verifier::ext_equal]
pub struct ControllerView {
    pub title: Seq<char>,
    pub cwd: Seq<char>,
    pub rows: Seq<RowView>,
    pub image_only: bool,
    pub open: bool,
    pub visible: bool,
    pub selected: int,
}

impl View for Controller {
    type V = ControllerView;

    open spec fn view(&self) -> ControllerView {
        ControllerView {
            title: self.title@,
            cwd: self.cwd@,
            rows: row_views(self.rows@),
            image_only: self.image_only,
            open: self.open,
            visible: self.visible,
            selected: self.selected as int,
        }
    }
}

impl Controller {
    /// The selection is a row or nothing.
    pub open spec fn wf(&self) -> bool {
        self.rows.len() <= i32::MAX && -1 <= self.selected < self.rows.len()
    }

    /// A dialog that is not open.
    pub fn new() -> (r: Self)
        ensures
            r.wf(),
            r@ == (ControllerView {
                title: seq![],
                cwd: "/"@,
                rows: seq![],
                image_only: false,
                open: false,
                visible: false,
                selected: -1,
            }),
    {
        let r = Controller {
            title: String::new(),
            cwd: "/".to_string(),
            rows: Vec::new(),
            image_only: false,
            open: false,
            visible: false,
            selected: -1,
        };
        assert(r@.rows =~= seq![]);
        assert(r@.title =~= seq![]);
        r
    }

    /// Open the dialog for a request. If a dialog is already open the request is
    /// rejected, and is to be answered with no path; else the start directory is
    /// to be read and shown.
    pub fn open(&mut self, title: &str, image_only: bool) -> (accepted: bool)
        requires
            old(self).wf(),
        ensures
            final(self).wf(),
            accepted == !old(self)@.open,
            final(self)@ == if old(self)@.open {
                old(self)@
            } else {
                ControllerView {
                    title: title@,
                    image_only,
                    open: true,
                    visible: true,
                    ..old(self)@
                }
            },
    {
        let ghost before = self@;
        if self.open {
            return false;
        }
        self.image_only = image_only;
        self.open = true;
        self.title = title.to_string();
        self.visible = true;
        assert(self@ =~= ControllerView {
            title: title@,
            image_only,
            open: true,
            visible: true,
            ..before
        });
        true
    }

    /// Show the directory `dir` with the entries that were read; nothing is
    /// selected.
    pub fn navigate(&mut self, dir: String, entries: Vec<DirEntry>)
        requires
            entries.len() <= i32::MAX,
        ensures
            final(self).wf(),
            lists(dir@, entries@, old(self)@.image_only, final(self)@.rows),
            final(self)@ == (ControllerView {
                cwd: dir@,
                rows: final(self)@.rows,
                selected: -1,
                ..old(self)@
            }),
    {
        let ghost before = self@;
        self.rows = list_rows(dir.as_str(), entries, self.image_only);
        self.cwd = dir;
        self.selected = -1;
        assert(self@ =~= ControllerView {
            cwd: dir@,
            rows: self@.rows,
            selected: -1,
            ..before
        });
    }

    /// The path of a row, to find out whether it is a directory.
    pub fn entry_path(&self, idx: i32) -> (r: Option<&str>)
        ensures
            match r {
                Some(p) => path_at(self@.rows, idx as int) == Some(p@),
                None => path_at(self@.rows, idx as int) is None,
            },
    {
        if idx >= 0 && (idx as usize) < self.rows.len() {
            assert(self@.rows[idx as int].path == self.rows@[idx as int].path@);
            Some(self.rows[idx as usize].path.as_str())
        } else {
            None
        }
    }

    /// A row was clicked, which is a directory or not. A directory is to be
    /// entered; a file is selected.
    pub fn entry_clicked(&mut self, idx: i32, is_dir: bool) -> (r: Option<String>)
        requires
            old(self).wf(),
        ensures
            final(self).wf(),
            match path_at(old(self)@.rows, idx as int) {
                Some(path) => if is_dir {
                    (r matches Some(p) && p@ == path) && final(self)@ == old(self)@
                } else {
                    r is None && final(self)@ == (ControllerView {
                        selected: idx as int,
                        ..old(self)@
                    })
                },
                None => r is None && final(self)@ == old(self)@,
            },
    {
        let ghost before = self@;
        let path = match self.entry_path(idx) {
            Some(p) => p.to_string(),
            None => return None,
        };
        if is_dir {
            return Some(path);
        }
        self.selected = idx;
        assert(self@ =~= ControllerView { selected: idx as int, ..before });
        None
    }

    /// The directory to enter to go up, if there is one.
    pub fn go_up(&self) -> (r: Option<String>)
        ensures
            match r {
                Some(p) => parent_of(self@.cwd) == Some(p@),
                None => parent_of(self@.cwd) is None,
            },
    {
        match parent(self.cwd.as_str()) {
            Some(p) => Some(p.to_string()),
            None => None,
        }
    }

    /// Accept the selected row: the dialog is closed, and the request, if there
    /// is one, answered with the path. Nothing happens without a selection.
    pub fn accept(&mut self) -> (r: Option<String>)
        requires
            old(self).wf(),
        ensures
            final(self).wf(),
            match path_at(old(self)@.rows, old(self)@.selected) {
                Some(path) => {
                    &&& final(self)@ == (ControllerView {
                        open: false,
                        visible: false,
                        ..old(self)@
                    })
                    &&& match r {
                        Some(p) => old(self)@.open && p@ == path,
                        None => !old(self)@.open,
                    }
                },
                None => r is None && final(self)@ == old(self)@,
            },
    {
        let ghost before = self@;
        let path = match self.entry_path(self.selected) {
            Some(p) => p.to_string(),
            None => return None,
        };
        let answers = self.open;
        self.visible = false;
        self.open = false;
        assert(self@ =~= ControllerView { open: false, visible: false, ..before });
        if answers {
            Some(path)
        } else {
            None
        }
    }

    /// Close the dialog. Returns whether a request is to be answered with no
    /// path.
    pub fn cancel(&mut self) -> (answers: bool)
        requires
            old(self).wf(),
        ensures
            final(self).wf(),
            answers == old(self)@.open,
            final(self)@ == (ControllerView { open: false, visible: false, ..old(self)@ }),
    {
        let ghost before = self@;
        let answers = self.open;
        self.visible = false;
        self.open = false;
        assert(self@ =~= ControllerView { open: false, visible: false, ..before });
        answers
    }
}

} // verus!
