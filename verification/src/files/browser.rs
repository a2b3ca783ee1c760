//! The standalone file browser: listing, navigation history and selection.
//!
//! The file system is read outside. An operation that changes the directory says
//! which one to read; what was read is handed to [`Browser::navigate`] or
//! [`Browser::show`]. Paths are given and kept as the texts of
//! [`path_text`](crate::text::ospath::path_text).

use vstd::prelude::*;

use crate::files::kind::{image_path, is_image};
use crate::files::listing::{list_rows, lists, row_views, DirEntry, Row, RowView};
use crate::files::size::{human_size, size_text};
use crate::files::ops::answered;
use crate::text::chars::{split, split_str, strip_prefix, trim, trim_str, views};
use crate::text::ospath::{shown, shown_text};
use crate::text::paths::{
    file_name, join, joined, last_name, parent, parent_of, paths_equal, same_path,
};

verus! {

// ---------------------------------------------------------------------------
// Paths that the user names

/// The home directory that the environment names, or `/`.
pub open spec fn home_of(home: Option<Seq<char>>) -> Seq<char> {
    match home {
        Some(h) => h,
        None => "/"@,
    }
}

/// The user's home directory, or `/`, from the environment's `HOME`.
pub fn home_dir(home: Option<&str>) -> (r: String)
    ensures
        r@ == home_of(
            match home {
                Some(h) => Some(h@),
                None => None,
            },
        ),
{
    match home {
        Some(h) => h.to_string(),
        None => "/".to_string(),
    }
}

/// The path with a leading `~` replaced by the home directory, as it is shown.
pub open spec fn tilde_expanded(path: Seq<char>, home: Seq<char>) -> Seq<char> {
    if path.len() > 0 && path[0] == '~' {
        shown_text(home) + path.drop_first()
    } else {
        path
    }
}

/// Expand a leading `~` to the home directory.
pub fn expand_tilde(path: &str, home: &str) -> (r: String)
    ensures
        r@ == tilde_expanded(path@, home@),
{
    proof {
        reveal_strlit("~");
        assert("~"@ =~= seq!['~']);
        if path@.len() > 0 {
            assert(path@.take(1) =~= seq![path@[0]]);
            assert(seq![path@[0]][0] == path@[0]);
            assert(seq!['~'][0] == '~');
        }
    }
    match strip_prefix(path, "~") {
        Some(rest) => {
            let mut out = shown(home);
            out.append(rest);
            assert(rest@ =~= path@.drop_first());
            out
        },
        None => path.to_string(),
    }
}

/// Where a path that the user typed leads.
#[derive(Debug, PartialEq)]
pub enum Visit {
    /// Nowhere.
    Nowhere,
    /// Into a directory.
    Directory(String),
    /// Into the directory of a file, which is then selected.
    File { parent: String, path: String },
}

/// Where a path leads that is a directory, a file or neither.
pub fn visit(path: &str, is_dir: bool, is_file: bool) -> (r: Visit)
    ensures
        match r {
            Visit::Directory(p) => is_dir && p@ == path@,
            Visit::File { parent, path: p } => !is_dir && is_file && parent_of(path@) == Some(
                parent@,
            ) && p@ == path@,
            Visit::Nowhere => !is_dir && (!is_file || parent_of(path@) is None),
        },
{
    if is_dir {
        return Visit::Directory(path.to_string());
    }
    if is_file {
        if let Some(p) = parent(path) {
            return Visit::File { parent: p.to_string(), path: path.to_string() };
        }
    }
    Visit::Nowhere
}

/// `visit` is where `path` leads, by what was answered of it.
pub open spec fn leads<D: Fn(&str) -> bool, E: Fn(&str) -> bool>(
    is_dir: D,
    is_file: E,
    path: Seq<char>,
    visit: Visit,
) -> bool {
    match visit {
        Visit::Directory(p) => p@ == path && answered(is_dir, path, true),
        Visit::File { parent, path: p } => {
            &&& p@ == path
            &&& answered(is_dir, path, false)
            &&& answered(is_file, path, true)
            &&& parent_of(path) == Some(parent@)
        },
        Visit::Nowhere => answered(is_dir, path, false) && (answered(is_file, path, false)
            || parent_of(path) is None),
    }
}

/// Where a path leads.
pub fn lead<D: Fn(&str) -> bool, E: Fn(&str) -> bool>(
    path: &str,
    is_dir: &D,
    is_file: &E,
) -> (r: Visit)
    requires
        forall|s: &str| call_requires(*is_dir, (s,)),
        forall|s: &str| call_requires(*is_file, (s,)),
    ensures
        leads(*is_dir, *is_file, path@, r),
{
    let dir = is_dir(path);
    assert(answered(*is_dir, path@, dir));
    if dir {
        return visit(path, true, false);
    }
    let file = is_file(path);
    assert(answered(*is_file, path@, file));
    visit(path, false, file)
}

/// The directory to list when `dir` was asked for: the root if it is none.
pub fn directory_or_root(dir: &str, is_dir: bool) -> (r: String)
    ensures
        r@ == if is_dir {
            dir@
        } else {
            "/"@
        },
{
    if is_dir {
        dir.to_string()
    } else {
        "/".to_string()
    }
}

// ---------------------------------------------------------------------------
// Selection

/// The row selected after moving by `delta` among `count` rows, within the list.
/// Without a selection the move starts at the nearer end.
pub open spec fn moved_selection(count: int, current: int, delta: int) -> int {
    if current < 0 {
        if delta < 0 {
            count - 1
        } else {
            0
        }
    } else if current + delta < 0 {
        0
    } else if current + delta > count - 1 {
        count - 1
    } else {
        current + delta
    }
}

/// The row selected after moving by `delta` among `count` rows.
pub fn move_in_list(count: usize, current: i32, delta: i32) -> (r: i32)
    requires
        0 < count <= i32::MAX,
    ensures
        r == moved_selection(count as int, current as int, delta as int),
{
    let last: i64 = count as i64 - 1;
    let next: i64 = if current < 0 {
        if delta < 0 {
            last
        } else {
            0
        }
    } else {
        let sum: i64 = current as i64 + delta as i64;
        if sum < 0 {
            0
        } else if sum > last {
            last
        } else {
            sum
        }
    };
    next as i32
}

/// `i` is the first row whose path is `path`.
pub open spec fn first_at(rows: Seq<RowView>, path: Seq<char>, i: int) -> bool {
    &&& 0 <= i < rows.len()
    &&& same_path(rows[i].path, path)
    &&& forall|k: int| 0 <= k < i ==> !same_path(#[trigger] rows[k].path, path)
}

/// The first row whose path is `path`.
pub fn find_path(rows: &Vec<Row>, path: &str) -> (r: Option<usize>)
    ensures
        match r {
            Some(i) => first_at(row_views(rows@), path@, i as int),
            None => forall|k: int|
                0 <= k < rows.len() ==> !same_path(#[trigger] row_views(rows@)[k].path, path@),
        },
{
    let ghost all = row_views(rows@);
    for i in 0..rows.len()
        invariant
            all == row_views(rows@),
            forall|k: int| 0 <= k < i ==> !same_path(#[trigger] all[k].path, path@),
    {
        assert(all[i as int] == rows@[i as int]@);
        if paths_equal(rows[i].path.as_str(), path) {
            return Some(i);
        }
    }
    None
}

/// The file name of a path as it is shown, or nothing.
pub open spec fn shown_name(path: Option<Seq<char>>) -> Seq<char> {
    match path {
        Some(p) => match last_name(p) {
            Some(name) => shown_text(name),
            None => seq![],
        },
        None => seq![],
    }
}

/// A short, human-readable description of an entry: `Folder`, or a file's size,
/// if it could be read, and kind.
pub open spec fn description(is_dir: bool, len: Option<u64>, kind: Seq<char>) -> Seq<char> {
    if is_dir {
        "Folder"@
    } else {
        match len {
            Some(n) => size_text(n as nat) + " · "@ + kind,
            None => kind,
        }
    }
}

/// Describe an entry.
pub fn describe(is_dir: bool, len: Option<u64>, kind: &str) -> (r: String)
    ensures
        r@ == description(is_dir, len, kind@),
{
    if is_dir {
        return "Folder".to_string();
    }
    match len {
        Some(n) => {
            let mut out = human_size(n);
            out.append(" · ");
            out.append(kind);
            out
        },
        None => kind.to_string(),
    }
}

/// Whether a selected path is shown in the preview pane.
pub fn previews(path: &str, is_file: bool) -> (r: bool)
    ensures
        r == (is_file && image_path(path@)),
{
    is_file && is_image(path)
}

/// What opens a file with the system default handler: a program and its first
/// arguments.
pub fn opener(has_xdg_open: bool) -> (r: (&'static str, Option<&'static str>))
    ensures
        has_xdg_open ==> r.0@ == "xdg-open"@ && r.1 is None,
        !has_xdg_open ==> r.0@ == "gio"@ && (r.1 matches Some(arg) && arg@ == "open"@),
{
    if has_xdg_open {
        ("xdg-open", None)
    } else {
        ("gio", Some("open"))
    }
}

/// Where a program is searched: below each directory of the search path.
pub open spec fn program_paths(dirs: Seq<Seq<char>>, program: Seq<char>) -> Seq<Seq<char>> {
    Seq::new(dirs.len(), |i: int| joined(dirs[i], program))
}

/// Of one of `paths` it was answered that it is a file.
pub open spec fn some_there<E: Fn(&str) -> bool>(is_file: E, paths: Seq<Seq<char>>) -> bool {
    exists|i: int| 0 <= i < paths.len() && answered(is_file, #[trigger] paths[i], true)
}

/// Of all of `paths` it was answered that they are no files.
pub open spec fn none_there<E: Fn(&str) -> bool>(is_file: E, paths: Seq<Seq<char>>) -> bool {
    forall|i: int| 0 <= i < paths.len() ==> answered(is_file, #[trigger] paths[i], false)
}

/// Whether a program is found on the search path, the environment's `PATH`.
pub fn which<E: Fn(&str) -> bool>(path: Option<&str>, program: &str, is_file: &E) -> (r: bool)
    requires
        forall|s: &str| call_requires(*is_file, (s,)),
    ensures
        match path {
            Some(p) => if r {
                some_there(*is_file, program_paths(split(p@, ':'), program@))
            } else {
                none_there(*is_file, program_paths(split(p@, ':'), program@))
            },
            None => !r,
        },
{
    let Some(p) = path else {
        return false;
    };
    let dirs = split_str(p, ':');
    let ghost paths = program_paths(split(p@, ':'), program@);
    for i in 0..dirs.len()
        invariant
            forall|s: &str| call_requires(*is_file, (s,)),
            path == Some(p),
            dirs.len() == split(p@, ':').len(),
            forall|k: int| 0 <= k < dirs.len() ==> (#[trigger] dirs@[k])@ == split(p@, ':')[k],
            paths == program_paths(split(p@, ':'), program@),
            forall|k: int| 0 <= k < i ==> answered(*is_file, #[trigger] paths[k], false),
    {
        let candidate = join(dirs[i], program);
        let there = is_file(candidate.as_str());
        proof {
            assert(dirs@[i as int]@ == split(p@, ':')[i as int]);
            assert(paths[i as int] == candidate@);
            assert(answered(*is_file, candidate@, there));
        }
        if there {
            assert(some_there(*is_file, paths));
            return true;
        }
    }
    false
}

/// The directory to start in: the one that was asked for, if it is one, else the
/// home directory.
pub fn start_dir(asked: Option<&str>, is_dir: bool, home: &str) -> (r: String)
    ensures
        r@ == match asked {
            Some(dir) => if is_dir {
                dir@
            } else {
                home@
            },
            None => home@,
        },
{
    match asked {
        Some(dir) if is_dir => dir.to_string(),
        _ => home.to_string(),
    }
}

// ---------------------------------------------------------------------------
// The browser

/// The file browser.
#[derive(Debug)]
pub struct Browser {
    pub cwd: String,
    /// The rows currently shown.
    pub rows: Vec<Row>,
    /// Directories visited, for the Back button.
    pub history: Vec<String>,
    /// The selected row, or -1.
    pub selected: i32,
}

/// A [`Browser`] as a mathematical value.
#[verifier::ext_equal]
pub struct BrowserView {
    pub cwd: Seq<char>,
    pub rows: Seq<RowView>,
    pub history: Seq<Seq<char>>,
    pub selected: int,
}

impl View for Browser {
    type V = BrowserView;

    open spec fn view(&self) -> BrowserView {
        BrowserView {
            cwd: self.cwd@,
            rows: row_views(self.rows@),
            history: views(self.history@),
            selected: self.selected as int,
        }
    }
}

/// The row to select on entering a directory with so many rows: the first.
pub open spec fn first_selection(count: int) -> int {
    if count > 0 {
        0
    } else {
        -1
    }
}

/// `after` shows the directory `dir` with the given entries.
pub open spec fn shows_dir(after: BrowserView, dir: Seq<char>, entries: Seq<DirEntry>) -> bool {
    &&& after.cwd == dir
    &&& lists(dir, entries, false, after.rows)
    &&& after.selected == first_selection(after.rows.len() as int)
}

/// The history after a move from `prev` to `dir`.
pub open spec fn visited(history: Seq<Seq<char>>, prev: Seq<char>, dir: Seq<char>) -> Seq<
    Seq<char>,
> {
    if same_path(prev, dir) {
        history
    } else {
        history.push(prev)
    }
}

/// The path of a row, if there is one with the index.
pub open spec fn path_at(rows: Seq<RowView>, idx: int) -> Option<Seq<char>> {
    if 0 <= idx < rows.len() {
        Some(rows[idx].path)
    } else {
        None
    }
}

impl Browser {
    /// The selection is a row or nothing.
    pub open spec fn wf(&self) -> bool {
        self.rows.len() <= i32::MAX && -1 <= self.selected < self.rows.len()
    }

    /// A browser at the root that shows nothing yet.
    pub fn new() -> (r: Self)
        ensures
            r.wf(),
            r@.cwd == "/"@,
            r@.rows.len() == 0,
            r@.history.len() == 0,
            r@.selected == -1,
    {
        Browser { cwd: "/".to_string(), rows: Vec::new(), history: Vec::new(), selected: -1 }
    }

    /// Show the directory `dir` with the entries that were read, without touching
    /// the history.
    pub fn show(&mut self, dir: String, entries: Vec<DirEntry>)
        requires
            entries.len() <= i32::MAX,
        ensures
            final(self).wf(),
            shows_dir(final(self)@, dir@, entries@),
            final(self)@.history == old(self)@.history,
    {
        self.rows = list_rows(dir.as_str(), entries, false);
        self.cwd = dir;
        self.selected = if self.rows.len() > 0 {
            0
        } else {
            -1
        };
    }

    /// Enter the directory `dir` with the entries that were read, pushing the
    /// current directory onto the back-history.
    pub fn navigate(&mut self, dir: String, entries: Vec<DirEntry>)
        requires
            entries.len() <= i32::MAX,
        ensures
            final(self).wf(),
            shows_dir(final(self)@, dir@, entries@),
            final(self)@.history == visited(old(self)@.history, old(self)@.cwd, dir@),
    {
        let prev = self.cwd.clone();
        self.show(dir, entries);
        if !paths_equal(prev.as_str(), self.cwd.as_str()) {
            let ghost before = self@.history;
            self.history.push(prev);
            assert(self@.history =~= before.push(prev@));
        }
    }

    /// The directory to enter to go up, if there is one.
    pub fn go_up(&self) -> (r: Option<String>)
        ensures
            match r {
                Some(p) => parent_of(self@.cwd) == Some(p@),
                None => parent_of(self@.cwd) is None,
            },
    {
        match parent(self.cwd.as_str()) {
            Some(p) => Some(p.to_string()),
            None => None,
        }
    }

    /// Take the directory to show to go back, if there is one.
    pub fn go_back(&mut self) -> (r: Option<String>)
        requires
            old(self).wf(),
        ensures
            final(self).wf(),
            match r {
                Some(prev) => {
                    &&& old(self)@.history.len() > 0
                    &&& prev@ == old(self)@.history.last()
                    &&& final(self)@ == (BrowserView {
                        history: old(self)@.history.drop_last(),
                        ..old(self)@
                    })
                },
                None => old(self)@.history.len() == 0 && final(self)@ == old(self)@,
            },
    {
        let ghost before = self@;
        let prev = self.history.pop();
        proof {
            if prev is Some {
                assert(self@ =~= BrowserView { history: before.history.drop_last(), ..before });
            } else {
                assert(self@ =~= before);
            }
        }
        prev
    }

    /// Whether there is a directory to go back to.
    pub fn can_back(&self) -> (r: bool)
        ensures
            r == (self@.history.len() > 0),
    {
        self.history.len() > 0
    }

    /// Where a path typed into the path bar leads: a directory is to be entered;
    /// a file's parent is to be entered and the file then selected.
    pub fn navigate_to<D: Fn(&str) -> bool, E: Fn(&str) -> bool>(
        &self,
        text: &str,
        home: &str,
        is_dir: &D,
        is_file: &E,
    ) -> (r: Visit)
        requires
            forall|s: &str| call_requires(*is_dir, (s,)),
            forall|s: &str| call_requires(*is_file, (s,)),
        ensures
            leads(*is_dir, *is_file, tilde_expanded(trim(text@), home@), r),
    {
        lead(expand_tilde(trim_str(text), home).as_str(), is_dir, is_file)
    }

    /// The directory to enter to go home, from the environment's `HOME`.
    pub fn go_home(&self, home: Option<&str>) -> (r: String)
        ensures
            r@ == home_of(
                match home {
                    Some(h) => Some(h@),
                    None => None,
                },
            ),
    {
        home_dir(home)
    }

    /// Select the row of a path, if it is shown.
    pub fn select_path(&mut self, path: &str)
        requires
            old(self).wf(),
        ensures
            final(self).wf(),
            final(self)@ == (BrowserView { selected: final(self)@.selected, ..old(self)@ }),
            first_at(old(self)@.rows, path@, final(self)@.selected) || (final(self)@.selected
                == old(self)@.selected && forall|k: int|
                0 <= k < old(self)@.rows.len() ==> !same_path(
                    #[trigger] old(self)@.rows[k].path,
                    path@,
                )),
    {
        let ghost before = self@;
        if let Some(i) = find_path(&self.rows, path) {
            self.selected = i as i32;
        }
        assert(self@ =~= BrowserView { selected: self@.selected, ..before });
    }

    /// A row was clicked: it is selected.
    pub fn entry_clicked(&mut self, idx: i32)
        requires
            old(self).wf(),
        ensures
            final(self).wf(),
            final(self)@ == (BrowserView {
                selected: if 0 <= idx < old(self)@.rows.len() {
                    idx as int
                } else {
                    old(self)@.selected
                },
                ..old(self)@
            }),
    {
        let ghost before = self@;
        if idx >= 0 && (idx as usize) < self.rows.len() {
            self.selected = idx;
        }
        assert(self@ =~= BrowserView { selected: self@.selected, ..before });
    }

    /// The path to open when the row `idx` is activated: a directory is entered,
    /// a file is launched with the system default handler.
    pub fn activate(&self, idx: i32) -> (r: Option<String>)
        ensures
            match r {
                Some(p) => path_at(
                    self@.rows,
                    if idx < 0 {
                        0
                    } else {
                        idx as int
                    },
                ) == Some(p@),
                None => path_at(
                    self@.rows,
                    if idx < 0 {
                        0
                    } else {
                        idx as int
                    },
                ) is None,
            },
    {
        let i: usize = if idx < 0 {
            0
        } else {
            idx as usize
        };
        if i < self.rows.len() {
            assert(self@.rows[i as int].path == self.rows@[i as int].path@);
            Some(self.rows[i].path.clone())
        } else {
            None
        }
    }

    /// The path to open when the selected row is activated.
    pub fn activate_selected(&self) -> (r: Option<String>)
        ensures
            match r {
                Some(p) => path_at(self@.rows, self@.selected) == Some(p@),
                None => path_at(self@.rows, self@.selected) is None,
            },
    {
        if self.selected >= 0 {
            self.activate(self.selected)
        } else {
            None
        }
    }

    /// Move the keyboard selection by `delta` rows (clamped). Large magnitudes
    /// act as Home/End.
    pub fn move_selection(&mut self, delta: i32)
        requires
            old(self).wf(),
        ensures
            final(self).wf(),
            final(self)@ == (BrowserView {
                selected: if old(self)@.rows.len() == 0 {
                    old(self)@.selected
                } else {
                    moved_selection(
                        old(self)@.rows.len() as int,
                        old(self)@.selected,
                        delta as int,
                    )
                },
                ..old(self)@
            }),
    {
        let ghost before = self@;
        if self.rows.len() > 0 {
            self.selected = move_in_list(self.rows.len(), self.selected, delta);
        }
        assert(self@ =~= BrowserView { selected: self@.selected, ..before });
    }

    /// The path of the selected row.
    pub fn selected_path(&self) -> (r: Option<&str>)
        ensures
            match r {
                Some(p) => path_at(self@.rows, self@.selected) == Some(p@),
                None => path_at(self@.rows, self@.selected) is None,
            },
    {
        if self.selected >= 0 && (self.selected as usize) < self.rows.len() {
            assert(self@.rows[self.selected as int].path == self.rows@[self.selected as int].path@);
            Some(self.rows[self.selected as usize].path.as_str())
        } else {
            None
        }
    }

    /// The file name of the selected row, or nothing.
    pub fn selected_name(&self) -> (r: String)
        ensures
            r@ == shown_name(path_at(self@.rows, self@.selected)),
    {
        match self.selected_path() {
            Some(p) => match file_name(p) {
                Some(name) => shown(name),
                None => String::new(),
            },
            None => String::new(),
        }
    }

    /// The window title for the current directory.
    pub fn window_title(&self) -> (r: String)
        ensures
            r@ == title_name(self@.cwd) + " — Files"@,
    {
        let mut out = match file_name(self.cwd.as_str()) {
            Some(name) => shown(name),
            None => "/".to_string(),
        };
        out.append(" — Files");
        out
    }
}

/// The name that a directory goes by in a title.
pub open spec fn title_name(cwd: Seq<char>) -> Seq<char> {
    match last_name(cwd) {
        Some(name) => shown_text(name),
        None => "/"@,
    }
}

// ---------------------------------------------------------------------------
// Laws

/// Going back after entering another directory leads to where one was, and
/// leaves the history as it was.
pub proof fn law_back_undoes_a_move(history: Seq<Seq<char>>, prev: Seq<char>, dir: Seq<char>)
    requires
        !same_path(prev, dir),
    ensures
        visited(history, prev, dir).len() > 0,
        visited(history, prev, dir).last() == prev,
        visited(history, prev, dir).drop_last() == history,
{
    assert(visited(history, prev, dir).drop_last() =~= history);
}

/// A large move acts as Home or End, and no move leaves the list.
pub proof fn law_selection_stays_in_the_list(count: int, current: int, delta: int)
    requires
        count > 0,
        current < count,
    ensures
        0 <= moved_selection(count, current, delta) < count,
        delta >= count ==> current >= 0 ==> moved_selection(count, current, delta) == count - 1,
        delta <= -count ==> current >= 0 ==> moved_selection(count, current, delta) == 0,
{
}

/// A move goes so many rows up or down, and not beyond the first and the last row.
/// Without a selection it goes to the first row, or upwards to the last.
pub proof fn law_moves_go_by_rows(count: int, current: int, delta: int)
    requires
        count > 0,
        -1 <= current < count,
    ensures
        current >= 0 && 0 <= current + delta < count ==> moved_selection(count, current, delta)
            == current + delta,
        current >= 0 && current + delta < 0 ==> moved_selection(count, current, delta) == 0,
        current >= 0 && current + delta >= count ==> moved_selection(count, current, delta) == count
            - 1,
        current < 0 && delta >= 0 ==> moved_selection(count, current, delta) == 0,
        current < 0 && delta < 0 ==> moved_selection(count, current, delta) == count - 1,
        first_selection(count) == 0,
        first_selection(0) == -1,
{
}

/// A leading `~` stands for the home directory, and only a leading one; without a
/// home directory that is the root.
pub proof fn law_tilde_is_the_home_directory(rest: Seq<char>, home: Seq<char>)
    ensures
        tilde_expanded(seq!['~'] + rest, home) == shown_text(home) + rest,
        rest.len() == 0 || rest[0] != '~' ==> tilde_expanded(rest, home) == rest,
        home_of(Some(home)) == home,
        home_of(None) == "/"@,
{
    assert((seq!['~'] + rest).drop_first() =~= rest);
}

/// A directory is left for the history when another is entered, and not when it is
/// entered again.
pub proof fn law_history_holds_the_directories_left(
    history: Seq<Seq<char>>,
    prev: Seq<char>,
    dir: Seq<char>,
)
    ensures
        visited(history, prev, prev) == history,
        visited(history, prev, dir).len() <= history.len() + 1,
        visited(history, prev, dir).take(history.len() as int) == history,
{
    assert(visited(history, prev, dir).take(history.len() as int) =~= history);
}

/// A row that is selected has its path; what lies outside of the list has none. An
/// entry is described as a folder, or by its size and its kind.
pub proof fn law_rows_and_descriptions(rows: Seq<RowView>, i: int, len: u64, kind: Seq<char>)
    ensures
        0 <= i < rows.len() ==> path_at(rows, i) == Some(rows[i].path),
        i < 0 || i >= rows.len() ==> path_at(rows, i) is None,
        description(true, Some(len), kind) == "Folder"@,
        description(false, Some(len), kind) == size_text(len as nat) + " · "@ + kind,
        description(false, None, kind) == kind,
{
}

/// The name that is shown of a path is that of its last component, and the title
/// of the root is a slash.
pub proof fn law_shown_names(path: Seq<char>)
    ensures
        last_name(path) matches Some(name) ==> title_name(path) == shown_text(name) && shown_name(
            Some(path),
        ) == shown_text(name),
        last_name(path) is None ==> title_name(path) == "/"@ && shown_name(Some(path)).len() == 0,
        shown_name(None).len() == 0,
{
}

/// A directory is entered, a file is selected in its parent, and anything else leads
/// nowhere. What is no directory is listed as the root, and a browser that was asked
/// for none starts at home.
pub proof fn law_where_paths_lead(
    path: &str,
    is_dir: bool,
    is_file: bool,
    to: Visit,
    listed: String,
    asked: Option<&str>,
    home: &str,
    start: String,
)
    requires
        call_ensures(visit, (path, is_dir, is_file), to),
        call_ensures(directory_or_root, (path, is_dir), listed),
        call_ensures(start_dir, (asked, is_dir, home), start),
    ensures
        to is Directory <==> is_dir,
        to matches Visit::Directory(p) ==> p@ == path@,
        to is File <==> !is_dir && is_file && parent_of(path@) is Some,
        to matches Visit::File { parent, path: p } ==> p@ == path@ && parent_of(path@) == Some(
            parent@,
        ),
        is_dir ==> listed@ == path@,
        !is_dir ==> listed@ == "/"@,
        asked is None || !is_dir ==> start@ == home@,
        is_dir ==> (asked matches Some(dir) ==> start@ == dir@),
{
}

/// Files are opened with `xdg-open` where there is one, else with `gio open`, and
/// pictures that are files are previewed.
pub proof fn law_how_files_are_opened(
    has_xdg_open: bool,
    r: (&'static str, Option<&'static str>),
    path: &str,
    is_file: bool,
    preview: bool,
)
    requires
        call_ensures(opener, (has_xdg_open,), r),
        call_ensures(previews, (path, is_file), preview),
    ensures
        has_xdg_open ==> r.0@ == "xdg-open"@ && r.1 is None,
        !has_xdg_open ==> r.0@ == "gio"@ && (r.1 matches Some(arg) && arg@ == "open"@),
        preview <==> is_file && image_path(path@),
{
}

/// A typed path leads into a directory only if it was answered that it is one, and
/// to a file only if it was answered that it is a file and no directory.
pub proof fn law_typed_paths_lead_where_answered<D: Fn(&str) -> bool, E: Fn(&str) -> bool>(
    is_dir: D,
    is_file: E,
    path: Seq<char>,
    visit: Visit,
)
    requires
        leads(is_dir, is_file, path, visit),
    ensures
        visit matches Visit::Directory(p) ==> p@ == path && answered(is_dir, path, true),
        visit matches Visit::File { parent, path: p } ==> p@ == path && parent_of(path) == Some(
            parent@,
        ) && answered(is_dir, path, false) && answered(is_file, path, true),
        visit is Nowhere ==> answered(is_dir, path, false),
{
}

/// The row that a path selects is that of the path, and the first such.
pub proof fn law_paths_select_their_row(rows: Seq<RowView>, path: Seq<char>, i: int, k: int)
    requires
        first_at(rows, path, i),
        0 <= k < rows.len(),
        same_path(rows[k].path, path),
    ensures
        0 <= i <= k,
        same_path(rows[i].path, path),
{
}

/// A program is searched below each directory of the search path, in its order.
pub proof fn law_programs_are_searched_everywhere(
    dirs: Seq<Seq<char>>,
    program: Seq<char>,
    i: int,
)
    requires
        0 <= i < dirs.len(),
    ensures
        program_paths(dirs, program).len() == dirs.len(),
        program_paths(dirs, program)[i] == joined(dirs[i], program),
{
}

} // verus!
