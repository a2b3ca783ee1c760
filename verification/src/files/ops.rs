//! Naming rules of the browser's file operations: copy, move, trash, rename and
//! folder creation.
//!
//! What exists is asked of a function that the caller passes; the files
//! themselves are copied, moved and written by the caller. Paths are the texts of
//! [`path_text`](crate::text::ospath::path_text).

use vstd::prelude::*;

use crate::files::browser::home_of;
use crate::text::chars::{contains_char, trim, trim_str};
use crate::text::number::{decimal, decimal_of};
use crate::text::ospath::{shown, shown_text};
use crate::text::paths::{
    file_name, find_last_dot, join, joined, last_dot, last_name, law_extensions_follow_the_last_dot,
    parent, parent_of, paths_equal, same_path,
};
use crate::text::percent::{percent_encode, percent_encoded};

verus! {

/// How many names are tried before giving up.
pub const MAX_TRIES: u64 = 0x7fff_ffff;

/// Why a file operation is refused.
#[derive(Debug, Clone, Copy, PartialEq, Eq, Structural)]
pub enum OpsError {
    /// The name is empty or holds a slash.
    InvalidName,
    /// The path has no parent.
    NoParent,
    /// The path has no file name.
    NoFileName,
    /// A file with that name already exists.
    AlreadyExists,
    /// Every name that was tried is taken.
    NoFreeName,
}

impl OpsError {
    /// The message of the error.
    pub fn message(&self) -> (r: &'static str)
        ensures
            r@ == match *self {
                OpsError::InvalidName => "invalid name"@,
                OpsError::NoParent => "no parent"@,
                OpsError::NoFileName => "path has no file name"@,
                OpsError::AlreadyExists => "a file with that name already exists"@,
                OpsError::NoFreeName => "no free name"@,
            },
    {
        match self {
            OpsError::InvalidName => "invalid name",
            OpsError::NoParent => "no parent",
            OpsError::NoFileName => "path has no file name",
            OpsError::AlreadyExists => "a file with that name already exists",
            OpsError::NoFreeName => "no free name",
        }
    }
}

// ---------------------------------------------------------------------------
// Names

/// A file name split at its last dot into stem and extension. Dotfiles like
/// `.bashrc` keep the whole name as the stem.
pub open spec fn name_parts(name: Seq<char>) -> (Seq<char>, Option<Seq<char>>) {
    let i = last_dot(name);
    if i > 0 {
        (name.take(i), Some(name.skip(i + 1)))
    } else {
        (name, None)
    }
}

/// `stem`, `suffix` and the extension, if there is one.
pub open spec fn with_suffix(name: Seq<char>, suffix: Seq<char>) -> Seq<char> {
    let (stem, ext) = name_parts(name);
    match ext {
        Some(e) => stem + suffix + "."@ + e,
        None => stem + suffix,
    }
}

/// What is put before the extension of the `n`-th copy.
pub open spec fn copy_suffix(n: nat) -> Seq<char> {
    if n == 1 {
        " (copy)"@
    } else {
        " (copy "@ + decimal(n) + ")"@
    }
}

/// The name that is tried after `n` others were taken.
pub open spec fn copy_name(name: Seq<char>, n: nat) -> Seq<char> {
    if n == 0 {
        name
    } else {
        with_suffix(name, copy_suffix(n))
    }
}

/// The name in the trash that is tried as number `n`, counted from 1.
pub open spec fn trash_name(name: Seq<char>, n: nat) -> Seq<char> {
    if n <= 1 {
        name
    } else {
        with_suffix(name, "."@ + decimal(n))
    }
}

/// The function answered `answer` for the path.
pub open spec fn answered<E: Fn(&str) -> bool>(exists_at: E, path: Seq<char>, answer: bool) -> bool {
    exists|s: &str| s@ == path && #[trigger] call_ensures(exists_at, (s,), answer)
}

/// The candidate number `n` for `name` in `dir` does not exist, and of all before
/// it, it was answered that they do.
pub open spec fn first_free<E: Fn(&str) -> bool>(
    exists_at: E,
    dir: Seq<char>,
    name: Seq<char>,
    n: nat,
) -> bool {
    &&& answered(exists_at, joined(dir, copy_name(name, n)), false)
    &&& all_taken(exists_at, dir, name, n)
}

/// `path` is the first of the candidates for `name` in `dir` that does not exist.
pub open spec fn free_path<E: Fn(&str) -> bool>(
    exists_at: E,
    dir: Seq<char>,
    name: Seq<char>,
    path: Seq<char>,
) -> bool {
    exists|n: nat|
        n <= MAX_TRIES && path == joined(dir, copy_name(name, n)) && #[trigger] first_free(
            exists_at,
            dir,
            name,
            n,
        )
}

/// Of the first `n` candidates it was answered that they exist.
pub open spec fn all_taken<E: Fn(&str) -> bool>(
    exists_at: E,
    dir: Seq<char>,
    name: Seq<char>,
    n: nat,
) -> bool {
    forall|k: nat| k < n ==> answered(exists_at, #[trigger] joined(dir, copy_name(name, k)), true)
}

/// Split a file name into (stem, extension). Dotfiles like ".bashrc" keep the
/// whole name as the stem.
pub fn split_name(name: &str) -> (r: (String, Option<String>))
    ensures
        r.0@ == name_parts(name@).0,
        match r.1 {
            Some(ext) => name_parts(name@).1 == Some(ext@),
            None => name_parts(name@).1 is None,
        },
{
    let n = name.unicode_len();
    match find_last_dot(name) {
        Some(i) if i > 0 => {
            let stem = name.substring_char(0, i);
            let ext = name.substring_char(i + 1, n);
            assert(stem@ =~= name@.take(i as int));
            assert(ext@ =~= name@.skip(i + 1));
            (stem.to_string(), Some(ext.to_string()))
        },
        _ => (name.to_string(), None),
    }
}

/// The name with something put before its extension.
fn suffixed(name: &str, suffix: &str) -> (r: String)
    ensures
        r@ == with_suffix(name@, suffix@),
{
    let (stem, ext) = split_name(name);
    let mut out = stem;
    out.append(suffix);
    if let Some(e) = ext {
        out.append(".");
        out.append(e.as_str());
    }
    out
}

/// The name that is tried after `n` others were taken.
pub fn candidate_name(name: &str, n: u64) -> (r: String)
    ensures
        r@ == copy_name(name@, n as nat),
{
    if n == 0 {
        return name.to_string();
    }
    if n == 1 {
        return suffixed(name, " (copy)");
    }
    let mut suffix = " (copy ".to_string();
    suffix.append(decimal_of(n).as_str());
    suffix.append(")");
    suffixed(name, suffix.as_str())
}

/// Pick a non-colliding path for `name` inside `dir`. If `dir/name` is free it
/// is returned as-is; otherwise " (copy)", " (copy 2)", … is inserted before the
/// extension. There is none if the function says of every candidate that it
/// exists.
pub fn unique_destination<E: Fn(&str) -> bool>(dir: &str, name: &str, exists_at: &E) -> (r: Option<
    String,
>)
    requires
        forall|s: &str| call_requires(*exists_at, (s,)),
    ensures
        match r {
            Some(path) => free_path(*exists_at, dir@, name@, path@),
            None => all_taken(*exists_at, dir@, name@, (MAX_TRIES + 1) as nat),
        },
{
    let mut n: u64 = 0;
    while n <= MAX_TRIES
        invariant
            n <= MAX_TRIES + 1,
            forall|s: &str| call_requires(*exists_at, (s,)),
            all_taken(*exists_at, dir@, name@, n as nat),
        decreases MAX_TRIES + 1 - n,
    {
        let candidate = join(dir, candidate_name(name, n).as_str());
        let taken = exists_at(candidate.as_str());
        assert(answered(*exists_at, candidate@, taken));
        if !taken {
            assert(first_free(*exists_at, dir@, name@, n as nat));
            return Some(candidate);
        }
        n += 1;
    }
    None
}

// ---------------------------------------------------------------------------
// Operations

/// Where to copy `src` (file or directory) to in `dst_dir`, under a
/// collision-free name. The copy has the name of the source as it is shown.
pub fn copy_into<E: Fn(&str) -> bool>(src: &str, dst_dir: &str, exists_at: &E) -> (r: Result<
    String,
    OpsError,
>)
    requires
        forall|s: &str| call_requires(*exists_at, (s,)),
    ensures
        match r {
            Ok(path) => last_name(src@) matches Some(name) && free_path(
                *exists_at,
                dst_dir@,
                shown_text(name),
                path@,
            ),
            Err(OpsError::NoFileName) => last_name(src@) is None,
            Err(OpsError::NoFreeName) => last_name(src@) matches Some(name) && all_taken(
                *exists_at,
                dst_dir@,
                shown_text(name),
                (MAX_TRIES + 1) as nat,
            ),
            Err(_) => false,
        },
{
    let Some(name) = file_name(src) else {
        return Err(OpsError::NoFileName);
    };
    match unique_destination(dst_dir, shown(name).as_str(), exists_at) {
        Some(path) => Ok(path),
        None => Err(OpsError::NoFreeName),
    }
}

/// Where to move `src` to in `dst_dir`, under a collision-free name. How it gets
/// there is decided by [`move_step`].
pub fn move_into<E: Fn(&str) -> bool>(src: &str, dst_dir: &str, exists_at: &E) -> (r: Result<
    String,
    OpsError,
>)
    requires
        forall|s: &str| call_requires(*exists_at, (s,)),
    ensures
        match r {
            Ok(path) => last_name(src@) matches Some(name) && free_path(
                *exists_at,
                dst_dir@,
                shown_text(name),
                path@,
            ),
            Err(OpsError::NoFileName) => last_name(src@) is None,
            Err(OpsError::NoFreeName) => last_name(src@) matches Some(name) && all_taken(
                *exists_at,
                dst_dir@,
                shown_text(name),
                (MAX_TRIES + 1) as nat,
            ),
            Err(_) => false,
        },
{
    copy_into(src, dst_dir, exists_at)
}

/// How far moving a file has come.
#[derive(Debug, Clone, Copy, PartialEq, Eq, Structural)]
pub enum MoveState {
    /// Nothing was tried yet.
    New,
    /// A plain rename was tried.
    Renaming,
    /// The file was copied after the rename failed.
    Copying,
    /// The source was removed after the copy.
    Removing,
    Succeeded,
    Failed,
}

/// What moving a file asks for next.
#[derive(Debug, Clone, Copy, PartialEq, Eq, Structural)]
pub enum MoveAction {
    /// Rename the source to the destination.
    Rename,
    /// Copy the source to the destination.
    Copy,
    /// Remove the source.
    Remove,
    /// The file is moved.
    Succeed,
    /// The last action failed, and so did the move.
    Fail,
}

/// How far moving a file has come, and what it asks for next, when what it last
/// asked for failed or not. A plain rename is enough where it works; one that
/// fails, as between file systems, becomes a copy and then a removal.
pub open spec fn move_stepped(state: MoveState, failed: bool) -> (MoveState, MoveAction) {
    match state {
        MoveState::New => (MoveState::Renaming, MoveAction::Rename),
        MoveState::Renaming => if failed {
            (MoveState::Copying, MoveAction::Copy)
        } else {
            (MoveState::Succeeded, MoveAction::Succeed)
        },
        MoveState::Copying => if failed {
            (MoveState::Failed, MoveAction::Fail)
        } else {
            (MoveState::Removing, MoveAction::Remove)
        },
        MoveState::Removing => if failed {
            (MoveState::Failed, MoveAction::Fail)
        } else {
            (MoveState::Succeeded, MoveAction::Succeed)
        },
        MoveState::Succeeded => (MoveState::Succeeded, MoveAction::Succeed),
        MoveState::Failed => (MoveState::Failed, MoveAction::Fail),
    }
}

/// Go on with moving a file. `failed` says whether what was last asked for
/// failed; it counts for nothing at the start and at the end.
pub fn move_step(state: MoveState, failed: bool) -> (r: (MoveState, MoveAction))
    ensures
        r == move_stepped(state, failed),
{
    match state {
        MoveState::New => (MoveState::Renaming, MoveAction::Rename),
        MoveState::Renaming if failed => (MoveState::Copying, MoveAction::Copy),
        MoveState::Copying if !failed => (MoveState::Removing, MoveAction::Remove),
        MoveState::Renaming | MoveState::Succeeded => (MoveState::Succeeded, MoveAction::Succeed),
        MoveState::Removing if !failed => (MoveState::Succeeded, MoveAction::Succeed),
        MoveState::Copying | MoveState::Removing | MoveState::Failed => (
            MoveState::Failed,
            MoveAction::Fail,
        ),
    }
}

/// A name that a file can be given: not empty, and no path.
pub open spec fn valid_name(name: Seq<char>) -> bool {
    trim(name).len() > 0 && !trim(name).contains('/')
}

/// What a rename comes to.
#[derive(Debug, PartialEq)]
pub enum Renaming {
    /// The file has that name already.
    Keep(String),
    /// The file is to be moved to this path.
    Move(String),
}

/// What renaming `path` in place to `new_name` (a bare file name, not a path)
/// comes to.
pub fn rename<E: Fn(&str) -> bool>(path: &str, new_name: &str, exists_at: &E) -> (r: Result<
    Renaming,
    OpsError,
>)
    requires
        forall|s: &str| call_requires(*exists_at, (s,)),
    ensures
        match r {
            Ok(Renaming::Keep(dst)) => {
                &&& valid_name(new_name@)
                &&& parent_of(path@) matches Some(dir) && dst@ == joined(dir, trim(new_name@))
                &&& same_path(dst@, path@)
            },
            Ok(Renaming::Move(dst)) => {
                &&& valid_name(new_name@)
                &&& parent_of(path@) matches Some(dir) && dst@ == joined(dir, trim(new_name@))
                &&& !same_path(dst@, path@)
                &&& answered(*exists_at, dst@, false)
            },
            Err(OpsError::InvalidName) => !valid_name(new_name@),
            Err(OpsError::NoParent) => valid_name(new_name@) && parent_of(path@) is None,
            Err(OpsError::AlreadyExists) => valid_name(new_name@) && (parent_of(path@) matches Some(
                dir,
            ) && !same_path(joined(dir, trim(new_name@)), path@) && answered(
                *exists_at,
                joined(dir, trim(new_name@)),
                true,
            )),
            Err(_) => false,
        },
{
    let name = trim_str(new_name);
    if name.is_empty() || contains_char(name, '/') {
        return Err(OpsError::InvalidName);
    }
    let Some(dir) = parent(path) else {
        return Err(OpsError::NoParent);
    };
    let dst = join(dir, name);
    if paths_equal(dst.as_str(), path) {
        return Ok(Renaming::Keep(dst));
    }
    let taken = exists_at(dst.as_str());
    assert(answered(*exists_at, dst@, taken));
    if taken {
        return Err(OpsError::AlreadyExists);
    }
    Ok(Renaming::Move(dst))
}

/// Where to create a new directory `name` inside `dir` (collision-free).
pub fn create_folder<E: Fn(&str) -> bool>(dir: &str, name: &str, exists_at: &E) -> (r: Result<
    String,
    OpsError,
>)
    requires
        forall|s: &str| call_requires(*exists_at, (s,)),
    ensures
        match r {
            Ok(path) => valid_name(name@) && free_path(*exists_at, dir@, trim(name@), path@),
            Err(OpsError::InvalidName) => !valid_name(name@),
            Err(OpsError::NoFreeName) => valid_name(name@) && all_taken(
                *exists_at,
                dir@,
                trim(name@),
                (MAX_TRIES + 1) as nat,
            ),
            Err(_) => false,
        },
{
    let name = trim_str(name);
    if name.is_empty() || contains_char(name, '/') {
        return Err(OpsError::InvalidName);
    }
    match unique_destination(dir, name, exists_at) {
        Some(path) => Ok(path),
        None => Err(OpsError::NoFreeName),
    }
}

// ---------------------------------------------------------------------------
// Trash

/// `$XDG_DATA_HOME`, or `~/.local/share`.
pub open spec fn data_home_of(xdg: Option<Seq<char>>, home: Option<Seq<char>>) -> Seq<char> {
    match xdg {
        Some(dir) => if dir.len() > 0 {
            dir
        } else {
            joined(home_of(home), ".local/share"@)
        },
        None => joined(home_of(home), ".local/share"@),
    }
}

/// The view of an optional text.
pub open spec fn option_view(s: Option<&str>) -> Option<Seq<char>> {
    match s {
        Some(t) => Some(t@),
        None => None,
    }
}

/// The data directory, from the environment's `XDG_DATA_HOME` and `HOME`.
pub fn data_home(xdg: Option<&str>, home: Option<&str>) -> (r: String)
    ensures
        r@ == data_home_of(option_view(xdg), option_view(home)),
{
    if let Some(dir) = xdg {
        if !dir.is_empty() {
            return dir.to_string();
        }
    }
    let home = match home {
        Some(h) => h,
        None => "/",
    };
    join(home, ".local/share")
}

/// The trash, from the environment's `XDG_DATA_HOME` and `HOME`.
pub fn trash_dir(xdg: Option<&str>, home: Option<&str>) -> (r: String)
    ensures
        r@ == joined(data_home_of(option_view(xdg), option_view(home)), "Trash"@),
{
    join(data_home(xdg, home).as_str(), "Trash")
}

/// The directories below the trash that hold the files and their info files.
pub fn trash_dirs(trash: &str) -> (r: (String, String))
    ensures
        r.0@ == joined(trash@, "files"@),
        r.1@ == joined(trash@, "info"@),
{
    (join(trash, "files"), join(trash, "info"))
}

/// Where a file with a name in the trash is.
pub open spec fn trash_file(trash: Seq<char>, name: Seq<char>) -> Seq<char> {
    joined(joined(trash, "files"@), name)
}

/// Where the info file for a name in the trash is.
pub open spec fn trash_info_file(trash: Seq<char>, name: Seq<char>) -> Seq<char> {
    joined(joined(trash, "info"@), name + ".trashinfo"@)
}

/// Where a file with a name in the trash is, and its info file.
pub fn trash_paths(trash: &str, name: &str) -> (r: (String, String))
    ensures
        r.0@ == joined(joined(trash@, "files"@), name@),
        r.1@ == joined(joined(trash@, "info"@), name@ + ".trashinfo"@),
{
    let (files, info) = trash_dirs(trash);
    let mut described = name.to_string();
    described.append(".trashinfo");
    (join(files.as_str(), name), join(info.as_str(), described.as_str()))
}

/// It was answered that there is a file or an info file of that name in the
/// trash.
pub open spec fn in_trash<E: Fn(&str) -> bool>(
    exists_at: E,
    trash: Seq<char>,
    name: Seq<char>,
) -> bool {
    ||| answered(exists_at, trash_file(trash, name), true)
    ||| answered(exists_at, trash_info_file(trash, name), true)
}

/// It was answered that there is neither a file nor an info file of that name in
/// the trash.
pub open spec fn not_in_trash<E: Fn(&str) -> bool>(
    exists_at: E,
    trash: Seq<char>,
    name: Seq<char>,
) -> bool {
    &&& answered(exists_at, trash_file(trash, name), false)
    &&& answered(exists_at, trash_info_file(trash, name), false)
}

/// The names in the trash numbered from 1 to before `n` are taken.
pub open spec fn trash_taken<E: Fn(&str) -> bool>(
    exists_at: E,
    trash: Seq<char>,
    name: Seq<char>,
    n: nat,
) -> bool {
    forall|k: nat| 1 <= k < n ==> in_trash(exists_at, trash, #[trigger] trash_name(name, k))
}

/// `target` is the first name in the trash for `name` that is not taken.
pub open spec fn free_in_trash<E: Fn(&str) -> bool>(
    exists_at: E,
    trash: Seq<char>,
    name: Seq<char>,
    target: Seq<char>,
) -> bool {
    not_in_trash(exists_at, trash, target) && exists|n: nat|
        1 <= n <= MAX_TRIES && target == trash_name(name, n) && #[trigger] trash_taken(
            exists_at,
            trash,
            name,
            n,
        )
}

/// The name in the trash that is tried as number `n`.
pub fn trash_candidate(name: &str, n: u64) -> (r: String)
    ensures
        r@ == trash_name(name@, n as nat),
{
    if n <= 1 {
        return name.to_string();
    }
    let mut suffix = ".".to_string();
    suffix.append(decimal_of(n).as_str());
    suffixed(name, suffix.as_str())
}

/// A free name in the trash for the file `path`: one that neither a file nor an
/// info file has.
pub fn trash_target<E: Fn(&str) -> bool>(path: &str, trash: &str, exists_at: &E) -> (r: Result<
    String,
    OpsError,
>)
    requires
        forall|s: &str| call_requires(*exists_at, (s,)),
    ensures
        match r {
            Ok(target) => last_name(path@) matches Some(name) && free_in_trash(
                *exists_at,
                trash@,
                shown_text(name),
                target@,
            ),
            Err(OpsError::NoFileName) => last_name(path@) is None,
            Err(OpsError::NoFreeName) => last_name(path@) matches Some(name) && trash_taken(
                *exists_at,
                trash@,
                shown_text(name),
                (MAX_TRIES + 1) as nat,
            ),
            Err(_) => false,
        },
{
    let Some(last) = file_name(path) else {
        return Err(OpsError::NoFileName);
    };
    let name = shown(last);
    let mut n: u64 = 1;
    while n <= MAX_TRIES
        invariant
            1 <= n <= MAX_TRIES + 1,
            last_name(path@) == Some(last@),
            name@ == shown_text(last@),
            forall|s: &str| call_requires(*exists_at, (s,)),
            trash_taken(*exists_at, trash@, name@, n as nat),
        decreases MAX_TRIES + 1 - n,
    {
        let target = trash_candidate(name.as_str(), n);
        let (file, info) = trash_paths(trash, target.as_str());
        let mut there = exists_at(file.as_str());
        assert(answered(*exists_at, file@, there));
        if !there {
            there = exists_at(info.as_str());
            assert(answered(*exists_at, info@, there));
        }
        if !there {
            assert(trash_taken(*exists_at, trash@, name@, n as nat));
            return Ok(target);
        }
        n += 1;
    }
    Err(OpsError::NoFreeName)
}

/// How far moving a file to the trash has come.
#[derive(Debug, Clone, Copy, PartialEq, Eq, Structural)]
pub enum TrashState {
    /// Nothing was done yet.
    New,
    /// The info file was written.
    Describing,
    /// The file is being moved.
    Moving(MoveState),
    Failed,
}

/// What moving a file to the trash asks for next.
#[derive(Debug, Clone, Copy, PartialEq, Eq, Structural)]
pub enum TrashAction {
    /// Write the info file.
    Describe,
    /// A step of moving the file.
    Move(MoveAction),
    /// The info file could not be written.
    Fail,
}

/// How far moving a file to the trash has come, and what it asks for next, when
/// what it last asked for failed or not. The info file comes first, so that a
/// partly-trashed item is always described; then the file is moved.
pub open spec fn trash_stepped(state: TrashState, failed: bool) -> (TrashState, TrashAction) {
    match state {
        TrashState::New => (TrashState::Describing, TrashAction::Describe),
        TrashState::Describing => if failed {
            (TrashState::Failed, TrashAction::Fail)
        } else {
            let (next, action) = move_stepped(MoveState::New, false);
            (TrashState::Moving(next), TrashAction::Move(action))
        },
        TrashState::Moving(at) => {
            let (next, action) = move_stepped(at, failed);
            (TrashState::Moving(next), TrashAction::Move(action))
        },
        TrashState::Failed => (TrashState::Failed, TrashAction::Fail),
    }
}

/// Go on with moving a file to the trash. `failed` says whether what was last
/// asked for failed; it counts for nothing at the start and at the end.
pub fn trash_step(state: TrashState, failed: bool) -> (r: (TrashState, TrashAction))
    ensures
        r == trash_stepped(state, failed),
{
    match state {
        TrashState::New => (TrashState::Describing, TrashAction::Describe),
        TrashState::Describing if !failed => {
            let (next, action) = move_step(MoveState::New, false);
            (TrashState::Moving(next), TrashAction::Move(action))
        },
        TrashState::Moving(at) => {
            let (next, action) = move_step(at, failed);
            (TrashState::Moving(next), TrashAction::Move(action))
        },
        TrashState::Describing | TrashState::Failed => (TrashState::Failed, TrashAction::Fail),
    }
}

/// The contents of the `.trashinfo` file of a file that was at `path` and was
/// deleted at `date`.
pub open spec fn trash_info_text(path: Seq<char>, date: Seq<char>) -> Seq<char> {
    "[Trash Info]\nPath="@ + percent_encoded(shown_text(path)) + "\nDeletionDate="@ + date + "\n"@
}

/// The contents of the `.trashinfo` file, so that the file can be restored.
pub fn trash_info(path: &str, date: &str) -> (r: String)
    ensures
        r@ == trash_info_text(path@, date@),
{
    let mut out = "[Trash Info]\nPath=".to_string();
    out.append(percent_encode(shown(path).as_str()).as_str());
    out.append("\nDeletionDate=");
    out.append(date);
    out.append("\n");
    out
}

// ---------------------------------------------------------------------------
// Laws

/// The stem, a dot and the extension make up the name again.
pub proof fn law_name_parts_make_up_the_name(name: Seq<char>)
    ensures
        match name_parts(name).1 {
            Some(ext) => name == name_parts(name).0.push('.') + ext,
            None => name == name_parts(name).0,
        },
{
    lemma_last_dot(name);
    let i = last_dot(name);
    if i > 0 {
        assert(name =~= name.take(i).push('.') + name.skip(i + 1));
    }
}

/// A move ends after at most three actions. It succeeds if and only if the rename
/// worked, or else the copy and the removal did, and the source is only removed
/// after a copy that worked.
pub proof fn law_move_falls_back_to_a_copy(rename: bool, copy: bool, removal: bool)
    ensures
        ({
            let (s1, a1) = move_stepped(MoveState::New, false);
            let (s2, a2) = move_stepped(s1, !rename);
            let (s3, a3) = move_stepped(s2, !copy);
            let (s4, a4) = move_stepped(s3, !removal);
            &&& a1 is Rename
            &&& a2 is Copy <==> !rename
            &&& a3 is Remove <==> !rename && copy
            &&& s4 is Succeeded <==> rename || (copy && removal)
            &&& s4 is Succeeded || s4 is Failed
        }),
{
}

/// The source is removed after a copy that worked, and at no other time.
pub proof fn law_only_copied_files_are_removed(state: MoveState, failed: bool)
    ensures
        move_stepped(state, failed).1 is Remove <==> state is Copying && !failed,
{
}

/// A file is moved to the trash after its info file was written, and not at all
/// if that failed.
pub proof fn law_trashed_files_are_described(written: bool, failed: bool)
    ensures
        ({
            let (s1, a1) = trash_stepped(TrashState::New, failed);
            let (s2, a2) = trash_stepped(s1, !written);
            let (s3, a3) = trash_stepped(s2, failed);
            &&& a1 is Describe
            &&& written <==> a2 == TrashAction::Move(MoveAction::Rename)
            &&& !written ==> a2 is Fail && a3 is Fail
        }),
{
}

/// The last dot is a dot, and none follows it.
proof fn lemma_last_dot(s: Seq<char>)
    ensures
        -1 <= last_dot(s) < s.len(),
        last_dot(s) >= 0 ==> s[last_dot(s)] == '.',
    decreases s.len(),
{
    if s.len() > 0 && s.last() != '.' {
        lemma_last_dot(s.drop_last());
    }
}

/// A copy of a copy: the marker, and from the second on its number, stands before
/// the extension, or at the end of a name without one. In the trash a number stands
/// there alone.
pub proof fn law_markers_stand_before_the_extension(stem: Seq<char>, ext: Seq<char>, n: nat)
    requires
        stem.len() > 0,
        !ext.contains('.'),
        n >= 2,
    ensures
        ({
            let name = stem.push('.') + ext;
            &&& copy_name(name, 0) == name
            &&& copy_name(name, 1) == stem + " (copy)"@ + "."@ + ext
            &&& copy_name(name, n) == stem + (" (copy "@ + decimal(n) + ")"@) + "."@ + ext
            &&& trash_name(name, 1) == name
            &&& trash_name(name, n) == stem + ("."@ + decimal(n)) + "."@ + ext
            &&& copy_name(ext, 0) == ext
            &&& copy_name(ext, 1) == ext + " (copy)"@
            &&& copy_name(ext, n) == ext + (" (copy "@ + decimal(n) + ")"@)
            &&& trash_name(ext, n) == ext + ("."@ + decimal(n))
        }),
{
    let name = stem.push('.') + ext;
    law_extensions_follow_the_last_dot(stem, ext);
    assert(last_dot(name) > 0 && name.skip(last_dot(name) + 1) == ext);
    lemma_last_dot(name);
    assert(last_dot(name) == stem.len()) by {
        assert(name.skip(last_dot(name) + 1).len() == ext.len());
    }
    assert(name.take(stem.len() as int) =~= stem);
    lemma_last_dot(ext);
    if last_dot(ext) >= 0 {
        assert(ext.contains(ext[last_dot(ext)]));
    }
}

/// A dotfile keeps its whole name as the stem: its marker stands at the end.
pub proof fn law_dotfiles_have_no_extension(rest: Seq<char>)
    requires
        !rest.contains('.'),
    ensures
        name_parts(seq!['.'] + rest) == (seq!['.'] + rest, None::<Seq<char>>),
{
    let none = Seq::<char>::empty();
    law_extensions_follow_the_last_dot(none, rest);
    assert(none.push('.') + rest =~= seq!['.'] + rest);
}

/// A file can be given every name that is more than white space and holds no slash.
pub proof fn law_names_hold_no_slash(name: Seq<char>)
    ensures
        valid_name(name) <==> trim(name).len() > 0 && forall|i: int|
            0 <= i < trim(name).len() ==> trim(name)[i] != '/',
        data_home_of(Some(name), None) == (if name.len() > 0 {
            name
        } else {
            joined("/"@, ".local/share"@)
        }),
        data_home_of(None, Some(name)) == joined(name, ".local/share"@),
{
    let t = trim(name);
    if t.contains('/') {
        let i = choose|i: int| 0 <= i < t.len() && t[i] == '/';
        assert(t[i] == '/');
    }
}

/// The info of a trashed file names where it was and when it was deleted, each on a
/// line of its own below the heading.
pub proof fn law_trash_info_names_path_and_date(path: Seq<char>, date: Seq<char>)
    ensures
        trash_info_text(path, date) == "[Trash Info]\nPath="@ + percent_encoded(shown_text(path))
            + "\nDeletionDate="@ + date + "\n"@,
        trash_file(path, date) == joined(joined(path, "files"@), date),
        trash_info_file(path, date) == joined(joined(path, "info"@), date + ".trashinfo"@),
{
}

/// A destination is free: it was answered that there is nothing there. It is the
/// name itself in the directory unless that exists, and no copy is numbered past one
/// that is free.
pub proof fn law_destinations_are_free<E: Fn(&str) -> bool>(
    exists_at: E,
    dir: Seq<char>,
    name: Seq<char>,
    path: Seq<char>,
)
    requires
        free_path(exists_at, dir, name, path),
    ensures
        answered(exists_at, path, false),
        path == joined(dir, name) || answered(exists_at, joined(dir, name), true),
        exists|n: nat|
            path == joined(dir, #[trigger] copy_name(name, n)) && forall|k: nat|
                k < n ==> answered(exists_at, joined(dir, #[trigger] copy_name(name, k)), true),
{
    let n = choose|n: nat|
        n <= MAX_TRIES && path == joined(dir, copy_name(name, n)) && #[trigger] first_free(
            exists_at,
            dir,
            name,
            n,
        );
    assert(copy_name(name, 0) == name);
    if n > 0 {
        assert(answered(exists_at, joined(dir, copy_name(name, 0)), true));
    }
}

/// A name in the trash is free for the file and for its info file alike. It is the
/// name of the file itself unless one of them exists.
pub proof fn law_trash_names_are_free<E: Fn(&str) -> bool>(
    exists_at: E,
    trash: Seq<char>,
    name: Seq<char>,
    target: Seq<char>,
)
    requires
        free_in_trash(exists_at, trash, name, target),
    ensures
        answered(exists_at, joined(joined(trash, "files"@), target), false),
        answered(exists_at, joined(joined(trash, "info"@), target + ".trashinfo"@), false),
        target == name || answered(exists_at, joined(joined(trash, "files"@), name), true)
            || answered(exists_at, joined(joined(trash, "info"@), name + ".trashinfo"@), true),
{
    let n = choose|n: nat|
        1 <= n <= MAX_TRIES && target == trash_name(name, n) && #[trigger] trash_taken(
            exists_at,
            trash,
            name,
            n,
        );
    assert(trash_name(name, 1) == name);
    if n > 1 {
        assert(in_trash(exists_at, trash, trash_name(name, 1)));
    }
}

} // verus!
