//! Resolve a window's `app_id` to an icon file, the freedesktop way: find the
//! app's `.desktop` file, read its `Icon=` key, then locate that icon in the
//! icon theme directories. Results are cached so each app-id is resolved once.

use vstd::prelude::*;

use crate::files::browser::none_there;
use crate::files::ops::{answered, option_view};
use crate::text::chars::{
    after_prefix, lowercase, same, split, split_str, strip_prefix, to_lowercase, trim, trim_str,
    views,
};
use crate::text::lines::{lines, lines_of};
use crate::text::paths::{absolute, is_absolute, join, joined};

verus! {

// ---------------------------------------------------------------------------
// Data directories

/// The texts that are not empty.
pub open spec fn not_empty(texts: Seq<Seq<char>>) -> Seq<Seq<char>>
    decreases texts.len(),
{
    if texts.len() == 0 {
        seq![]
    } else if texts.last().len() > 0 {
        not_empty(texts.drop_last()).push(texts.last())
    } else {
        not_empty(texts.drop_last())
    }
}

/// Base data directories, from `XDG_DATA_HOME`, `HOME` and `XDG_DATA_DIRS`.
pub open spec fn base_dirs(
    data_home: Option<Seq<char>>,
    home: Option<Seq<char>>,
    data_dirs: Option<Seq<char>>,
) -> Seq<Seq<char>> {
    let own = match data_home {
        Some(dir) => seq![dir],
        None => match home {
            Some(h) => seq![joined(h, ".local/share"@)],
            None => seq![],
        },
    };
    let extra = match data_dirs {
        Some(dirs) => dirs,
        None => "/usr/local/share:/usr/share"@,
    };
    own + not_empty(split(extra, ':'))
}

/// Base data directories per the XDG spec, from the environment's
/// `XDG_DATA_HOME`, `HOME` and `XDG_DATA_DIRS`.
pub fn data_dirs(data_home: Option<&str>, home: Option<&str>, system: Option<&str>) -> (r: Vec<
    String,
>)
    ensures
        views(r@) == base_dirs(option_view(data_home), option_view(home), option_view(system)),
{
    let mut dirs: Vec<String> = Vec::new();
    if let Some(dir) = data_home {
        dirs.push(dir.to_string());
    } else if let Some(h) = home {
        dirs.push(join(h, ".local/share"));
    }
    let ghost own = views(dirs@);
    let extra = match system {
        Some(d) => d,
        None => "/usr/local/share:/usr/share",
    };
    let parts = split_str(extra, ':');
    let ghost all = split(extra@, ':');
    assert(own + not_empty(all.take(0)) =~= own);
    for i in 0..parts.len()
        invariant
            parts.len() == all.len(),
            forall|k: int| 0 <= k < parts.len() ==> (#[trigger] parts@[k])@ == all[k],
            views(dirs@) == own + not_empty(all.take(i as int)),
    {
        let ghost before = views(dirs@);
        proof {
            assert(all.take(i + 1).drop_last() =~= all.take(i as int));
            assert(all.take(i + 1).last() == all[i as int]);
        }
        if !parts[i].is_empty() {
            dirs.push(parts[i].to_string());
            proof {
                assert(views(dirs@) =~= before.push(all[i as int]));
                assert(views(dirs@) =~= own + not_empty(all.take(i + 1)));
            }
        }
    }
    proof {
        assert(all.take(all.len() as int) =~= all);
        assert(own =~= match data_home {
            Some(dir) => seq![dir@],
            None => match home {
                Some(h) => seq![joined(h@, ".local/share"@)],
                None => seq![],
            },
        });
    }
    dirs
}

// ---------------------------------------------------------------------------
// Desktop files

/// The desktop files of an app in one applications directory.
pub open spec fn dir_files(dir: Seq<char>, app_id: Seq<char>, low: Seq<char>) -> Seq<Seq<char>> {
    let apps = joined(dir, "applications"@);
    seq![joined(apps, app_id + ".desktop"@), joined(apps, low + ".desktop"@)]
}

/// The desktop files of an app in all directories, in the order in which they are
/// tried.
pub open spec fn app_files(dirs: Seq<Seq<char>>, app_id: Seq<char>, low: Seq<char>) -> Seq<
    Seq<char>,
>
    decreases dirs.len(),
{
    if dirs.len() == 0 {
        seq![]
    } else {
        app_files(dirs.drop_last(), app_id, low) + dir_files(dirs.last(), app_id, low)
    }
}

/// The desktop files of the app `app_id`, which is `low` in lower case.
pub fn desktop_files_by(dirs: &Vec<String>, app_id: &str, low: &str) -> (r: Vec<String>)
    ensures
        views(r@) == app_files(views(dirs@), app_id@, low@),
{
    let ghost all = views(dirs@);
    let mut out: Vec<String> = Vec::new();
    assert(views(out@) =~= app_files(all.take(0), app_id@, low@));
    for i in 0..dirs.len()
        invariant
            all == views(dirs@),
            views(out@) == app_files(all.take(i as int), app_id@, low@),
    {
        let ghost before = views(out@);
        let apps = join(dirs[i].as_str(), "applications");
        let mut name = app_id.to_string();
        name.append(".desktop");
        let mut low_name = low.to_string();
        low_name.append(".desktop");
        out.push(join(apps.as_str(), name.as_str()));
        out.push(join(apps.as_str(), low_name.as_str()));
        proof {
            assert(all.take(i + 1).drop_last() =~= all.take(i as int));
            assert(all.take(i + 1).last() == all[i as int]);
            assert(views(out@) =~= before + dir_files(all[i as int], app_id@, low@));
        }
    }
    assert(all.take(all.len() as int) =~= all);
    out
}

/// The desktop files of an app: `<app_id>.desktop` and its lowercased form in
/// each applications directory.
pub fn desktop_files(dirs: &Vec<String>, app_id: &str) -> (r: Vec<String>)
    ensures
        views(r@) == app_files(views(dirs@), app_id@, lowercase(app_id@)),
{
    desktop_files_by(dirs, app_id, to_lowercase(app_id).as_str())
}

/// The value of a line that sets an icon.
pub open spec fn icon_of_line(line: Seq<char>) -> Option<Seq<char>> {
    match after_prefix(line, "Icon="@) {
        Some(value) => if trim(value).len() > 0 {
            Some(trim(value))
        } else {
            None
        },
        None => None,
    }
}

/// The first icon that the lines set.
pub open spec fn icon_of_lines(all: Seq<Seq<char>>) -> Option<Seq<char>>
    decreases all.len(),
{
    if all.len() == 0 {
        None
    } else {
        match icon_of_line(all[0]) {
            Some(icon) => Some(icon),
            None => icon_of_lines(all.drop_first()),
        }
    }
}

/// The `Icon=` key of a desktop file.
pub fn icon_key(text: &str) -> (r: Option<String>)
    ensures
        match r {
            Some(icon) => icon_of_lines(lines(text@)) == Some(icon@),
            None => icon_of_lines(lines(text@)) is None,
        },
{
    let all = lines_of(text);
    let ghost seqs = lines(text@);
    assert(seqs.skip(0) =~= seqs);
    for i in 0..all.len()
        invariant
            all.len() == seqs.len(),
            seqs == lines(text@),
            forall|k: int| 0 <= k < all.len() ==> (#[trigger] all@[k])@ == seqs[k],
            icon_of_lines(seqs.skip(i as int)) == icon_of_lines(seqs),
    {
        proof {
            assert(seqs.skip(i as int)[0] == seqs[i as int]);
            assert(seqs.skip(i as int).drop_first() =~= seqs.skip(i + 1));
        }
        if let Some(value) = strip_prefix(all[i], "Icon=") {
            let value = trim_str(value);
            if !value.is_empty() {
                return Some(value.to_string());
            }
        }
    }
    assert(seqs.skip(seqs.len() as int) =~= seq![]);
    None
}

/// The first icon that a file of a list sets; a file that could not be read sets
/// none.
pub open spec fn icon_of_files(texts: Seq<Option<Seq<char>>>) -> Option<Seq<char>>
    decreases texts.len(),
{
    if texts.len() == 0 {
        None
    } else {
        let first = match texts[0] {
            Some(text) => icon_of_lines(lines(text)),
            None => None,
        };
        match first {
            Some(icon) => Some(icon),
            None => icon_of_files(texts.drop_first()),
        }
    }
}

/// The contents of files, as mathematical values.
pub open spec fn text_views(texts: Seq<Option<String>>) -> Seq<Option<Seq<char>>> {
    Seq::new(
        texts.len(),
        |i: int|
            match texts[i] {
                Some(t) => Some(t@),
                None => None,
            },
    )
}

/// Read the `Icon=` key from the app's desktop files, if present. `texts` is what
/// the files of [`desktop_files`] hold, as far as they could be read.
pub fn desktop_icon_name(texts: &Vec<Option<String>>) -> (r: Option<String>)
    ensures
        match r {
            Some(icon) => icon_of_files(text_views(texts@)) == Some(icon@),
            None => icon_of_files(text_views(texts@)) is None,
        },
{
    let ghost all = text_views(texts@);
    assert(all.skip(0) =~= all);
    for i in 0..texts.len()
        invariant
            all == text_views(texts@),
            icon_of_files(all.skip(i as int)) == icon_of_files(all),
    {
        proof {
            assert(all.skip(i as int)[0] == all[i as int]);
            assert(all.skip(i as int).drop_first() =~= all.skip(i + 1));
        }
        if let Some(text) = &texts[i] {
            if let Some(icon) = icon_key(text.as_str()) {
                return Some(icon);
            }
        }
    }
    assert(all.skip(all.len() as int) =~= seq![]);
    None
}

// ---------------------------------------------------------------------------
// Icon files

/// The icon themes that are searched, in order.
pub open spec fn themes() -> Seq<Seq<char>> {
    seq!["hicolor"@, "Adwaita"@, "breeze"@, "gnome"@]
}

/// The icon sizes that are searched, in order.
pub open spec fn sizes() -> Seq<Seq<char>> {
    seq![
        "scalable"@,
        "512x512"@,
        "256x256"@,
        "128x128"@,
        "96x96"@,
        "64x64"@,
        "48x48"@,
        "32x32"@,
    ]
}

/// The two file formats of an icon in a directory.
pub open spec fn formats(dir: Seq<char>, name: Seq<char>) -> Seq<Seq<char>> {
    seq![joined(dir, name + ".png"@), joined(dir, name + ".svg"@)]
}

/// The icon files of a theme in some of the sizes.
pub open spec fn theme_files(theme_dir: Seq<char>, some: Seq<Seq<char>>, name: Seq<char>) -> Seq<
    Seq<char>,
>
    decreases some.len(),
{
    if some.len() == 0 {
        seq![]
    } else {
        theme_files(theme_dir, some.drop_last(), name) + formats(
            joined(joined(theme_dir, some.last()), "apps"@),
            name,
        )
    }
}

/// The icon files of some of the themes below an icon directory.
pub open spec fn icon_files(icons: Seq<char>, some: Seq<Seq<char>>, name: Seq<char>) -> Seq<
    Seq<char>,
>
    decreases some.len(),
{
    if some.len() == 0 {
        seq![]
    } else {
        icon_files(icons, some.drop_last(), name) + theme_files(
            joined(icons, some.last()),
            sizes(),
            name,
        )
    }
}

/// The icon files below data directories.
pub open spec fn data_icon_files(dirs: Seq<Seq<char>>, name: Seq<char>) -> Seq<Seq<char>>
    decreases dirs.len(),
{
    if dirs.len() == 0 {
        seq![]
    } else {
        data_icon_files(dirs.drop_last(), name) + icon_files(
            joined(dirs.last(), "icons"@),
            themes(),
            name,
        )
    }
}

/// Where an icon is searched, in order: by data directory, theme, size and
/// format, and last in the legacy flat locations.
pub open spec fn icon_candidates(dirs: Seq<Seq<char>>, name: Seq<char>) -> Seq<Seq<char>> {
    data_icon_files(dirs, name) + formats("/usr/share/pixmaps"@, name) + formats(
        "/usr/share/icons"@,
        name,
    )
}

/// Append the two file formats of an icon in a directory.
fn push_formats(out: &mut Vec<String>, dir: &str, name: &str)
    ensures
        views(final(out)@) == views(old(out)@) + formats(dir@, name@),
{
    let ghost before = views(out@);
    let mut png = name.to_string();
    png.append(".png");
    let mut svg = name.to_string();
    svg.append(".svg");
    out.push(join(dir, png.as_str()));
    out.push(join(dir, svg.as_str()));
    assert(views(out@) =~= before + formats(dir@, name@));
}

/// Append the icon files of a theme.
fn push_theme(out: &mut Vec<String>, theme_dir: &str, size_names: &Vec<&'static str>, name: &str)
    requires
        size_names.len() == sizes().len(),
        forall|i: int| 0 <= i < size_names.len() ==> (#[trigger] size_names@[i])@ == sizes()[i],
    ensures
        views(final(out)@) == views(old(out)@) + theme_files(theme_dir@, sizes(), name@),
{
    let ghost before = views(out@);
    let ghost all = sizes();
    assert(before + theme_files(theme_dir@, all.take(0), name@) =~= before);
    for i in 0..size_names.len()
        invariant
            all == sizes(),
            size_names.len() == all.len(),
            forall|k: int| 0 <= k < size_names.len() ==> (#[trigger] size_names@[k])@ == all[k],
            views(out@) == before + theme_files(theme_dir@, all.take(i as int), name@),
    {
        proof {
            assert(all.take(i + 1).drop_last() =~= all.take(i as int));
            assert(all.take(i + 1).last() == all[i as int]);
            assert(size_names@[i as int]@ == all[i as int]);
        }
        let size_dir = join(theme_dir, size_names[i]);
        let apps = join(size_dir.as_str(), "apps");
        let ghost mid = views(out@);
        push_formats(out, apps.as_str(), name);
        assert(views(out@) =~= before + theme_files(theme_dir@, all.take(i + 1), name@));
    }
    assert(all.take(all.len() as int) =~= all);
}

/// The names of the sizes.
fn size_list() -> (r: Vec<&'static str>)
    ensures
        r.len() == sizes().len(),
        forall|i: int| 0 <= i < r.len() ==> (#[trigger] r@[i])@ == sizes()[i],
{
    let mut out: Vec<&'static str> = Vec::new();
    out.push("scalable");
    out.push("512x512");
    out.push("256x256");
    out.push("128x128");
    out.push("96x96");
    out.push("64x64");
    out.push("48x48");
    out.push("32x32");
    out
}

/// The names of the themes.
fn theme_list() -> (r: Vec<&'static str>)
    ensures
        r.len() == themes().len(),
        forall|i: int| 0 <= i < r.len() ==> (#[trigger] r@[i])@ == themes()[i],
{
    let mut out: Vec<&'static str> = Vec::new();
    out.push("hicolor");
    out.push("Adwaita");
    out.push("breeze");
    out.push("gnome");
    out
}

/// Append the icon files below an icon directory.
fn push_icons(out: &mut Vec<String>, icons: &str, name: &str)
    ensures
        views(final(out)@) == views(old(out)@) + icon_files(icons@, themes(), name@),
{
    let ghost before = views(out@);
    let ghost all = themes();
    let theme_names = theme_list();
    let size_names = size_list();
    assert(before + icon_files(icons@, all.take(0), name@) =~= before);
    for i in 0..theme_names.len()
        invariant
            all == themes(),
            size_names.len() == sizes().len(),
            forall|k: int| 0 <= k < size_names.len() ==> (#[trigger] size_names@[k])@ == sizes()[k],
            theme_names.len() == all.len(),
            forall|k: int| 0 <= k < theme_names.len() ==> (#[trigger] theme_names@[k])@ == all[k],
            views(out@) == before + icon_files(icons@, all.take(i as int), name@),
    {
        proof {
            assert(all.take(i + 1).drop_last() =~= all.take(i as int));
            assert(all.take(i + 1).last() == all[i as int]);
            assert(theme_names@[i as int]@ == all[i as int]);
        }
        let theme_dir = join(icons, theme_names[i]);
        push_theme(out, theme_dir.as_str(), &size_names, name);
        assert(views(out@) =~= before + icon_files(icons@, all.take(i + 1), name@));
    }
    assert(all.take(all.len() as int) =~= all);
}

/// Where the icon `name` is searched, in order.
pub fn icon_paths(dirs: &Vec<String>, name: &str) -> (r: Vec<String>)
    ensures
        views(r@) == icon_candidates(views(dirs@), name@),
{
    let ghost all = views(dirs@);
    let mut out: Vec<String> = Vec::new();
    assert(views(out@) =~= data_icon_files(all.take(0), name@));
    for i in 0..dirs.len()
        invariant
            all == views(dirs@),
            views(out@) == data_icon_files(all.take(i as int), name@),
    {
        proof {
            assert(all.take(i + 1).drop_last() =~= all.take(i as int));
            assert(all.take(i + 1).last() == all[i as int]);
        }
        let icons = join(dirs[i].as_str(), "icons");
        push_icons(&mut out, icons.as_str(), name);
    }
    assert(all.take(all.len() as int) =~= all);
    push_formats(&mut out, "/usr/share/pixmaps", name);
    push_formats(&mut out, "/usr/share/icons", name);
    out
}

/// `path` is the first of `paths` that is a file: it was answered that it is, and
/// of all before it that they are not.
pub open spec fn first_there<E: Fn(&str) -> bool>(
    is_file: E,
    paths: Seq<Seq<char>>,
    path: Seq<char>,
) -> bool {
    exists|i: int|
        0 <= i < paths.len() && paths[i] == path && answered(is_file, path, true)
            && #[trigger] none_there(is_file, paths.take(i))
}

/// Search the icon theme directories for `<name>.{png,svg}`.
pub fn find_icon_file<E: Fn(&str) -> bool>(dirs: &Vec<String>, name: &str, is_file: &E) -> (r:
    Option<String>)
    requires
        forall|s: &str| call_requires(*is_file, (s,)),
    ensures
        match r {
            Some(path) => first_there(*is_file, icon_candidates(views(dirs@), name@), path@),
            None => none_there(*is_file, icon_candidates(views(dirs@), name@)),
        },
{
    let paths = icon_paths(dirs, name);
    let ghost all = views(paths@);
    for i in 0..paths.len()
        invariant
            forall|s: &str| call_requires(*is_file, (s,)),
            all == views(paths@),
            all == icon_candidates(views(dirs@), name@),
            none_there(*is_file, all.take(i as int)),
    {
        let there = is_file(paths[i].as_str());
        proof {
            assert(answered(*is_file, all[i as int], there)) by {
                assert(all[i as int] == paths@[i as int]@);
            }
        }
        if there {
            let path = paths[i].clone();
            assert(path@ == all[i as int]);
            assert(none_there(*is_file, all.take(i as int)));
            return Some(path);
        }
        assert forall|k: int| 0 <= k < all.take(i + 1).len() implies answered(
            *is_file,
            #[trigger] all.take(i + 1)[k],
            false,
        ) by {
            if k < i {
                assert(all.take(i as int)[k] == all[k]);
            }
        }
    }
    assert(all.take(all.len() as int) =~= all);
    None
}

/// `r` is the icon file for an app with the icon name `icon` and the app id `low`
/// in lower case: an absolute path is used directly, else the icon is searched by
/// its name, and then by the app id.
pub open spec fn resolves<E: Fn(&str) -> bool>(
    is_file: E,
    dirs: Seq<Seq<char>>,
    icon: Seq<char>,
    low: Seq<char>,
    r: Option<Seq<char>>,
) -> bool {
    ||| absolute(icon) && answered(is_file, icon, true) && r == Some(icon)
    ||| {
        &&& absolute(icon) ==> answered(is_file, icon, false)
        &&& match r {
            Some(path) => {
                ||| first_there(is_file, icon_candidates(dirs, icon), path)
                ||| {
                    &&& none_there(is_file, icon_candidates(dirs, icon))
                    &&& first_there(is_file, icon_candidates(dirs, low), path)
                }
            },
            None => {
                &&& none_there(is_file, icon_candidates(dirs, icon))
                &&& none_there(is_file, icon_candidates(dirs, low))
            },
        }
    }
}

/// The view of an optional string.
pub open spec fn string_view(s: Option<String>) -> Option<Seq<char>> {
    match s {
        Some(t) => Some(t@),
        None => None,
    }
}

/// Find the icon file for an icon name and an app id in lower case.
pub fn resolve_by<E: Fn(&str) -> bool>(
    dirs: &Vec<String>,
    icon_name: &str,
    low: &str,
    is_file: &E,
) -> (r: Option<String>)
    requires
        forall|s: &str| call_requires(*is_file, (s,)),
    ensures
        resolves(*is_file, views(dirs@), icon_name@, low@, string_view(r)),
{
    if is_absolute(icon_name) {
        let there = is_file(icon_name);
        assert(answered(*is_file, icon_name@, there));
        if there {
            return Some(icon_name.to_string());
        }
    }
    match find_icon_file(dirs, icon_name, is_file) {
        Some(path) => Some(path),
        None => find_icon_file(dirs, low, is_file),
    }
}

/// Find the icon file path for an `app_id`, given what its desktop files hold.
pub fn resolve<E: Fn(&str) -> bool>(
    dirs: &Vec<String>,
    app_id: &str,
    texts: &Vec<Option<String>>,
    is_file: &E,
) -> (r: Option<String>)
    requires
        forall|s: &str| call_requires(*is_file, (s,)),
    ensures
        resolves(
            *is_file,
            views(dirs@),
            match icon_of_files(text_views(texts@)) {
                Some(icon) => icon,
                None => app_id@,
            },
            lowercase(app_id@),
            string_view(r),
        ),
{
    let icon_name = match desktop_icon_name(texts) {
        Some(icon) => icon,
        None => app_id.to_string(),
    };
    resolve_by(dirs, icon_name.as_str(), to_lowercase(app_id).as_str(), is_file)
}

// ---------------------------------------------------------------------------
// Cache

/// Caches `app_id -> icon` lookups, misses among them.
#[derive(Debug)]
pub struct IconCache<I> {
    entries: Vec<(String, I)>,
}

/// What the cache holds for an app.
pub enum Cached<'a, I> {
    /// An app without an id has no icon.
    Empty,
    /// The icon was looked up before.
    Hit(&'a I),
    /// The icon has yet to be looked up.
    Miss,
}

impl<I> IconCache<I> {
    /// The apps that were looked up, with their icons.
    pub closed spec fn entries(&self) -> Seq<(Seq<char>, I)> {
        Seq::new(self.entries@.len(), |i: int| (self.entries@[i].0@, self.entries@[i].1))
    }

    /// The app was looked up.
    pub open spec fn has(&self, app_id: Seq<char>) -> bool {
        exists|i: int| 0 <= i < self.entries().len() && (#[trigger] self.entries()[i]).0 == app_id
    }

    /// No lookups yet.
    pub fn new() -> (r: Self)
        ensures
            r.entries().len() == 0,
    {
        IconCache { entries: Vec::new() }
    }

    /// The icon of `app_id`, if it was looked up before.
    pub fn get<'a>(&'a self, app_id: &str) -> (r: Cached<'a, I>)
        ensures
            match r {
                Cached::Empty => app_id@.len() == 0,
                Cached::Hit(icon) => app_id@.len() > 0 && exists|i: int|
                    0 <= i < self.entries().len() && (#[trigger] self.entries()[i]) == (
                        app_id@,
                        *icon,
                    ),
                Cached::Miss => app_id@.len() > 0 && !self.has(app_id@),
            },
    {
        if app_id.is_empty() {
            return Cached::Empty;
        }
        for i in 0..self.entries.len()
            invariant
                app_id@.len() > 0,
                forall|k: int| 0 <= k < i ==> (#[trigger] self.entries()[k]).0 != app_id@,
        {
            let entry = &self.entries[i];
            assert(self.entries()[i as int] == (entry.0@, entry.1));
            if same(entry.0.as_str(), app_id) {
                return Cached::Hit(&entry.1);
            }
        }
        Cached::Miss
    }

    /// Note the icon of an app that has not been looked up before.
    pub fn insert(&mut self, app_id: &str, icon: I)
        requires
            !old(self).has(app_id@),
        ensures
            final(self).entries() == old(self).entries().push((app_id@, icon)),
    {
        let ghost before = self.entries();
        self.entries.push((app_id.to_string(), icon));
        assert(self.entries() =~= before.push((app_id@, icon)));
    }
}

// ---------------------------------------------------------------------------
// Laws

/// The files of a theme: for each size the two formats.
proof fn lemma_theme_files(theme_dir: Seq<char>, some: Seq<Seq<char>>, name: Seq<char>, k: int)
    requires
        0 <= k < some.len(),
    ensures
        theme_files(theme_dir, some, name).len() == 2 * some.len(),
        ({
            let dir = joined(joined(theme_dir, some[k]), "apps"@);
            &&& theme_files(theme_dir, some, name)[2 * k] == joined(dir, name + ".png"@)
            &&& theme_files(theme_dir, some, name)[2 * k + 1] == joined(dir, name + ".svg"@)
        }),
    decreases some.len(),
{
    let less = some.drop_last();
    if less.len() > 0 {
        let e = if k < less.len() {
            k
        } else {
            0
        };
        lemma_theme_files(theme_dir, less, name, e);
        assert(less[e] == some[e]);
    } else {
        assert(theme_files(theme_dir, less, name).len() == 0);
    }
}

/// There are eight sizes and four themes.
proof fn lemma_sizes_and_themes()
    ensures
        sizes().len() == 8,
        themes().len() == 4,
{
}

/// The files of themes: for each of them all sizes.
proof fn lemma_icon_files(
    icons: Seq<char>,
    some: Seq<Seq<char>>,
    name: Seq<char>,
    t: int,
    k: int,
)
    requires
        0 <= t < some.len(),
        0 <= k < 8,
    ensures
        icon_files(icons, some, name).len() == 16 * some.len(),
        ({
            let dir = joined(joined(joined(icons, some[t]), sizes()[k]), "apps"@);
            &&& icon_files(icons, some, name)[16 * t + 2 * k] == joined(dir, name + ".png"@)
            &&& icon_files(icons, some, name)[16 * t + 2 * k + 1] == joined(dir, name + ".svg"@)
        }),
    decreases some.len(),
{
    let less = some.drop_last();
    lemma_sizes_and_themes();
    lemma_theme_files(joined(icons, some.last()), sizes(), name, k);
    let all = icon_files(icons, some, name);
    let before = icon_files(icons, less, name);
    let last = theme_files(joined(icons, some.last()), sizes(), name);
    assert(all == before + last);
    if less.len() > 0 {
        let e = if t < less.len() {
            t
        } else {
            0
        };
        lemma_icon_files(icons, less, name, e, k);
        assert(less[e] == some[e]);
    } else {
        assert(before.len() == 0);
    }
    let at = 16 * t + 2 * k;
    if t < less.len() {
        assert(all[at] == before[at] && all[at + 1] == before[at + 1]);
    } else {
        assert(all[at] == last[2 * k] && all[at + 1] == last[2 * k + 1]);
    }
}

/// An icon is searched in each data directory, there in each theme, there in each
/// size and there as PNG before SVG; at last in the two flat directories.
pub proof fn law_icons_are_searched_in_order(
    dirs: Seq<Seq<char>>,
    name: Seq<char>,
    d: int,
    t: int,
    k: int,
)
    requires
        0 <= d < dirs.len(),
        0 <= t < 4,
        0 <= k < 8,
    ensures
        ({
            let all = icon_candidates(dirs, name);
            let theme = if t == 0 {
                "hicolor"@
            } else if t == 1 {
                "Adwaita"@
            } else if t == 2 {
                "breeze"@
            } else {
                "gnome"@
            };
            let size = if k == 0 {
                "scalable"@
            } else if k == 1 {
                "512x512"@
            } else if k == 2 {
                "256x256"@
            } else if k == 3 {
                "128x128"@
            } else if k == 4 {
                "96x96"@
            } else if k == 5 {
                "64x64"@
            } else if k == 6 {
                "48x48"@
            } else {
                "32x32"@
            };
            let dir = joined(
                joined(joined(joined(dirs[d], "icons"@), theme), size),
                "apps"@,
            );
            let n: int = 64 * dirs.len() as int;
            &&& all.len() == n + 4
            &&& all[64 * d + 16 * t + 2 * k] == joined(dir, name + ".png"@)
            &&& all[64 * d + 16 * t + 2 * k + 1] == joined(dir, name + ".svg"@)
            &&& all[n] == joined("/usr/share/pixmaps"@, name + ".png"@)
            &&& all[n + 1] == joined("/usr/share/pixmaps"@, name + ".svg"@)
            &&& all[n + 2] == joined("/usr/share/icons"@, name + ".png"@)
            &&& all[n + 3] == joined("/usr/share/icons"@, name + ".svg"@)
        }),
{
    lemma_sizes_and_themes();
    lemma_data_icon_files(dirs, name, d, 16 * t + 2 * k);
    lemma_data_icon_files(dirs, name, d, 16 * t + 2 * k + 1);
    lemma_icon_files(joined(dirs[d], "icons"@), themes(), name, t, k);
    assert(themes()[t] == if t == 0 {
        "hicolor"@
    } else if t == 1 {
        "Adwaita"@
    } else if t == 2 {
        "breeze"@
    } else {
        "gnome"@
    });
    assert(sizes()[k] == if k == 0 {
        "scalable"@
    } else if k == 1 {
        "512x512"@
    } else if k == 2 {
        "256x256"@
    } else if k == 3 {
        "128x128"@
    } else if k == 4 {
        "96x96"@
    } else if k == 5 {
        "64x64"@
    } else if k == 6 {
        "48x48"@
    } else {
        "32x32"@
    });
}

/// There are 64 icon files below an icon directory.
proof fn lemma_icon_file_count(icons: Seq<char>, name: Seq<char>)
    ensures
        icon_files(icons, themes(), name).len() == 64,
{
    lemma_sizes_and_themes();
    lemma_icon_files(icons, themes(), name, 0, 0);
}

/// The files below data directories: for each of them all icon files.
proof fn lemma_data_icon_files(dirs: Seq<Seq<char>>, name: Seq<char>, d: int, j: int)
    requires
        0 <= d < dirs.len(),
        0 <= j < 64,
    ensures
        data_icon_files(dirs, name).len() == 64 * dirs.len(),
        data_icon_files(dirs, name)[64 * d + j] == icon_files(
            joined(dirs[d], "icons"@),
            themes(),
            name,
        )[j],
    decreases dirs.len(),
{
    let less = dirs.drop_last();
    lemma_icon_file_count(joined(dirs.last(), "icons"@), name);
    let all = data_icon_files(dirs, name);
    let before = data_icon_files(less, name);
    let last = icon_files(joined(dirs.last(), "icons"@), themes(), name);
    assert(all == before + last);
    if less.len() > 0 {
        let e = if d < less.len() {
            d
        } else {
            0
        };
        lemma_data_icon_files(less, name, e, j);
        assert(less[e] == dirs[e]);
    } else {
        assert(before.len() == 0);
    }
    if d < less.len() {
        assert(all[64 * d + j] == before[64 * d + j]);
    } else {
        assert(all[64 * d + j] == last[j]);
    }
}

/// The desktop files of an app are, for each data directory, the one of its id and
/// then the one of its id in lower case.
pub proof fn law_desktop_files_are_tried_in_order(
    dirs: Seq<Seq<char>>,
    app_id: Seq<char>,
    low: Seq<char>,
    d: int,
)
    requires
        0 <= d < dirs.len(),
    ensures
        ({
            let apps = joined(dirs[d], "applications"@);
            let all = app_files(dirs, app_id, low);
            &&& all.len() == 2 * dirs.len()
            &&& all[2 * d] == joined(apps, app_id + ".desktop"@)
            &&& all[2 * d + 1] == joined(apps, low + ".desktop"@)
        }),
    decreases dirs.len(),
{
    let less = dirs.drop_last();
    if less.len() > 0 {
        let e = if d < less.len() {
            d
        } else {
            0
        };
        law_desktop_files_are_tried_in_order(less, app_id, low, e);
        assert(less[e] == dirs[e]);
    } else {
        assert(app_files(less, app_id, low).len() == 0);
    }
}

/// The data directories begin with the user's own: the one that is named, or else
/// the one in the home directory. Those of the system follow, without empty ones.
pub proof fn law_the_users_data_comes_first(
    data_home: Option<Seq<char>>,
    home: Option<Seq<char>>,
    data_dirs: Option<Seq<char>>,
    k: int,
)
    ensures
        ({
            let all = base_dirs(data_home, home, data_dirs);
            let system = split(
                match data_dirs {
                    Some(dirs) => dirs,
                    None => "/usr/local/share:/usr/share"@,
                },
                ':',
            );
            let own: int = if data_home is Some || home is Some {
                1
            } else {
                0
            };
            &&& data_home matches Some(dir) ==> all[0] == dir
            &&& data_home is None ==> (home matches Some(h) ==> all[0] == joined(
                h,
                ".local/share"@,
            ))
            &&& all.len() >= own && all.skip(own) == not_empty(system)
            &&& own <= k < all.len() ==> all[k].len() > 0
            &&& 0 <= k < system.len() && system[k].len() > 0 ==> all.contains(system[k])
        }),
{
    let all = base_dirs(data_home, home, data_dirs);
    let system = split(
        match data_dirs {
            Some(dirs) => dirs,
            None => "/usr/local/share:/usr/share"@,
        },
        ':',
    );
    let own: int = if data_home is Some || home is Some {
        1
    } else {
        0
    };
    assert(all.skip(own) =~= not_empty(system));
    lemma_not_empty(system);
    if 0 <= k < system.len() && system[k].len() > 0 {
        let rest = not_empty(system);
        let j = choose|j: int| 0 <= j < rest.len() && rest[j] == system[k];
        assert(all[own + j] == system[k]);
    }
}

/// The texts that are not empty.
proof fn lemma_not_empty(texts: Seq<Seq<char>>)
    ensures
        forall|k: int|
            0 <= k < not_empty(texts).len() ==> (#[trigger] not_empty(texts)[k]).len() > 0,
        forall|i: int|
            0 <= i < texts.len() && (#[trigger] texts[i]).len() > 0 ==> not_empty(texts).contains(
                texts[i],
            ),
    decreases texts.len(),
{
    if texts.len() > 0 {
        let less = texts.drop_last();
        lemma_not_empty(less);
        let before = not_empty(less);
        let all = not_empty(texts);
        assert forall|i: int| 0 <= i < texts.len() && (#[trigger] texts[i]).len()
            > 0 implies all.contains(texts[i]) by {
            if i < less.len() {
                assert(less[i] == texts[i]);
                let k = choose|k: int| 0 <= k < before.len() && before[k] == texts[i];
                assert(all[k] == texts[i]);
            } else {
                assert(all[before.len() as int] == texts[i]);
            }
        }
    }
}

/// The icon of a desktop file is what follows `Icon=` on the first line where
/// anything does, without white space around it.
pub proof fn law_the_first_icon_line_counts(all: Seq<Seq<char>>, i: int)
    requires
        0 <= i < all.len(),
        forall|k: int| 0 <= k < i ==> !sets_icon(#[trigger] all[k]),
        sets_icon(all[i]),
    ensures
        icon_of_lines(all) == Some(trim(all[i].skip(5))),
    decreases i,
{
    reveal_strlit("Icon=");
    assert("Icon="@.len() == 5);
    if i > 0 {
        assert(!sets_icon(all[0]));
        let rest = all.drop_first();
        assert forall|k: int| 0 <= k < i - 1 implies !sets_icon(#[trigger] rest[k]) by {
            assert(rest[k] == all[k + 1]);
        }
        law_the_first_icon_line_counts(rest, i - 1);
    }
}

/// The line sets an icon.
pub open spec fn sets_icon(line: Seq<char>) -> bool {
    line.len() > 5 && line.take(5) == "Icon="@ && trim(line.skip(5)).len() > 0
}

/// The icon file that is found is one of those searched, it was answered that it is
/// there, and of all before it that they are not.
pub proof fn law_the_first_icon_file_is_used<E: Fn(&str) -> bool>(
    is_file: E,
    paths: Seq<Seq<char>>,
    path: Seq<char>,
)
    requires
        first_there(is_file, paths, path),
    ensures
        answered(is_file, path, true),
        exists|i: int|
            0 <= i < paths.len() && #[trigger] paths[i] == path && forall|k: int|
                0 <= k < i ==> answered(is_file, #[trigger] paths[k], false),
{
    let i = choose|i: int|
        0 <= i < paths.len() && paths[i] == path && answered(is_file, path, true)
            && #[trigger] none_there(is_file, paths.take(i));
    assert(paths[i] == path);
    assert forall|k: int| 0 <= k < i implies answered(is_file, #[trigger] paths[k], false) by {
        assert(paths.take(i)[k] == paths[k]);
    }
}

/// The icon of an app is the first that one of its desktop files sets.
pub proof fn law_the_first_desktop_file_counts(
    text: Seq<char>,
    rest: Seq<Option<Seq<char>>>,
)
    ensures
        icon_of_files(seq![None::<Seq<char>>] + rest) == icon_of_files(rest),
        icon_of_lines(lines(text)) is Some ==> icon_of_files(seq![Some(text)] + rest)
            == icon_of_lines(lines(text)),
        icon_of_lines(lines(text)) is None ==> icon_of_files(seq![Some(text)] + rest)
            == icon_of_files(rest),
        icon_of_files(seq![]) is None,
{
    let none = None::<Seq<char>>;
    assert((seq![none] + rest).drop_first() =~= rest);
    assert((seq![Some(text)] + rest).drop_first() =~= rest);
}

} // verus!
