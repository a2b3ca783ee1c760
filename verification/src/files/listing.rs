//! Directory listings: which entries are shown, in which order, and what a row
//! says of each.

use vstd::prelude::*;

use crate::files::kind::{file_kind, image_path, is_image, kind_of};
use crate::files::size::{human_size, size_text};
use crate::text::chars::{lower, lowercase, to_lowercase, views};
use crate::text::ospath::{
    joined_bytes, law_joining_texts_joins_the_paths, path_bytes_of, shown, shown_text,
};
use crate::text::paths::{join, joined, path_extension};
use crate::text::sorting::{
    law_sorting_keeps_every_item, sort_by_keys, sorted_by, stable_order, text_lt,
};

verus! {

/// The largest picture that a thumbnail is loaded for, in bytes.
pub const THUMBNAIL_LIMIT: u64 = 0x80_0000;

/// An entry of a directory as the file system reports it.
#[derive(Debug)]
pub struct DirEntry {
    /// The name, as the text of a path.
    pub name: String,
    pub is_dir: bool,
    /// Whether the mode has an executable bit.
    pub executable: bool,
    /// The size in bytes, if it could be read.
    pub len: Option<u64>,
    /// When the entry was last changed, formatted, if it could be read.
    pub modified: Option<String>,
}

/// A row of a listing.
#[derive(Debug, PartialEq)]
pub struct Row {
    /// The name as it is shown.
    pub name: String,
    /// The text of the path, which names the entry whatever bytes are in its name.
    pub path: String,
    pub is_dir: bool,
    pub kind: &'static str,
    pub size: String,
    pub modified: String,
    /// Whether a thumbnail is to be loaded.
    pub thumb: bool,
}

/// A [`Row`] as a mathematical value.
#[verifier::ext_equal]
pub struct RowView {
    pub name: Seq<char>,
    pub path: Seq<char>,
    pub is_dir: bool,
    pub kind: Seq<char>,
    pub size: Seq<char>,
    pub modified: Seq<char>,
    pub thumb: bool,
}

impl View for Row {
    type V = RowView;

    open spec fn view(&self) -> RowView {
        RowView {
            name: self.name@,
            path: self.path@,
            is_dir: self.is_dir,
            kind: self.kind@,
            size: self.size@,
            modified: self.modified@,
            thumb: self.thumb,
        }
    }
}

/// The values of rows.
pub open spec fn row_views(rows: Seq<Row>) -> Seq<RowView> {
    Seq::new(rows.len(), |i: int| rows[i]@)
}

/// A dotfile.
pub open spec fn hidden(name: Seq<char>) -> bool {
    name.len() > 0 && name[0] == '.'
}

/// The entry is shown: it is no dotfile, and where only pictures are asked for it
/// is a directory or a picture.
pub open spec fn listed(e: DirEntry, cwd: Seq<char>, image_only: bool) -> bool {
    &&& !hidden(shown_text(e.name@))
    &&& e.is_dir || !image_only || image_path(joined(cwd, e.name@))
}

/// The entries that are shown, directories or files, each with its key.
pub open spec fn kept(
    entries: Seq<DirEntry>,
    keys: Seq<Seq<char>>,
    cwd: Seq<char>,
    image_only: bool,
    dirs: bool,
) -> (Seq<DirEntry>, Seq<Seq<char>>)
    decreases entries.len(),
{
    if entries.len() == 0 {
        (seq![], seq![])
    } else {
        let (es, ks) = kept(entries.drop_last(), keys.drop_last(), cwd, image_only, dirs);
        if listed(entries.last(), cwd, image_only) && entries.last().is_dir == dirs {
            (es.push(entries.last()), ks.push(keys.last()))
        } else {
            (es, ks)
        }
    }
}

/// `out` is the listing of `entries`: the directories by their keys, then the
/// files by theirs.
pub open spec fn arranged(
    entries: Seq<DirEntry>,
    keys: Seq<Seq<char>>,
    cwd: Seq<char>,
    image_only: bool,
    out: Seq<DirEntry>,
) -> bool {
    let (dirs, dir_keys) = kept(entries, keys, cwd, image_only, true);
    let (files, file_keys) = kept(entries, keys, cwd, image_only, false);
    exists|d: Seq<DirEntry>, f: Seq<DirEntry>|
        #![trigger d + f]
        sorted_by(dirs, dir_keys, d) && sorted_by(files, file_keys, f) && out == d + f
}

/// The names that are shown, in lower case.
pub open spec fn name_keys(entries: Seq<DirEntry>) -> Seq<Seq<char>> {
    Seq::new(entries.len(), |i: int| lowercase(shown_text(entries[i].name@)))
}

/// The row for an entry of the directory `cwd`.
pub open spec fn row_of(cwd: Seq<char>, e: DirEntry) -> RowView {
    let path = joined(cwd, e.name@);
    RowView {
        name: shown_text(e.name@),
        path,
        is_dir: e.is_dir,
        kind: kind_of(path, e.is_dir, e.executable),
        size: if e.is_dir {
            "—"@
        } else {
            match e.len {
                Some(n) => size_text(n as nat),
                None => seq![],
            }
        },
        modified: match e.modified {
            Some(m) => m@,
            None => seq![],
        },
        thumb: image_path(path) && (e.len matches Some(n) && n < THUMBNAIL_LIMIT),
    }
}

/// The rows for entries.
pub open spec fn rows_of(cwd: Seq<char>, entries: Seq<DirEntry>) -> Seq<RowView> {
    Seq::new(entries.len(), |i: int| row_of(cwd, entries[i]))
}

/// `rows` is the listing of the directory `cwd` with the given entries, sorted by
/// the given keys.
pub open spec fn lists_by(
    cwd: Seq<char>,
    entries: Seq<DirEntry>,
    keys: Seq<Seq<char>>,
    image_only: bool,
    rows: Seq<RowView>,
) -> bool {
    exists|out: Seq<DirEntry>|
        #[trigger] arranged(entries, keys, cwd, image_only, out) && rows == rows_of(cwd, out)
}

/// `rows` is the listing of the directory `cwd` with the given entries.
pub open spec fn lists(
    cwd: Seq<char>,
    entries: Seq<DirEntry>,
    image_only: bool,
    rows: Seq<RowView>,
) -> bool {
    lists_by(cwd, entries, name_keys(entries), image_only, rows)
}

/// Whether a name is that of a dotfile.
fn is_hidden(name: &str) -> (r: bool)
    ensures
        r == hidden(name@),
{
    name.unicode_len() > 0 && name.get_char(0) == '.'
}

/// The row for an entry.
fn row_for(cwd: &str, e: &DirEntry) -> (r: Row)
    ensures
        r@ == row_of(cwd@, *e),
{
    let path = join(cwd, e.name.as_str());
    let size = if e.is_dir {
        "—".to_string()
    } else {
        match e.len {
            Some(n) => human_size(n),
            None => String::new(),
        }
    };
    let modified = match &e.modified {
        Some(m) => m.clone(),
        None => String::new(),
    };
    let small = match e.len {
        Some(n) => n < THUMBNAIL_LIMIT,
        None => false,
    };
    let thumb = is_image(path.as_str()) && small;
    let kind = file_kind(path.as_str(), e.is_dir, e.executable);
    let r = Row {
        name: shown(e.name.as_str()),
        path,
        is_dir: e.is_dir,
        kind,
        size,
        modified,
        thumb,
    };
    assert(r@ =~= row_of(cwd@, *e));
    r
}

/// The listing of the directory `cwd`: the entries that are shown, directories
/// before files, each sorted by the given keys.
pub fn list_rows_by(
    cwd: &str,
    entries: Vec<DirEntry>,
    keys: Vec<String>,
    image_only: bool,
) -> (r: Vec<Row>)
    requires
        entries.len() == keys.len(),
    ensures
        lists_by(cwd@, entries@, views(keys@), image_only, row_views(r@)),
        r.len() <= entries.len(),
{
    let ghost all = entries@;
    let ghost texts = views(keys@);
    let mut dirs: Vec<DirEntry> = Vec::new();
    let mut dir_keys: Vec<String> = Vec::new();
    let mut files: Vec<DirEntry> = Vec::new();
    let mut file_keys: Vec<String> = Vec::new();
    let mut next: usize = 0;
    assert(views(dir_keys@) =~= seq![]);
    assert(views(file_keys@) =~= seq![]);
    for entry in it: entries.into_iter()
        invariant
            it.seq() == all,
            next == it.index(),
            all.len() == keys.len(),
            texts == views(keys@),
            dirs.len() == dir_keys.len(),
            files.len() == file_keys.len(),
            dirs.len() + files.len() <= next,
            (dirs@, views(dir_keys@)) == kept(
                all.take(next as int),
                texts.take(next as int),
                cwd@,
                image_only,
                true,
            ),
            (files@, views(file_keys@)) == kept(
                all.take(next as int),
                texts.take(next as int),
                cwd@,
                image_only,
                false,
            ),
    {
        let ghost (dk, fk) = (views(dir_keys@), views(file_keys@));
        let key = keys[next].clone();
        proof {
            assert(all.take(next + 1).drop_last() =~= all.take(next as int));
            assert(all.take(next + 1).last() == all[next as int]);
            assert(texts.take(next + 1).drop_last() =~= texts.take(next as int));
            assert(texts.take(next + 1).last() == texts[next as int]);
        }
        if !is_hidden(shown(entry.name.as_str()).as_str()) {
            if entry.is_dir {
                dirs.push(entry);
                dir_keys.push(key);
                assert(views(dir_keys@) =~= dk.push(texts[next as int]));
            } else {
                let shown = !image_only || is_image(join(cwd, entry.name.as_str()).as_str());
                if shown {
                    files.push(entry);
                    file_keys.push(key);
                    assert(views(file_keys@) =~= fk.push(texts[next as int]));
                }
            }
        }
        next += 1;
    }
    proof {
        assert(all.take(all.len() as int) =~= all);
        assert(texts.take(texts.len() as int) =~= texts);
    }
    let count = dirs.len() + files.len();
    let d = sort_by_keys(dirs, dir_keys);
    let f = sort_by_keys(files, file_keys);
    let ghost out = d@ + f@;
    assert(arranged(all, texts, cwd@, image_only, out));
    let mut rows: Vec<Row> = Vec::new();
    for i in 0..d.len()
        invariant
            out == d@ + f@,
            row_views(rows@) =~= rows_of(cwd@, out).take(i as int),
    {
        let ghost before = row_views(rows@);
        let row = row_for(cwd, &d[i]);
        rows.push(row);
        proof {
            assert(out[i as int] == d@[i as int]);
            assert(row_views(rows@) =~= before.push(row@));
            assert(rows_of(cwd@, out).take(i + 1) =~= rows_of(cwd@, out).take(i as int).push(
                row_of(cwd@, out[i as int]),
            ));
        }
    }
    for i in 0..f.len()
        invariant
            out == d@ + f@,
            row_views(rows@) =~= rows_of(cwd@, out).take(d.len() + i),
    {
        let ghost before = row_views(rows@);
        let row = row_for(cwd, &f[i]);
        rows.push(row);
        proof {
            let n = d.len() + i;
            assert(out[n] == f@[i as int]);
            assert(row_views(rows@) =~= before.push(row@));
            assert(rows_of(cwd@, out).take(n + 1) =~= rows_of(cwd@, out).take(n).push(
                row_of(cwd@, out[n]),
            ));
        }
    }
    assert(row_views(rows@) =~= rows_of(cwd@, out));
    rows
}

/// The listing of the directory `cwd`: the entries that are shown, directories
/// before files, each sorted by name whatever the case.
pub fn list_rows(cwd: &str, entries: Vec<DirEntry>, image_only: bool) -> (r: Vec<Row>)
    ensures
        lists(cwd@, entries@, image_only, row_views(r@)),
        r.len() <= entries.len(),
{
    let mut keys: Vec<String> = Vec::new();
    for i in 0..entries.len()
        invariant
            views(keys@) =~= name_keys(entries@).take(i as int),
    {
        let ghost before = views(keys@);
        let key = to_lowercase(shown(entries[i].name.as_str()).as_str());
        keys.push(key);
        proof {
            assert(views(keys@) =~= before.push(key@));
            assert(name_keys(entries@).take(i + 1) =~= name_keys(entries@).take(i as int).push(
                name_keys(entries@)[i as int],
            ));
        }
    }
    assert(views(keys@) =~= name_keys(entries@));
    list_rows_by(cwd, entries, keys, image_only)
}

// ---------------------------------------------------------------------------
// Laws

/// A row names its entry, whatever bytes are in the name: its path is the path of
/// the directory, joined with the name.
pub proof fn law_rows_name_their_entries(cwd: Seq<char>, e: DirEntry)
    ensures
        path_bytes_of(row_of(cwd, e).path) == joined_bytes(
            path_bytes_of(cwd),
            path_bytes_of(e.name@),
        ),
{
    law_joining_texts_joins_the_paths(cwd, e.name@);
}

/// What is kept is shown and of the kind asked for.
proof fn lemma_kept(
    entries: Seq<DirEntry>,
    keys: Seq<Seq<char>>,
    cwd: Seq<char>,
    image_only: bool,
    dirs: bool,
)
    requires
        entries.len() == keys.len(),
    ensures
        ({
            let (es, ks) = kept(entries, keys, cwd, image_only, dirs);
            &&& es.len() == ks.len()
            &&& forall|i: int|
                0 <= i < es.len() ==> listed(#[trigger] es[i], cwd, image_only) && es[i].is_dir
                    == dirs
        }),
    decreases entries.len(),
{
    if entries.len() > 0 {
        lemma_kept(entries.drop_last(), keys.drop_last(), cwd, image_only, dirs);
    }
}

/// The entries of a directory that a listing is to show: those whose shown name
/// does not start with a dot, and of them, where only pictures are asked for, the
/// directories and the files named like pictures.
pub open spec fn to_show(cwd: Seq<char>, image_only: bool) -> spec_fn(DirEntry) -> bool {
    |e: DirEntry|
        {
            let name = shown_text(e.name@);
            &&& !(name.len() > 0 && name[0] == '.')
            &&& image_only && !e.is_dir ==> (path_extension(joined(cwd, e.name@)) matches Some(x)
                && (lower(x) == "png"@ || lower(x) == "jpg"@ || lower(x) == "jpeg"@ || lower(x)
                == "bmp"@ || lower(x) == "gif"@ || lower(x) == "webp"@ || lower(x) == "svg"@))
        }
}

/// What is kept of entries, by where it was.
proof fn lemma_kept_from(
    entries: Seq<DirEntry>,
    keys: Seq<Seq<char>>,
    cwd: Seq<char>,
    image_only: bool,
    dirs: bool,
) -> (rows: Seq<int>)
    requires
        entries.len() == keys.len(),
    ensures
        ({
            let (es, ks) = kept(entries, keys, cwd, image_only, dirs);
            let show = to_show(cwd, image_only);
            &&& es.len() == rows.len() && ks.len() == rows.len()
            &&& forall|k: int|
                0 <= k < rows.len() ==> 0 <= #[trigger] rows[k] < entries.len() && es[k]
                    == entries[rows[k]] && ks[k] == keys[rows[k]] && show(entries[rows[k]])
                    && entries[rows[k]].is_dir == dirs
            &&& forall|i: int|
                0 <= i < entries.len() && show(#[trigger] entries[i]) && entries[i].is_dir == dirs
                    ==> rows.contains(i)
        }),
    decreases entries.len(),
{
    let show = to_show(cwd, image_only);
    if entries.len() == 0 {
        seq![]
    } else {
        let last = entries.len() - 1;
        let before = lemma_kept_from(
            entries.drop_last(),
            keys.drop_last(),
            cwd,
            image_only,
            dirs,
        );
        assert(entries.last() == entries[last] && keys.last() == keys[last]);
        assert(listed(entries[last], cwd, image_only) == show(entries[last]));
        let rows = if show(entries[last]) && entries[last].is_dir == dirs {
            before.push(last)
        } else {
            before
        };
        let (es, ks) = kept(entries, keys, cwd, image_only, dirs);
        assert forall|k: int| 0 <= k < rows.len() implies 0 <= #[trigger] rows[k] < entries.len()
            && es[k] == entries[rows[k]] && ks[k] == keys[rows[k]] && show(entries[rows[k]])
            && entries[rows[k]].is_dir == dirs by {
            if k < before.len() {
                assert(rows[k] == before[k]);
                assert(entries.drop_last()[before[k]] == entries[before[k]]);
                assert(keys.drop_last()[before[k]] == keys[before[k]]);
            }
        }
        assert forall|i: int|
            0 <= i < entries.len() && show(#[trigger] entries[i]) && entries[i].is_dir
                == dirs implies rows.contains(i) by {
            if i < last {
                assert(entries.drop_last()[i] == entries[i]);
                let k = choose|k: int| 0 <= k < before.len() && before[k] == i;
                assert(rows[k] == i);
            } else {
                assert(rows[before.len() as int] == i);
            }
        }
        rows
    }
}

/// As many entries are kept as are to be shown.
proof fn lemma_kept_count(
    entries: Seq<DirEntry>,
    keys: Seq<Seq<char>>,
    cwd: Seq<char>,
    image_only: bool,
)
    requires
        entries.len() == keys.len(),
    ensures
        kept(entries, keys, cwd, image_only, true).0.len() + kept(
            entries,
            keys,
            cwd,
            image_only,
            false,
        ).0.len() == entries.filter(to_show(cwd, image_only)).len(),
    decreases entries.len(),
{
    reveal(Seq::filter);
    if entries.len() > 0 {
        lemma_kept_count(entries.drop_last(), keys.drop_last(), cwd, image_only);
        let show = to_show(cwd, image_only);
        assert(listed(entries.last(), cwd, image_only) == show(entries.last()));
    }
}

/// A listing shows every entry that is to be shown, each once and by its name and
/// path, and nothing else. Directories come before files, and the names of either
/// are in the order of their lower-case forms.
pub proof fn law_listing_shows_every_entry(
    cwd: Seq<char>,
    entries: Seq<DirEntry>,
    image_only: bool,
    rows: Seq<RowView>,
)
    requires
        lists(cwd, entries, image_only, rows),
    ensures
        rows.len() == entries.filter(to_show(cwd, image_only)).len(),
        forall|i: int|
            0 <= i < entries.len() && to_show(cwd, image_only)(#[trigger] entries[i]) ==> exists|
                j: int,
            |
                0 <= j < rows.len() && (#[trigger] rows[j]).name == shown_text(entries[i].name@)
                    && rows[j].path == joined(cwd, entries[i].name@) && rows[j].is_dir
                    == entries[i].is_dir,
        forall|j: int|
            #![trigger rows[j]]
            0 <= j < rows.len() ==> exists|i: int|
                0 <= i < entries.len() && to_show(cwd, image_only)(#[trigger] entries[i])
                    && rows[j].name == shown_text(entries[i].name@) && rows[j].path
                    == joined(cwd, entries[i].name@) && rows[j].is_dir == entries[i].is_dir,
        forall|a: int, b: int|
            0 <= a < b < rows.len() ==> {
                &&& (#[trigger] rows[b]).is_dir ==> (#[trigger] rows[a]).is_dir
                &&& rows[a].is_dir == rows[b].is_dir ==> !text_lt(
                    lowercase(rows[b].name),
                    lowercase(rows[a].name),
                )
            },
{
    let keys = name_keys(entries);
    let show = to_show(cwd, image_only);
    let out = choose|out: Seq<DirEntry>|
        #[trigger] arranged(entries, keys, cwd, image_only, out) && rows == rows_of(cwd, out);
    let (dirs, dir_keys) = kept(entries, keys, cwd, image_only, true);
    let (files, file_keys) = kept(entries, keys, cwd, image_only, false);
    let from_d = lemma_kept_from(entries, keys, cwd, image_only, true);
    let from_f = lemma_kept_from(entries, keys, cwd, image_only, false);
    lemma_kept_count(entries, keys, cwd, image_only);
    let (d, f) = choose|d: Seq<DirEntry>, f: Seq<DirEntry>|
        #![trigger d + f]
        sorted_by(dirs, dir_keys, d) && sorted_by(files, file_keys, f) && out == d + f;
    let p = law_sorting_keeps_every_item(dirs, dir_keys, d);
    let q = law_sorting_keeps_every_item(files, file_keys, f);
    assert forall|i: int| 0 <= i < entries.len() && show(#[trigger] entries[i]) implies exists|
        j: int,
    |
        0 <= j < rows.len() && (#[trigger] rows[j]).name == shown_text(entries[i].name@)
            && rows[j].path == joined(cwd, entries[i].name@) && rows[j].is_dir
            == entries[i].is_dir by {
        if entries[i].is_dir {
            assert(from_d.contains(i));
            let k = choose|k: int| 0 <= k < from_d.len() && from_d[k] == i;
            assert(p.contains(k));
            let j = choose|j: int| 0 <= j < p.len() && p[j] == k;
            assert(out[j] == d[j] && d[j] == dirs[p[j]]);
            assert(rows[j] == row_of(cwd, out[j]));
        } else {
            assert(from_f.contains(i));
            let k = choose|k: int| 0 <= k < from_f.len() && from_f[k] == i;
            assert(q.contains(k));
            let j = choose|j: int| 0 <= j < q.len() && q[j] == k;
            assert(out[d.len() + j] == f[j] && f[j] == files[q[j]]);
            assert(rows[d.len() + j] == row_of(cwd, out[d.len() + j]));
        }
    }
    assert forall|j: int| 0 <= j < rows.len() implies ({
        let n = if j < d.len() {
            from_d[p[j]]
        } else {
            from_f[q[j - d.len()]]
        };
        &&& 0 <= n < entries.len()
        &&& show(entries[n])
        &&& (#[trigger] rows[j]) == row_of(cwd, entries[n])
        &&& entries[n].is_dir == (j < d.len())
        &&& keys[n] == lowercase(rows[j].name)
        &&& keys[n] == (if j < d.len() {
            dir_keys[p[j]]
        } else {
            file_keys[q[j - d.len()]]
        })
    }) by {
        assert(rows[j] == row_of(cwd, out[j]));
        if j < d.len() {
            assert(out[j] == d[j] && d[j] == dirs[p[j]]);
            assert(dirs[p[j]] == entries[from_d[p[j]]]);
        } else {
            let k = j - d.len();
            assert(out[j] == f[k] && f[k] == files[q[k]]);
            assert(files[q[k]] == entries[from_f[q[k]]]);
        }
    }
    assert forall|a: int, b: int| 0 <= a < b < rows.len() implies {
        &&& (#[trigger] rows[b]).is_dir ==> (#[trigger] rows[a]).is_dir
        &&& rows[a].is_dir == rows[b].is_dir ==> !text_lt(
            lowercase(rows[b].name),
            lowercase(rows[a].name),
        )
    } by {
        if b < d.len() {
            assert(!text_lt(dir_keys[p[b]], dir_keys[p[a]]));
        } else if a >= d.len() {
            assert(!text_lt(file_keys[q[b - d.len()]], file_keys[q[a - d.len()]]));
        }
    }
}

/// What a row says of its entry: a directory has a dash for its size and a file
/// its size, if it could be read; a picture below 8 MiB has a thumbnail.
pub proof fn law_rows_describe_their_entries(cwd: Seq<char>, e: DirEntry)
    ensures
        ({
            let r = row_of(cwd, e);
            &&& r.is_dir == e.is_dir
            &&& e.is_dir ==> r.size == "—"@ && r.kind == "dir"@
            &&& !e.is_dir && e.len is None ==> r.size.len() == 0
            &&& !e.is_dir ==> (e.len matches Some(n) ==> r.size == size_text(n as nat))
            &&& !e.is_dir ==> r.kind != "dir"@
            &&& e.modified matches Some(m) ==> r.modified == m@
            &&& e.modified is None ==> r.modified.len() == 0
            &&& r.thumb ==> (e.len matches Some(n) && n < 8388608) && image_path(r.path)
            &&& image_path(r.path) && (e.len matches Some(n) && n < 8388608) ==> r.thumb
        }),
{
    lemma_kinds_differ(joined(cwd, e.name@), e.executable);
}

/// No file is of the kind of directories.
proof fn lemma_kinds_differ(path: Seq<char>, executable: bool)
    ensures
        kind_of(path, false, executable) != "dir"@,
{
    reveal_strlit("dir");
    reveal_strlit("image");
    reveal_strlit("audio");
    reveal_strlit("video");
    reveal_strlit("archive");
    reveal_strlit("code");
    reveal_strlit("text");
    reveal_strlit("pdf");
    reveal_strlit("exec");
    reveal_strlit("file");
    assert("dir"@.len() == 3 && "pdf"@.len() == 3);
    assert("dir"@[0] == 'd' && "pdf"@[0] == 'p');
    assert("image"@.len() == 5 && "audio"@.len() == 5 && "video"@.len() == 5);
    assert("archive"@.len() == 7 && "code"@.len() == 4 && "text"@.len() == 4);
    assert("exec"@.len() == 4 && "file"@.len() == 4);
}

/// Whatever the keys, a listing shows no dotfiles, only entries that were asked
/// for, and every directory before every file.
pub proof fn law_listing_shows_directories_first(
    entries: Seq<DirEntry>,
    keys: Seq<Seq<char>>,
    cwd: Seq<char>,
    image_only: bool,
    out: Seq<DirEntry>,
)
    requires
        entries.len() == keys.len(),
        arranged(entries, keys, cwd, image_only, out),
    ensures
        forall|i: int| 0 <= i < out.len() ==> listed(#[trigger] out[i], cwd, image_only),
        forall|i: int, j: int|
            0 <= i < j < out.len() && (#[trigger] out[j]).is_dir ==> (#[trigger] out[i]).is_dir,
        out.len() == kept(entries, keys, cwd, image_only, true).0.len() + kept(
            entries,
            keys,
            cwd,
            image_only,
            false,
        ).0.len(),
{
    let (dirs, dir_keys) = kept(entries, keys, cwd, image_only, true);
    let (files, file_keys) = kept(entries, keys, cwd, image_only, false);
    lemma_kept(entries, keys, cwd, image_only, true);
    lemma_kept(entries, keys, cwd, image_only, false);
    let (d, f) = choose|d: Seq<DirEntry>, f: Seq<DirEntry>|
        #![trigger d + f]
        sorted_by(dirs, dir_keys, d) && sorted_by(files, file_keys, f) && out == d + f;
    let p = choose|order: Seq<int>|
        #[trigger] stable_order(dir_keys, order) && forall|i: int|
            0 <= i < order.len() ==> d[i] == dirs[order[i]];
    let q = choose|order: Seq<int>|
        #[trigger] stable_order(file_keys, order) && forall|i: int|
            0 <= i < order.len() ==> f[i] == files[order[i]];
    assert forall|i: int| 0 <= i < out.len() implies listed(#[trigger] out[i], cwd, image_only)
        && out[i].is_dir == (i < d.len()) by {
        if i < d.len() {
            assert(out[i] == d[i]);
            assert(d[i] == dirs[p[i]]);
        } else {
            assert(out[i] == f[i - d.len()]);
            assert(f[i - d.len()] == files[q[i - d.len()]]);
        }
    }
}

/// What is listed of a directory is every entry that does not start with a dot, and
/// nothing else, with directories first.
pub proof fn law_directories_are_listed(cwd: &str, entries: Vec<DirEntry>, r: Vec<Row>)
    requires
        call_ensures(list_rows, (cwd, entries, false), r),
    ensures
        forall|i: int|
            0 <= i < entries.len() && !(shown_text((#[trigger] entries@[i]).name@).len() > 0
                && shown_text(entries@[i].name@)[0] == '.') ==> exists|j: int|
                0 <= j < r.len() && (#[trigger] r@[j]).name@ == shown_text(entries@[i].name@)
                    && r@[j].path@ == joined(cwd@, entries@[i].name@),
        r.len() == entries@.filter(to_show(cwd@, false)).len(),
        forall|a: int, b: int|
            0 <= a < b < r.len() && (#[trigger] r@[b]).is_dir ==> (#[trigger] r@[a]).is_dir,
{
    let rows = row_views(r@);
    law_listing_shows_every_entry(cwd@, entries@, false, rows);
    assert forall|i: int|
        0 <= i < entries.len() && !(shown_text((#[trigger] entries@[i]).name@).len() > 0
            && shown_text(entries@[i].name@)[0] == '.') implies exists|j: int|
        0 <= j < r.len() && (#[trigger] r@[j]).name@ == shown_text(entries@[i].name@)
            && r@[j].path@ == joined(cwd@, entries@[i].name@) by {
        assert(to_show(cwd@, false)(entries@[i]));
        let j = choose|j: int|
            0 <= j < rows.len() && (#[trigger] rows[j]).name == shown_text(entries@[i].name@)
                && rows[j].path == joined(cwd@, entries@[i].name@) && rows[j].is_dir
                == entries@[i].is_dir;
        assert(rows[j] == r@[j]@);
    }
    assert forall|a: int, b: int|
        0 <= a < b < r.len() && (#[trigger] r@[b]).is_dir implies (#[trigger] r@[a]).is_dir by {
        assert(rows[a] == r@[a]@ && rows[b] == r@[b]@);
        assert(rows[b].is_dir ==> rows[a].is_dir);
    }
}

} // verus!
