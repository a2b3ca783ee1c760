use std::path::{Path, PathBuf};

use s_compositor::files::browser::{
    describe, directory_or_root, expand_tilde, home_dir, opener, previews, start_dir, visit, which,
    Browser, Visit,
};
use s_compositor::files::copy::Copier;
use s_compositor::files::dialog::{Choice, Controller};
use s_compositor::files::kind::{file_kind, is_image};
use s_compositor::files::listing::{list_rows, list_rows_by, DirEntry};
use s_compositor::files::ops::{
    copy_into, create_folder, data_home, move_into, move_step, rename, split_name, trash_dir,
    trash_dirs, trash_info, trash_paths, trash_step, trash_target, unique_destination, MoveAction,
    MoveState, OpsError, Renaming, TrashAction, TrashState,
};
use s_compositor::files::size::human_size;
use s_compositor::text::ospath::{path_bytes, path_text, shown};
use s_compositor::text::paths::{
    extension, file_name, is_absolute, join, parent, paths_equal,
};
use s_compositor::text::percent::{path_to_uri, percent_encode};

#[test]
fn file_dialog_classifies_file_kinds() {
    assert_eq!(file_kind("/x", true, false), "dir");
    assert_eq!(file_kind("a.png", false, false), "image");
    assert_eq!(file_kind("a.JPEG", false, false), "image");
    assert_eq!(file_kind("a.mp3", false, false), "audio");
    assert_eq!(file_kind("a.mkv", false, false), "video");
    assert_eq!(file_kind("a.tar", false, false), "archive");
    assert_eq!(file_kind("main.rs", false, false), "code");
    assert_eq!(file_kind("a.toml", false, false), "code");
    assert_eq!(file_kind("notes.txt", false, false), "text");
    assert_eq!(file_kind("a.pdf", false, false), "pdf");
    assert_eq!(file_kind("a.exe", false, false), "exec");
    assert_eq!(file_kind("/nonexistent/unknown.xyz", false, false), "file");
}

#[test]
fn recognizes_image_extensions() {
    assert!(is_image("a.png"));
    assert!(is_image("a.JPG")); // case-insensitive
    assert!(is_image("/x/y.jpeg"));
    assert!(is_image("a.webp"));
}

#[test]
fn rejects_non_images() {
    assert!(!is_image("a.txt"));
    assert!(!is_image("noext"));
    assert!(!is_image("a.tar.gz"));
}

#[test]
fn model_classifies_file_kinds() {
    assert_eq!(file_kind("/x", true, false), "dir");
    assert_eq!(file_kind("a.png", false, false), "image");
    assert_eq!(file_kind("a.JPEG", false, false), "image");
    assert_eq!(file_kind("a.mp3", false, false), "audio");
    assert_eq!(file_kind("main.rs", false, false), "code");
    assert_eq!(file_kind("a.pdf", false, false), "pdf");
    assert_eq!(file_kind("/nonexistent/unknown.xyz", false, false), "file");
}

#[test]
fn executables_are_programs_unless_the_extension_says_otherwise() {
    assert_eq!(file_kind("/bin/ls", false, true), "exec");
    assert_eq!(file_kind("run.sh", false, true), "code");
    assert_eq!(file_kind(".hidden", false, true), "exec");
    assert_eq!(file_kind("a.ICO", false, false), "image");
    assert!(!is_image("a.ico"));
}

#[test]
fn recognizes_images() {
    assert!(is_image("a.png"));
    assert!(is_image("a.JPG"));
    assert!(!is_image("a.txt"));
}

#[test]
fn formats_sizes() {
    assert_eq!(human_size(0), "0 B");
    assert_eq!(human_size(512), "512 B");
    assert_eq!(human_size(1024), "1.0 KB");
    assert_eq!(human_size(1024 * 1024 * 3), "3.0 MB");
}

/// The sizes as floating-point arithmetic gives them.
fn float_size(bytes: u64) -> String {
    let units = ["B", "KB", "MB", "GB", "TB"];
    let mut size = bytes as f64;
    let mut unit = 0;
    while size >= 1024.0 && unit < units.len() - 1 {
        size /= 1024.0;
        unit += 1;
    }
    if unit == 0 {
        format!("{bytes} B")
    } else {
        format!("{size:.1} {}", units[unit])
    }
}

#[test]
fn sizes_are_those_of_floating_point_arithmetic() {
    let mut samples: Vec<u64> = vec![u64::MAX, u64::MAX - 1, 1 << 53, (1 << 53) + 1, (1 << 63) + 1025];
    for shift in 0..64 {
        for offset in 0..40u64 {
            samples.push((1u64 << shift).wrapping_add(offset));
            samples.push((1u64 << shift).wrapping_sub(offset));
            samples.push((1u64 << shift).wrapping_add((1u64 << shift) / 20 * offset));
        }
    }
    // Ties between two decimals.
    for k in 0..2000u64 {
        samples.push(1024 * k + 256 * (k % 4));
        samples.push((1 << 20) * k + (1 << 18) * (k % 4));
    }
    let mut x: u64 = 88172645463325252;
    for _ in 0..20000 {
        x ^= x << 13;
        x ^= x >> 7;
        x ^= x << 17;
        samples.push(x >> (x % 64));
    }
    for n in samples {
        assert_eq!(human_size(n), float_size(n), "{n}");
    }
}

#[test]
fn expands_tilde() {
    let home = "/home/u";
    assert_eq!(expand_tilde("~/x", home), "/home/u/x");
    assert_eq!(expand_tilde("/abs", home), "/abs");
}

#[test]
fn paths_behave_like_the_standard_librarys() {
    let paths = [
        "", "/", "//", ".", "..", "./", "/.", "/..", "a", "a/", "a//", "/a", "/a/", "//a", "a/b",
        "a//b", "/a/b", "/a/b/", "/a/./b", "/a/b/.", "./a", "./a/b", "a/./", "a/..", "a/../b",
        "../a", "/a/.b", "/a/.b.c", "a.tar.gz", ".", ".bashrc", "..x", "x.", "/x/y.d/z", "a/./.",
        "./.", "./..", "/./a", "//./a", "ä/ö.ü", "a b/c d.e f", "/..a/b..",
    ];
    for p in paths {
        let std = Path::new(p);
        let text = |p: Option<&Path>| p.map(|p| p.to_str().unwrap().to_string());
        assert_eq!(parent(p).map(str::to_string), text(std.parent()), "parent of {p:?}");
        assert_eq!(file_name(p), std.file_name().map(|n| n.to_str().unwrap()), "name of {p:?}");
        assert_eq!(extension(p), std.extension().map(|n| n.to_str().unwrap()), "ext of {p:?}");
        assert_eq!(is_absolute(p), std.is_absolute());
        for q in paths {
            assert_eq!(join(p, q), PathBuf::from(p).join(q).to_str().unwrap(), "{p:?} + {q:?}");
            assert_eq!(paths_equal(p, q), std == Path::new(q), "{p:?} == {q:?}");
        }
    }
}

fn there(paths: &[&str]) -> impl Fn(&str) -> bool {
    let paths: Vec<String> = paths.iter().map(|p| p.to_string()).collect();
    move |p: &str| paths.iter().any(|q| q == p)
}

#[test]
fn unique_destination_dedups() {
    let unique = |taken: &[&str], name: &str| unique_destination("/d", name, &there(taken)).unwrap();
    assert_eq!(unique(&[], "a.txt"), "/d/a.txt");
    assert_eq!(unique(&["/d/a.txt"], "a.txt"), "/d/a (copy).txt");
    assert_eq!(
        unique(&["/d/a.txt", "/d/a (copy).txt"], "a.txt"),
        "/d/a (copy 2).txt"
    );
    // Dotfile with no extension.
    assert_eq!(unique(&["/d/notes"], "notes"), "/d/notes (copy)");
    assert_eq!(unique(&["/d/.bashrc"], ".bashrc"), "/d/.bashrc (copy)");
}

#[test]
fn copy_file_and_dir() {
    let none = there(&[]);
    assert_eq!(copy_into("/x/src", "/x/dst", &none).unwrap(), "/x/dst/src");
    // A second copy into the same dir dedups.
    let once = there(&["/x/dst/src"]);
    assert_eq!(copy_into("/x/src", "/x/dst", &once).unwrap(), "/x/dst/src (copy)");
    assert_eq!(copy_into("/", "/x", &none), Err(OpsError::NoFileName));

    let mut copier = Copier::new("/x/src", "/x/dst/src");
    let mut seen = Vec::new();
    while let Some((from, to)) = copier.next() {
        match from.as_str() {
            "/x/src" => copier.entered(&from, &to, &vec!["f.txt".to_string(), "sub".to_string()]),
            "/x/src/sub" => copier.entered(&from, &to, &vec!["g.txt".to_string()]),
            _ => {}
        }
        seen.push((from, to));
    }
    let seen: Vec<(&str, &str)> = seen.iter().map(|(a, b)| (a.as_str(), b.as_str())).collect();
    assert_eq!(
        seen,
        vec![
            ("/x/src", "/x/dst/src"),
            ("/x/src/f.txt", "/x/dst/src/f.txt"),
            ("/x/src/sub", "/x/dst/src/sub"),
            ("/x/src/sub/g.txt", "/x/dst/src/sub/g.txt"),
        ]
    );
}

#[test]
fn move_removes_source() {
    let none = there(&[]);
    assert_eq!(move_into("/x/m.txt", "/x/d", &none).unwrap(), "/x/d/m.txt");
    assert_eq!(move_into("/x/..", "/x/d", &none), Err(OpsError::NoFileName));

    // (rename works, copy works, removal works) and what is asked for in turn.
    let runs = [
        ((true, true, true), vec![MoveAction::Rename, MoveAction::Succeed]),
        (
            (false, true, true),
            vec![MoveAction::Rename, MoveAction::Copy, MoveAction::Remove, MoveAction::Succeed],
        ),
        ((false, false, true), vec![MoveAction::Rename, MoveAction::Copy, MoveAction::Fail]),
        (
            (false, true, false),
            vec![MoveAction::Rename, MoveAction::Copy, MoveAction::Remove, MoveAction::Fail],
        ),
    ];
    for ((rename, copy, removal), expected) in runs {
        let mut state = MoveState::New;
        let mut failed = false;
        let mut asked = Vec::new();
        loop {
            let (next, action) = move_step(state, failed);
            state = next;
            asked.push(action);
            failed = match action {
                MoveAction::Rename => !rename,
                MoveAction::Copy => !copy,
                MoveAction::Remove => !removal,
                MoveAction::Succeed | MoveAction::Fail => break,
            };
        }
        assert_eq!(asked, expected);
        assert_eq!(move_step(state, !failed).0, state);
    }
}

#[test]
fn path_texts_keep_every_byte() {
    let raw: [&[u8]; 9] = [
        b"/home/u/a.txt",
        b"/caf\xc3\xa9/\xe6\x97\xa5",
        b"/caf\xe9",
        b"/\xff\xfe/\xf0\x9f\x98\x80",
        b"\xe6\x97",
        b"\xc0\xaf\xed\xa0\x80",
        b"\xf4\x90\x80\x80",
        b"a\x80\xc3\xa9",
        b"",
    ];
    for bytes in raw {
        let text = path_text(bytes);
        assert_eq!(path_bytes(&text), bytes);
        assert_eq!(shown(&text), String::from_utf8_lossy(bytes));
        assert_eq!(text.contains('\0'), String::from_utf8(bytes.to_vec()).is_err());
    }
    assert_eq!(path_text("/café/日".as_bytes()), "/café/日");
    assert_eq!(path_text(b"/caf\xe9"), "/caf\0\u{e9}");
    let joined = join(&path_text(b"/\xff"), &path_text(b"\xfe.png"));
    assert_eq!(path_bytes(&joined), b"/\xff/\xfe.png");
}

#[test]
fn entries_that_are_not_utf8_are_found_again() {
    let cwd = path_text(b"/d\xff");
    let mut image = entry("", false);
    image.name = path_text(b"b\xe9.PNG");
    let rows = list_rows(&cwd, vec![image, entry("a", false)], false);
    assert_eq!(names(&rows), ["a", "b\u{fffd}.PNG"]);
    assert_eq!(rows[1].kind, "image");
    assert_eq!(path_bytes(&rows[1].path), b"/d\xff/b\xe9.PNG");

    let mut b = Browser::new();
    b.navigate(cwd.clone(), vec![entry("a", false)]);
    assert_eq!(b.window_title(), "d\u{fffd} — Files");
    assert_eq!(path_bytes(&b.go_up().unwrap()), b"/");
    assert_eq!(expand_tilde("~/x", &cwd), "/d\u{fffd}/x");

    let mut copier = Copier::new(&rows[1].path, "/c");
    copier.next();
    copier.entered(&rows[1].path, "/c", &vec![path_text(b"\xe9")]);
    let (from, to) = copier.next().unwrap();
    assert_eq!(path_bytes(&from), b"/d\xff/b\xe9.PNG/\xe9");
    assert_eq!(path_bytes(&to), b"/c/\xe9");

    let none = there(&[]);
    assert_eq!(copy_into(&rows[1].path, "/c", &none).unwrap(), "/c/b\u{fffd}.PNG");
    assert_eq!(trash_target(&rows[1].path, "/t", &none).unwrap(), "b\u{fffd}.PNG");
    assert_eq!(path_to_uri(&cwd), "file:///d%EF%BF%BD");
    assert_eq!(trash_info(&cwd, "now"), "[Trash Info]\nPath=/d%EF%BF%BD\nDeletionDate=now\n");
}

#[test]
fn rename_and_new_folder() {
    let taken = there(&["/d/taken.txt", "/d/Project"]);
    assert_eq!(
        rename("/d/old.txt", "new.txt", &taken),
        Ok(Renaming::Move("/d/new.txt".to_string()))
    );
    assert_eq!(
        rename("/d/old.txt", " old.txt ", &taken),
        Ok(Renaming::Keep("/d/old.txt".to_string()))
    );
    // Rejects collisions and bad names.
    assert_eq!(rename("/d/new.txt", "taken.txt", &taken), Err(OpsError::AlreadyExists));
    assert_eq!(rename("/d/new.txt", "a/b", &taken), Err(OpsError::InvalidName));
    assert_eq!(rename("/d/new.txt", "  ", &taken), Err(OpsError::InvalidName));
    assert_eq!(rename("/", "x", &taken), Err(OpsError::NoParent));

    assert_eq!(create_folder("/e", "Project", &taken).unwrap(), "/e/Project");
    assert_eq!(create_folder("/d", "Project", &taken).unwrap(), "/d/Project (copy)");
    assert_eq!(create_folder("/d", "a/b", &taken), Err(OpsError::InvalidName));
    assert_eq!(OpsError::AlreadyExists.message(), "a file with that name already exists");
    assert_eq!(OpsError::NoFreeName.message(), "no free name");
}

#[test]
fn trash_moves_and_writes_info() {
    let free = |_: &str| false;
    let trash = trash_dir(Some("/data"), None);
    assert_eq!(trash, "/data/Trash");
    assert_eq!(
        trash_dirs(&trash),
        ("/data/Trash/files".to_string(), "/data/Trash/info".to_string())
    );
    assert_eq!(
        trash_paths(&trash, "doomed.txt"),
        (
            "/data/Trash/files/doomed.txt".to_string(),
            "/data/Trash/info/doomed.txt.trashinfo".to_string()
        )
    );
    assert_eq!(trash_target("/d/doomed.txt", &trash, &free).unwrap(), "doomed.txt");
    // A second file of the same name gets a distinct trash name.
    let taken = there(&["/data/Trash/files/doomed.txt"]);
    assert_eq!(trash_target("/d/doomed.txt", &trash, &taken).unwrap(), "doomed.2.txt");
    // So does one for whose name only an info file is left.
    let more = there(&["/data/Trash/files/notes", "/data/Trash/info/notes.2.trashinfo"]);
    assert_eq!(trash_target("/d/notes", &trash, &more).unwrap(), "notes.3");
    assert_eq!(trash_target("/..", &trash, &free), Err(OpsError::NoFileName));

    // The info file is written first, and nothing moves if that fails.
    let (state, action) = trash_step(TrashState::New, true);
    assert_eq!(action, TrashAction::Describe);
    assert_eq!(trash_step(state, true).1, TrashAction::Fail);
    assert_eq!(trash_step(TrashState::Failed, false).1, TrashAction::Fail);
    let (state, action) = trash_step(state, false);
    assert_eq!(action, TrashAction::Move(MoveAction::Rename));
    assert_eq!(trash_step(state, false).1, TrashAction::Move(MoveAction::Succeed));
    assert_eq!(trash_step(state, true).1, TrashAction::Move(MoveAction::Copy));

    let text = trash_info("/d/My File.txt", "2026-06-03T09:05:00");
    assert_eq!(
        text,
        "[Trash Info]\nPath=/d/My%20File.txt\nDeletionDate=2026-06-03T09:05:00\n"
    );
    assert_eq!(data_home(Some("/data"), Some("/home/u")), "/data");
    assert_eq!(data_home(Some(""), Some("/home/u")), "/home/u/.local/share");
    assert_eq!(data_home(None, None), "/.local/share");
}

#[test]
fn names_are_split_at_the_last_dot() {
    let split = |name: &str| split_name(name);
    assert_eq!(split("a.tar.gz"), ("a.tar".to_string(), Some("gz".to_string())));
    assert_eq!(split(".bashrc"), (".bashrc".to_string(), None));
    assert_eq!(split("x."), ("x".to_string(), Some(String::new())));
    assert_eq!(split("noext"), ("noext".to_string(), None));
}

#[test]
fn percent_encoding() {
    assert_eq!(percent_encode("/a/b c"), "/a/b%20c");
    assert_eq!(percent_encode("/tmp/x.txt"), "/tmp/x.txt");
    assert_eq!(percent_encode("/é"), "/%C3%A9");
    assert_eq!(percent_encode("%~\u{7f}"), "%25~%7F");
}

#[test]
fn simple_path() {
    assert_eq!(path_to_uri("/a/b"), "file:///a/b");
}

#[test]
fn spaces_and_specials_are_percent_encoded() {
    assert_eq!(
        path_to_uri("/home/u/My File.png"),
        "file:///home/u/My%20File.png"
    );
    assert_eq!(path_to_uri("/a#b?c"), "file:///a%23b%3Fc");
}

#[test]
fn unreserved_chars_kept() {
    assert_eq!(path_to_uri("/a-b_c.d~e"), "file:///a-b_c.d~e");
}

fn entry(name: &str, is_dir: bool) -> DirEntry {
    DirEntry {
        name: name.to_string(),
        is_dir,
        executable: false,
        len: Some(2048),
        modified: Some("2026-06-03 09:05".to_string()),
    }
}

fn names(rows: &[s_compositor::files::listing::Row]) -> Vec<&str> {
    rows.iter().map(|r| r.name.as_str()).collect()
}

#[test]
fn listings_show_directories_first_whatever_the_case() {
    let entries = vec![
        entry("b.png", false),
        entry("Zoo", true),
        entry(".git", true),
        entry("A.txt", false),
        entry("apple", true),
        entry("Ärger", true),
        entry(".profile", false),
        entry("a.TXT", false),
    ];
    let rows = list_rows("/home/u", entries, false);
    assert_eq!(names(&rows), ["apple", "Zoo", "Ärger", "A.txt", "a.TXT", "b.png"]);
    assert_eq!(rows[0].path, "/home/u/apple");
    assert_eq!((rows[0].kind, rows[0].size.as_str(), rows[0].thumb), ("dir", "—", false));
    assert_eq!((rows[5].kind, rows[5].size.as_str(), rows[5].thumb), ("image", "2.0 KB", true));
    assert_eq!(rows[5].modified, "2026-06-03 09:05");
}

#[test]
fn sorting_matches_a_stable_sort_by_lower_case() {
    let raw = [
        "straße", "STRASSE", "Éa", "éB", "a1", "A0", "İx", "ix", "Zed", "zeD", "_", "~", "日本", "É",
        "e\u{301}", "ΑΣ", "ας", "a", "A",
    ];
    let entries: Vec<DirEntry> = raw.iter().map(|n| entry(n, false)).collect();
    let mut expected = raw.to_vec();
    expected.sort_by_key(|n| n.to_lowercase());
    assert_eq!(names(&list_rows("/", entries, false)), expected);
}

#[test]
fn listings_by_given_keys() {
    let entries = vec![entry("x", false), entry("y", false), entry("z", false)];
    let keys = vec!["2".to_string(), "1".to_string(), "2".to_string()];
    assert_eq!(names(&list_rows_by("/", entries, keys, false)), ["y", "x", "z"]);
}

#[test]
fn picture_listings_leave_out_other_files() {
    let entries = vec![entry("a.txt", false), entry("b.JPG", false), entry("d.txt", true)];
    assert_eq!(names(&list_rows("/p", entries, true)), ["d.txt", "b.JPG"]);
    let mut big = entry("big.png", false);
    big.len = Some(8 << 20);
    let mut unread = entry("unread.png", false);
    unread.len = None;
    unread.modified = None;
    let rows = list_rows("/p", vec![big, unread], true);
    assert!(!rows[0].thumb && !rows[1].thumb);
    assert_eq!((rows[1].size.as_str(), rows[1].modified.as_str()), ("", ""));
}

#[test]
fn browser_remembers_where_it_was() {
    let mut b = Browser::new();
    assert_eq!(b.selected, -1);
    b.navigate("/".to_string(), vec![entry("home", true)]);
    assert!(!b.can_back());
    b.navigate("/home".to_string(), vec![entry("u", true), entry("v", true)]);
    b.navigate("/home/u".to_string(), vec![]);
    assert_eq!((b.selected, b.rows.len()), (-1, 0));
    assert_eq!(b.window_title(), "u — Files");
    assert_eq!(b.go_up().as_deref(), Some("/home"));
    let back = b.go_back().unwrap();
    assert_eq!(back, "/home");
    b.show(back, vec![entry("u", true), entry("v", true)]);
    assert_eq!(b.go_back().as_deref(), Some("/"));
    b.show("/".to_string(), vec![]);
    assert_eq!(b.go_back(), None);
    assert_eq!(b.go_up(), None);
    assert_eq!(b.window_title(), "/ — Files");
}

#[test]
fn browser_selection_stays_in_the_list() {
    let mut b = Browser::new();
    b.move_selection(1);
    assert_eq!(b.selected, -1);
    b.navigate("/p".to_string(), vec![entry("a", false), entry("b", false), entry("c.png", false)]);
    assert_eq!(b.selected, 0);
    b.move_selection(1);
    assert_eq!(b.selected_name(), "b");
    b.move_selection(i32::MAX);
    assert_eq!(b.selected, 2);
    assert_eq!(b.selected_path(), Some("/p/c.png"));
    b.move_selection(i32::MIN);
    assert_eq!(b.selected, 0);
    b.entry_clicked(7);
    b.entry_clicked(-1);
    assert_eq!(b.selected, 0);
    b.entry_clicked(1);
    assert_eq!(b.activate_selected().as_deref(), Some("/p/b"));
    assert_eq!(b.activate(-3).as_deref(), Some("/p/a"));
    assert_eq!(b.activate(3), None);
    b.select_path("/p/./c.png");
    assert_eq!(b.selected, 2);
    b.select_path("/q");
    assert_eq!(b.selected, 2);
    let dir = there(&["/home/u/x"]);
    assert_eq!(
        b.navigate_to(" ~/x ", "/home/u", &dir, &there(&[])),
        Visit::Directory("/home/u/x".to_string())
    );
    assert_eq!(b.navigate_to("/q/r", "/home/u", &dir, &there(&[])), Visit::Nowhere);
    assert_eq!(b.go_home(None), "/");
    b.selected = -1;
    b.move_selection(-1);
    assert_eq!(b.selected, 2);
}

#[test]
fn typed_paths_lead_to_directories_and_files() {
    assert_eq!(visit("/a/b", true, false), Visit::Directory("/a/b".to_string()));
    assert_eq!(
        visit("/a/b", false, true),
        Visit::File { parent: "/a".to_string(), path: "/a/b".to_string() }
    );
    assert_eq!(visit("/a/b", false, false), Visit::Nowhere);
    assert_eq!(directory_or_root("/a", false), "/");
    assert_eq!(directory_or_root("/a", true), "/a");
    assert_eq!(home_dir(None), "/");
    assert_eq!(home_dir(Some("/home/u")), "/home/u");
    assert_eq!(start_dir(Some("/x"), true, "/home/u"), "/x");
    assert_eq!(start_dir(Some("/x"), false, "/home/u"), "/home/u");
    assert_eq!(start_dir(None, false, "/home/u"), "/home/u");
}

#[test]
fn entries_are_described() {
    assert_eq!(describe(true, Some(1), "dir"), "Folder");
    assert_eq!(describe(false, Some(1536), "text"), "1.5 KB · text");
    assert_eq!(describe(false, None, "file"), "file");
    assert!(previews("a.png", true));
    assert!(!previews("a.png", false) && !previews("a.txt", true));
}

#[test]
fn files_are_opened_with_what_is_installed() {
    assert_eq!(opener(true), ("xdg-open", None));
    assert_eq!(opener(false), ("gio", Some("open")));
    let installed = there(&["/usr/bin/xdg-open"]);
    assert!(which(Some("/bin:/usr/bin"), "xdg-open", &installed));
    assert!(!which(Some("/bin"), "xdg-open", &installed));
    assert!(!which(None, "xdg-open", &installed));
}

#[test]
fn dialog_answers_a_request_once() {
    let mut d = Controller::new();
    assert!(d.open("Pick", true));
    assert!(!d.open("Again", false));
    assert_eq!((d.title.as_str(), d.visible, d.image_only), ("Pick", true, true));
    d.navigate("/p".to_string(), vec![entry("dir", true), entry("x.txt", false), entry("y.png", false)]);
    assert_eq!(d.rows.len(), 2);
    assert_eq!(d.accept(true), Choice::Enter("/p/dir".to_string()));
    assert!(d.open);
    d.move_selection(1);
    assert_eq!(d.selected_name(), "y.png");
    assert_eq!(d.activate_selected(false), Choice::Answer(Some("/p/y.png".to_string())));
    assert!(!d.open && !d.visible);
    assert_eq!(d.accept(false), Choice::Answer(None));
    assert!(!d.cancel());
    assert!(d.open("Pick", false));
    assert!(d.cancel());
    assert!(!d.cancel());
}

#[test]
fn dialog_without_a_selection_does_nothing() {
    let mut d = Controller::new();
    d.open("Pick", false);
    d.navigate("/empty".to_string(), vec![]);
    assert_eq!(d.accept(false), Choice::Nothing);
    assert!(d.open);
    assert_eq!(d.go_up().as_deref(), Some("/"));
    d.navigate("/p".to_string(), vec![entry("a", false), entry("b", false)]);
    let file = there(&["/p/b"]);
    assert_eq!(
        d.navigate_to("/p/b", "/home/u", &there(&[]), &file),
        Visit::File { parent: "/p".to_string(), path: "/p/b".to_string() }
    );
    d.select_path("/p/b");
    assert_eq!(d.selected_path(), Some("/p/b"));
    d.entry_clicked(0);
    assert_eq!(d.selected, 0);
}

#[test]
fn plain_dialog_enters_directories_on_a_click() {
    let mut d = s_compositor::slick::dialog::Controller::new();
    assert!(d.open("Pick", false));
    d.navigate("/p".to_string(), vec![entry("dir", true), entry("f", false)]);
    assert_eq!(d.selected, -1);
    assert_eq!(d.accept(), None);
    assert!(d.open);
    assert_eq!(d.entry_path(0), Some("/p/dir"));
    assert_eq!(d.entry_clicked(0, true).as_deref(), Some("/p/dir"));
    assert_eq!(d.selected, -1);
    assert_eq!(d.entry_clicked(-1, false), None);
    assert_eq!(d.entry_clicked(1, false), None);
    assert_eq!(d.selected, 1);
    assert_eq!(d.go_up().as_deref(), Some("/"));
    assert_eq!(d.accept().as_deref(), Some("/p/f"));
    assert!(!d.open && !d.cancel());
}
