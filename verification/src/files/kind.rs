//! Coarse kinds of files, by extension.

use vstd::prelude::*;

use crate::text::chars::{lower, lowered, same};
use crate::text::paths::{extension, path_extension};

verus! {

/// The kind that a lower-case extension stands for.
pub open spec fn extension_kind(ext: Seq<char>) -> Option<Seq<char>> {
    if ext == "png"@ || ext == "jpg"@ || ext == "jpeg"@ || ext == "bmp"@ || ext == "gif"@ || ext == "webp"@ || ext == "svg"@ || ext == "ico"@ || ext == "tiff"@ {
        Some("image"@)
    } else if ext == "mp3"@ || ext == "flac"@ || ext == "wav"@ || ext == "ogg"@ || ext == "opus"@ || ext == "m4a"@ || ext == "aac"@ {
        Some("audio"@)
    } else if ext == "mp4"@ || ext == "mkv"@ || ext == "webm"@ || ext == "mov"@ || ext == "avi"@ || ext == "m4v"@ || ext == "wmv"@ {
        Some("video"@)
    } else if ext == "zip"@ || ext == "tar"@ || ext == "gz"@ || ext == "bz2"@ || ext == "xz"@ || ext == "zst"@ || ext == "7z"@ || ext == "rar"@ {
        Some("archive"@)
    } else if ext == "rs"@ || ext == "c"@ || ext == "h"@ || ext == "cpp"@ || ext == "py"@ || ext == "js"@ || ext == "ts"@ || ext == "go"@ || ext == "java"@ || ext == "sh"@ || ext == "toml"@ || ext == "json"@ || ext == "yaml"@ || ext == "yml"@ || ext == "slint"@ || ext == "html"@ || ext == "css"@ {
        Some("code"@)
    } else if ext == "txt"@ || ext == "md"@ || ext == "log"@ || ext == "rst"@ || ext == "ini"@ || ext == "conf"@ {
        Some("text"@)
    } else if ext == "pdf"@ {
        Some("pdf"@)
    } else if ext == "appimage"@ || ext == "bin"@ || ext == "run"@ || ext == "exe"@ {
        Some("exec"@)
    } else {
        None
    }
}

/// The kind of a file or directory: by its extension, else whether it can be
/// executed.
pub open spec fn kind_of(path: Seq<char>, is_dir: bool, executable: bool) -> Seq<char> {
    if is_dir {
        "dir"@
    } else {
        let known = match path_extension(path) {
            Some(ext) => extension_kind(lower(ext)),
            None => None,
        };
        match known {
            Some(kind) => kind,
            None => if executable {
                "exec"@
            } else {
                "file"@
            },
        }
    }
}

/// The path has the extension of a picture that can be shown.
pub open spec fn image_path(path: Seq<char>) -> bool {
    match path_extension(path) {
        Some(e) => {
            let ext = lower(e);
            ext == "png"@ || ext == "jpg"@ || ext == "jpeg"@ || ext == "bmp"@ || ext == "gif"@ || ext == "webp"@ || ext == "svg"@
        },
        None => false,
    }
}

/// The kind that a lower-case extension stands for.
fn kind_of_extension(e: &str) -> (r: Option<&'static str>)
    ensures
        match r {
            Some(kind) => extension_kind(e@) == Some(kind@),
            None => extension_kind(e@) is None,
        },
{
    if same(e, "png") || same(e, "jpg") || same(e, "jpeg") || same(e, "bmp") || same(e, "gif") || same(e, "webp") || same(e, "svg") || same(e, "ico") || same(e, "tiff") {
        Some("image")
    } else if same(e, "mp3") || same(e, "flac") || same(e, "wav") || same(e, "ogg") || same(e, "opus") || same(e, "m4a") || same(e, "aac") {
        Some("audio")
    } else if same(e, "mp4") || same(e, "mkv") || same(e, "webm") || same(e, "mov") || same(e, "avi") || same(e, "m4v") || same(e, "wmv") {
        Some("video")
    } else if same(e, "zip") || same(e, "tar") || same(e, "gz") || same(e, "bz2") || same(e, "xz") || same(e, "zst") || same(e, "7z") || same(e, "rar") {
        Some("archive")
    } else if same(e, "rs") || same(e, "c") || same(e, "h") || same(e, "cpp") || same(e, "py") || same(e, "js") || same(e, "ts") || same(e, "go") || same(e, "java") || same(e, "sh") || same(e, "toml") || same(e, "json") || same(e, "yaml") || same(e, "yml") || same(e, "slint") || same(e, "html") || same(e, "css") {
        Some("code")
    } else if same(e, "txt") || same(e, "md") || same(e, "log") || same(e, "rst") || same(e, "ini") || same(e, "conf") {
        Some("text")
    } else if same(e, "pdf") {
        Some("pdf")
    } else if same(e, "appimage") || same(e, "bin") || same(e, "run") || same(e, "exe") {
        Some("exec")
    } else {
        None
    }
}

/// Classify a path into a coarse kind used by the UI to pick an icon.
/// `executable` is whether the file's mode has an executable bit.
pub fn file_kind(path: &str, is_dir: bool, executable: bool) -> (r: &'static str)
    ensures
        r@ == kind_of(path@, is_dir, executable),
{
    if is_dir {
        return "dir";
    }
    if let Some(ext) = extension(path) {
        if let Some(kind) = kind_of_extension(lowered(ext).as_str()) {
            return kind;
        }
    }
    if executable {
        "exec"
    } else {
        "file"
    }
}

/// Whether a path has the extension of a picture.
pub fn is_image(path: &str) -> (r: bool)
    ensures
        r == image_path(path@),
{
    match extension(path) {
        Some(ext) => {
            let low = lowered(ext);
            let e = low.as_str();
            same(e, "png") || same(e, "jpg") || same(e, "jpeg") || same(e, "bmp") || same(e, "gif") || same(e, "webp") || same(e, "svg")
        },
        None => false,
    }
}

/// A picture that can be shown is of the kind `image`.
pub proof fn law_images_are_of_kind_image(path: Seq<char>, executable: bool)
    requires
        image_path(path),
    ensures
        kind_of(path, false, executable) == "image"@,
{
}

/// The extensions and their kinds; no other extension has a kind.
pub proof fn law_extensions_have_their_kinds(ext: Seq<char>)
    ensures
        ext == "png"@ || ext == "jpg"@ || ext == "jpeg"@ || ext == "bmp"@ || ext == "gif"@ || ext == "webp"@ || ext == "svg"@ || ext == "ico"@ || ext == "tiff"@ ==> extension_kind(ext) == Some("image"@),
        ext == "mp3"@ || ext == "flac"@ || ext == "wav"@ || ext == "ogg"@ || ext == "opus"@ || ext == "m4a"@ || ext == "aac"@ ==> extension_kind(ext) == Some("audio"@),
        ext == "mp4"@ || ext == "mkv"@ || ext == "webm"@ || ext == "mov"@ || ext == "avi"@ || ext == "m4v"@ || ext == "wmv"@ ==> extension_kind(ext) == Some("video"@),
        ext == "zip"@ || ext == "tar"@ || ext == "gz"@ || ext == "bz2"@ || ext == "xz"@ || ext == "zst"@ || ext == "7z"@ || ext == "rar"@ ==> extension_kind(ext) == Some("archive"@),
        ext == "rs"@ || ext == "c"@ || ext == "h"@ || ext == "cpp"@ || ext == "py"@ || ext == "js"@ || ext == "ts"@ || ext == "go"@ || ext == "java"@ || ext == "sh"@ || ext == "toml"@ || ext == "json"@ || ext == "yaml"@ || ext == "yml"@ || ext == "slint"@ || ext == "html"@ || ext == "css"@ ==> extension_kind(ext) == Some("code"@),
        ext == "txt"@ || ext == "md"@ || ext == "log"@ || ext == "rst"@ || ext == "ini"@ || ext == "conf"@ ==> extension_kind(ext) == Some("text"@),
        ext == "pdf"@ ==> extension_kind(ext) == Some("pdf"@),
        ext == "appimage"@ || ext == "bin"@ || ext == "run"@ || ext == "exe"@ ==> extension_kind(ext) == Some("exec"@),
        ext != "png"@ && ext != "jpg"@ && ext != "jpeg"@ && ext != "bmp"@ && ext != "gif"@ && ext != "webp"@ && ext != "svg"@ && ext != "ico"@ && ext != "tiff"@ && ext != "mp3"@ && ext != "flac"@ && ext != "wav"@ && ext != "ogg"@ && ext != "opus"@ && ext != "m4a"@ && ext != "aac"@ && ext != "mp4"@ && ext != "mkv"@ && ext != "webm"@ && ext != "mov"@ && ext != "avi"@ && ext != "m4v"@ && ext != "wmv"@ && ext != "zip"@ && ext != "tar"@ && ext != "gz"@ && ext != "bz2"@ && ext != "xz"@ && ext != "zst"@ && ext != "7z"@ && ext != "rar"@ && ext != "rs"@ && ext != "c"@ && ext != "h"@ && ext != "cpp"@ && ext != "py"@ && ext != "js"@ && ext != "ts"@ && ext != "go"@ && ext != "java"@ && ext != "sh"@ && ext != "toml"@ && ext != "json"@ && ext != "yaml"@ && ext != "yml"@ && ext != "slint"@ && ext != "html"@ && ext != "css"@ && ext != "txt"@ && ext != "md"@ && ext != "log"@ && ext != "rst"@ && ext != "ini"@ && ext != "conf"@ && ext != "pdf"@ && ext != "appimage"@ && ext != "bin"@ && ext != "run"@ && ext != "exe"@ ==> extension_kind(ext) is None,
{
    reveal_strlit("png");
    reveal_strlit("jpg");
    reveal_strlit("jpeg");
    reveal_strlit("bmp");
    reveal_strlit("gif");
    reveal_strlit("webp");
    reveal_strlit("svg");
    reveal_strlit("ico");
    reveal_strlit("tiff");
    reveal_strlit("mp3");
    reveal_strlit("flac");
    reveal_strlit("wav");
    reveal_strlit("ogg");
    reveal_strlit("opus");
    reveal_strlit("m4a");
    reveal_strlit("aac");
    reveal_strlit("mp4");
    reveal_strlit("mkv");
    reveal_strlit("webm");
    reveal_strlit("mov");
    reveal_strlit("avi");
    reveal_strlit("m4v");
    reveal_strlit("wmv");
    reveal_strlit("zip");
    reveal_strlit("tar");
    reveal_strlit("gz");
    reveal_strlit("bz2");
    reveal_strlit("xz");
    reveal_strlit("zst");
    reveal_strlit("7z");
    reveal_strlit("rar");
    reveal_strlit("rs");
    reveal_strlit("c");
    reveal_strlit("h");
    reveal_strlit("cpp");
    reveal_strlit("py");
    reveal_strlit("js");
    reveal_strlit("ts");
    reveal_strlit("go");
    reveal_strlit("java");
    reveal_strlit("sh");
    reveal_strlit("toml");
    reveal_strlit("json");
    reveal_strlit("yaml");
    reveal_strlit("yml");
    reveal_strlit("slint");
    reveal_strlit("html");
    reveal_strlit("css");
    reveal_strlit("txt");
    reveal_strlit("md");
    reveal_strlit("log");
    reveal_strlit("rst");
    reveal_strlit("ini");
    reveal_strlit("conf");
    reveal_strlit("pdf");
    reveal_strlit("appimage");
    reveal_strlit("bin");
    reveal_strlit("run");
    reveal_strlit("exe");
    assert(ext == "png"@ ==> ext.len() == 3 && ext[0] == 'p' && ext[1] == 'n' && ext[2] == 'g');
    assert(ext == "jpg"@ ==> ext.len() == 3 && ext[0] == 'j' && ext[1] == 'p' && ext[2] == 'g');
    assert(ext == "jpeg"@ ==> ext.len() == 4 && ext[0] == 'j' && ext[1] == 'p' && ext[2] == 'e' && ext[3] == 'g');
    assert(ext == "bmp"@ ==> ext.len() == 3 && ext[0] == 'b' && ext[1] == 'm' && ext[2] == 'p');
    assert(ext == "gif"@ ==> ext.len() == 3 && ext[0] == 'g' && ext[1] == 'i' && ext[2] == 'f');
    assert(ext == "webp"@ ==> ext.len() == 4 && ext[0] == 'w' && ext[1] == 'e' && ext[2] == 'b' && ext[3] == 'p');
    assert(ext == "svg"@ ==> ext.len() == 3 && ext[0] == 's' && ext[1] == 'v' && ext[2] == 'g');
    assert(ext == "ico"@ ==> ext.len() == 3 && ext[0] == 'i' && ext[1] == 'c' && ext[2] == 'o');
    assert(ext == "tiff"@ ==> ext.len() == 4 && ext[0] == 't' && ext[1] == 'i' && ext[2] == 'f' && ext[3] == 'f');
    assert(ext == "mp3"@ ==> ext.len() == 3 && ext[0] == 'm' && ext[1] == 'p' && ext[2] == '3');
    assert(ext == "flac"@ ==> ext.len() == 4 && ext[0] == 'f' && ext[1] == 'l' && ext[2] == 'a' && ext[3] == 'c');
    assert(ext == "wav"@ ==> ext.len() == 3 && ext[0] == 'w' && ext[1] == 'a' && ext[2] == 'v');
    assert(ext == "ogg"@ ==> ext.len() == 3 && ext[0] == 'o' && ext[1] == 'g' && ext[2] == 'g');
    assert(ext == "opus"@ ==> ext.len() == 4 && ext[0] == 'o' && ext[1] == 'p' && ext[2] == 'u' && ext[3] == 's');
    assert(ext == "m4a"@ ==> ext.len() == 3 && ext[0] == 'm' && ext[1] == '4' && ext[2] == 'a');
    assert(ext == "aac"@ ==> ext.len() == 3 && ext[0] == 'a' && ext[1] == 'a' && ext[2] == 'c');
    assert(ext == "mp4"@ ==> ext.len() == 3 && ext[0] == 'm' && ext[1] == 'p' && ext[2] == '4');
    assert(ext == "mkv"@ ==> ext.len() == 3 && ext[0] == 'm' && ext[1] == 'k' && ext[2] == 'v');
    assert(ext == "webm"@ ==> ext.len() == 4 && ext[0] == 'w' && ext[1] == 'e' && ext[2] == 'b' && ext[3] == 'm');
    assert(ext == "mov"@ ==> ext.len() == 3 && ext[0] == 'm' && ext[1] == 'o' && ext[2] == 'v');
    assert(ext == "avi"@ ==> ext.len() == 3 && ext[0] == 'a' && ext[1] == 'v' && ext[2] == 'i');
    assert(ext == "m4v"@ ==> ext.len() == 3 && ext[0] == 'm' && ext[1] == '4' && ext[2] == 'v');
    assert(ext == "wmv"@ ==> ext.len() == 3 && ext[0] == 'w' && ext[1] == 'm' && ext[2] == 'v');
    assert(ext == "zip"@ ==> ext.len() == 3 && ext[0] == 'z' && ext[1] == 'i' && ext[2] == 'p');
    assert(ext == "tar"@ ==> ext.len() == 3 && ext[0] == 't' && ext[1] == 'a' && ext[2] == 'r');
    assert(ext == "gz"@ ==> ext.len() == 2 && ext[0] == 'g' && ext[1] == 'z');
    assert(ext == "bz2"@ ==> ext.len() == 3 && ext[0] == 'b' && ext[1] == 'z' && ext[2] == '2');
    assert(ext == "xz"@ ==> ext.len() == 2 && ext[0] == 'x' && ext[1] == 'z');
    assert(ext == "zst"@ ==> ext.len() == 3 && ext[0] == 'z' && ext[1] == 's' && ext[2] == 't');
    assert(ext == "7z"@ ==> ext.len() == 2 && ext[0] == '7' && ext[1] == 'z');
    assert(ext == "rar"@ ==> ext.len() == 3 && ext[0] == 'r' && ext[1] == 'a' && ext[2] == 'r');
    assert(ext == "rs"@ ==> ext.len() == 2 && ext[0] == 'r' && ext[1] == 's');
    assert(ext == "c"@ ==> ext.len() == 1 && ext[0] == 'c');
    assert(ext == "h"@ ==> ext.len() == 1 && ext[0] == 'h');
    assert(ext == "cpp"@ ==> ext.len() == 3 && ext[0] == 'c' && ext[1] == 'p' && ext[2] == 'p');
    assert(ext == "py"@ ==> ext.len() == 2 && ext[0] == 'p' && ext[1] == 'y');
    assert(ext == "js"@ ==> ext.len() == 2 && ext[0] == 'j' && ext[1] == 's');
    assert(ext == "ts"@ ==> ext.len() == 2 && ext[0] == 't' && ext[1] == 's');
    assert(ext == "go"@ ==> ext.len() == 2 && ext[0] == 'g' && ext[1] == 'o');
    assert(ext == "java"@ ==> ext.len() == 4 && ext[0] == 'j' && ext[1] == 'a' && ext[2] == 'v' && ext[3] == 'a');
    assert(ext == "sh"@ ==> ext.len() == 2 && ext[0] == 's' && ext[1] == 'h');
    assert(ext == "toml"@ ==> ext.len() == 4 && ext[0] == 't' && ext[1] == 'o' && ext[2] == 'm' && ext[3] == 'l');
    assert(ext == "json"@ ==> ext.len() == 4 && ext[0] == 'j' && ext[1] == 's' && ext[2] == 'o' && ext[3] == 'n');
    assert(ext == "yaml"@ ==> ext.len() == 4 && ext[0] == 'y' && ext[1] == 'a' && ext[2] == 'm' && ext[3] == 'l');
    assert(ext == "yml"@ ==> ext.len() == 3 && ext[0] == 'y' && ext[1] == 'm' && ext[2] == 'l');
    assert(ext == "slint"@ ==> ext.len() == 5 && ext[0] == 's' && ext[1] == 'l' && ext[2] == 'i' && ext[3] == 'n' && ext[4] == 't');
    assert(ext == "html"@ ==> ext.len() == 4 && ext[0] == 'h' && ext[1] == 't' && ext[2] == 'm' && ext[3] == 'l');
    assert(ext == "css"@ ==> ext.len() == 3 && ext[0] == 'c' && ext[1] == 's' && ext[2] == 's');
    assert(ext == "txt"@ ==> ext.len() == 3 && ext[0] == 't' && ext[1] == 'x' && ext[2] == 't');
    assert(ext == "md"@ ==> ext.len() == 2 && ext[0] == 'm' && ext[1] == 'd');
    assert(ext == "log"@ ==> ext.len() == 3 && ext[0] == 'l' && ext[1] == 'o' && ext[2] == 'g');
    assert(ext == "rst"@ ==> ext.len() == 3 && ext[0] == 'r' && ext[1] == 's' && ext[2] == 't');
    assert(ext == "ini"@ ==> ext.len() == 3 && ext[0] == 'i' && ext[1] == 'n' && ext[2] == 'i');
    assert(ext == "conf"@ ==> ext.len() == 4 && ext[0] == 'c' && ext[1] == 'o' && ext[2] == 'n' && ext[3] == 'f');
    assert(ext == "pdf"@ ==> ext.len() == 3 && ext[0] == 'p' && ext[1] == 'd' && ext[2] == 'f');
    assert(ext == "appimage"@ ==> ext.len() == 8 && ext[0] == 'a' && ext[1] == 'p' && ext[2] == 'p' && ext[3] == 'i' && ext[4] == 'm' && ext[5] == 'a' && ext[6] == 'g' && ext[7] == 'e');
    assert(ext == "bin"@ ==> ext.len() == 3 && ext[0] == 'b' && ext[1] == 'i' && ext[2] == 'n');
    assert(ext == "run"@ ==> ext.len() == 3 && ext[0] == 'r' && ext[1] == 'u' && ext[2] == 'n');
    assert(ext == "exe"@ ==> ext.len() == 3 && ext[0] == 'e' && ext[1] == 'x' && ext[2] == 'e');
}

/// A directory is a directory whatever its name. A file has the kind of its
/// extension, whatever the case of that; without a known extension it is a program
/// if it can be executed, and else a plain file.
pub proof fn law_kinds_go_by_extension(path: Seq<char>, executable: bool)
    ensures
        kind_of(path, true, executable) == "dir"@,
        path_extension(path) is None ==> kind_of(path, false, executable) == (if executable {
            "exec"@
        } else {
            "file"@
        }),
        path_extension(path) matches Some(ext) ==> match extension_kind(lower(ext)) {
            Some(kind) => kind_of(path, false, executable) == kind,
            None => kind_of(path, false, executable) == (if executable {
                "exec"@
            } else {
                "file"@
            }),
        },
{
}

/// The pictures that can be shown are those with one of seven extensions, whatever
/// the case.
pub proof fn law_pictures_go_by_extension(path: Seq<char>)
    ensures
        path_extension(path) is None ==> !image_path(path),
        path_extension(path) matches Some(x) ==> (image_path(path) <==> lower(x) == "png"@ || lower(x)
            == "jpg"@ || lower(x) == "jpeg"@ || lower(x) == "bmp"@ || lower(x) == "gif"@ || lower(x)
            == "webp"@ || lower(x) == "svg"@),
{
}

} // verus!
