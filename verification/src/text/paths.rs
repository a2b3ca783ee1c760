//! Unix paths as text.

use vstd::prelude::*;

use crate::text::chars::{
    chars_of, law_split_pieces_stand_in_order, lemma_split_len, lemma_split_none, same, split,
    split_str,
};

verus! {

/// The path starts at the root.
pub open spec fn absolute(path: Seq<char>) -> bool {
    path.len() > 0 && path[0] == '/'
}

/// Whether a path starts at the root.
pub fn is_absolute(path: &str) -> (r: bool)
    ensures
        r == absolute(path@),
{
    path.unicode_len() > 0 && path.get_char(0) == '/'
}

/// `name` below `base`. An absolute `name` stands for itself.
pub open spec fn joined(base: Seq<char>, name: Seq<char>) -> Seq<char> {
    if absolute(name) || base.len() == 0 {
        name
    } else if base.last() == '/' {
        base + name
    } else {
        base.push('/') + name
    }
}

/// `name` below `base`.
pub fn join(base: &str, name: &str) -> (r: String)
    ensures
        r@ == joined(base@, name@),
{
    let n = base.unicode_len();
    if is_absolute(name) || n == 0 {
        return name.to_string();
    }
    let mut out = base.to_string();
    if base.get_char(n - 1) != '/' {
        out.push('/');
    }
    out.append(name);
    out
}

/// A piece between slashes that stands for a step down or up.
pub open spec fn names_step(piece: Seq<char>) -> bool {
    piece.len() > 0 && piece != seq!['.']
}

/// The pieces that stand for a step.
pub open spec fn steps(pieces: Seq<Seq<char>>) -> Seq<Seq<char>>
    decreases pieces.len(),
{
    if pieces.len() == 0 {
        seq![]
    } else if names_step(pieces.last()) {
        steps(pieces.drop_last()).push(pieces.last())
    } else {
        steps(pieces.drop_last())
    }
}

/// The components of a path below its start. Repeated slashes and `.` between
/// them count for nothing.
pub open spec fn components(path: Seq<char>) -> Seq<Seq<char>> {
    steps(split(path, '/'))
}

/// A relative path that starts with `.` as a component of its own.
pub open spec fn starts_here(path: Seq<char>) -> bool {
    split(path, '/')[0] == seq!['.']
}

/// Two paths with the same components are the same.
pub open spec fn same_path(a: Seq<char>, b: Seq<char>) -> bool {
    &&& absolute(a) == absolute(b)
    &&& starts_here(a) == starts_here(b)
    &&& components(a) == components(b)
}

/// The last component of a path, unless that is `..` or there is none.
pub open spec fn last_name(path: Seq<char>) -> Option<Seq<char>> {
    let all = components(path);
    if all.len() > 0 && all.last() != seq!['.', '.'] {
        Some(all.last())
    } else {
        None
    }
}

/// The path without slashes, and `.` components, at its end.
pub open spec fn end_trimmed(path: Seq<char>) -> Seq<char>
    decreases path.len(),
{
    let n = path.len() as int;
    if n > 1 && path[n - 1] == '/' {
        end_trimmed(path.drop_last())
    } else if n > 1 && path[n - 1] == '.' && path[n - 2] == '/' {
        end_trimmed(path.drop_last())
    } else {
        path
    }
}

/// The length of the part of `path` up to its last slash; 0 if it has none.
pub open spec fn upto_slash(path: Seq<char>) -> int
    decreases path.len(),
{
    if path.len() == 0 || path.last() == '/' {
        path.len() as int
    } else {
        upto_slash(path.drop_last())
    }
}

/// The path without its last component, if it has one.
pub open spec fn parent_of(path: Seq<char>) -> Option<Seq<char>> {
    let t = end_trimmed(path);
    if t.len() == 0 || t == seq!['/'] {
        None
    } else {
        Some(end_trimmed(t.take(upto_slash(t))))
    }
}

/// What follows the last `.` of a file name that does not start with it.
pub open spec fn name_extension(name: Seq<char>) -> Option<Seq<char>> {
    let dot = last_dot(name);
    if dot > 0 {
        Some(name.skip(dot + 1))
    } else {
        None
    }
}

/// The index of the last `.`, or -1.
pub open spec fn last_dot(s: Seq<char>) -> int
    decreases s.len(),
{
    if s.len() == 0 {
        -1
    } else if s.last() == '.' {
        s.len() - 1
    } else {
        last_dot(s.drop_last())
    }
}

/// The extension of a path's file name.
pub open spec fn path_extension(path: Seq<char>) -> Option<Seq<char>> {
    match last_name(path) {
        Some(name) => name_extension(name),
        None => None,
    }
}

/// The components of a path, as slices.
fn components_of<'a>(path: &'a str) -> (r: Vec<&'a str>)
    ensures
        r.len() == components(path@).len(),
        forall|i: int| 0 <= i < r.len() ==> (#[trigger] r@[i])@ == components(path@)[i],
{
    let pieces = split_str(path, '/');
    let ghost all = split(path@, '/');
    let mut out: Vec<&'a str> = Vec::new();
    for i in 0..pieces.len()
        invariant
            pieces.len() == all.len(),
            forall|k: int| 0 <= k < pieces.len() ==> (#[trigger] pieces@[k])@ == all[k],
            out.len() == steps(all.take(i as int)).len(),
            forall|k: int|
                0 <= k < out.len() ==> (#[trigger] out@[k])@ == steps(all.take(i as int))[k],
    {
        let piece = pieces[i];
        proof {
            reveal_strlit(".");
            assert("."@ =~= seq!['.']);
            assert(all.take(i + 1).drop_last() =~= all.take(i as int));
            assert(all.take(i + 1).last() == all[i as int]);
        }
        if !piece.is_empty() && !same(piece, ".") {
            out.push(piece);
        }
    }
    assert(all.take(all.len() as int) =~= all);
    out
}

/// Whether two paths have the same components.
pub fn paths_equal(a: &str, b: &str) -> (r: bool)
    ensures
        r == same_path(a@, b@),
{
    if is_absolute(a) != is_absolute(b) {
        return false;
    }
    proof {
        lemma_split_len(a@, '/');
        lemma_split_len(b@, '/');
        reveal_strlit(".");
        assert("."@ =~= seq!['.']);
    }
    if same(split_str(a, '/')[0], ".") != same(split_str(b, '/')[0], ".") {
        return false;
    }
    let x = components_of(a);
    let y = components_of(b);
    if x.len() != y.len() {
        return false;
    }
    for i in 0..x.len()
        invariant
            x.len() == y.len(),
            x.len() == components(a@).len(),
            y.len() == components(b@).len(),
            forall|k: int| 0 <= k < x.len() ==> (#[trigger] x@[k])@ == components(a@)[k],
            forall|k: int| 0 <= k < y.len() ==> (#[trigger] y@[k])@ == components(b@)[k],
            forall|k: int| 0 <= k < i ==> components(a@)[k] == components(b@)[k],
    {
        assert(x@[i as int]@ == components(a@)[i as int]);
        assert(y@[i as int]@ == components(b@)[i as int]);
        if !same(x[i], y[i]) {
            return false;
        }
    }
    assert(components(a@) =~= components(b@));
    true
}

/// The last component of a path, unless that is `..` or there is none.
pub fn file_name<'a>(path: &'a str) -> (r: Option<&'a str>)
    ensures
        match r {
            Some(name) => last_name(path@) == Some(name@),
            None => last_name(path@) is None,
        },
{
    let all = components_of(path);
    if all.len() == 0 {
        return None;
    }
    let last = all[all.len() - 1];
    proof {
        reveal_strlit("..");
        assert(".."@ =~= seq!['.', '.']);
    }
    if same(last, "..") {
        None
    } else {
        Some(last)
    }
}

/// The path without slashes, and `.` components, at its end.
fn trim_path_end<'a>(path: &'a str) -> (r: &'a str)
    ensures
        r@ == end_trimmed(path@),
{
    let cs = chars_of(path);
    let mut n = cs.len();
    assert(path@.take(n as int) =~= path@);
    while n > 1 && (cs[n - 1] == '/' || (cs[n - 1] == '.' && cs[n - 2] == '/'))
        invariant
            cs@ == path@,
            n <= cs.len(),
            end_trimmed(path@.take(n as int)) == end_trimmed(path@),
        decreases n,
    {
        assert(path@.take(n as int).drop_last() =~= path@.take(n - 1));
        n -= 1;
    }
    let r = path.substring_char(0, n);
    assert(r@ =~= path@.take(n as int));
    r
}

/// The path without its last component, if it has one.
pub fn parent<'a>(path: &'a str) -> (r: Option<&'a str>)
    ensures
        match r {
            Some(p) => parent_of(path@) == Some(p@),
            None => parent_of(path@) is None,
        },
{
    let t = trim_path_end(path);
    let cs = chars_of(t);
    if cs.len() == 0 {
        return None;
    }
    if cs.len() == 1 && cs[0] == '/' {
        assert(t@ =~= seq!['/']);
        return None;
    }
    let mut n = cs.len();
    assert(t@.take(n as int) =~= t@);
    while n > 0 && cs[n - 1] != '/'
        invariant
            cs@ == t@,
            n <= cs.len(),
            upto_slash(t@.take(n as int)) == upto_slash(t@),
        decreases n,
    {
        assert(t@.take(n as int).drop_last() =~= t@.take(n - 1));
        n -= 1;
    }
    assert(t@ != seq!['/']);
    let head = t.substring_char(0, n);
    assert(head@ =~= t@.take(upto_slash(t@)));
    Some(trim_path_end(head))
}

/// The index of the last `.` of a name.
pub fn find_last_dot(name: &str) -> (r: Option<usize>)
    ensures
        match r {
            Some(i) => i == last_dot(name@) && i < name@.len(),
            None => last_dot(name@) == -1,
        },
{
    let cs = chars_of(name);
    let mut n = cs.len();
    assert(name@.take(n as int) =~= name@);
    while n > 0
        invariant
            cs@ == name@,
            n <= cs.len(),
            last_dot(name@.take(n as int)) == last_dot(name@),
        decreases n,
    {
        assert(name@.take(n as int).last() == cs@[n - 1]);
        if cs[n - 1] == '.' {
            return Some(n - 1);
        }
        assert(name@.take(n as int).drop_last() =~= name@.take(n - 1));
        n -= 1;
    }
    None
}

/// The extension of a path's file name.
pub fn extension<'a>(path: &'a str) -> (r: Option<&'a str>)
    ensures
        match r {
            Some(ext) => path_extension(path@) == Some(ext@),
            None => path_extension(path@) is None,
        },
{
    let name = file_name(path)?;
    match find_last_dot(name) {
        Some(i) if i > 0 => {
            let n = name.unicode_len();
            let ext = name.substring_char(i + 1, n);
            assert(ext@ =~= name@.skip(i + 1));
            Some(ext)
        },
        _ => None,
    }
}

// ---------------------------------------------------------------------------
// Laws

/// A name that can be joined to a directory: it holds no slash, and is neither
/// empty nor one or two dots.
pub open spec fn plain_name(name: Seq<char>) -> bool {
    name.len() > 0 && !name.contains('/') && name != seq!['.'] && name != seq!['.', '.']
}

/// A name that is joined to a path is its file name again, and with one slash
/// between them; an absolute name stands for itself.
pub proof fn law_joined_names_are_found_again(base: Seq<char>, name: Seq<char>)
    ensures
        plain_name(name) ==> last_name(joined(base, name)) == Some(name),
        name.len() > 0 && name[0] == '/' ==> joined(base, name) == name,
        base.len() > 0 && base.last() != '/' && (name.len() == 0 || name[0] != '/') ==> joined(
            base,
            name,
        ) == base + seq!['/'] + name,
        base.len() > 0 && base.last() == '/' && (name.len() == 0 || name[0] != '/') ==> joined(
            base,
            name,
        ) == base + name,
{
    if plain_name(name) {
        assert(name[0] != '/') by {
            assert(name.contains(name[0]));
        }
        let path = joined(base, name);
        if base.len() == 0 {
            lemma_split_none(name, '/');
            assert(split(path, '/') =~= seq![name]);
            assert(seq![name].drop_last() =~= Seq::<Seq<char>>::empty());
            assert(steps(seq![name].drop_last()) =~= seq![]);
            assert(components(path).last() == name);
        } else {
            let head = if base.last() == '/' {
                base.drop_last()
            } else {
                base
            };
            assert(path =~= head.push('/') + name);
            law_split_pieces_stand_in_order(head, '/', name);
            let pieces = split(head, '/').push(name);
            assert(pieces.drop_last() =~= split(head, '/'));
            assert(components(path) == steps(split(head, '/')).push(name));
        }
    }
    if base.len() > 0 && base.last() != '/' {
        assert(base.push('/') + name =~= base + seq!['/'] + name);
    }
}

/// The parent of what is joined to a directory is the directory.
pub proof fn law_the_parent_of_an_entry(base: Seq<char>, name: Seq<char>)
    requires
        plain_name(name),
        base.len() > 0,
        base.last() != '/',
        end_trimmed(base) == base,
    ensures
        parent_of(joined(base, name)) == Some(base),
        parent_of(seq!['/'] + name) == Some(seq!['/']),
        parent_of(seq!['/']) is None,
{
    lemma_parent(base.push('/'), name);
    lemma_parent(seq!['/'], name);
    assert(base.push('/').drop_last() =~= base);
    assert(end_trimmed(base.push('/')) == end_trimmed(base));
    assert(name[0] != '/') by {
        assert(name.contains(name[0]));
    }
}

/// What is left of a path without its last name.
proof fn lemma_parent(head: Seq<char>, name: Seq<char>)
    requires
        plain_name(name),
        head.len() > 0,
        head.last() == '/',
    ensures
        parent_of(head + name) == Some(end_trimmed(head)),
{
    let path = head + name;
    let n = path.len() as int;
    assert(path[n - 1] == name.last());
    assert(name.contains(name.last())) by {
        assert(name[name.len() - 1] == name.last());
    }
    assert(end_trimmed(path) == path) by {
        if path[n - 1] == '.' && path[n - 2] == '/' {
            if name.len() == 1 {
                assert(name =~= seq!['.']);
            } else {
                assert(path[n - 2] == name[name.len() - 2]);
                assert(name.contains(name[name.len() - 2]));
            }
        }
    }
    assert(path != seq!['/']) by {
        if path == seq!['/'] {
            assert(path.len() == 1);
        }
    }
    lemma_upto_slash(head, name);
    assert(path.take(head.len() as int) =~= head);
}

/// The last slash is that before the last name.
proof fn lemma_upto_slash(head: Seq<char>, name: Seq<char>)
    requires
        !name.contains('/'),
        head.len() > 0,
        head.last() == '/',
    ensures
        upto_slash(head + name) == head.len(),
    decreases name.len(),
{
    let path = head + name;
    if name.len() == 0 {
        assert(path =~= head);
    } else {
        assert(path.last() == name[name.len() - 1]);
        assert(name.contains(name[name.len() - 1]));
        assert(path.drop_last() =~= head + name.drop_last());
        assert(!name.drop_last().contains('/')) by {
            if name.drop_last().contains('/') {
                let i = choose|i: int|
                    0 <= i < name.drop_last().len() && name.drop_last()[i] == '/';
                assert(name[i] == '/');
            }
        }
        lemma_upto_slash(head, name.drop_last());
    }
}

/// The extension of a name is what follows its last dot, unless that is its first
/// character.
pub proof fn law_extensions_follow_the_last_dot(stem: Seq<char>, ext: Seq<char>)
    requires
        !ext.contains('.'),
    ensures
        stem.len() > 0 ==> name_extension(stem.push('.') + ext) == Some(ext),
        stem.len() == 0 ==> name_extension(stem.push('.') + ext) is None,
        name_extension(ext) is None,
{
    lemma_last_dot_at(stem.push('.'), ext);
    lemma_no_dot(ext);
    let name = stem.push('.') + ext;
    assert(name.skip(stem.len() as int + 1) =~= ext);
}

/// A text without a dot has no last one.
proof fn lemma_no_dot(s: Seq<char>)
    requires
        !s.contains('.'),
    ensures
        last_dot(s) == -1,
    decreases s.len(),
{
    if s.len() > 0 {
        assert(s[s.len() - 1] == s.last());
        assert(s.contains(s.last()));
        assert(!s.drop_last().contains('.')) by {
            if s.drop_last().contains('.') {
                let i = choose|i: int| 0 <= i < s.drop_last().len() && s.drop_last()[i] == '.';
                assert(s[i] == '.');
            }
        }
        lemma_no_dot(s.drop_last());
    }
}

/// The last dot is the one that no other follows.
proof fn lemma_last_dot_at(head: Seq<char>, rest: Seq<char>)
    requires
        head.len() > 0,
        head.last() == '.',
        !rest.contains('.'),
    ensures
        last_dot(head + rest) == head.len() - 1,
    decreases rest.len(),
{
    let s = head + rest;
    if rest.len() == 0 {
        assert(s =~= head);
    } else {
        assert(s.last() == rest[rest.len() - 1]);
        assert(rest.contains(rest[rest.len() - 1]));
        assert(s.drop_last() =~= head + rest.drop_last());
        assert(!rest.drop_last().contains('.')) by {
            if rest.drop_last().contains('.') {
                let i = choose|i: int|
                    0 <= i < rest.drop_last().len() && rest.drop_last()[i] == '.';
                assert(rest[i] == '.');
            }
        }
        lemma_last_dot_at(head, rest.drop_last());
    }
}

/// A path is the same as itself, and a slash at its end, alone or with a dot behind
/// it, makes no other of it. Paths that are the same have the same file name, and
/// either both start at the root or neither does.
pub proof fn law_same_paths(a: Seq<char>, b: Seq<char>)
    ensures
        a.len() > 0 ==> same_path(a, a.push('/')) && same_path(a, a.push('/').push('.')),
        same_path(a, a),
        same_path(a, b) <==> same_path(b, a),
        same_path(a, b) ==> last_name(a) == last_name(b),
        absolute(a) != absolute(b) ==> !same_path(a, b),
{
    if a.len() > 0 {
        let none = Seq::<char>::empty();
        let dot = seq!['.'];
        assert(!dot.contains('/')) by {
            if dot.contains('/') {
                let i = choose|i: int| 0 <= i < dot.len() && dot[i] == '/';
            }
        }
        law_split_pieces_stand_in_order(a, '/', none);
        law_split_pieces_stand_in_order(a, '/', dot);
        assert(a.push('/') + none =~= a.push('/'));
        assert(a.push('/') + dot =~= a.push('/').push('.'));
        let pieces = split(a, '/');
        lemma_split_len(a, '/');
        assert(pieces.push(none).drop_last() =~= pieces);
        assert(pieces.push(dot).drop_last() =~= pieces);
        assert(pieces.push(none)[0] == pieces[0] && pieces.push(dot)[0] == pieces[0]);
    }
}

} // verus!
