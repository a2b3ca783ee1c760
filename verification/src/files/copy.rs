//! Copying a tree of files, one entry at a time.
//!
//! The copier says which entry comes next; what is in a directory is handed back
//! to it. Paths and names are the texts of
//! [`path_text`](crate::text::ospath::path_text), so that an entry is found and
//! named whatever bytes are in its name.

use vstd::prelude::*;

use crate::text::chars::views;
use crate::text::ospath::{joined_bytes, law_joining_texts_joins_the_paths, path_bytes_of};
use crate::text::paths::{join, joined};

verus! {

/// A source and where it is copied to.
pub type Pair = (Seq<char>, Seq<char>);

/// The entries that are still to be copied.
#[derive(Debug)]
pub struct Copier {
    /// Sources and destinations; the last is the next.
    todo: Vec<(String, String)>,
}

impl View for Copier {
    type V = Seq<Pair>;

    /// The entries in the order in which they are copied.
    closed spec fn view(&self) -> Seq<Pair> {
        Seq::new(
            self.todo@.len(),
            |i: int|
                {
                    let p = self.todo@[self.todo@.len() - 1 - i];
                    (p.0@, p.1@)
                },
        )
    }
}

/// The entries of a directory and where they are copied to.
pub open spec fn children(src: Seq<char>, dst: Seq<char>, names: Seq<Seq<char>>) -> Seq<Pair> {
    Seq::new(names.len(), |i: int| (joined(src, names[i]), joined(dst, names[i])))
}

impl Copier {
    /// Copy `src` (file or directory) to `dst`.
    pub fn new(src: &str, dst: &str) -> (r: Self)
        ensures
            r@ == seq![(src@, dst@)],
    {
        let mut todo: Vec<(String, String)> = Vec::new();
        todo.push((src.to_string(), dst.to_string()));
        let r = Copier { todo };
        assert(r@ =~= seq![(src@, dst@)]);
        r
    }

    /// Take the next entry: its source and its destination. A file is copied; a
    /// directory is created, and what is in it handed to [`Copier::entered`].
    pub fn next(&mut self) -> (r: Option<(String, String)>)
        ensures
            match r {
                Some((src, dst)) => {
                    &&& old(self)@.len() > 0
                    &&& (src@, dst@) == old(self)@[0]
                    &&& final(self)@ == old(self)@.drop_first()
                },
                None => old(self)@.len() == 0 && final(self)@ == old(self)@,
            },
    {
        let ghost before = self@;
        let r = self.todo.pop();
        proof {
            if r is Some {
                assert(self@ =~= before.drop_first());
            } else {
                assert(self@ =~= before);
            }
        }
        r
    }

    /// The directory `src`, which is copied to `dst`, holds these names: they are
    /// copied next, in their order.
    pub fn entered(&mut self, src: &str, dst: &str, names: &Vec<String>)
        ensures
            final(self)@ == children(src@, dst@, views(names@)) + old(self)@,
    {
        let ghost before = self@;
        let ghost all = children(src@, dst@, views(names@));
        let mut i: usize = names.len();
        assert(all.skip(i as int) + before =~= before);
        while i > 0
            invariant
                i <= names.len(),
                all == children(src@, dst@, views(names@)),
                self@ == all.skip(i as int) + before,
            decreases i,
        {
            let ghost mid = self@;
            i -= 1;
            let name = names[i].as_str();
            let from = join(src, name);
            let to = join(dst, name);
            self.todo.push((from, to));
            proof {
                assert(all[i as int] == (from@, to@));
                assert(self@ =~= seq![(from@, to@)] + mid);
                assert(self@ =~= all.skip(i as int) + before);
            }
        }
        assert(all.skip(0) =~= all);
    }
}

/// `path` is reached from `base` by going down the names one after another.
pub open spec fn below(base: Seq<char>, names: Seq<Seq<char>>) -> Seq<char>
    decreases names.len(),
{
    if names.len() == 0 {
        base
    } else {
        joined(below(base, names.drop_last()), names.last())
    }
}

/// Every entry lies as far and by the same names below the destination as its
/// source lies below the source.
pub open spec fn mirrors(src: Seq<char>, dst: Seq<char>, todo: Seq<Pair>) -> bool {
    forall|i: int| 0 <= i < todo.len() ==> mirrored(src, dst, #[trigger] todo[i])
}

/// The entry lies by the same names below the destination as its source lies
/// below the source.
pub open spec fn mirrored(src: Seq<char>, dst: Seq<char>, p: Pair) -> bool {
    exists|names: Seq<Seq<char>>|
        p.0 == #[trigger] below(src, names) && p.1 == below(dst, names)
}

/// An entry of a directory is copied from its own path and keeps its name,
/// whatever bytes are in it.
pub proof fn law_copied_entries_keep_their_names(
    src: Seq<char>,
    dst: Seq<char>,
    names: Seq<Seq<char>>,
    i: int,
)
    requires
        0 <= i < names.len(),
    ensures
        ({
            let (from, to) = children(src, dst, names)[i];
            let name = path_bytes_of(names[i]);
            &&& path_bytes_of(from) == joined_bytes(path_bytes_of(src), name)
            &&& path_bytes_of(to) == joined_bytes(path_bytes_of(dst), name)
        }),
{
    law_joining_texts_joins_the_paths(src, names[i]);
    law_joining_texts_joins_the_paths(dst, names[i]);
}

/// A copy has the shape of its source: every entry that is copied lies by the
/// same names below the destination as below the source, whatever the
/// directories hold.
pub proof fn law_copy_mirrors_the_source(
    src: Seq<char>,
    dst: Seq<char>,
    todo: Seq<Pair>,
    names: Seq<Seq<char>>,
)
    requires
        mirrors(src, dst, todo),
        todo.len() > 0,
    ensures
        mirrors(src, dst, seq![(src, dst)]),
        mirrors(src, dst, todo.drop_first()),
        mirrors(src, dst, children(todo[0].0, todo[0].1, names) + todo.drop_first()),
{
    assert(mirrored(src, dst, todo[0]));
    let up = choose|up: Seq<Seq<char>>|
        todo[0].0 == #[trigger] below(src, up) && todo[0].1 == below(dst, up);
    let rest = todo.drop_first();
    assert forall|i: int| 0 <= i < rest.len() implies mirrored(src, dst, #[trigger] rest[i]) by {
        assert(rest[i] == todo[i + 1]);
    }
    let down = children(todo[0].0, todo[0].1, names);
    let all = down + rest;
    assert forall|i: int| 0 <= i < all.len() implies mirrored(src, dst, #[trigger] all[i]) by {
        if i < down.len() {
            let further = up.push(names[i]);
            assert(further.drop_last() =~= up);
            assert(all[i].0 == below(src, further) && all[i].1 == below(dst, further));
        } else {
            assert(all[i] == rest[i - down.len()]);
        }
    }
    let none = Seq::<Seq<char>>::empty();
    assert(below(src, none) == src && below(dst, none) == dst);
    let start = seq![(src, dst)];
    assert forall|i: int| 0 <= i < start.len() implies mirrored(src, dst, #[trigger] start[i]) by {
        assert(start[i] == (src, dst));
    }
}

} // verus!
