//! Splitting a text into lines and into words.

use vstd::prelude::*;

use crate::text::chars::{
    chars_of, find, is_white_space, lemma_cut_at, lemma_find, lemma_find_at, white_space,
};

verus! {

/// A line as it stood before its line feed, without a carriage return there.
pub open spec fn strip_return(s: Seq<char>) -> Seq<char> {
    if s.len() > 0 && s.last() == '\r' {
        s.drop_last()
    } else {
        s
    }
}

/// The lines of `s`. A line ends at a line feed or at a carriage return and a
/// line feed, or, the last one, at the end of the text.
pub open spec fn lines(s: Seq<char>) -> Seq<Seq<char>>
    decreases s.len(),
{
    let i = find(s, '\n');
    if s.len() == 0 {
        seq![]
    } else if 0 <= i < s.len() {
        seq![strip_return(s.take(i))] + lines(s.skip(i + 1))
    } else {
        seq![s]
    }
}

/// The first line ends at the first line feed.
pub proof fn lemma_lines_first(a: Seq<char>, b: Seq<char>)
    requires
        !a.contains('\n'),
    ensures
        lines(a.push('\n') + b) == seq![strip_return(a)] + lines(b),
{
    lemma_cut_at(a, '\n', b);
    lemma_find(a.push('\n') + b, '\n');
}

/// The lines of `s`.
pub fn lines_of<'a>(s: &'a str) -> (r: Vec<&'a str>)
    ensures
        r.len() == lines(s@).len(),
        forall|i: int| 0 <= i < r.len() ==> (#[trigger] r@[i])@ == lines(s@)[i],
{
    let cs = chars_of(s);
    let mut out: Vec<&'a str> = Vec::new();
    let mut start: usize = 0;
    let ghost all = lines(s@);
    assert(s@.skip(0) == s@);
    assert(all.skip(0) == all);
    while start < cs.len()
        invariant
            cs@ == s@,
            start <= cs.len(),
            all == lines(s@),
            out.len() <= all.len(),
            all.skip(out.len() as int) == lines(s@.skip(start as int)),
            forall|i: int| 0 <= i < out.len() ==> (#[trigger] out@[i])@ == all[i],
        decreases cs.len() - start,
    {
        let ghost rest = s@.skip(start as int);
        let mut i: usize = start;
        while i < cs.len() && cs[i] != '\n'
            invariant
                cs@ == s@,
                start <= i <= cs.len(),
                rest == s@.skip(start as int),
                forall|j: int| 0 <= j < i - start ==> rest[j] != '\n',
            decreases cs.len() - i,
        {
            i += 1;
        }
        proof {
            lemma_find_at(rest, '\n', i - start);
        }
        let ghost n = out.len() as int;
        if i < cs.len() {
            let end: usize = if i > start && cs[i - 1] == '\r' {
                i - 1
            } else {
                i
            };
            let line = s.substring_char(start, end);
            proof {
                let whole = rest.take(i - start);
                assert(whole.len() > 0 ==> whole.last() == s@[i - 1]);
                assert(line@ == strip_return(whole));
                let tail = lines(rest.skip(i - start + 1));
                assert(rest.skip(i - start + 1) == s@.skip(i + 1));
                assert(all.skip(n) == seq![strip_return(whole)] + tail);
                assert(all.skip(n)[0] == all[n]);
                assert(all.skip(n + 1) == all.skip(n).skip(1));
                assert((seq![strip_return(whole)] + tail).skip(1) == tail);
            }
            out.push(line);
            start = i + 1;
        } else {
            let line = s.substring_char(start, i);
            proof {
                assert(line@ == rest);
                assert(all.skip(n) == seq![rest]);
                assert(all.skip(n)[0] == all[n]);
                assert(all.skip(n + 1) == all.skip(n).skip(1));
                assert(seq![rest].skip(1) == Seq::<Seq<char>>::empty());
                assert(s@.skip(i as int) == Seq::<char>::empty());
            }
            out.push(line);
            start = i;
        }
    }
    proof {
        assert(s@.skip(start as int) == Seq::<char>::empty());
        assert(all.skip(out.len() as int).len() == 0);
    }
    out
}

// ---------------------------------------------------------------------------
// Words

/// The index of the first white space in `s`, or its length if there is none.
pub open spec fn word_end(s: Seq<char>) -> int
    decreases s.len(),
{
    if s.len() == 0 || white_space(s[0]) {
        0
    } else {
        1 + word_end(s.drop_first())
    }
}

/// [`word_end`] is the first position that holds white space.
pub proof fn lemma_word_end(s: Seq<char>)
    ensures
        0 <= word_end(s) <= s.len(),
        word_end(s) < s.len() ==> white_space(s[word_end(s)]),
        forall|i: int| 0 <= i < word_end(s) ==> !white_space(#[trigger] s[i]),
    decreases s.len(),
{
    if s.len() != 0 && !white_space(s[0]) {
        let t = s.drop_first();
        lemma_word_end(t);
        assert forall|i: int| 0 <= i < word_end(s) implies !white_space(#[trigger] s[i]) by {
            if i > 0 {
                assert(t[i - 1] == s[i]);
            }
        }
    }
}

/// The words of `s`: its longest runs of characters other than white space.
pub open spec fn words(s: Seq<char>) -> Seq<Seq<char>>
    decreases s.len(),
{
    let n = word_end(s);
    if s.len() == 0 {
        seq![]
    } else if white_space(s[0]) {
        words(s.drop_first())
    } else if 0 < n <= s.len() {
        seq![s.take(n)] + words(s.skip(n))
    } else {
        seq![]
    }
}

/// The words of `s`.
pub fn words_of<'a>(s: &'a str) -> (r: Vec<&'a str>)
    ensures
        r.len() == words(s@).len(),
        forall|i: int| 0 <= i < r.len() ==> (#[trigger] r@[i])@ == words(s@)[i],
{
    let cs = chars_of(s);
    let mut out: Vec<&'a str> = Vec::new();
    let mut start: usize = 0;
    let ghost all = words(s@);
    assert(s@.skip(0) == s@);
    assert(all.skip(0) == all);
    while start < cs.len()
        invariant
            cs@ == s@,
            start <= cs.len(),
            all == words(s@),
            out.len() <= all.len(),
            all.skip(out.len() as int) == words(s@.skip(start as int)),
            forall|i: int| 0 <= i < out.len() ==> (#[trigger] out@[i])@ == all[i],
        decreases cs.len() - start,
    {
        let ghost rest = s@.skip(start as int);
        if is_white_space(cs[start]) {
            assert(rest[0] == s@[start as int]);
            assert(rest.drop_first() == s@.skip(start + 1));
            start += 1;
        } else {
            assert(rest[0] == s@[start as int]);
            let mut i: usize = start;
            while i < cs.len() && !is_white_space(cs[i])
                invariant
                    cs@ == s@,
                    start <= i <= cs.len(),
                    rest == s@.skip(start as int),
                    forall|j: int| 0 <= j < i - start ==> !white_space(#[trigger] rest[j]),
                decreases cs.len() - i,
            {
                assert(rest[i - start] == s@[i as int]);
                i += 1;
            }
            let ghost n = out.len() as int;
            let word = s.substring_char(start, i);
            proof {
                lemma_word_end(rest);
                let e = word_end(rest);
                assert(e == i - start) by {
                    if e < i - start {
                        assert(white_space(rest[e]));
                    }
                    if e > i - start {
                        assert(!white_space(rest[i - start]));
                    }
                }
                assert(i > start) by {
                    assert(!white_space(rest[0]));
                }
                assert(word@ == rest.take(e));
                let tail = words(rest.skip(e));
                assert(rest.skip(e) == s@.skip(i as int));
                assert(all.skip(n) == seq![rest.take(e)] + tail);
                assert(all.skip(n).len() == 1 + tail.len());
                assert(all.skip(n)[0] == all[n]);
                assert(all.skip(n + 1) == all.skip(n).skip(1));
                assert((seq![rest.take(e)] + tail).skip(1) == tail);
            }
            out.push(word);
            start = i;
        }
    }
    proof {
        assert(s@.skip(start as int) == Seq::<char>::empty());
        assert(all.skip(out.len() as int).len() == 0);
    }
    out
}

/// A line that ends at a line feed, with a carriage return before it or without, is
/// the first; a text without a line feed is a single line.
pub proof fn law_lines_end_at_line_feeds(line: Seq<char>, rest: Seq<char>)
    requires
        !line.contains('\n'),
    ensures
        line.len() == 0 || line.last() != '\r' ==> lines(line.push('\n') + rest) == seq![line]
            + lines(rest),
        lines(line.push('\r').push('\n') + rest) == seq![line] + lines(rest),
        line.len() > 0 ==> lines(line) == seq![line],
        lines(seq![]) == Seq::<Seq<char>>::empty(),
{
    lemma_lines_first(line, rest);
    let returned = line.push('\r');
    assert(!returned.contains('\n')) by {
        if returned.contains('\n') {
            let i = choose|i: int| 0 <= i < returned.len() && returned[i] == '\n';
            assert(line[i] == '\n');
        }
    }
    lemma_lines_first(returned, rest);
    assert(returned.drop_last() =~= line);
    lemma_find(line, '\n');
}

/// A word ends at white space, and white space before a word counts for nothing.
pub proof fn law_words_are_between_white_space(word: Seq<char>, c: char, rest: Seq<char>)
    requires
        word.len() > 0,
        forall|i: int| 0 <= i < word.len() ==> !white_space(#[trigger] word[i]),
        white_space(c),
    ensures
        words(word) == seq![word],
        words(word.push(c) + rest) == seq![word] + words(rest),
        words(seq![c] + rest) == words(rest),
        words(seq![]) == Seq::<Seq<char>>::empty(),
{
    let n = word.len() as int;
    lemma_word_end(word);
    assert(word_end(word) == n);
    assert(word.take(n) =~= word && word.skip(n) =~= seq![]);
    let none = Seq::<char>::empty();
    assert(words(none) =~= Seq::<Seq<char>>::empty());
    assert(word.skip(n) == none && seq![] =~= none);
    assert(!white_space(word[0]));
    assert(words(word) == seq![word.take(n)] + words(none));
    assert(words(word) =~= seq![word]);
    let s = word.push(c) + rest;
    lemma_word_end(s);
    assert(word_end(s) == n) by {
        let e = word_end(s);
        if e < n {
            assert(s[e] == word[e]);
        } else if e > n {
            assert(s[n] == c);
        }
    }
    assert(s[0] == word[0]);
    assert(s.take(n) =~= word);
    assert(s.skip(n) =~= seq![c] + rest);
    assert((seq![c] + rest).drop_first() =~= rest);
    assert(words(s) == seq![word] + words(s.skip(n)));
}

} // verus!
