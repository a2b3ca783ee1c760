//! Paths of the file system as text.
//!
//! To the file system a path is a sequence of bytes other than 0, which need not
//! be UTF-8. The text of a path is the path itself where it is UTF-8. Every byte
//! that is no part of a UTF-8 character is written as a NUL, which no path holds,
//! and the character with the number of the byte. So the text of a path can be
//! taken apart and joined as any text, and no byte of the path is lost.

use vstd::prelude::*;
use vstd::slice::slice_subrange;
use vstd::utf8::{
    char_is_scalar, decode_utf8, decode_utf8_encode_utf8, encode_scalar, encode_utf8,
    encode_utf8_decode_utf8, encode_utf8_first_scalar, encode_utf8_valid_utf8,
    last_continuation_byte, leading_byte_width_1, leading_byte_width_2, leading_byte_width_3,
    leading_byte_width_4, length_of_first_scalar, pop_first_scalar, valid_first_scalar, valid_utf8,
};

use crate::text::chars::{chars_of, contains_char};
use crate::text::paths::{absolute, joined};

verus! {

// ---------------------------------------------------------------------------
// UTF-8

/// `str::from_utf8`: the text of bytes that are UTF-8, and nothing of others.
#[verifier::external_body]
fn from_utf8(bytes: &[u8]) -> (r: Option<&str>)
    ensures
        match r {
            Some(s) => valid_utf8(bytes@) && s@ == decode_utf8(bytes@),
            None => !valid_utf8(bytes@),
        },
{
    std::str::from_utf8(bytes).ok()
}

/// Bytes as text, with replacement characters where they are not UTF-8.
pub uninterp spec fn lossy_text(bytes: Seq<u8>) -> Seq<char>;

/// `String::from_utf8_lossy`. Which bytes are replaced by how many replacement
/// characters takes the whole of UTF-8 to say; the text is named, not spelled
/// out.
#[verifier::external_body]
pub(crate) fn from_utf8_lossy(bytes: &[u8]) -> (r: String)
    ensures
        r@ == lossy_text(bytes@),
{
    String::from_utf8_lossy(bytes).into_owned()
}

// ---------------------------------------------------------------------------
// From bytes to text

/// How many bytes the UTF-8 character at the start of `bytes` has; 0 if there is
/// none.
pub open spec fn first_len(bytes: Seq<u8>) -> int {
    if bytes.len() >= 1 && valid_utf8(bytes.take(1)) {
        1
    } else if bytes.len() >= 2 && valid_utf8(bytes.take(2)) {
        2
    } else if bytes.len() >= 3 && valid_utf8(bytes.take(3)) {
        3
    } else if bytes.len() >= 4 && valid_utf8(bytes.take(4)) {
        4
    } else {
        0
    }
}

/// The text of a path.
pub open spec fn path_text_of(bytes: Seq<u8>) -> Seq<char>
    decreases bytes.len(),
{
    if bytes.len() == 0 {
        seq![]
    } else if first_len(bytes) > 0 {
        decode_utf8(bytes.take(first_len(bytes))) + path_text_of(bytes.skip(first_len(bytes)))
    } else {
        seq!['\0', bytes[0] as char] + path_text_of(bytes.skip(1))
    }
}

/// The UTF-8 character at an index, if there is one.
fn char_at<'a>(bytes: &'a [u8], i: usize) -> (r: Option<(usize, &'a str)>)
    requires
        i < bytes@.len(),
    ensures
        ({
            let rest = bytes@.skip(i as int);
            match r {
                Some((n, s)) => n == first_len(rest) && 0 < n <= rest.len() && s@ == decode_utf8(
                    rest.take(n as int),
                ),
                None => first_len(rest) == 0,
            }
        }),
{
    let ghost rest = bytes@.skip(i as int);
    let mut n: usize = 1;
    while n <= 4 && n <= bytes.len() - i
        invariant
            i < bytes@.len(),
            rest == bytes@.skip(i as int),
            1 <= n <= 5,
            n - 1 <= bytes@.len() - i,
            forall|k: int| 1 <= k < n ==> !valid_utf8(#[trigger] rest.take(k)),
        decreases 5 - n,
    {
        let part = slice_subrange(bytes, i, i + n);
        assert(part@ =~= rest.take(n as int));
        if let Some(s) = from_utf8(part) {
            return Some((n, s));
        }
        n += 1;
    }
    None
}

/// The text of a path.
pub fn path_text(bytes: &[u8]) -> (r: String)
    ensures
        r@ == path_text_of(bytes@),
{
    let mut out = String::new();
    let mut i: usize = 0;
    let ghost goal = path_text_of(bytes@);
    assert(bytes@.skip(0) =~= bytes@);
    assert(out@ + goal =~= goal);
    while i < bytes.len()
        invariant
            i <= bytes@.len(),
            out@ + path_text_of(bytes@.skip(i as int)) == goal,
        decreases bytes@.len() - i,
    {
        let ghost rest = bytes@.skip(i as int);
        let ghost before = out@;
        match char_at(bytes, i) {
            Some((n, s)) => {
                out.append(s);
                assert(rest.skip(n as int) =~= bytes@.skip(i + n));
                assert(out@ + path_text_of(rest.skip(n as int)) =~= before + path_text_of(rest));
                i += n;
            },
            None => {
                let b = bytes[i];
                out.push('\0');
                out.push(b as char);
                assert(rest[0] == b);
                assert(rest.skip(1) =~= bytes@.skip(i + 1));
                assert(out@ + path_text_of(rest.skip(1)) =~= before + path_text_of(rest));
                i += 1;
            },
        }
    }
    assert(bytes@.skip(i as int) =~= seq![]);
    assert(out@ + path_text_of(seq![]) =~= out@);
    out
}

// ---------------------------------------------------------------------------
// From text to bytes

/// The text starts with a byte that is no part of a UTF-8 character.
pub open spec fn starts_escaped(text: Seq<char>) -> bool {
    text.len() >= 2 && text[0] == '\0' && 0x80 <= text[1] as u32 <= 0xff
}

/// The bytes of the path with a text.
pub open spec fn path_bytes_of(text: Seq<char>) -> Seq<u8>
    decreases text.len(),
{
    if text.len() == 0 {
        seq![]
    } else if starts_escaped(text) {
        seq![text[1] as u32 as u8] + path_bytes_of(text.skip(2))
    } else {
        encode_scalar(text[0] as u32) + path_bytes_of(text.skip(1))
    }
}

/// Append the bytes of a text of one character.
fn push_char(out: &mut Vec<u8>, s: &str)
    requires
        s@.len() == 1,
    ensures
        final(out)@ == old(out)@ + encode_scalar(s@[0] as u32),
{
    let ghost before = out@;
    let bytes = s.as_bytes();
    proof {
        assert(s@.drop_first() =~= seq![]);
        assert(encode_utf8(s@.drop_first()) =~= seq![]);
        assert(bytes@ =~= encode_scalar(s@[0] as u32));
    }
    for i in 0..bytes.len()
        invariant
            out@ == before + bytes@.take(i as int),
    {
        out.push(bytes[i]);
        assert(before + bytes@.take(i + 1) =~= (before + bytes@.take(i as int)).push(
            bytes@[i as int],
        ));
    }
    assert(bytes@.take(bytes@.len() as int) =~= bytes@);
}

/// The bytes of the path with a text.
pub fn path_bytes(text: &str) -> (r: Vec<u8>)
    ensures
        r@ == path_bytes_of(text@),
{
    let cs = chars_of(text);
    let mut out: Vec<u8> = Vec::new();
    let mut i: usize = 0;
    let ghost goal = path_bytes_of(text@);
    assert(text@.skip(0) =~= text@);
    assert(out@ + goal =~= goal);
    while i < cs.len()
        invariant
            cs@ == text@,
            i <= cs.len(),
            out@ + path_bytes_of(text@.skip(i as int)) == goal,
        decreases cs.len() - i,
    {
        let ghost rest = text@.skip(i as int);
        let ghost before = out@;
        if cs.len() - i >= 2 && cs[i] == '\0' && 0x80 <= cs[i + 1] as u32 && cs[i + 1] as u32
            <= 0xff {
            let b = cs[i + 1] as u32;
            out.push(b as u8);
            assert(rest[0] == cs@[i as int] && rest[1] == cs@[i + 1]);
            assert(rest.skip(2) =~= text@.skip(i + 2));
            assert(out@ + path_bytes_of(rest.skip(2)) =~= before + path_bytes_of(rest));
            i += 2;
        } else {
            push_char(&mut out, text.substring_char(i, i + 1));
            assert(rest.skip(1) =~= text@.skip(i + 1));
            assert(out@ + path_bytes_of(rest.skip(1)) =~= before + path_bytes_of(rest));
            i += 1;
        }
    }
    assert(text@.skip(i as int) =~= seq![]);
    assert(out@ + path_bytes_of(seq![]) =~= out@);
    out
}

// ---------------------------------------------------------------------------
// From text to what is shown

/// The path with a text as it is shown and written out: with replacement
/// characters where it is not UTF-8.
pub open spec fn shown_text(text: Seq<char>) -> Seq<char> {
    if text.contains('\0') {
        lossy_text(path_bytes_of(text))
    } else {
        text
    }
}

/// The path with a text as it is shown and written out.
pub fn shown(text: &str) -> (r: String)
    ensures
        r@ == shown_text(text@),
{
    if contains_char(text, '\0') {
        from_utf8_lossy(path_bytes(text).as_slice())
    } else {
        text.to_string()
    }
}

// ---------------------------------------------------------------------------
// Laws

/// Characters other than NUL have their UTF-8 bytes.
proof fn lemma_plain_start(text: Seq<char>, rest: Seq<char>)
    requires
        !text.contains('\0'),
    ensures
        path_bytes_of(text + rest) == encode_utf8(text) + path_bytes_of(rest),
    decreases text.len(),
{
    if text.len() == 0 {
        assert(text + rest =~= rest);
        assert(encode_utf8(text) + path_bytes_of(rest) =~= path_bytes_of(rest));
    } else {
        let tail = text.drop_first();
        assert(text[0] != '\0') by {
            assert(text.contains(text[0]));
        }
        assert(!tail.contains('\0')) by {
            if tail.contains('\0') {
                let i = choose|i: int| 0 <= i < tail.len() && tail[i] == '\0';
                assert(text[i + 1] == '\0');
            }
        }
        lemma_plain_start(tail, rest);
        assert((text + rest).skip(1) =~= tail + rest);
        assert(path_bytes_of(text + rest) =~= encode_utf8(text) + path_bytes_of(rest));
    }
}

/// A NUL is a byte 0 in UTF-8.
proof fn lemma_nul_is_zero(text: Seq<char>)
    requires
        text.contains('\0'),
    ensures
        encode_utf8(text).contains(0u8),
    decreases text.len(),
{
    let first = encode_scalar(text[0] as u32);
    let tail = text.drop_first();
    let all = encode_utf8(text);
    if text[0] == '\0' {
        assert(0u32 & 0x7F == 0) by (bit_vector);
        assert(first[0] == 0u8);
        assert(all[0] == 0u8);
    } else {
        let i = choose|i: int| 0 <= i < text.len() && text[i] == '\0';
        assert(tail[i - 1] == '\0');
        lemma_nul_is_zero(tail);
        let bytes = encode_utf8(tail);
        let k = choose|k: int| 0 <= k < bytes.len() && bytes[k] == 0u8;
        assert(all[first.len() + k] == 0u8);
    }
}

/// A byte that is no UTF-8 by itself is above those of ASCII.
proof fn lemma_ascii_is_utf8(bytes: Seq<u8>)
    requires
        bytes.len() > 0,
        bytes[0] < 0x80,
    ensures
        first_len(bytes) == 1,
{
    let one = bytes.take(1);
    let b = bytes[0];
    assert(one[0] == b);
    assert((b & 0x7F) < 0x80) by (bit_vector);
    assert(pop_first_scalar(one) =~= seq![]);
    assert(valid_utf8(seq![]));
}

/// The text of a path keeps every byte of it.
pub proof fn law_path_text_keeps_the_bytes(bytes: Seq<u8>)
    requires
        !bytes.contains(0),
    ensures
        path_bytes_of(path_text_of(bytes)) == bytes,
    decreases bytes.len(),
{
    let n = first_len(bytes);
    if bytes.len() == 0 {
        assert(path_bytes_of(seq![]) =~= bytes);
    } else if n > 0 {
        let part = bytes.take(n);
        let rest = bytes.skip(n);
        assert(!part.contains(0) && !rest.contains(0)) by {
            if part.contains(0) {
                let i = choose|i: int| 0 <= i < part.len() && part[i] == 0;
                assert(bytes[i] == 0);
            }
            if rest.contains(0) {
                let i = choose|i: int| 0 <= i < rest.len() && rest[i] == 0;
                assert(bytes[i + n] == 0);
            }
        }
        let text = decode_utf8(part);
        decode_utf8_encode_utf8(part);
        if text.contains('\0') {
            lemma_nul_is_zero(text);
        }
        lemma_plain_start(text, path_text_of(rest));
        law_path_text_keeps_the_bytes(rest);
        assert(part + rest =~= bytes);
    } else {
        let rest = bytes.skip(1);
        let b = bytes[0];
        assert(!rest.contains(0)) by {
            if rest.contains(0) {
                let i = choose|i: int| 0 <= i < rest.len() && rest[i] == 0;
                assert(bytes[i + 1] == 0);
            }
        }
        if b < 0x80 {
            lemma_ascii_is_utf8(bytes);
        }
        law_path_text_keeps_the_bytes(rest);
        let text = seq!['\0', b as char] + path_text_of(rest);
        assert(text[0] == '\0' && text[1] == b as char);
        assert(text.skip(2) =~= path_text_of(rest));
        assert(starts_escaped(text));
        assert(seq![b] + rest =~= bytes);
    }
}

/// No shorter start of a UTF-8 character is UTF-8, and the whole of it is.
proof fn lemma_first_char(text: Seq<char>)
    requires
        text.len() > 0,
    ensures
        ({
            let n = encode_scalar(text[0] as u32).len() as int;
            &&& first_len(encode_utf8(text)) == n
            &&& decode_utf8(encode_utf8(text).take(n)) == seq![text[0]]
            &&& encode_utf8(text).skip(n) == encode_utf8(text.drop_first())
        }),
{
    let bytes = encode_utf8(text);
    let first = encode_scalar(text[0] as u32);
    let n = first.len() as int;
    let one = seq![text[0]];
    char_is_scalar(text[0]);
    encode_utf8_first_scalar(text);
    assert(bytes.skip(n) =~= encode_utf8(text.drop_first()));
    assert(one.drop_first() =~= seq![]);
    assert(encode_utf8(one.drop_first()) =~= seq![]);
    assert(encode_utf8(one) =~= first);
    assert(bytes.take(n) =~= first);
    encode_utf8_valid_utf8(one);
    encode_utf8_decode_utf8(one);
    assert(valid_utf8(bytes.take(n)));
    assert forall|k: int| 1 <= k < n implies !valid_utf8(#[trigger] bytes.take(k)) by {
        let short = bytes.take(k);
        assert(short[0] == bytes[0]);
        if valid_utf8(short) {
            assert(valid_first_scalar(short));
            assert(length_of_first_scalar(short) == n);
        }
    }
}

/// The text of a path that is UTF-8 is the path itself, and so is what is shown
/// of it.
pub proof fn law_utf8_paths_are_their_text(text: Seq<char>)
    requires
        !text.contains('\0'),
    ensures
        path_text_of(encode_utf8(text)) == text,
        path_bytes_of(text) == encode_utf8(text),
        shown_text(text) == text,
{
    lemma_text_of_utf8(text);
    lemma_plain_start(text, seq![]);
    assert(text + seq![] =~= text);
    assert(encode_utf8(text) + path_bytes_of(seq![]) =~= encode_utf8(text));
}

/// The text of UTF-8 bytes is what they encode.
proof fn lemma_text_of_utf8(text: Seq<char>)
    ensures
        path_text_of(encode_utf8(text)) == text,
    decreases text.len(),
{
    if text.len() == 0 {
        assert(path_text_of(encode_utf8(text)) =~= text);
    } else {
        char_is_scalar(text[0]);
        lemma_first_char(text);
        lemma_text_of_utf8(text.drop_first());
        assert(seq![text[0]] + text.drop_first() =~= text);
    }
}

/// `name` below `base`, in bytes.
pub open spec fn joined_bytes(base: Seq<u8>, name: Seq<u8>) -> Seq<u8> {
    if (name.len() > 0 && name[0] == 47) || base.len() == 0 {
        name
    } else if base.last() == 47 {
        base + name
    } else {
        base.push(47) + name
    }
}

/// The first and the last byte of a character are a slash only if it is one.
proof fn lemma_scalar_ends(c: char)
    ensures
        encode_scalar(c as u32).len() > 0,
        encode_scalar(c as u32)[0] == 47 <==> c == '/',
        encode_scalar(c as u32).last() == 47 <==> c == '/',
        c == '/' ==> encode_scalar(c as u32) == seq![47u8],
{
    let v = c as u32;
    char_is_scalar(c);
    if v <= 0x7f {
        assert((v & 0x7F) as u8 == v) by (bit_vector)
            requires
                v <= 0x7f,
        ;
        assert(leading_byte_width_1(v) == v);
    } else {
        assert(0x80 | (v & 0x3F) as u8 >= 0x80u8) by (bit_vector);
        assert(0xC0 | ((v >> 6) & 0x1F) as u8 >= 0x80u8) by (bit_vector);
        assert(0xE0 | ((v >> 12) & 0x0F) as u8 >= 0x80u8) by (bit_vector);
        assert(0xF0 | ((v >> 18) & 0x7) as u8 >= 0x80u8) by (bit_vector);
        assert(last_continuation_byte(v) >= 0x80);
        assert(leading_byte_width_2(v) >= 0x80);
        assert(leading_byte_width_3(v) >= 0x80);
        assert(leading_byte_width_4(v) >= 0x80);
    }
}

/// The bytes of a text are a slash at the ends where the text is one.
proof fn lemma_path_ends(text: Seq<char>)
    requires
        text.len() > 0,
    ensures
        path_bytes_of(text).len() > 0,
        path_bytes_of(text)[0] == 47 <==> text[0] == '/',
        path_bytes_of(text).last() == 47 <==> text.last() == '/',
    decreases text.len(),
{
    lemma_scalar_ends(text[0]);
    let n: int = if starts_escaped(text) {
        2
    } else {
        1
    };
    let rest = text.skip(n);
    let start = if starts_escaped(text) {
        seq![text[1] as u32 as u8]
    } else {
        encode_scalar(text[0] as u32)
    };
    assert(path_bytes_of(text) == start + path_bytes_of(rest));
    if starts_escaped(text) {
        assert(start[0] >= 0x80 && start.last() >= 0x80);
    }
    if rest.len() > 0 {
        lemma_path_ends(rest);
        assert(rest.last() == text.last());
        assert(path_bytes_of(text).last() == path_bytes_of(rest).last());
    } else {
        assert(path_bytes_of(rest) =~= seq![]);
    }
}

/// A slash at the end is a byte at the end.
proof fn lemma_slash_added(text: Seq<char>)
    ensures
        path_bytes_of(text.push('/')) == path_bytes_of(text).push(47),
    decreases text.len(),
{
    let longer = text.push('/');
    if text.len() == 0 {
        lemma_scalar_ends('/');
        assert(longer.skip(1) =~= seq![]);
        assert(path_bytes_of(seq![]) =~= seq![]);
        assert(path_bytes_of(longer) =~= path_bytes_of(text).push(47));
    } else {
        let n: int = if starts_escaped(text) {
            2
        } else {
            1
        };
        assert(starts_escaped(longer) == starts_escaped(text)) by {
            assert(longer[0] == text[0]);
            if text.len() >= 2 {
                assert(longer[1] == text[1]);
            }
        }
        lemma_slash_added(text.skip(n));
        assert(longer.skip(n) =~= text.skip(n).push('/'));
        assert(path_bytes_of(longer) =~= path_bytes_of(text).push(47));
    }
}

/// Behind a slash the bytes of a text are by themselves.
proof fn lemma_after_slash(base: Seq<char>, name: Seq<char>)
    requires
        base.len() > 0,
        base.last() == '/',
    ensures
        path_bytes_of(base + name) == path_bytes_of(base) + path_bytes_of(name),
    decreases base.len(),
{
    let all = base + name;
    let n: int = if starts_escaped(base) {
        2
    } else {
        1
    };
    assert(starts_escaped(all) == starts_escaped(base)) by {
        assert(all[0] == base[0]);
        if base.len() >= 2 {
            assert(all[1] == base[1]);
        }
    }
    let rest = base.skip(n);
    assert(all.skip(n) =~= rest + name);
    if rest.len() > 0 {
        assert(rest.last() == base.last());
        lemma_after_slash(rest, name);
    } else {
        assert(rest + name =~= name);
        assert(path_bytes_of(rest) =~= seq![]);
    }
    assert(path_bytes_of(all) =~= path_bytes_of(base) + path_bytes_of(name));
}

/// Joining the texts of paths joins the paths, whatever bytes they hold.
pub proof fn law_joining_texts_joins_the_paths(base: Seq<char>, name: Seq<char>)
    ensures
        path_bytes_of(joined(base, name)) == joined_bytes(
            path_bytes_of(base),
            path_bytes_of(name),
        ),
{
    if name.len() > 0 {
        lemma_path_ends(name);
    }
    if !absolute(name) && base.len() > 0 {
        lemma_path_ends(base);
        if base.last() == '/' {
            lemma_after_slash(base, name);
        } else {
            lemma_slash_added(base);
            lemma_after_slash(base.push('/'), name);
        }
    }
}

} // verus!
