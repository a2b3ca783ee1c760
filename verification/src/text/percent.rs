//! Percent-encoding of paths.

use vstd::prelude::*;
use vstd::utf8::{
    decode_utf8, encode_utf8, encode_utf8_decode_utf8, is_ascii_chars_encode_utf8,
};

use crate::text::number::{digit_value, upper_hex_char, upper_hex_char_of};
use crate::text::ospath::{shown, shown_text};

verus! {

/// The byte stands for itself: a letter, a digit, one of `-_.~`, or a slash.
pub open spec fn unreserved(b: u8) -> bool {
    ||| 48 <= b <= 57
    ||| 65 <= b <= 90
    ||| 97 <= b <= 122
    ||| b == 45
    ||| b == 95
    ||| b == 46
    ||| b == 126
    ||| b == 47
}

/// The text of one byte: itself, or `%` and two hexadecimal digits.
pub open spec fn escaped_byte(b: u8) -> Seq<char> {
    if unreserved(b) {
        seq![b as char]
    } else {
        seq!['%', upper_hex_char(b as int / 16), upper_hex_char(b as int % 16)]
    }
}

/// The text of bytes.
pub open spec fn escaped(bytes: Seq<u8>) -> Seq<char>
    decreases bytes.len(),
{
    if bytes.len() == 0 {
        seq![]
    } else {
        escaped(bytes.drop_last()) + escaped_byte(bytes.last())
    }
}

/// The percent-encoded text of a path.
pub open spec fn percent_encoded(path: Seq<char>) -> Seq<char> {
    escaped(encode_utf8(path))
}

/// Append the text of one byte.
fn push_byte(out: &mut String, b: u8)
    ensures
        final(out)@ == old(out)@ + escaped_byte(b),
{
    let ghost before = out@;
    let keep = (48 <= b && b <= 57) || (65 <= b && b <= 90) || (97 <= b && b <= 122) || b == 45 || b
        == 95 || b == 46 || b == 126 || b == 47;
    if keep {
        out.push(b as char);
        assert(out@ =~= before + escaped_byte(b));
    } else {
        out.push('%');
        out.push(upper_hex_char_of(b / 16));
        out.push(upper_hex_char_of(b % 16));
        assert(out@ =~= before + escaped_byte(b));
    }
}

/// Percent-encode a path: everything but the unreserved characters and `/`.
pub fn percent_encode(s: &str) -> (r: String)
    ensures
        r@ == percent_encoded(s@),
{
    let bytes = s.as_bytes();
    let mut out = String::new();
    assert(out@ =~= escaped(bytes@.take(0)));
    for i in 0..bytes.len()
        invariant
            out@ == escaped(bytes@.take(i as int)),
    {
        proof {
            assert(bytes@.take(i + 1).drop_last() =~= bytes@.take(i as int));
        }
        push_byte(&mut out, bytes[i]);
    }
    assert(bytes@.take(bytes@.len() as int) =~= bytes@);
    out
}

/// Convert a path, given by its text, to a `file://` URI, percent-encoding unsafe
/// bytes.
pub fn path_to_uri(path: &str) -> (r: String)
    ensures
        r@ == "file://"@ + percent_encoded(shown_text(path@)),
{
    let mut uri = "file://".to_string();
    uri.append(percent_encode(shown(path).as_str()).as_str());
    uri
}

// ---------------------------------------------------------------------------
// Reading a percent-encoded text back

/// The value of a hexadecimal digit.
pub open spec fn nibble(c: char) -> int {
    match digit_value(c, 16) {
        Some(v) => v,
        None => 0,
    }
}

/// The bytes that a percent-encoded text stands for.
pub open spec fn unescaped(s: Seq<char>) -> Seq<u8>
    decreases s.len(),
{
    if s.len() == 0 {
        seq![]
    } else if s[0] == '%' && s.len() >= 3 {
        seq![(nibble(s[1]) * 16 + nibble(s[2])) as u8] + unescaped(s.skip(3))
    } else {
        seq![s[0] as u8] + unescaped(s.skip(1))
    }
}

/// Reading one byte's text and what follows.
proof fn lemma_unescape_byte(b: u8, rest: Seq<char>)
    ensures
        unescaped(escaped_byte(b) + rest) == seq![b] + unescaped(rest),
{
    let text = escaped_byte(b) + rest;
    if unreserved(b) {
        assert(text[0] == b as char);
        assert(text[0] != '%');
        assert(text.skip(1) =~= rest);
        assert(text[0] as u8 == b);
    } else {
        let (hi, lo) = (b as int / 16, b as int % 16);
        assert(text[0] == '%' && text[1] == upper_hex_char(hi) && text[2] == upper_hex_char(lo));
        assert(text.skip(3) =~= rest);
        assert(nibble(upper_hex_char(hi)) == hi);
        assert(nibble(upper_hex_char(lo)) == lo);
    }
}

/// Reading bytes' text and what follows.
proof fn lemma_unescape(bytes: Seq<u8>, rest: Seq<char>)
    ensures
        unescaped(escaped(bytes) + rest) == bytes + unescaped(rest),
    decreases bytes.len(),
{
    if bytes.len() == 0 {
        assert(escaped(bytes) + rest =~= rest);
        assert(bytes + unescaped(rest) =~= unescaped(rest));
    } else {
        let b = bytes.last();
        let less = bytes.drop_last();
        let more = escaped_byte(b) + rest;
        lemma_unescape(less, more);
        lemma_unescape_byte(b, rest);
        assert(escaped(bytes) + rest =~= escaped(less) + more);
        assert(less + (seq![b] + unescaped(rest)) =~= bytes + unescaped(rest));
    }
}

/// A percent-encoded path stands for the path: decoding it gives the path back.
pub proof fn law_percent_encoding_round_trips(path: Seq<char>)
    ensures
        unescaped(percent_encoded(path)) == encode_utf8(path),
        decode_utf8(unescaped(percent_encoded(path))) == path,
{
    let bytes = encode_utf8(path);
    lemma_unescape(bytes, seq![]);
    assert(escaped(bytes) + seq![] =~= escaped(bytes));
    assert(bytes + unescaped(seq![]) =~= bytes);
    encode_utf8_decode_utf8(path);
}

/// An upper-case hexadecimal digit.
pub open spec fn upper_hex(c: char) -> bool {
    '0' <= c <= '9' || 'A' <= c <= 'F'
}

/// The character stands for itself.
pub open spec fn unreserved_char(c: char) -> bool {
    c <= '\u{7f}' && unreserved(c as u8)
}

/// A percent-encoded path holds unreserved characters and `%` only, and two
/// upper-case hexadecimal digits follow every `%`.
pub proof fn law_percent_encoded_is_plain(path: Seq<char>, i: int)
    requires
        0 <= i < percent_encoded(path).len(),
    ensures
        percent_encoded(path)[i] == '%' || unreserved_char(percent_encoded(path)[i]),
        percent_encoded(path)[i] == '%' ==> {
            &&& i + 2 < percent_encoded(path).len()
            &&& upper_hex(percent_encoded(path)[i + 1])
            &&& upper_hex(percent_encoded(path)[i + 2])
        },
{
    lemma_escaped_plain(encode_utf8(path), i);
}

/// A path is its own percent-encoded text exactly if it holds unreserved
/// characters only.
pub proof fn law_plain_paths_are_unchanged(path: Seq<char>)
    ensures
        percent_encoded(path) == path <==> forall|i: int|
            0 <= i < path.len() ==> unreserved_char(#[trigger] path[i]),
{
    let bytes = encode_utf8(path);
    if forall|i: int| 0 <= i < path.len() ==> unreserved_char(#[trigger] path[i]) {
        assert forall|i: int| 0 <= i < path.len() implies '\0' <= #[trigger] path[i] <= '\u{7f}' by {
            assert(unreserved_char(path[i]));
            lemma_nul_is_least(path[i]);
        }
        is_ascii_chars_encode_utf8(path);
        assert forall|i: int| 0 <= i < bytes.len() implies unreserved(#[trigger] bytes[i]) by {
            assert(unreserved_char(path[i]));
        }
        lemma_unreserved_text(bytes);
        assert forall|i: int| 0 <= i < path.len() implies #[trigger] path[i]
            == percent_encoded(path)[i] by {
            assert(unreserved_char(path[i]));
            assert(path[i] as u8 == bytes[i]);
        }
        assert(percent_encoded(path) =~= path);
    }
    if percent_encoded(path) == path {
        lemma_encoded_len(path);
        lemma_escaped_len(bytes);
        assert forall|i: int| 0 <= i < bytes.len() implies unreserved(#[trigger] bytes[i]) by {}
        lemma_unreserved_text(bytes);
        assert forall|i: int| 0 <= i < path.len() implies unreserved_char(#[trigger] path[i]) by {
            assert(path[i] == bytes[i] as char);
        }
    }
}

/// No character comes before NUL.
proof fn lemma_nul_is_least(c: char)
    ensures
        '\0' <= c,
{
}

/// Every character has a byte at least.
proof fn lemma_encoded_len(path: Seq<char>)
    ensures
        encode_utf8(path).len() >= path.len(),
    decreases path.len(),
{
    if path.len() > 0 {
        lemma_encoded_len(path.drop_first());
    }
}

/// The text of bytes is longer than the bytes if one of them is reserved.
proof fn lemma_escaped_len(bytes: Seq<u8>)
    ensures
        escaped(bytes).len() >= bytes.len(),
        forall|i: int|
            0 <= i < bytes.len() && !unreserved(#[trigger] bytes[i]) ==> escaped(bytes).len()
                > bytes.len(),
    decreases bytes.len(),
{
    if bytes.len() > 0 {
        let less = bytes.drop_last();
        lemma_escaped_len(less);
        assert forall|i: int| 0 <= i < bytes.len() && !unreserved(#[trigger] bytes[i]) implies
            escaped(bytes).len() > bytes.len() by {
            if i < less.len() {
                assert(less[i] == bytes[i]);
            }
        }
    }
}

/// Unreserved bytes stand for themselves.
proof fn lemma_unreserved_text(bytes: Seq<u8>)
    requires
        forall|i: int| 0 <= i < bytes.len() ==> unreserved(#[trigger] bytes[i]),
    ensures
        escaped(bytes) == Seq::new(bytes.len(), |i: int| bytes[i] as char),
    decreases bytes.len(),
{
    if bytes.len() > 0 {
        let less = bytes.drop_last();
        assert forall|i: int| 0 <= i < less.len() implies unreserved(#[trigger] less[i]) by {
            assert(less[i] == bytes[i]);
        }
        lemma_unreserved_text(less);
        assert(unreserved(bytes[bytes.len() - 1]));
    }
    assert(escaped(bytes) =~= Seq::new(bytes.len(), |i: int| bytes[i] as char));
}

/// The text of bytes holds unreserved characters and `%` only, and two upper-case
/// hexadecimal digits follow every `%`.
proof fn lemma_escaped_plain(bytes: Seq<u8>, i: int)
    requires
        0 <= i < escaped(bytes).len(),
    ensures
        escaped(bytes)[i] == '%' || unreserved_char(escaped(bytes)[i]),
        escaped(bytes)[i] == '%' ==> {
            &&& i + 2 < escaped(bytes).len()
            &&& upper_hex(escaped(bytes)[i + 1])
            &&& upper_hex(escaped(bytes)[i + 2])
        },
    decreases bytes.len(),
{
    let less = escaped(bytes.drop_last());
    let all = escaped(bytes);
    if i < less.len() {
        lemma_escaped_plain(bytes.drop_last(), i);
        assert(all[i] == less[i]);
        if all[i] == '%' {
            assert(all[i + 1] == less[i + 1] && all[i + 2] == less[i + 2]);
        }
    } else {
        let b = bytes.last();
        let n = less.len() as int;
        assert(all[i] == escaped_byte(b)[i - n]);
        if unreserved(b) {
            assert(all[i] == b as char);
        } else {
            let (hi, lo) = (b as int / 16, b as int % 16);
            assert(all[n] == '%');
            assert(all[n + 1] == upper_hex_char(hi) && all[n + 2] == upper_hex_char(lo));
            assert(upper_hex(upper_hex_char(hi)) && upper_hex(upper_hex_char(lo)));
        }
    }
}

/// The bytes that stand for themselves are the letters and digits of ASCII, the signs
/// `-`, `_`, `.` and `~`, and the slash; every other byte is escaped.
pub proof fn law_unreserved_bytes(b: u8)
    ensures
        unreserved(b) <==> ({
            let c = b as char;
            ||| 'a' <= c <= 'z'
            ||| 'A' <= c <= 'Z'
            ||| '0' <= c <= '9'
            ||| c == '-' || c == '_' || c == '.' || c == '~' || c == '/'
        }),
        unreserved(b) ==> escaped_byte(b) == seq![b as char],
        !unreserved(b) ==> escaped_byte(b).len() == 3 && escaped_byte(b)[0] == '%' && digit_value(
            escaped_byte(b)[1],
            16,
        ) == Some(b as int / 16) && digit_value(escaped_byte(b)[2], 16) == Some(b as int % 16),
{
}

} // verus!
