//! Mapping of UI key and pointer events to evdev codes.

use vstd::prelude::*;

use crate::text::chars::{chars_of, find, find_char, lemma_find};

verus! {

/// A key (evdev keycode) going down or up.
#[derive(Debug, Clone, Copy, PartialEq, Eq, Structural)]
pub struct KeyEvent {
    pub keycode: u32,
    pub pressed: bool,
}

/// `KEY_LEFTCTRL`.
pub const LEFT_CTRL: u32 = 29;

/// `KEY_LEFTALT`.
pub const LEFT_ALT: u32 = 56;

/// `KEY_LEFTSHIFT`.
pub const LEFT_SHIFT: u32 = 42;

/// The evdev code of a pointer button (1=left, 2=right, 3=middle).
pub open spec fn button_code(btn: int) -> u32 {
    if btn == 2 {
        0x111
    } else if btn == 3 {
        0x112
    } else {
        0x110
    }
}

/// Map a pointer-button index (1=left, 2=right, 3=middle) to an evdev code.
pub fn evdev_button(btn: i32) -> (r: u32)
    ensures
        r == button_code(btn as int),
{
    match btn {
        // BTN_RIGHT
        2 => 0x111,
        // BTN_MIDDLE
        3 => 0x112,
        // BTN_LEFT
        _ => 0x110,
    }
}

/// The keycode of a named key, which the UI encodes as a control or private-use
/// character.
pub open spec fn named_keycode(c: char) -> Option<u32> {
    if c == '\n' || c == '\r' {
        // Return
        Some(28)
    } else if c == '\u{8}' {
        // Backspace
        Some(14)
    } else if c == '\t' {
        // Tab
        Some(15)
    } else if c == '\u{1b}' {
        // Escape
        Some(1)
    } else if c == '\u{7f}' {
        // Delete
        Some(111)
    } else if c == '\u{f700}' {
        // Up
        Some(103)
    } else if c == '\u{f701}' {
        // Down
        Some(108)
    } else if c == '\u{f702}' {
        // Left
        Some(105)
    } else if c == '\u{f703}' {
        // Right
        Some(106)
    } else if c == ' ' {
        // Space
        Some(57)
    } else {
        None
    }
}

/// The key for `c` on a keyboard row whose keycodes count up from `start`, and
/// whether it needs Shift.
pub open spec fn key_on_row(
    c: char,
    start: int,
    plain: Seq<char>,
    shifted: Seq<char>,
) -> Option<(u32, bool)> {
    if plain.contains(c) {
        Some(((start + find(plain, c)) as u32, false))
    } else if shifted.contains(c) {
        Some(((start + find(shifted, c)) as u32, true))
    } else {
        None
    }
}

/// The first of two keys.
pub open spec fn first_key(a: Option<(u32, bool)>, b: Option<(u32, bool)>) -> Option<(u32, bool)> {
    match a {
        Some(k) => Some(k),
        None => b,
    }
}

/// The key of a US keyboard that types `c`, and whether it needs Shift.
pub open spec fn printable_keycode(c: char) -> Option<(u32, bool)> {
    first_key(
        key_on_row(c, 2, "1234567890-="@, "!@#$%^&*()_+"@),
        first_key(
            key_on_row(c, 16, "qwertyuiop[]"@, "QWERTYUIOP{}"@),
            first_key(
                key_on_row(c, 30, "asdfghjkl;'`"@, "ASDFGHJKL:\"~"@),
                key_on_row(c, 43, "\\zxcvbnm,./"@, "|ZXCVBNM<>?"@),
            ),
        ),
    )
}

/// The key for a key text: a named key by its first character, or the key that
/// types its only character.
pub open spec fn keycode(text: Seq<char>) -> Option<(u32, bool)> {
    if text.len() == 0 {
        None
    } else {
        match named_keycode(text[0]) {
            Some(code) => Some((code, false)),
            None => if text.len() == 1 {
                printable_keycode(text[0])
            } else {
                None
            },
        }
    }
}

/// The key for `c` on one row.
fn find_on_row(c: char, start: u32, plain: &str, shifted: &str) -> (r: Option<(u32, bool)>)
    requires
        start <= 100,
        plain@.len() <= 100,
        shifted@.len() <= 100,
    ensures
        r == key_on_row(c, start as int, plain@, shifted@),
{
    proof {
        lemma_find(plain@, c);
        lemma_find(shifted@, c);
    }
    let row = chars_of(plain);
    let i = find_char(row.as_slice(), c);
    if i < row.len() {
        return Some((start + i as u32, false));
    }
    let row = chars_of(shifted);
    let i = find_char(row.as_slice(), c);
    if i < row.len() {
        return Some((start + i as u32, true));
    }
    None
}

/// The rows are as long as their keys.
proof fn lemma_row_lengths()
    ensures
        "1234567890-="@.len() == 12,
        "!@#$%^&*()_+"@.len() == 12,
        "qwertyuiop[]"@.len() == 12,
        "QWERTYUIOP{}"@.len() == 12,
        "asdfghjkl;'`"@.len() == 12,
        "ASDFGHJKL:\"~"@.len() == 12,
        "\\zxcvbnm,./"@.len() == 11,
        "|ZXCVBNM<>?"@.len() == 11,
{
    reveal_strlit("1234567890-=");
    reveal_strlit("!@#$%^&*()_+");
    reveal_strlit("qwertyuiop[]");
    reveal_strlit("QWERTYUIOP{}");
    reveal_strlit("asdfghjkl;'`");
    reveal_strlit("ASDFGHJKL:\"~");
    reveal_strlit("\\zxcvbnm,./");
    reveal_strlit("|ZXCVBNM<>?");
}

/// Best-effort mapping of key text to a US-layout evdev keycode plus whether
/// Shift is needed. Returns `None` for unmapped keys.
pub fn evdev_keycode(text: &str) -> (r: Option<(u32, bool)>)
    ensures
        r == keycode(text@),
{
    let chars = chars_of(text);
    if chars.len() == 0 {
        return None;
    }
    let c = chars[0];
    // Named keys come as specific control or private-use characters.
    match c {
        '\n' | '\r' => return Some((28, false)),
        '\u{8}' => return Some((14, false)),
        '\t' => return Some((15, false)),
        '\u{1b}' => return Some((1, false)),
        '\u{7f}' => return Some((111, false)),
        '\u{f700}' => return Some((103, false)),
        '\u{f701}' => return Some((108, false)),
        '\u{f702}' => return Some((105, false)),
        '\u{f703}' => return Some((106, false)),
        ' ' => return Some((57, false)),
        _ => {},
    }
    // Beyond here only single printable characters are mapped.
    if chars.len() > 1 {
        return None;
    }
    proof {
        lemma_row_lengths();
    }
    if let Some(key) = find_on_row(c, 2, "1234567890-=", "!@#$%^&*()_+") {
        return Some(key);
    }
    if let Some(key) = find_on_row(c, 16, "qwertyuiop[]", "QWERTYUIOP{}") {
        return Some(key);
    }
    if let Some(key) = find_on_row(c, 30, "asdfghjkl;'`", "ASDFGHJKL:\"~") {
        return Some(key);
    }
    find_on_row(c, 43, "\\zxcvbnm,./", "|ZXCVBNM<>?")
}

/// The modifier keys to hold, in the order in which they go down.
pub open spec fn modifier_keys(ctrl: bool, alt: bool, shift: bool) -> Seq<u32> {
    (if ctrl {
        seq![LEFT_CTRL]
    } else {
        seq![]
    }) + (if alt {
        seq![LEFT_ALT]
    } else {
        seq![]
    }) + (if shift {
        seq![LEFT_SHIFT]
    } else {
        seq![]
    })
}

/// All of `keys` going down or up, in their order.
pub open spec fn key_events(keys: Seq<u32>, pressed: bool) -> Seq<KeyEvent> {
    Seq::new(keys.len(), |i: int| KeyEvent { keycode: keys[i], pressed })
}

/// A tap of a key while the modifiers are held: they go down in order and up in
/// the reverse order.
pub open spec fn key_tap(code: u32, mods: Seq<u32>) -> Seq<KeyEvent> {
    key_events(mods, true) + seq![
        KeyEvent { keycode: code, pressed: true },
        KeyEvent { keycode: code, pressed: false },
    ] + key_events(mods.reverse(), false)
}

/// The events for a key text with modifiers.
pub open spec fn forwarded(text: Seq<char>, ctrl: bool, alt: bool, shift: bool) -> Seq<KeyEvent> {
    match keycode(text) {
        Some((code, needs_shift)) => key_tap(
            code,
            modifier_keys(ctrl, alt, needs_shift || shift),
        ),
        None => seq![],
    }
}

/// One key press as a modifier-wrapped tap for the focused window: the key
/// events to send, in order. An unmapped key gives none.
pub fn forward_key(text: &str, ctrl: bool, alt: bool, shift_mod: bool) -> (r: Vec<KeyEvent>)
    ensures
        r@ == forwarded(text@, ctrl, alt, shift_mod),
{
    let mut out: Vec<KeyEvent> = Vec::new();
    let Some((code, needs_shift)) = evdev_keycode(text) else {
        assert(out@ =~= forwarded(text@, ctrl, alt, shift_mod));
        return out;
    };
    let mut mods: Vec<u32> = Vec::new();
    if ctrl {
        mods.push(LEFT_CTRL);
    }
    if alt {
        mods.push(LEFT_ALT);
    }
    if needs_shift || shift_mod {
        mods.push(LEFT_SHIFT);
    }
    assert(mods@ =~= modifier_keys(ctrl, alt, needs_shift || shift_mod));
    for i in 0..mods.len()
        invariant
            out@ =~= key_events(mods@, true).take(i as int),
    {
        out.push(KeyEvent { keycode: mods[i], pressed: true });
    }
    out.push(KeyEvent { keycode: code, pressed: true });
    out.push(KeyEvent { keycode: code, pressed: false });
    let ghost tap = key_events(mods@, true) + seq![
        KeyEvent { keycode: code, pressed: true },
        KeyEvent { keycode: code, pressed: false },
    ];
    let ghost up = key_events(mods@.reverse(), false);
    assert(out@ =~= tap);
    for i in 0..mods.len()
        invariant
            up == key_events(mods@.reverse(), false),
            out@ =~= tap + up.take(i as int),
    {
        out.push(KeyEvent { keycode: mods[mods.len() - 1 - i], pressed: false });
    }
    assert(up.take(up.len() as int) =~= up);
    out
}

/// The keys that are down after some events, when none was down before.
pub open spec fn keys_down(events: Seq<KeyEvent>) -> Set<u32>
    decreases events.len(),
{
    if events.len() == 0 {
        Set::empty()
    } else if events.last().pressed {
        keys_down(events.drop_last()).insert(events.last().keycode)
    } else {
        keys_down(events.drop_last()).remove(events.last().keycode)
    }
}

/// One more event.
proof fn lemma_keys_down_push(events: Seq<KeyEvent>, e: KeyEvent)
    ensures
        keys_down(events.push(e)) == if e.pressed {
            keys_down(events).insert(e.keycode)
        } else {
            keys_down(events).remove(e.keycode)
        },
{
    assert(events.push(e).drop_last() =~= events);
}

/// Keys that go down are down.
proof fn lemma_keys_pressed(keys: Seq<u32>)
    ensures
        keys_down(key_events(keys, true)) == keys.to_set(),
    decreases keys.len(),
{
    let events = key_events(keys, true);
    if keys.len() == 0 {
        assert(keys.to_set() =~= Set::empty());
    } else {
        lemma_keys_pressed(keys.drop_last());
        assert(events.drop_last() =~= key_events(keys.drop_last(), true));
        assert forall|k: u32| keys.contains(k) <==> keys.drop_last().contains(k) || k
            == keys.last() by {
            if keys.contains(k) {
                let i = choose|i: int| 0 <= i < keys.len() && keys[i] == k;
                if i < keys.len() - 1 {
                    assert(keys.drop_last()[i] == k);
                }
            }
            if keys.drop_last().contains(k) {
                let i = choose|i: int| 0 <= i < keys.len() - 1 && keys.drop_last()[i] == k;
                assert(keys[i] == k);
            }
            assert(keys[keys.len() - 1] == keys.last());
        }
        assert(keys.to_set() =~= keys.drop_last().to_set().insert(keys.last()));
    }
}

/// Keys that go up are no longer down.
proof fn lemma_keys_released(before: Seq<KeyEvent>, keys: Seq<u32>, k: u32)
    ensures
        keys_down(before + key_events(keys, false)).contains(k) <==> keys_down(before).contains(k)
            && !keys.contains(k),
    decreases keys.len(),
{
    let all = before + key_events(keys, false);
    if keys.len() == 0 {
        assert(all =~= before);
    } else {
        let rest = keys.drop_last();
        lemma_keys_released(before, rest, k);
        let most = before + key_events(rest, false);
        let up = KeyEvent { keycode: keys.last(), pressed: false };
        assert(all =~= most.push(up));
        lemma_keys_down_push(most, up);
        assert(keys == rest.push(keys.last()));
        if rest.contains(k) {
            let i = choose|i: int| 0 <= i < rest.len() && rest[i] == k;
            assert(keys[i] == k);
        }
        if keys.contains(k) {
            let i = choose|i: int| 0 <= i < keys.len() && keys[i] == k;
            if i < rest.len() {
                assert(rest[i] == k);
            }
        }
        assert(keys[rest.len() as int] == keys.last());
    }
}

/// A forwarded key leaves no key down, and goes down itself while exactly its
/// modifiers are held.
pub proof fn law_forwarded_keys_are_released(text: Seq<char>, ctrl: bool, alt: bool, shift: bool)
    ensures
        keys_down(forwarded(text, ctrl, alt, shift)) == Set::<u32>::empty(),
        keycode(text) matches Some((code, needs_shift)) ==> ({
            let mods = modifier_keys(ctrl, alt, needs_shift || shift);
            let events = forwarded(text, ctrl, alt, shift);
            &&& events[mods.len() as int] == KeyEvent { keycode: code, pressed: true }
            &&& keys_down(events.take(mods.len() as int)) == mods.to_set()
        }),
{
    if let Some((code, needs_shift)) = keycode(text) {
        let mods = modifier_keys(ctrl, alt, needs_shift || shift);
        let down = key_events(mods, true);
        let press = KeyEvent { keycode: code, pressed: true };
        let release = KeyEvent { keycode: code, pressed: false };
        let events = forwarded(text, ctrl, alt, shift);
        lemma_keys_pressed(mods);
        assert(events.take(mods.len() as int) =~= down);
        lemma_keys_down_push(down, press);
        lemma_keys_down_push(down.push(press), release);
        let tapped = down.push(press).push(release);
        assert(events =~= tapped + key_events(mods.reverse(), false));
        assert forall|k: u32| !keys_down(events).contains(k) by {
            lemma_keys_released(tapped, mods.reverse(), k);
            assert(keys_down(tapped).contains(k) ==> mods.contains(k));
            if mods.contains(k) {
                let i = choose|i: int| 0 <= i < mods.len() && mods[i] == k;
                assert(mods.reverse()[mods.len() - 1 - i] == k);
            }
        }
        assert(keys_down(events) =~= Set::empty());
    }
}

/// The keys of one row of a US keyboard.
proof fn lemma_row_1(c: char)
    ensures
        ({
            let r = key_on_row(c, 2, "1234567890-="@, "!@#$%^&*()_+"@);
            &&& c == '1' ==> r == Some((2u32, false))
            &&& c == '2' ==> r == Some((3u32, false))
            &&& c == '3' ==> r == Some((4u32, false))
            &&& c == '4' ==> r == Some((5u32, false))
            &&& c == '5' ==> r == Some((6u32, false))
            &&& c == '6' ==> r == Some((7u32, false))
            &&& c == '7' ==> r == Some((8u32, false))
            &&& c == '8' ==> r == Some((9u32, false))
            &&& c == '9' ==> r == Some((10u32, false))
            &&& c == '0' ==> r == Some((11u32, false))
            &&& c == '-' ==> r == Some((12u32, false))
            &&& c == '=' ==> r == Some((13u32, false))
            &&& c == '!' ==> r == Some((2u32, true))
            &&& c == '@' ==> r == Some((3u32, true))
            &&& c == '#' ==> r == Some((4u32, true))
            &&& c == '$' ==> r == Some((5u32, true))
            &&& c == '%' ==> r == Some((6u32, true))
            &&& c == '^' ==> r == Some((7u32, true))
            &&& c == '&' ==> r == Some((8u32, true))
            &&& c == '*' ==> r == Some((9u32, true))
            &&& c == '(' ==> r == Some((10u32, true))
            &&& c == ')' ==> r == Some((11u32, true))
            &&& c == '_' ==> r == Some((12u32, true))
            &&& c == '+' ==> r == Some((13u32, true))
            &&& r is Some ==> c == '1' || c == '2' || c == '3' || c == '4' || c == '5' || c == '6' || c == '7' || c == '8' || c == '9' || c == '0' || c == '-' || c == '=' || c == '!' || c == '@' || c == '#' || c == '$' || c == '%' || c == '^' || c == '&' || c == '*' || c == '(' || c == ')' || c == '_' || c == '+'
        }),
{
    let plain = "1234567890-="@;
    let shifted = "!@#$%^&*()_+"@;
    reveal_strlit("1234567890-=");
    reveal_strlit("!@#$%^&*()_+");
    lemma_find(plain, c);
    lemma_find(shifted, c);
    assert(plain.len() == 12 && shifted.len() == 12);
    assert(plain[0] == '1');
    assert(plain[1] == '2');
    assert(plain[2] == '3');
    assert(plain[3] == '4');
    assert(plain[4] == '5');
    assert(plain[5] == '6');
    assert(plain[6] == '7');
    assert(plain[7] == '8');
    assert(plain[8] == '9');
    assert(plain[9] == '0');
    assert(plain[10] == '-');
    assert(plain[11] == '=');
    assert(shifted[0] == '!');
    assert(shifted[1] == '@');
    assert(shifted[2] == '#');
    assert(shifted[3] == '$');
    assert(shifted[4] == '%');
    assert(shifted[5] == '^');
    assert(shifted[6] == '&');
    assert(shifted[7] == '*');
    assert(shifted[8] == '(');
    assert(shifted[9] == ')');
    assert(shifted[10] == '_');
    assert(shifted[11] == '+');
}

/// The keys of one row of a US keyboard.
proof fn lemma_row_2(c: char)
    ensures
        ({
            let r = key_on_row(c, 16, "qwertyuiop[]"@, "QWERTYUIOP{}"@);
            &&& c == 'q' ==> r == Some((16u32, false))
            &&& c == 'w' ==> r == Some((17u32, false))
            &&& c == 'e' ==> r == Some((18u32, false))
            &&& c == 'r' ==> r == Some((19u32, false))
            &&& c == 't' ==> r == Some((20u32, false))
            &&& c == 'y' ==> r == Some((21u32, false))
            &&& c == 'u' ==> r == Some((22u32, false))
            &&& c == 'i' ==> r == Some((23u32, false))
            &&& c == 'o' ==> r == Some((24u32, false))
            &&& c == 'p' ==> r == Some((25u32, false))
            &&& c == '[' ==> r == Some((26u32, false))
            &&& c == ']' ==> r == Some((27u32, false))
            &&& c == 'Q' ==> r == Some((16u32, true))
            &&& c == 'W' ==> r == Some((17u32, true))
            &&& c == 'E' ==> r == Some((18u32, true))
            &&& c == 'R' ==> r == Some((19u32, true))
            &&& c == 'T' ==> r == Some((20u32, true))
            &&& c == 'Y' ==> r == Some((21u32, true))
            &&& c == 'U' ==> r == Some((22u32, true))
            &&& c == 'I' ==> r == Some((23u32, true))
            &&& c == 'O' ==> r == Some((24u32, true))
            &&& c == 'P' ==> r == Some((25u32, true))
            &&& c == '{' ==> r == Some((26u32, true))
            &&& c == '}' ==> r == Some((27u32, true))
            &&& r is Some ==> c == 'q' || c == 'w' || c == 'e' || c == 'r' || c == 't' || c == 'y' || c == 'u' || c == 'i' || c == 'o' || c == 'p' || c == '[' || c == ']' || c == 'Q' || c == 'W' || c == 'E' || c == 'R' || c == 'T' || c == 'Y' || c == 'U' || c == 'I' || c == 'O' || c == 'P' || c == '{' || c == '}'
        }),
{
    let plain = "qwertyuiop[]"@;
    let shifted = "QWERTYUIOP{}"@;
    reveal_strlit("qwertyuiop[]");
    reveal_strlit("QWERTYUIOP{}");
    lemma_find(plain, c);
    lemma_find(shifted, c);
    assert(plain.len() == 12 && shifted.len() == 12);
    assert(plain[0] == 'q');
    assert(plain[1] == 'w');
    assert(plain[2] == 'e');
    assert(plain[3] == 'r');
    assert(plain[4] == 't');
    assert(plain[5] == 'y');
    assert(plain[6] == 'u');
    assert(plain[7] == 'i');
    assert(plain[8] == 'o');
    assert(plain[9] == 'p');
    assert(plain[10] == '[');
    assert(plain[11] == ']');
    assert(shifted[0] == 'Q');
    assert(shifted[1] == 'W');
    assert(shifted[2] == 'E');
    assert(shifted[3] == 'R');
    assert(shifted[4] == 'T');
    assert(shifted[5] == 'Y');
    assert(shifted[6] == 'U');
    assert(shifted[7] == 'I');
    assert(shifted[8] == 'O');
    assert(shifted[9] == 'P');
    assert(shifted[10] == '{');
    assert(shifted[11] == '}');
}

/// The keys of one row of a US keyboard.
proof fn lemma_row_3(c: char)
    ensures
        ({
            let r = key_on_row(c, 30, "asdfghjkl;'`"@, "ASDFGHJKL:\"~"@);
            &&& c == 'a' ==> r == Some((30u32, false))
            &&& c == 's' ==> r == Some((31u32, false))
            &&& c == 'd' ==> r == Some((32u32, false))
            &&& c == 'f' ==> r == Some((33u32, false))
            &&& c == 'g' ==> r == Some((34u32, false))
            &&& c == 'h' ==> r == Some((35u32, false))
            &&& c == 'j' ==> r == Some((36u32, false))
            &&& c == 'k' ==> r == Some((37u32, false))
            &&& c == 'l' ==> r == Some((38u32, false))
            &&& c == ';' ==> r == Some((39u32, false))
            &&& c == '\'' ==> r == Some((40u32, false))
            &&& c == '`' ==> r == Some((41u32, false))
            &&& c == 'A' ==> r == Some((30u32, true))
            &&& c == 'S' ==> r == Some((31u32, true))
            &&& c == 'D' ==> r == Some((32u32, true))
            &&& c == 'F' ==> r == Some((33u32, true))
            &&& c == 'G' ==> r == Some((34u32, true))
            &&& c == 'H' ==> r == Some((35u32, true))
            &&& c == 'J' ==> r == Some((36u32, true))
            &&& c == 'K' ==> r == Some((37u32, true))
            &&& c == 'L' ==> r == Some((38u32, true))
            &&& c == ':' ==> r == Some((39u32, true))
            &&& c == '"' ==> r == Some((40u32, true))
            &&& c == '~' ==> r == Some((41u32, true))
            &&& r is Some ==> c == 'a' || c == 's' || c == 'd' || c == 'f' || c == 'g' || c == 'h' || c == 'j' || c == 'k' || c == 'l' || c == ';' || c == '\'' || c == '`' || c == 'A' || c == 'S' || c == 'D' || c == 'F' || c == 'G' || c == 'H' || c == 'J' || c == 'K' || c == 'L' || c == ':' || c == '"' || c == '~'
        }),
{
    let plain = "asdfghjkl;'`"@;
    let shifted = "ASDFGHJKL:\"~"@;
    reveal_strlit("asdfghjkl;'`");
    reveal_strlit("ASDFGHJKL:\"~");
    lemma_find(plain, c);
    lemma_find(shifted, c);
    assert(plain.len() == 12 && shifted.len() == 12);
    assert(plain[0] == 'a');
    assert(plain[1] == 's');
    assert(plain[2] == 'd');
    assert(plain[3] == 'f');
    assert(plain[4] == 'g');
    assert(plain[5] == 'h');
    assert(plain[6] == 'j');
    assert(plain[7] == 'k');
    assert(plain[8] == 'l');
    assert(plain[9] == ';');
    assert(plain[10] == '\'');
    assert(plain[11] == '`');
    assert(shifted[0] == 'A');
    assert(shifted[1] == 'S');
    assert(shifted[2] == 'D');
    assert(shifted[3] == 'F');
    assert(shifted[4] == 'G');
    assert(shifted[5] == 'H');
    assert(shifted[6] == 'J');
    assert(shifted[7] == 'K');
    assert(shifted[8] == 'L');
    assert(shifted[9] == ':');
    assert(shifted[10] == '"');
    assert(shifted[11] == '~');
}

/// The keys of one row of a US keyboard.
proof fn lemma_row_4(c: char)
    ensures
        ({
            let r = key_on_row(c, 43, "\\zxcvbnm,./"@, "|ZXCVBNM<>?"@);
            &&& c == '\\' ==> r == Some((43u32, false))
            &&& c == 'z' ==> r == Some((44u32, false))
            &&& c == 'x' ==> r == Some((45u32, false))
            &&& c == 'c' ==> r == Some((46u32, false))
            &&& c == 'v' ==> r == Some((47u32, false))
            &&& c == 'b' ==> r == Some((48u32, false))
            &&& c == 'n' ==> r == Some((49u32, false))
            &&& c == 'm' ==> r == Some((50u32, false))
            &&& c == ',' ==> r == Some((51u32, false))
            &&& c == '.' ==> r == Some((52u32, false))
            &&& c == '/' ==> r == Some((53u32, false))
            &&& c == '|' ==> r == Some((43u32, true))
            &&& c == 'Z' ==> r == Some((44u32, true))
            &&& c == 'X' ==> r == Some((45u32, true))
            &&& c == 'C' ==> r == Some((46u32, true))
            &&& c == 'V' ==> r == Some((47u32, true))
            &&& c == 'B' ==> r == Some((48u32, true))
            &&& c == 'N' ==> r == Some((49u32, true))
            &&& c == 'M' ==> r == Some((50u32, true))
            &&& c == '<' ==> r == Some((51u32, true))
            &&& c == '>' ==> r == Some((52u32, true))
            &&& c == '?' ==> r == Some((53u32, true))
            &&& r is Some ==> c == '\\' || c == 'z' || c == 'x' || c == 'c' || c == 'v' || c == 'b' || c == 'n' || c == 'm' || c == ',' || c == '.' || c == '/' || c == '|' || c == 'Z' || c == 'X' || c == 'C' || c == 'V' || c == 'B' || c == 'N' || c == 'M' || c == '<' || c == '>' || c == '?'
        }),
{
    let plain = "\\zxcvbnm,./"@;
    let shifted = "|ZXCVBNM<>?"@;
    reveal_strlit("\\zxcvbnm,./");
    reveal_strlit("|ZXCVBNM<>?");
    lemma_find(plain, c);
    lemma_find(shifted, c);
    assert(plain.len() == 11 && shifted.len() == 11);
    assert(plain[0] == '\\');
    assert(plain[1] == 'z');
    assert(plain[2] == 'x');
    assert(plain[3] == 'c');
    assert(plain[4] == 'v');
    assert(plain[5] == 'b');
    assert(plain[6] == 'n');
    assert(plain[7] == 'm');
    assert(plain[8] == ',');
    assert(plain[9] == '.');
    assert(plain[10] == '/');
    assert(shifted[0] == '|');
    assert(shifted[1] == 'Z');
    assert(shifted[2] == 'X');
    assert(shifted[3] == 'C');
    assert(shifted[4] == 'V');
    assert(shifted[5] == 'B');
    assert(shifted[6] == 'N');
    assert(shifted[7] == 'M');
    assert(shifted[8] == '<');
    assert(shifted[9] == '>');
    assert(shifted[10] == '?');
}

/// The keycodes are those of evdev on a US keyboard: `KEY_ENTER` is 28,
/// `KEY_BACKSPACE` 14, `KEY_TAB` 15, `KEY_ESC` 1, `KEY_DELETE` 111, `KEY_UP` 103,
/// `KEY_DOWN` 108, `KEY_LEFT` 105, `KEY_RIGHT` 106, `KEY_SPACE` 57, and those of the
/// keys that type a character are as listed. A character that is typed with Shift
/// has the key of the one that is typed without. Nothing else has a key, and of
/// longer texts only those that start with a named key do.
pub proof fn law_keycodes_are_those_of_evdev(text: Seq<char>)
    requires
        text.len() > 0,
    ensures
        ({
            let c = text[0];
            let r = keycode(text);
            &&& c == '\n' || c == '\r' ==> r == Some((28u32, false))
            &&& c == '\u{8}' ==> r == Some((14u32, false))
            &&& c == '\t' ==> r == Some((15u32, false))
            &&& c == '\u{1b}' ==> r == Some((1u32, false))
            &&& c == '\u{7f}' ==> r == Some((111u32, false))
            &&& c == '\u{f700}' ==> r == Some((103u32, false))
            &&& c == '\u{f701}' ==> r == Some((108u32, false))
            &&& c == '\u{f702}' ==> r == Some((105u32, false))
            &&& c == '\u{f703}' ==> r == Some((106u32, false))
            &&& c == ' ' ==> r == Some((57u32, false))
            &&& text.len() > 1 && r is Some ==> named_char(c)
        }),
        text.len() == 1 ==> ({
            let c = text[0];
            let r = keycode(text);
            &&& c == '1' ==> r == Some((2u32, false))
            &&& c == '!' ==> r == Some((2u32, true))
            &&& c == '2' ==> r == Some((3u32, false))
            &&& c == '@' ==> r == Some((3u32, true))
            &&& c == '3' ==> r == Some((4u32, false))
            &&& c == '#' ==> r == Some((4u32, true))
            &&& c == '4' ==> r == Some((5u32, false))
            &&& c == '$' ==> r == Some((5u32, true))
            &&& c == '5' ==> r == Some((6u32, false))
            &&& c == '%' ==> r == Some((6u32, true))
            &&& c == '6' ==> r == Some((7u32, false))
            &&& c == '^' ==> r == Some((7u32, true))
            &&& c == '7' ==> r == Some((8u32, false))
            &&& c == '&' ==> r == Some((8u32, true))
            &&& c == '8' ==> r == Some((9u32, false))
            &&& c == '*' ==> r == Some((9u32, true))
            &&& c == '9' ==> r == Some((10u32, false))
            &&& c == '(' ==> r == Some((10u32, true))
            &&& c == '0' ==> r == Some((11u32, false))
            &&& c == ')' ==> r == Some((11u32, true))
            &&& c == '-' ==> r == Some((12u32, false))
            &&& c == '_' ==> r == Some((12u32, true))
            &&& c == '=' ==> r == Some((13u32, false))
            &&& c == '+' ==> r == Some((13u32, true))
            &&& c == 'q' ==> r == Some((16u32, false))
            &&& c == 'Q' ==> r == Some((16u32, true))
            &&& c == 'w' ==> r == Some((17u32, false))
            &&& c == 'W' ==> r == Some((17u32, true))
            &&& c == 'e' ==> r == Some((18u32, false))
            &&& c == 'E' ==> r == Some((18u32, true))
            &&& c == 'r' ==> r == Some((19u32, false))
            &&& c == 'R' ==> r == Some((19u32, true))
            &&& c == 't' ==> r == Some((20u32, false))
            &&& c == 'T' ==> r == Some((20u32, true))
            &&& c == 'y' ==> r == Some((21u32, false))
            &&& c == 'Y' ==> r == Some((21u32, true))
            &&& c == 'u' ==> r == Some((22u32, false))
            &&& c == 'U' ==> r == Some((22u32, true))
            &&& c == 'i' ==> r == Some((23u32, false))
            &&& c == 'I' ==> r == Some((23u32, true))
            &&& c == 'o' ==> r == Some((24u32, false))
            &&& c == 'O' ==> r == Some((24u32, true))
            &&& c == 'p' ==> r == Some((25u32, false))
            &&& c == 'P' ==> r == Some((25u32, true))
            &&& c == '[' ==> r == Some((26u32, false))
            &&& c == '{' ==> r == Some((26u32, true))
            &&& c == ']' ==> r == Some((27u32, false))
            &&& c == '}' ==> r == Some((27u32, true))
            &&& c == 'a' ==> r == Some((30u32, false))
            &&& c == 'A' ==> r == Some((30u32, true))
            &&& c == 's' ==> r == Some((31u32, false))
            &&& c == 'S' ==> r == Some((31u32, true))
            &&& c == 'd' ==> r == Some((32u32, false))
            &&& c == 'D' ==> r == Some((32u32, true))
            &&& c == 'f' ==> r == Some((33u32, false))
            &&& c == 'F' ==> r == Some((33u32, true))
            &&& c == 'g' ==> r == Some((34u32, false))
            &&& c == 'G' ==> r == Some((34u32, true))
            &&& c == 'h' ==> r == Some((35u32, false))
            &&& c == 'H' ==> r == Some((35u32, true))
            &&& c == 'j' ==> r == Some((36u32, false))
            &&& c == 'J' ==> r == Some((36u32, true))
            &&& c == 'k' ==> r == Some((37u32, false))
            &&& c == 'K' ==> r == Some((37u32, true))
            &&& c == 'l' ==> r == Some((38u32, false))
            &&& c == 'L' ==> r == Some((38u32, true))
            &&& c == ';' ==> r == Some((39u32, false))
            &&& c == ':' ==> r == Some((39u32, true))
            &&& c == '\'' ==> r == Some((40u32, false))
            &&& c == '"' ==> r == Some((40u32, true))
            &&& c == '`' ==> r == Some((41u32, false))
            &&& c == '~' ==> r == Some((41u32, true))
            &&& c == '\\' ==> r == Some((43u32, false))
            &&& c == '|' ==> r == Some((43u32, true))
            &&& c == 'z' ==> r == Some((44u32, false))
            &&& c == 'Z' ==> r == Some((44u32, true))
            &&& c == 'x' ==> r == Some((45u32, false))
            &&& c == 'X' ==> r == Some((45u32, true))
            &&& c == 'c' ==> r == Some((46u32, false))
            &&& c == 'C' ==> r == Some((46u32, true))
            &&& c == 'v' ==> r == Some((47u32, false))
            &&& c == 'V' ==> r == Some((47u32, true))
            &&& c == 'b' ==> r == Some((48u32, false))
            &&& c == 'B' ==> r == Some((48u32, true))
            &&& c == 'n' ==> r == Some((49u32, false))
            &&& c == 'N' ==> r == Some((49u32, true))
            &&& c == 'm' ==> r == Some((50u32, false))
            &&& c == 'M' ==> r == Some((50u32, true))
            &&& c == ',' ==> r == Some((51u32, false))
            &&& c == '<' ==> r == Some((51u32, true))
            &&& c == '.' ==> r == Some((52u32, false))
            &&& c == '>' ==> r == Some((52u32, true))
            &&& c == '/' ==> r == Some((53u32, false))
            &&& c == '?' ==> r == Some((53u32, true))
            &&& r is Some ==> named_char(c) || c == '1' || c == '2' || c == '3' || c == '4' || c == '5' || c == '6' || c == '7' || c == '8' || c == '9' || c == '0' || c == '-' || c == '=' || c == '!' || c == '@' || c == '#' || c == '$' || c == '%' || c == '^' || c == '&' || c == '*' || c == '(' || c == ')' || c == '_' || c == '+' || c == 'q' || c == 'w' || c == 'e' || c == 'r' || c == 't' || c == 'y' || c == 'u' || c == 'i' || c == 'o' || c == 'p' || c == '[' || c == ']' || c == 'Q' || c == 'W' || c == 'E' || c == 'R' || c == 'T' || c == 'Y' || c == 'U' || c == 'I' || c == 'O' || c == 'P' || c == '{' || c == '}' || c == 'a' || c == 's' || c == 'd' || c == 'f' || c == 'g' || c == 'h' || c == 'j' || c == 'k' || c == 'l' || c == ';' || c == '\'' || c == '`' || c == 'A' || c == 'S' || c == 'D' || c == 'F' || c == 'G' || c == 'H' || c == 'J' || c == 'K' || c == 'L' || c == ':' || c == '"' || c == '~' || c == '\\' || c == 'z' || c == 'x' || c == 'c' || c == 'v' || c == 'b' || c == 'n' || c == 'm' || c == ',' || c == '.' || c == '/' || c == '|' || c == 'Z' || c == 'X' || c == 'C' || c == 'V' || c == 'B' || c == 'N' || c == 'M' || c == '<' || c == '>' || c == '?'
        }),
{
    let c = text[0];
    if text.len() == 1 {
        lemma_row_1(c);
        lemma_row_2(c);
        lemma_row_3(c);
        lemma_row_4(c);
    }
}

/// The character stands for a key by itself: Return, Backspace, Tab, Escape,
/// Delete, an arrow or Space.
pub open spec fn named_char(c: char) -> bool {
    c == '\n' || c == '\r' || c == '\u{8}' || c == '\t' || c == '\u{1b}' || c == '\u{7f}' || c
        == '\u{f700}' || c == '\u{f701}' || c == '\u{f702}' || c == '\u{f703}' || c == ' '
}

/// A forwarded key is pressed while Ctrl (29), Alt (56) and Shift (42) are down
/// exactly as they are held, Shift also where the key needs it, and no other key
/// is; nothing is forwarded of what has no key.
pub proof fn law_forwarded_keys_hold_their_modifiers(
    text: Seq<char>,
    ctrl: bool,
    alt: bool,
    shift: bool,
    n: int,
)
    requires
        0 <= n < forwarded(text, ctrl, alt, shift).len(),
    ensures
        keycode(text) is Some,
        ({
            let events = forwarded(text, ctrl, alt, shift);
            let (code, needs_shift) = keycode(text).unwrap();
            let held = keys_down(events.take(n));
            events[n].pressed && events[n].keycode == code && code != 29 && code != 56 && code != 42
                ==> {
                &&& held.contains(29) <==> ctrl
                &&& held.contains(56) <==> alt
                &&& held.contains(42) <==> shift || needs_shift
                &&& forall|k: u32| held.contains(k) ==> k == 29 || k == 56 || k == 42
            }
        }),
{
    let events = forwarded(text, ctrl, alt, shift);
    if let Some((code, needs_shift)) = keycode(text) {
        let mods = modifier_keys(ctrl, alt, needs_shift || shift);
        law_forwarded_keys_are_released(text, ctrl, alt, shift);
        let m = mods.len() as int;
        assert forall|i: int| 0 <= i < m implies mods[i] == 29 || mods[i] == 56 || mods[i]
            == 42 by {}
        if events[n].pressed && events[n].keycode == code && code != 29 && code != 56 && code
            != 42 {
            assert(n == m) by {
                if n < m {
                    assert(events[n] == KeyEvent { keycode: mods[n], pressed: true });
                }
            }
            lemma_modifier_set(ctrl, alt, needs_shift || shift);
        }
    }
}

/// The modifiers to hold.
proof fn lemma_modifier_set(ctrl: bool, alt: bool, shift: bool)
    ensures
        ({
            let mods = modifier_keys(ctrl, alt, shift);
            &&& mods.contains(29) <==> ctrl
            &&& mods.contains(56) <==> alt
            &&& mods.contains(42) <==> shift
            &&& forall|k: u32| mods.contains(k) ==> k == 29 || k == 56 || k == 42
        }),
{
    let mods = modifier_keys(ctrl, alt, shift);
    let a: int = if ctrl {
        1
    } else {
        0
    };
    let b: int = if alt {
        a + 1
    } else {
        a
    };
    if ctrl {
        assert(mods[0] == 29);
    }
    if alt {
        assert(mods[a] == 56);
    }
    if shift {
        assert(mods[b] == 42);
    }
}

/// The forwarded key is pressed once and then released, and its modifiers are
/// pressed before it and released after it.
pub proof fn law_forwarded_keys_are_tapped(text: Seq<char>, ctrl: bool, alt: bool, shift: bool)
    ensures
        keycode(text) is None <==> forwarded(text, ctrl, alt, shift).len() == 0,
        keycode(text) matches Some((code, needs_shift)) ==> {
            let events = forwarded(text, ctrl, alt, shift);
            let m = (if ctrl {
                1int
            } else {
                0
            }) + (if alt {
                1int
            } else {
                0
            }) + (if shift || needs_shift {
                1int
            } else {
                0
            });
            &&& events.len() == 2 * m + 2
            &&& events[m] == KeyEvent { keycode: code, pressed: true }
            &&& events[m + 1] == KeyEvent { keycode: code, pressed: false }
            &&& forall|i: int|
                0 <= i < m ==> (#[trigger] events[i]).pressed && !events[2 * m + 1 - i].pressed
                    && events[i].keycode == events[2 * m + 1 - i].keycode
        },
{
}

/// The pointer buttons are `BTN_LEFT`, `BTN_RIGHT` and `BTN_MIDDLE` of evdev.
pub proof fn law_buttons_are_those_of_evdev(btn: int)
    ensures
        btn == 2 <==> button_code(btn) == 0x111,
        btn == 3 <==> button_code(btn) == 0x112,
        btn != 2 && btn != 3 <==> button_code(btn) == 0x110,
{
}

/// Every mapped keycode is a small positive number, so that the xkb keycode,
/// which is eight more, exists.
pub proof fn law_keycodes_are_small(text: Seq<char>)
    ensures
        keycode(text) matches Some((code, _)) ==> 1 <= code <= 111,
{
    if text.len() > 0 {
        let c = text[0];
        lemma_row_lengths();
        lemma_find("1234567890-="@, c);
        lemma_find("!@#$%^&*()_+"@, c);
        lemma_find("qwertyuiop[]"@, c);
        lemma_find("QWERTYUIOP{}"@, c);
        lemma_find("asdfghjkl;'`"@, c);
        lemma_find("ASDFGHJKL:\"~"@, c);
        lemma_find("\\zxcvbnm,./"@, c);
        lemma_find("|ZXCVBNM<>?"@, c);
    }
}

/// The arrows and the other named keys of a key event reach the client as the keys
/// they are, and a shifted character as its key with Shift.
pub proof fn law_key_events_have_evdev_codes(
    text: &str,
    r: Option<(u32, bool)>,
    btn: i32,
    button: u32,
)
    requires
        call_ensures(evdev_keycode, (text,), r),
        call_ensures(evdev_button, (btn,), button),
        text@.len() > 0,
    ensures
        text@[0] == '\u{f700}' ==> r == Some((103u32, false)),
        text@[0] == '\u{f701}' ==> r == Some((108u32, false)),
        text@[0] == '\u{f702}' ==> r == Some((105u32, false)),
        text@[0] == '\u{f703}' ==> r == Some((106u32, false)),
        text@[0] == '\u{7f}' ==> r == Some((111u32, false)),
        text@[0] == '\u{8}' ==> r == Some((14u32, false)),
        text@[0] == '\n' || text@[0] == '\r' ==> r == Some((28u32, false)),
        r == keycode(text@),
        btn == 1 ==> button == 0x110,
        btn == 2 ==> button == 0x111,
        btn == 3 ==> button == 0x112,
{
    law_keycodes_are_those_of_evdev(text@);
}

} // verus!
