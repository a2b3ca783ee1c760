//! Persisted settings, stored as a small `key = value` file in the working
//! directory.

use vstd::prelude::*;

use crate::keybind::{
    canonical, default_keybinds, defaults, keybind_text, keybind_views, lemma_keybind_text_round_trip,
    lemma_keybind_text_trimmed, parse, read_keybind,
    Keybind, KeybindView,
};
use crate::text::chars::{
    chars_of, cut, lemma_cut_at, lemma_find, lemma_split_first, lemma_split_none,
    lemma_trim_space_after, lemma_trim_space_before, lemma_trim_trimmed,
    lower, lowered, same, split, split_once, split_str, trim, trim_str, trimmed, views,
};
use crate::text::lines::{lemma_lines_first, lines, lines_of};
use crate::text::number::{
    all_digits, decimal, digit_value, hexadecimal, hexadecimal_of,
    lemma_decimal_reads_back, lemma_hexadecimal_reads_back, lemma_padding_reads_back,
    lemma_signed_round_trip, parse_i32, parse_unsigned, read_i32, read_unsigned, signed_decimal,
    signed_decimal_of, zero_pad, zero_padded,
};

verus! {

/// Settings file name (created in the current working directory).
pub const FILE: &'static str = "s-compositor.conf";

/// The persisted settings.
#[derive(Debug, PartialEq)]
pub struct Config {
    pub dark: bool,
    /// Accent colour as `0xRRGGBB`.
    pub accent: u32,
    pub panel_edge: i32,
    /// The thickness of the panel in logical pixels, as the text of a
    /// floating-point number.
    pub panel_size: String,
    pub background: Option<String>,
    /// Global shortcuts, in the order the file lists them.
    pub keybinds: Vec<Keybind>,
    /// The xkb layouts of the keyboard-layout switcher.
    pub keyboard_layouts: Vec<String>,
}

/// A [`Config`] as a mathematical value.
#[verifier::ext_equal]
pub struct ConfigView {
    pub dark: bool,
    pub accent: u32,
    pub panel_edge: i32,
    pub panel_size: Seq<char>,
    pub background: Option<Seq<char>>,
    pub keybinds: Seq<KeybindView>,
    pub keyboard_layouts: Seq<Seq<char>>,
}

impl View for Config {
    type V = ConfigView;

    open spec fn view(&self) -> ConfigView {
        ConfigView {
            dark: self.dark,
            accent: self.accent,
            panel_edge: self.panel_edge,
            panel_size: self.panel_size@,
            background: match self.background {
                Some(b) => Some(b@),
                None => None,
            },
            keybinds: keybind_views(self.keybinds@),
            keyboard_layouts: views(self.keyboard_layouts@),
        }
    }
}

// ---------------------------------------------------------------------------
// Floating-point texts

/// How many decimal digits `s` starts with.
pub open spec fn leading_digits(s: Seq<char>) -> int
    decreases s.len(),
{
    if s.len() > 0 && '0' <= s[0] <= '9' {
        1 + leading_digits(s.drop_first())
    } else {
        0
    }
}

/// `s` without one leading `+` or `-`.
pub open spec fn without_sign(s: Seq<char>) -> Seq<char> {
    if s.len() > 0 && (s[0] == '+' || s[0] == '-') {
        s.drop_first()
    } else {
        s
    }
}

/// An exponent: `e` or `E`, an optional sign and digits.
pub open spec fn exponent(s: Seq<char>) -> bool {
    &&& s.len() > 0
    &&& s[0] == 'e' || s[0] == 'E'
    &&& without_sign(s.drop_first()).len() > 0
    &&& leading_digits(without_sign(s.drop_first())) == without_sign(s.drop_first()).len()
}

/// What follows a fraction, and how many digits the fraction has.
pub open spec fn fraction(s: Seq<char>) -> (int, Seq<char>) {
    if s.len() > 0 && s[0] == '.' {
        let n = leading_digits(s.drop_first());
        (n, s.drop_first().skip(n))
    } else {
        (0, s)
    }
}

/// Digits with an optional fraction and exponent; there is a digit before or
/// after the point.
pub open spec fn number_text(s: Seq<char>) -> bool {
    let whole = leading_digits(s);
    let (part, rest) = fraction(s.skip(whole));
    whole + part > 0 && (rest.len() == 0 || exponent(rest))
}

/// A text that stands for a floating-point number: after an optional sign, a
/// number, an infinity or not-a-number.
pub open spec fn float_text(s: Seq<char>) -> bool {
    let t = without_sign(s);
    lower(t) == "inf"@ || lower(t) == "infinity"@ || lower(t) == "nan"@ || number_text(t)
}

/// Counting the leading digits stops at the first other character.
proof fn lemma_leading_digits_at(s: Seq<char>, n: int)
    requires
        0 <= n <= s.len(),
        forall|i: int| 0 <= i < n ==> '0' <= #[trigger] s[i] <= '9',
        n < s.len() ==> !('0' <= s[n] <= '9'),
    ensures
        leading_digits(s) == n,
    decreases n,
{
    if n > 0 {
        let t = s.drop_first();
        assert('0' <= s[0] <= '9');
        assert forall|i: int| 0 <= i < n - 1 implies '0' <= #[trigger] t[i] <= '9' by {
            assert(t[i] == s[i + 1]);
        }
        lemma_leading_digits_at(t, n - 1);
    }
}

/// The index of the first character of `cs[from..]` that is no digit.
fn skip_digits(cs: &Vec<char>, from: usize) -> (r: usize)
    requires
        from <= cs.len(),
    ensures
        from <= r <= cs.len(),
        r - from == leading_digits(cs@.skip(from as int)),
{
    let mut i: usize = from;
    let ghost rest = cs@.skip(from as int);
    while i < cs.len() && '0' <= cs[i] && cs[i] <= '9'
        invariant
            from <= i <= cs.len(),
            rest == cs@.skip(from as int),
            forall|k: int| 0 <= k < i - from ==> '0' <= #[trigger] rest[k] <= '9',
        decreases cs.len() - i,
    {
        assert(rest[i - from] == cs@[i as int]);
        i += 1;
    }
    proof {
        lemma_leading_digits_at(rest, i - from);
    }
    i
}

/// Whether `cs[from..]` is a number.
fn is_number_text(cs: &Vec<char>, from: usize) -> (r: bool)
    requires
        from <= cs.len(),
    ensures
        r == number_text(cs@.skip(from as int)),
{
    let ghost s = cs@.skip(from as int);
    let dot = skip_digits(cs, from);
    let whole: usize = dot - from;
    assert(s.skip(whole as int) =~= cs@.skip(dot as int));
    let mut part: usize = 0;
    let mut rest: usize = dot;
    if dot < cs.len() && cs[dot] == '.' {
        rest = skip_digits(cs, dot + 1);
        part = rest - (dot + 1);
        assert(s.skip(whole as int).drop_first() =~= cs@.skip(dot + 1));
        assert(cs@.skip(dot + 1).skip(part as int) =~= cs@.skip(rest as int));
    }
    let ghost tail = cs@.skip(rest as int);
    assert(fraction(s.skip(whole as int)) == (part as int, tail));
    if whole == 0 && part == 0 {
        return false;
    }
    if rest == cs.len() {
        return true;
    }
    assert(tail[0] == cs@[rest as int]);
    if cs[rest] != 'e' && cs[rest] != 'E' {
        return false;
    }
    let mut digits: usize = rest + 1;
    assert(tail.drop_first() =~= cs@.skip(rest + 1));
    if digits < cs.len() && (cs[digits] == '+' || cs[digits] == '-') {
        digits += 1;
        assert(cs@.skip(rest + 1).drop_first() =~= cs@.skip(digits as int));
    }
    assert(without_sign(tail.drop_first()) =~= cs@.skip(digits as int));
    digits < cs.len() && skip_digits(cs, digits) == cs.len()
}

/// Whether `s` stands for a floating-point number.
pub fn is_float_text(s: &str) -> (r: bool)
    ensures
        r == float_text(s@),
{
    let cs = chars_of(s);
    let from: usize = if cs.len() > 0 && (cs[0] == '+' || cs[0] == '-') {
        1
    } else {
        0
    };
    let t = s.substring_char(from, cs.len());
    assert(t@ =~= without_sign(s@));
    assert(cs@.skip(from as int) =~= without_sign(s@));
    let low = lowered(t);
    same(low.as_str(), "inf") || same(low.as_str(), "infinity") || same(low.as_str(), "nan")
        || is_number_text(&cs, from)
}

// ---------------------------------------------------------------------------
// Reading settings

/// `s` without its leading `#`s.
pub open spec fn without_hashes(s: Seq<char>) -> Seq<char>
    decreases s.len(),
{
    if s.len() > 0 && s[0] == '#' {
        without_hashes(s.drop_first())
    } else {
        s
    }
}

/// The trimmed pieces of a comma-separated list that are not empty.
pub open spec fn list_items(pieces: Seq<Seq<char>>) -> Seq<Seq<char>>
    decreases pieces.len(),
{
    if pieces.len() == 0 {
        seq![]
    } else {
        let rest = list_items(pieces.drop_last());
        let item = trim(pieces.last());
        if item.len() > 0 {
            rest.push(item)
        } else {
            rest
        }
    }
}

/// Apply one setting. An unknown key and a value that does not parse change
/// nothing.
pub open spec fn apply_setting(c: ConfigView, key: Seq<char>, value: Seq<char>) -> ConfigView {
    if key == "scheme"@ {
        ConfigView { dark: value != "light"@, ..c }
    } else if key == "accent"@ {
        match read_unsigned(without_hashes(value), 16, u32::MAX as int) {
            Some(n) => ConfigView { accent: (n % 0x100_0000) as u32, ..c },
            None => c,
        }
    } else if key == "panel_edge"@ {
        match read_i32(value) {
            Some(n) => ConfigView { panel_edge: n as i32, ..c },
            None => c,
        }
    } else if key == "panel_size"@ {
        if float_text(value) {
            ConfigView { panel_size: value, ..c }
        } else {
            c
        }
    } else if key == "background"@ {
        ConfigView {
            background: if value.len() > 0 {
                Some(value)
            } else {
                None
            },
            ..c
        }
    } else if key == "bind"@ {
        match read_keybind(value) {
            Some(b) => ConfigView { keybinds: c.keybinds.push(b), ..c },
            None => c,
        }
    } else if key == "keyboard_layouts"@ {
        ConfigView { keyboard_layouts: list_items(split(value, ',')), ..c }
    } else {
        c
    }
}

/// Apply one line: a comment, an empty line and a line without `=` change
/// nothing.
pub open spec fn apply_line(c: ConfigView, line: Seq<char>) -> ConfigView {
    let t = trim(line);
    if t.len() == 0 || t[0] == '#' {
        c
    } else {
        match cut(t, '=') {
            Some((key, value)) => apply_setting(c, trim(key), trim(value)),
            None => c,
        }
    }
}

/// Apply lines from first to last.
pub open spec fn apply_lines(c: ConfigView, all: Seq<Seq<char>>) -> ConfigView
    decreases all.len(),
{
    if all.len() == 0 {
        c
    } else {
        apply_lines(apply_line(c, all[0]), all.drop_first())
    }
}

/// Apply the text of a settings file.
pub open spec fn apply_text(c: ConfigView, text: Seq<char>) -> ConfigView {
    apply_lines(c, lines(text))
}

/// The settings when there is no file.
pub open spec fn default_config() -> ConfigView {
    ConfigView {
        dark: true,
        accent: 0x89b4fa,
        panel_edge: 0,
        panel_size: "72"@,
        background: None,
        keybinds: seq![],
        keyboard_layouts: seq![],
    }
}

// ---------------------------------------------------------------------------
// Writing settings

/// One line of the settings file.
pub open spec fn setting_line(key: Seq<char>, value: Seq<char>) -> Seq<char> {
    key + " = "@ + value
}

/// Lines, each ended by a line feed.
pub open spec fn join_lines(all: Seq<Seq<char>>) -> Seq<char>
    decreases all.len(),
{
    if all.len() == 0 {
        seq![]
    } else {
        all[0].push('\n') + join_lines(all.drop_first())
    }
}

/// Items with a comma between each two.
pub open spec fn comma_list(items: Seq<Seq<char>>) -> Seq<char>
    decreases items.len(),
{
    if items.len() == 0 {
        seq![]
    } else if items.len() == 1 {
        items[0]
    } else {
        items[0].push(',') + comma_list(items.drop_first())
    }
}

/// The lines that every settings file has.
pub open spec fn fixed_lines(c: ConfigView, panel_size: int) -> Seq<Seq<char>> {
    seq![
        "# s-compositor settings"@,
        setting_line(
            "scheme"@,
            if c.dark {
                "dark"@
            } else {
                "light"@
            },
        ),
        setting_line("accent"@, seq!['#'] + zero_padded(hexadecimal(c.accent as nat), 6)),
        setting_line("panel_edge"@, signed_decimal(c.panel_edge as int)),
        setting_line("panel_size"@, signed_decimal(panel_size)),
        setting_line(
            "background"@,
            match c.background {
                Some(b) => b,
                None => seq![],
            },
        ),
    ]
}

/// The lines of the shortcuts.
pub open spec fn bind_lines(binds: Seq<KeybindView>) -> Seq<Seq<char>> {
    Seq::new(binds.len(), |i: int| setting_line("bind"@, keybind_text(binds[i])))
}

/// The line of the keyboard layouts, if there are any.
pub open spec fn layout_lines(layouts: Seq<Seq<char>>) -> Seq<Seq<char>> {
    if layouts.len() > 0 {
        seq![setting_line("keyboard_layouts"@, comma_list(layouts))]
    } else {
        seq![]
    }
}

/// All lines of the settings file for `c` with a panel of `panel_size` whole
/// pixels.
pub open spec fn config_lines(c: ConfigView, panel_size: int) -> Seq<Seq<char>> {
    fixed_lines(c, panel_size) + bind_lines(c.keybinds) + layout_lines(c.keyboard_layouts)
}

/// The text of the settings file.
pub open spec fn config_text(c: ConfigView, panel_size: int) -> Seq<char> {
    join_lines(config_lines(c, panel_size))
}

impl Default for Config {
    fn default() -> (r: Self)
        ensures
            r@ == default_config(),
    {
        let r = Config {
            dark: true,
            accent: 0x89b4fa,
            panel_edge: 0,
            panel_size: "72".to_string(),
            background: None,
            keybinds: Vec::new(),
            keyboard_layouts: Vec::new(),
        };
        assert(r@ =~= default_config());
        r
    }
}

/// The value without its leading `#`s.
fn trim_hashes<'a>(s: &'a str) -> (r: &'a str)
    ensures
        r@ == without_hashes(s@),
{
    let cs = chars_of(s);
    let mut i: usize = 0;
    assert(s@.skip(0) == s@);
    while i < cs.len() && cs[i] == '#'
        invariant
            cs@ == s@,
            i <= cs.len(),
            without_hashes(s@.skip(i as int)) == without_hashes(s@),
        decreases cs.len() - i,
    {
        assert(s@.skip(i as int).drop_first() =~= s@.skip(i + 1));
        i += 1;
    }
    let r = s.substring_char(i, cs.len());
    assert(r@ =~= s@.skip(i as int));
    r
}

/// The trimmed items of a comma-separated list that are not empty.
fn split_list(value: &str) -> (r: Vec<String>)
    ensures
        views(r@) == list_items(split(value@, ',')),
{
    let pieces = split_str(value, ',');
    let ghost all = split(value@, ',');
    let mut out: Vec<String> = Vec::new();
    assert(views(out@) =~= list_items(all.take(0)));
    for i in 0..pieces.len()
        invariant
            pieces.len() == all.len(),
            forall|k: int| 0 <= k < pieces.len() ==> (#[trigger] pieces@[k])@ == all[k],
            views(out@) == list_items(all.take(i as int)),
    {
        let item = trim_str(pieces[i]);
        let ghost before = out@;
        proof {
            assert(all.take(i + 1).drop_last() =~= all.take(i as int));
            assert(all.take(i + 1).last() == all[i as int]);
        }
        if !item.is_empty() {
            out.push(item.to_string());
            assert(views(out@) =~= views(before).push(item@));
        }
    }
    assert(all.take(all.len() as int) =~= all);
    out
}

impl Config {
    /// Apply one setting.
    fn apply_one(&mut self, key: &str, value: &str)
        ensures
            final(self)@ == apply_setting(old(self)@, key@, value@),
    {
        let ghost before = self@;
        if same(key, "scheme") {
            self.dark = !same(value, "light");
        } else if same(key, "accent") {
            if let Some(n) = parse_unsigned(trim_hashes(value), 16, u32::MAX as u64) {
                self.accent = (n % 0x100_0000) as u32;
            }
        } else if same(key, "panel_edge") {
            if let Some(n) = parse_i32(value) {
                self.panel_edge = n;
            }
        } else if same(key, "panel_size") {
            if is_float_text(value) {
                self.panel_size = value.to_string();
            }
        } else if same(key, "background") {
            self.background = if value.is_empty() {
                None
            } else {
                Some(value.to_string())
            };
        } else if same(key, "bind") {
            if let Some(b) = parse(value) {
                let ghost binds = self.keybinds@;
                self.keybinds.push(b);
                assert(keybind_views(self.keybinds@) =~= keybind_views(binds).push(b@));
            }
        } else if same(key, "keyboard_layouts") {
            self.keyboard_layouts = split_list(value);
        }
        assert(self@ =~= apply_setting(before, key@, value@));
    }

    /// Apply the settings that `text` lists, line by line; what it does not
    /// mention keeps its value.
    pub fn apply_str(&mut self, text: &str)
        ensures
            final(self)@ == apply_text(old(self)@, text@),
    {
        let ghost before = self@;
        let all = lines_of(text);
        let ghost seqs = lines(text@);
        assert(seqs.skip(0) =~= seqs);
        for i in 0..all.len()
            invariant
                all.len() == seqs.len(),
                forall|k: int| 0 <= k < all.len() ==> (#[trigger] all@[k])@ == seqs[k],
                apply_lines(self@, seqs.skip(i as int)) == apply_lines(before, seqs),
        {
            let ghost now = self@;
            let line = trim_str(all[i]);
            proof {
                assert(seqs.skip(i as int)[0] == seqs[i as int]);
                assert(seqs.skip(i as int).drop_first() =~= seqs.skip(i + 1));
            }
            if !line.is_empty() && line.get_char(0) != '#' {
                if let Some((key, value)) = split_once(line, '=') {
                    self.apply_one(trim_str(key), trim_str(value));
                }
            }
            assert(self@ == apply_line(now, seqs[i as int]));
        }
        assert(seqs.skip(seqs.len() as int) =~= Seq::<Seq<char>>::empty());
    }

    /// The shortcuts that apply: the configured ones, or the defaults where none
    /// is configured.
    pub fn effective_keybinds(&self) -> (r: Vec<Keybind>)
        ensures
            keybind_views(r@) == if self@.keybinds.len() == 0 {
                default_keybinds()
            } else {
                self@.keybinds
            },
    {
        if self.keybinds.len() == 0 {
            defaults()
        } else {
            copy_keybinds(&self.keybinds)
        }
    }

    /// Whether the panel shows the keyboard-layout switcher: two or more layouts
    /// are listed.
    pub fn layout_switcher(&self) -> (r: bool)
        ensures
            r == (self@.keyboard_layouts.len() >= 2),
    {
        self.keyboard_layouts.len() >= 2
    }

    /// The text of the settings file. `panel_size` is the panel's thickness cut
    /// to whole pixels.
    pub fn to_text(&self, panel_size: i32) -> (r: String)
        ensures
            r@ == config_text(self@, panel_size as int),
    {
        let ghost fixed = fixed_lines(self@, panel_size as int);
        let ghost binds = bind_lines(self@.keybinds);
        let ghost layouts = layout_lines(self@.keyboard_layouts);
        let mut out = "# s-compositor settings\n".to_string();
        proof {
            reveal_strlit("# s-compositor settings\n");
            reveal_strlit("# s-compositor settings");
            assert(out@ =~= Seq::<char>::empty() + fixed[0].push('\n'));
            lemma_join_next(fixed, 0);
        }
        let scheme = if self.dark {
            "dark"
        } else {
            "light"
        };
        push_setting(&mut out, "scheme", scheme);
        proof {
            lemma_join_next(fixed, 1);
        }
        let mut accent = "#".to_string();
        accent.append(zero_pad(hexadecimal_of(self.accent as u64).as_str(), 6).as_str());
        proof {
            reveal_strlit("#");
            assert("#"@ =~= seq!['#']);
        }
        push_setting(&mut out, "accent", accent.as_str());
        proof {
            lemma_join_next(fixed, 2);
        }
        push_setting(&mut out, "panel_edge", signed_decimal_of(self.panel_edge as i64).as_str());
        proof {
            lemma_join_next(fixed, 3);
        }
        push_setting(&mut out, "panel_size", signed_decimal_of(panel_size as i64).as_str());
        proof {
            lemma_join_next(fixed, 4);
        }
        match &self.background {
            Some(b) => push_setting(&mut out, "background", b.as_str()),
            None => {
                push_setting(&mut out, "background", "");
                proof {
                    reveal_strlit("");
                    assert(""@ =~= Seq::<char>::empty());
                }
            },
        }
        proof {
            lemma_join_next(fixed, 5);
            assert(fixed.take(6) =~= fixed);
            assert(fixed + binds.take(0) =~= fixed);
        }
        for i in 0..self.keybinds.len()
            invariant
                binds == bind_lines(keybind_views(self.keybinds@)),
                out@ == join_lines(fixed + binds.take(i as int)),
        {
            push_setting(&mut out, "bind", self.keybinds[i].to_config_string().as_str());
            proof {
                assert(binds[i as int] == setting_line(
                    "bind"@,
                    keybind_text(keybind_views(self.keybinds@)[i as int]),
                ));
                assert(fixed + binds.take(i + 1) =~= (fixed + binds.take(i as int)).push(
                    binds[i as int],
                ));
                lemma_join_push(fixed + binds.take(i as int), binds[i as int]);
            }
        }
        assert(binds.take(binds.len() as int) =~= binds);
        if self.keyboard_layouts.len() > 0 {
            push_setting(&mut out, "keyboard_layouts", join_commas(&self.keyboard_layouts).as_str());
            proof {
                let line = setting_line("keyboard_layouts"@, comma_list(self@.keyboard_layouts));
                assert(fixed + binds + layouts =~= (fixed + binds).push(line));
                lemma_join_push(fixed + binds, line);
            }
        } else {
            assert(fixed + binds + layouts =~= fixed + binds);
        }
        out
    }
}

/// The same bindings.
fn copy_keybinds(binds: &Vec<Keybind>) -> (r: Vec<Keybind>)
    ensures
        keybind_views(r@) == keybind_views(binds@),
{
    let mut out: Vec<Keybind> = Vec::new();
    for i in 0..binds.len()
        invariant
            keybind_views(out@) =~= keybind_views(binds@).take(i as int),
    {
        let ghost before = keybind_views(out@);
        let b = binds[i].clone();
        out.push(b);
        proof {
            assert(keybind_views(out@) =~= before.push(b@));
            assert(keybind_views(binds@).take(i + 1) =~= keybind_views(binds@).take(i as int).push(
                binds@[i as int]@,
            ));
        }
    }
    assert(keybind_views(out@) =~= keybind_views(binds@));
    out
}

/// The same texts.
fn copy_texts(texts: &Vec<String>) -> (r: Vec<String>)
    ensures
        views(r@) == views(texts@),
{
    let mut out: Vec<String> = Vec::new();
    for i in 0..texts.len()
        invariant
            views(out@) =~= views(texts@).take(i as int),
    {
        let ghost before = views(out@);
        let t = texts[i].clone();
        out.push(t);
        proof {
            assert(views(out@) =~= before.push(t@));
            assert(views(texts@).take(i + 1) =~= views(texts@).take(i as int).push(
                texts@[i as int]@,
            ));
        }
    }
    assert(views(out@) =~= views(texts@));
    out
}

impl Clone for Config {
    fn clone(&self) -> (r: Self)
        ensures
            r@ == self@,
    {
        let background = match &self.background {
            Some(b) => Some(b.clone()),
            None => None,
        };
        let r = Config {
            dark: self.dark,
            accent: self.accent,
            panel_edge: self.panel_edge,
            panel_size: self.panel_size.clone(),
            background,
            keybinds: copy_keybinds(&self.keybinds),
            keyboard_layouts: copy_texts(&self.keyboard_layouts),
        };
        assert(r@ =~= self@);
        r
    }
}

/// Append the line of one setting.
fn push_setting(out: &mut String, key: &str, value: &str)
    ensures
        final(out)@ == old(out)@ + setting_line(key@, value@).push('\n'),
{
    let ghost before = out@;
    out.append(key);
    out.append(" = ");
    out.append(value);
    out.push('\n');
    assert(out@ =~= before + setting_line(key@, value@).push('\n'));
}

/// The items with a comma between each two.
fn join_commas(items: &Vec<String>) -> (r: String)
    ensures
        r@ == comma_list(views(items@)),
{
    let ghost all = views(items@);
    let mut out = String::new();
    assert(all.skip(0) =~= all);
    assert(out@ + comma_list(all) =~= comma_list(all));
    for i in 0..items.len()
        invariant
            all == views(items@),
            out@ + comma_list(all.skip(i as int)) == comma_list(all),
    {
        let ghost before = out@;
        out.append(items[i].as_str());
        proof {
            assert(all.skip(i as int)[0] == all[i as int]);
            assert(all.skip(i as int).drop_first() =~= all.skip(i + 1));
        }
        if i + 1 < items.len() {
            out.push(',');
            proof {
                let rest = comma_list(all.skip(i + 1));
                assert(out@ + rest =~= before + (all[i as int].push(',') + rest));
            }
        } else {
            assert(comma_list(all.skip(i + 1)) =~= seq![]);
            assert(out@ + comma_list(all.skip(i + 1)) =~= before + all[i as int]);
        }
    }
    assert(out@ + comma_list(all.skip(all.len() as int)) =~= out@);
    out
}

/// Joining one more line appends it and its line feed.
proof fn lemma_join_push(all: Seq<Seq<char>>, line: Seq<char>)
    ensures
        join_lines(all.push(line)) == join_lines(all) + line.push('\n'),
    decreases all.len(),
{
    let more = all.push(line);
    if all.len() == 0 {
        assert(more.drop_first() =~= Seq::<Seq<char>>::empty());
        reveal_with_fuel(join_lines, 2);
        assert(join_lines(more) =~= line.push('\n'));
        assert(join_lines(all) + line.push('\n') =~= line.push('\n'));
    } else {
        assert(more.drop_first() =~= all.drop_first().push(line));
        lemma_join_push(all.drop_first(), line);
        assert(join_lines(more) =~= all[0].push('\n') + (join_lines(all.drop_first())
            + line.push('\n')));
        assert(join_lines(more) =~= join_lines(all) + line.push('\n'));
    }
}

/// Joining the first `n + 1` lines continues the first `n`.
proof fn lemma_join_next(all: Seq<Seq<char>>, n: int)
    requires
        0 <= n < all.len(),
    ensures
        join_lines(all.take(n + 1)) == join_lines(all.take(n)) + all[n].push('\n'),
        join_lines(all.take(0)) == Seq::<char>::empty(),
{
    assert(all.take(n + 1) =~= all.take(n).push(all[n]));
    lemma_join_push(all.take(n), all[n]);
}

// ---------------------------------------------------------------------------
// Writing settings and reading them back

/// A line that stays one line when it is written.
spec fn one_line(line: Seq<char>) -> bool {
    !line.contains('\n') && (line.len() > 0 ==> line.last() != '\r')
}

/// Reading joined lines applies them one by one.
proof fn lemma_apply_joined(c: ConfigView, all: Seq<Seq<char>>)
    requires
        forall|i: int| 0 <= i < all.len() ==> one_line(#[trigger] all[i]),
    ensures
        apply_text(c, join_lines(all)) == apply_lines(c, all),
    decreases all.len(),
{
    if all.len() > 0 {
        let rest = all.drop_first();
        assert(one_line(all[0]));
        assert forall|i: int| 0 <= i < rest.len() implies one_line(#[trigger] rest[i]) by {
            assert(rest[i] == all[i + 1]);
        }
        lemma_lines_first(all[0], join_lines(rest));
        let read = lines(join_lines(all));
        assert(read.drop_first() =~= lines(join_lines(rest)));
        assert(read[0] == all[0]);
        lemma_apply_joined(apply_line(c, all[0]), rest);
    }
}

/// Lines can be applied in two portions.
proof fn lemma_apply_concat(c: ConfigView, a: Seq<Seq<char>>, b: Seq<Seq<char>>)
    ensures
        apply_lines(c, a + b) == apply_lines(apply_lines(c, a), b),
    decreases a.len(),
{
    if a.len() == 0 {
        assert(a + b =~= b);
    } else {
        assert((a + b).drop_first() =~= a.drop_first() + b);
        lemma_apply_concat(apply_line(c, a[0]), a.drop_first(), b);
    }
}

/// A key that stands at the start of a line as it is.
spec fn plain_setting(key: Seq<char>) -> bool {
    key.len() > 0 && trimmed(key) && !key.contains('=') && key[0] != '#' && !key.contains('\n')
}

/// The line of a setting applies that setting.
proof fn lemma_setting_line(c: ConfigView, key: Seq<char>, value: Seq<char>)
    requires
        plain_setting(key),
        trimmed(value),
        !value.contains('\n'),
    ensures
        apply_line(c, setting_line(key, value)) == apply_setting(c, key, value),
        one_line(setting_line(key, value)),
{
    reveal_strlit(" = ");
    let line = setting_line(key, value);
    let spaced = key.push(' ');
    assert(!spaced.contains('=')) by {
        if spaced.contains('=') {
            let i = choose|i: int| 0 <= i < spaced.len() && spaced[i] == '=';
            assert(key[i] == '=');
        }
    }
    assert(line[0] == key[0]);
    lemma_trim_space_after(key, ' ');
    lemma_trim_trimmed(key);
    if value.len() > 0 {
        assert(line.last() == value.last());
        lemma_trim_trimmed(line);
        assert(line =~= spaced.push('=') + (seq![' '] + value));
        lemma_cut_at(spaced, '=', seq![' '] + value);
        lemma_trim_space_before(' ', value);
        lemma_trim_trimmed(value);
    } else {
        let bare = spaced.push('=');
        assert(bare[0] == key[0]);
        lemma_trim_trimmed(bare);
        assert(line =~= bare.push(' '));
        lemma_trim_space_after(bare, ' ');
        assert(bare =~= spaced.push('=') + value);
        lemma_cut_at(spaced, '=', value);
        lemma_trim_trimmed(value);
        assert(line.last() == ' ');
    }
    assert(!line.contains('\n')) by {
        if line.contains('\n') {
            let i = choose|i: int| 0 <= i < line.len() && line[i] == '\n';
            if i < key.len() {
                assert(key[i] == '\n');
            } else if i < key.len() + 3 {
                assert(line[i] == " = "@[i - key.len()]);
            } else {
                assert(value[i - key.len() - 3] == '\n');
            }
        }
    }
}

/// The names of the settings differ and are plain.
proof fn lemma_setting_names()
    ensures
        plain_setting("scheme"@),
        plain_setting("accent"@),
        plain_setting("panel_edge"@),
        plain_setting("panel_size"@),
        plain_setting("background"@),
        plain_setting("bind"@),
        plain_setting("keyboard_layouts"@),
        "scheme"@.len() == 6,
        "accent"@.len() == 6,
        "panel_edge"@.len() == 10,
        "panel_size"@.len() == 10,
        "background"@.len() == 10,
        "bind"@.len() == 4,
        "keyboard_layouts"@.len() == 16,
        "scheme"@[0] == 's',
        "accent"@[0] == 'a',
        "panel_edge"@[6] == 'e',
        "panel_size"@[6] == 's',
        "background"@[6] == 'o',
{
    reveal_strlit("scheme");
    reveal_strlit("accent");
    reveal_strlit("panel_edge");
    reveal_strlit("panel_size");
    reveal_strlit("background");
    reveal_strlit("bind");
    reveal_strlit("keyboard_layouts");
}

/// Digits hold no white space and no line feed.
proof fn lemma_digits_plain(s: Seq<char>)
    requires
        s.len() > 0,
        all_digits(s, 16),
    ensures
        trimmed(s),
        !s.contains('\n'),
        s[0] != '#',
        s[0] != '+',
{
    assert(digit_value(s[0], 16) is Some);
    assert(digit_value(s.last(), 16) is Some);
    if s.contains('\n') {
        let i = choose|i: int| 0 <= i < s.len() && s[i] == '\n';
        assert(digit_value(s[i], 16) is Some);
    }
}

/// The text of a colour is read back as the colour.
proof fn lemma_accent_round_trip(accent: u32)
    ensures
        ({
            let text = seq!['#'] + zero_padded(hexadecimal(accent as nat), 6);
            &&& read_unsigned(without_hashes(text), 16, u32::MAX as int) == Some(accent as int)
            &&& trimmed(text)
            &&& !text.contains('\n')
        }),
{
    let digits = zero_padded(hexadecimal(accent as nat), 6);
    let text = seq!['#'] + digits;
    lemma_hexadecimal_reads_back(accent as nat);
    lemma_padding_reads_back(hexadecimal(accent as nat), 6, 16);
    lemma_digits_plain(digits);
    assert(text.drop_first() =~= digits);
    assert(without_hashes(digits) == digits);
    assert(without_hashes(text) == digits);
    assert(text.last() == digits.last());
    if text.contains('\n') {
        let i = choose|i: int| 0 <= i < text.len() && text[i] == '\n';
        assert(digits[i - 1] == '\n');
    }
}

/// A whole number is a floating-point text of one line.
proof fn lemma_signed_text(n: int)
    ensures
        float_text(signed_decimal(n)),
        trimmed(signed_decimal(n)),
        !signed_decimal(n).contains('\n'),
{
    let m = if n < 0 {
        (-n) as nat
    } else {
        n as nat
    };
    let digits = decimal(m);
    let text = signed_decimal(n);
    lemma_decimal_reads_back(m);
    lemma_leading_digits_at(digits, digits.len() as int);
    assert(digits.skip(digits.len() as int) =~= seq![]);
    assert(number_text(digits));
    if n < 0 {
        assert(text.drop_first() =~= digits);
    }
    assert(without_sign(text) == digits);
    assert(text.last() == digits.last());
    if text.contains('\n') {
        let i = choose|i: int| 0 <= i < text.len() && text[i] == '\n';
        if n < 0 {
            assert(digits[i - 1] == '\n');
        }
    }
}

/// An item of a list that is read back as it is.
pub open spec fn plain_item(s: Seq<char>) -> bool {
    s.len() > 0 && trimmed(s) && !s.contains(',') && !s.contains('\n')
}

/// A comma-separated list is split into its items.
proof fn lemma_comma_split(items: Seq<Seq<char>>)
    requires
        items.len() > 0,
        forall|i: int| 0 <= i < items.len() ==> plain_item(#[trigger] items[i]),
    ensures
        split(comma_list(items), ',') == items,
        comma_list(items).len() > 0,
        trimmed(comma_list(items)),
        !comma_list(items).contains('\n'),
    decreases items.len(),
{
    assert(plain_item(items[0]));
    if items.len() == 1 {
        lemma_split_none(items[0], ',');
        assert(seq![items[0]] =~= items);
    } else {
        let rest = items.drop_first();
        assert forall|i: int| 0 <= i < rest.len() implies plain_item(#[trigger] rest[i]) by {
            assert(rest[i] == items[i + 1]);
        }
        lemma_comma_split(rest);
        let tail = comma_list(rest);
        lemma_split_first(items[0], ',', tail);
        assert(seq![items[0]] + rest =~= items);
        let text = comma_list(items);
        assert(text[0] == items[0][0]);
        assert(text.last() == tail.last());
        if text.contains('\n') {
            let i = choose|i: int| 0 <= i < text.len() && text[i] == '\n';
            if i < items[0].len() {
                assert(items[0][i] == '\n');
            } else if i > items[0].len() {
                assert(tail[i - items[0].len() - 1] == '\n');
            }
        }
    }
}

/// Items without white space around them are kept as they are.
proof fn lemma_list_items(items: Seq<Seq<char>>)
    requires
        forall|i: int| 0 <= i < items.len() ==> plain_item(#[trigger] items[i]),
    ensures
        list_items(items) == items,
    decreases items.len(),
{
    if items.len() > 0 {
        assert(plain_item(items.last()));
        lemma_trim_trimmed(items.last());
        assert forall|i: int| 0 <= i < items.drop_last().len() implies plain_item(
            #[trigger] items.drop_last()[i],
        ) by {
            assert(items.drop_last()[i] == items[i]);
        }
        lemma_list_items(items.drop_last());
        assert(items.drop_last().push(items.last()) =~= items);
    }
}

/// Settings that the file can hold: the colour has no alpha, and no text has
/// line feeds or white space at its ends.
pub open spec fn storable(c: ConfigView) -> bool {
    &&& c.accent < 0x100_0000
    &&& c.background matches Some(b) ==> b.len() > 0 && trimmed(b) && !b.contains('\n')
    &&& forall|i: int|
        0 <= i < c.keybinds.len() ==> canonical(#[trigger] c.keybinds[i]) && !keybind_text(
            c.keybinds[i],
        ).contains('\n')
    &&& forall|i: int|
        0 <= i < c.keyboard_layouts.len() ==> plain_item(#[trigger] c.keyboard_layouts[i])
}

/// The first line is a comment.
proof fn lemma_comment_line(c: ConfigView)
    ensures
        apply_line(c, "# s-compositor settings"@) == c,
        one_line("# s-compositor settings"@),
{
    reveal_strlit("# s-compositor settings");
    lemma_trim_trimmed("# s-compositor settings"@);
}

/// The line of the scheme is read back.
proof fn lemma_scheme_line(c: ConfigView, dark: bool)
    ensures
        ({
            let line = setting_line(
                "scheme"@,
                if dark {
                    "dark"@
                } else {
                    "light"@
                },
            );
            apply_line(c, line) == (ConfigView { dark, ..c }) && one_line(line)
        }),
{
    let scheme = if dark {
        "dark"@
    } else {
        "light"@
    };
    reveal_strlit("dark");
    reveal_strlit("light");
    assert("light"@.len() != "dark"@.len());
    lemma_setting_names();
    lemma_setting_line(c, "scheme"@, scheme);
}

/// The line of the accent colour is read back.
proof fn lemma_accent_line(c: ConfigView, accent: u32)
    requires
        accent < 0x100_0000,
    ensures
        ({
            let line = setting_line(
                "accent"@,
                seq!['#'] + zero_padded(hexadecimal(accent as nat), 6),
            );
            apply_line(c, line) == (ConfigView { accent, ..c }) && one_line(line)
        }),
{
    lemma_setting_names();
    lemma_accent_round_trip(accent);
    lemma_setting_line(
        c,
        "accent"@,
        seq!['#'] + zero_padded(hexadecimal(accent as nat), 6),
    );
}

/// The line of the panel's edge is read back.
proof fn lemma_edge_line(c: ConfigView, panel_edge: i32)
    ensures
        ({
            let line = setting_line("panel_edge"@, signed_decimal(panel_edge as int));
            apply_line(c, line) == (ConfigView { panel_edge, ..c }) && one_line(line)
        }),
{
    lemma_setting_names();
    lemma_signed_round_trip(panel_edge as int);
    lemma_signed_text(panel_edge as int);
    lemma_setting_line(c, "panel_edge"@, signed_decimal(panel_edge as int));
}

/// The line of the panel's thickness is read back.
proof fn lemma_size_line(c: ConfigView, panel_size: int)
    ensures
        ({
            let line = setting_line("panel_size"@, signed_decimal(panel_size));
            &&& apply_line(c, line) == (ConfigView {
                panel_size: signed_decimal(panel_size),
                ..c
            })
            &&& one_line(line)
        }),
{
    lemma_setting_names();
    lemma_signed_text(panel_size);
    lemma_setting_line(c, "panel_size"@, signed_decimal(panel_size));
}

/// The line of the background is read back.
proof fn lemma_background_line(c: ConfigView, background: Option<Seq<char>>)
    requires
        background matches Some(b) ==> b.len() > 0 && trimmed(b) && !b.contains('\n'),
    ensures
        ({
            let line = setting_line(
                "background"@,
                match background {
                    Some(b) => b,
                    None => seq![],
                },
            );
            apply_line(c, line) == (ConfigView { background, ..c }) && one_line(line)
        }),
{
    let value = match background {
        Some(b) => b,
        None => seq![],
    };
    lemma_setting_names();
    lemma_setting_line(c, "background"@, value);
}

/// The fixed lines are read back.
proof fn lemma_fixed_lines(start: ConfigView, c: ConfigView, panel_size: int)
    requires
        storable(c),
        c.panel_size == signed_decimal(panel_size),
    ensures
        apply_lines(start, fixed_lines(c, panel_size)) == (ConfigView {
            keybinds: start.keybinds,
            keyboard_layouts: start.keyboard_layouts,
            ..c
        }),
        forall|i: int|
            0 <= i < fixed_lines(c, panel_size).len() ==> one_line(
                #[trigger] fixed_lines(c, panel_size)[i],
            ),
{
    let fixed = fixed_lines(c, panel_size);
    lemma_comment_line(start);
    lemma_scheme_line(start, c.dark);
    let c1 = ConfigView { dark: c.dark, ..start };
    lemma_accent_line(c1, c.accent);
    let c2 = ConfigView { accent: c.accent, ..c1 };
    lemma_edge_line(c2, c.panel_edge);
    let c3 = ConfigView { panel_edge: c.panel_edge, ..c2 };
    lemma_size_line(c3, panel_size);
    let c4 = ConfigView { panel_size: c.panel_size, ..c3 };
    lemma_background_line(c4, c.background);
    let c5 = ConfigView { background: c.background, ..c4 };
    let f1 = fixed.drop_first();
    let f2 = f1.drop_first();
    let f3 = f2.drop_first();
    let f4 = f3.drop_first();
    let f5 = f4.drop_first();
    assert(f1[0] == fixed[1] && f2[0] == fixed[2] && f3[0] == fixed[3]);
    assert(f4[0] == fixed[4] && f5[0] == fixed[5] && f5.drop_first().len() == 0);
    assert(apply_lines(c5, f5.drop_first()) == c5);
    assert(apply_lines(c4, f5) == c5);
    assert(apply_lines(c3, f4) == c5);
    assert(apply_lines(c2, f3) == c5);
    assert(apply_lines(c1, f2) == c5);
    assert(apply_lines(start, f1) == c5);
    assert(apply_lines(start, fixed) == c5);
}

/// The lines of the shortcuts are read back.
proof fn lemma_bind_lines(start: ConfigView, binds: Seq<KeybindView>)
    requires
        forall|i: int|
            0 <= i < binds.len() ==> canonical(#[trigger] binds[i]) && !keybind_text(
                binds[i],
            ).contains('\n'),
    ensures
        apply_lines(start, bind_lines(binds)) == (ConfigView {
            keybinds: start.keybinds + binds,
            ..start
        }),
        forall|i: int|
            0 <= i < bind_lines(binds).len() ==> one_line(#[trigger] bind_lines(binds)[i]),
    decreases binds.len(),
{
    if binds.len() == 0 {
        assert(start.keybinds + binds =~= start.keybinds);
    } else {
        let b = binds[0];
        let rest = binds.drop_first();
        assert(canonical(b));
        lemma_setting_names();
        lemma_keybind_text_trimmed(b);
        lemma_keybind_text_round_trip(b);
        lemma_setting_line(start, "bind"@, keybind_text(b));
        assert forall|i: int| 0 <= i < rest.len() implies canonical(#[trigger] rest[i])
            && !keybind_text(rest[i]).contains('\n') by {
            assert(rest[i] == binds[i + 1]);
        }
        let next = ConfigView { keybinds: start.keybinds.push(b), ..start };
        lemma_bind_lines(next, rest);
        assert(bind_lines(binds).drop_first() =~= bind_lines(rest));
        assert(next.keybinds + rest =~= start.keybinds + binds);
        assert forall|i: int| 0 <= i < binds.len() implies one_line(
            #[trigger] bind_lines(binds)[i],
        ) by {
            if i > 0 {
                assert(bind_lines(binds)[i] == bind_lines(rest)[i - 1]);
            }
        }
    }
}

/// Settings round-trip through the file: reading the text that
/// [`Config::to_text`] writes gives back the same settings, whatever they were
/// before. Shortcuts are added to those that were there, and the layouts stay as
/// they were where none are written; so settings without shortcuts and layouts,
/// as the defaults are, become those that were written.
pub proof fn law_config_round_trip(start: ConfigView, c: ConfigView, panel_size: int)
    requires
        storable(c),
        c.panel_size == signed_decimal(panel_size),
    ensures
        apply_text(start, config_text(c, panel_size)) == (ConfigView {
            keybinds: start.keybinds + c.keybinds,
            keyboard_layouts: if c.keyboard_layouts.len() > 0 {
                c.keyboard_layouts
            } else {
                start.keyboard_layouts
            },
            ..c
        }),
        start.keybinds.len() == 0 && start.keyboard_layouts.len() == 0 ==> apply_text(
            start,
            config_text(c, panel_size),
        ) == c,
{
    let goal = ConfigView {
        keybinds: start.keybinds + c.keybinds,
        keyboard_layouts: if c.keyboard_layouts.len() > 0 {
            c.keyboard_layouts
        } else {
            start.keyboard_layouts
        },
        ..c
    };
    let fixed = fixed_lines(c, panel_size);
    let binds = bind_lines(c.keybinds);
    let layouts = layout_lines(c.keyboard_layouts);
    lemma_fixed_lines(start, c, panel_size);
    let c1 = apply_lines(start, fixed);
    lemma_bind_lines(c1, c.keybinds);
    let c2 = apply_lines(c1, binds);
    lemma_apply_concat(start, fixed, binds);
    lemma_apply_concat(start, fixed + binds, layouts);
    let list = comma_list(c.keyboard_layouts);
    if c.keyboard_layouts.len() > 0 {
        lemma_setting_names();
        lemma_comma_split(c.keyboard_layouts);
        lemma_list_items(c.keyboard_layouts);
        lemma_setting_line(c2, "keyboard_layouts"@, list);
        reveal_with_fuel(apply_lines, 2);
        assert(layouts.drop_first().len() == 0);
    }
    assert(apply_lines(c2, layouts) =~= goal);
    let all = config_lines(c, panel_size);
    assert forall|i: int| 0 <= i < all.len() implies one_line(#[trigger] all[i]) by {
        if i < fixed.len() {
            assert(all[i] == fixed[i]);
        } else if i < fixed.len() + binds.len() {
            assert(all[i] == binds[i - fixed.len()]);
        } else {
            assert(all[i] == layouts[i - fixed.len() - binds.len()]);
        }
    }
    lemma_apply_joined(start, all);
    if start.keybinds.len() == 0 && start.keyboard_layouts.len() == 0 {
        assert(goal =~= c);
    }
}

/// A blank line, a comment and a line without `=` leave the settings alone.
pub proof fn law_other_lines_change_nothing(c: ConfigView, line: Seq<char>)
    requires
        trim(line).len() == 0 || trim(line)[0] == '#' || !trim(line).contains('='),
    ensures
        apply_line(c, line) == c,
{
    lemma_find(trim(line), '=');
}

/// What the settings stand for: any scheme but `light` is dark, a colour is the
/// hexadecimal number behind its `#`s without what is above 24 bits, an empty
/// background is none, and layouts are listed with commas. A value that cannot be
/// read, and a key that is not known, change nothing; no key changes anything but
/// its own setting.
pub proof fn law_settings_are_what_they_say(c: ConfigView, value: Seq<char>, key: Seq<char>)
    ensures
        apply_setting(c, "scheme"@, value) == (ConfigView { dark: !(value == "light"@), ..c }),
        ({
            let after = apply_setting(c, "accent"@, value);
            &&& after == (ConfigView { accent: after.accent, ..c })
            &&& read_unsigned(without_hashes(value), 16, u32::MAX as int) matches Some(n)
                ==> after.accent == n % 0x100_0000
            &&& read_unsigned(without_hashes(value), 16, u32::MAX as int) is None ==> after == c
        }),
        ({
            let after = apply_setting(c, "panel_edge"@, value);
            &&& after == (ConfigView { panel_edge: after.panel_edge, ..c })
            &&& read_i32(value) matches Some(n) ==> after.panel_edge == n
            &&& read_i32(value) is None ==> after == c
        }),
        float_text(value) ==> apply_setting(c, "panel_size"@, value) == (ConfigView {
            panel_size: value,
            ..c
        }),
        !float_text(value) ==> apply_setting(c, "panel_size"@, value) == c,
        apply_setting(c, "background"@, value) == (ConfigView {
            background: if value.len() == 0 {
                None
            } else {
                Some(value)
            },
            ..c
        }),
        read_keybind(value) matches Some(b) ==> apply_setting(c, "bind"@, value) == (ConfigView {
            keybinds: c.keybinds.push(b),
            ..c
        }),
        read_keybind(value) is None ==> apply_setting(c, "bind"@, value) == c,
        apply_setting(c, "keyboard_layouts"@, value) == (ConfigView {
            keyboard_layouts: list_items(split(value, ',')),
            ..c
        }),
        key != "scheme"@ && key != "accent"@ && key != "panel_edge"@ && key != "panel_size"@ && key
            != "background"@ && key != "bind"@ && key != "keyboard_layouts"@ ==> apply_setting(
            c,
            key,
            value,
        ) == c,
{
    lemma_setting_names();
    if let Some(n) = read_i32(value) {
        assert(i32::MIN <= n <= i32::MAX);
    }
}

/// The defaults: dark, a blue accent, the panel on the right edge and 72 pixels
/// thick, no background and nothing else.
pub proof fn law_the_defaults()
    ensures
        ({
            let c = default_config();
            &&& c.dark && c.accent == 0x89b4fa && c.panel_edge == 0 && c.panel_size == "72"@
            &&& c.background is None && c.keybinds.len() == 0 && c.keyboard_layouts.len() == 0
        }),
{
}

/// A line gives a setting the value behind its first `=`, with white space around
/// either left out.
pub proof fn law_lines_set_their_key(c: ConfigView, key: Seq<char>, value: Seq<char>)
    requires
        key.len() > 0,
        trimmed(key),
        key[0] != '#',
        !key.contains('='),
        trimmed(value),
        value.len() > 0,
    ensures
        apply_line(c, key.push('=') + value) == apply_setting(c, key, value),
{
    let line = key.push('=') + value;
    assert(line[0] == key[0]);
    assert(line.last() == value.last());
    lemma_trim_trimmed(line);
    lemma_cut_at(key, '=', value);
    lemma_trim_trimmed(key);
    lemma_trim_trimmed(value);
}

/// A whole number, with a sign or without, with a fraction or without, stands for a
/// floating-point number; a text without a digit that is not an infinity or not a
/// number does not.
pub proof fn law_floating_point_texts(digits: Seq<char>, more: Seq<char>)
    requires
        digits.len() > 0,
        more.len() > 0,
        forall|i: int| 0 <= i < digits.len() ==> '0' <= #[trigger] digits[i] <= '9',
        forall|i: int| 0 <= i < more.len() ==> '0' <= #[trigger] more[i] <= '9',
    ensures
        float_text(digits),
        float_text(seq!['-'] + digits) && float_text(seq!['+'] + digits),
        float_text(digits.push('.') + more),
        float_text(digits.push('e') + more) && float_text(digits.push('E') + more),
        !float_text(seq![]),
{
    let n = digits.len() as int;
    lemma_leading_digits_at(digits, n);
    lemma_leading_digits_at(more, more.len() as int);
    assert(digits[0] != '-' && digits[0] != '+');
    assert(digits.skip(n) =~= seq![]);
    assert(number_text(digits));
    assert((seq!['-'] + digits).drop_first() =~= digits);
    assert((seq!['+'] + digits).drop_first() =~= digits);
    assert(without_sign(more) == more) by {
        assert('0' <= more[0] <= '9');
    }
    let point = digits.push('.') + more;
    assert forall|i: int| 0 <= i < n implies '0' <= #[trigger] point[i] <= '9' by {
        assert(point[i] == digits[i]);
    }
    assert(point[n] == '.');
    lemma_leading_digits_at(point, n);
    assert(point.skip(n).drop_first() =~= more);
    assert(more.skip(more.len() as int) =~= seq![]);
    assert(point[0] == digits[0]);
    assert(number_text(point));
    let small = digits.push('e') + more;
    assert forall|i: int| 0 <= i < n implies '0' <= #[trigger] small[i] <= '9' by {
        assert(small[i] == digits[i]);
    }
    assert(small[n] == 'e');
    lemma_leading_digits_at(small, n);
    assert(small.skip(n)[0] == 'e');
    assert(small.skip(n).drop_first() =~= more);
    assert(small[0] == digits[0]);
    assert(number_text(small));
    let large = digits.push('E') + more;
    assert forall|i: int| 0 <= i < n implies '0' <= #[trigger] large[i] <= '9' by {
        assert(large[i] == digits[i]);
    }
    assert(large[n] == 'E');
    lemma_leading_digits_at(large, n);
    assert(large.skip(n)[0] == 'E');
    assert(large.skip(n).drop_first() =~= more);
    assert(large[0] == digits[0]);
    assert(number_text(large));
    let none = Seq::<char>::empty();
    assert(leading_digits(none) == 0);
    assert(none.skip(0) =~= none);
    reveal_strlit("inf");
    reveal_strlit("infinity");
    reveal_strlit("nan");
    assert(lower(none).len() == 0);
    assert(seq![] =~= none);
}

} // verus!
