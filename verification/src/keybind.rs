//! Configurable global keyboard shortcuts.
//!
//! Bindings are stored in the config file as `bind = <combo> = <action>`, e.g.
//! `bind = Super+Return = spawn:alacritty`. Modifiers are `Super`/`Ctrl`/`Alt`/
//! `Shift`; the key is a letter, digit or a name (`Return`, `Space`, `Tab`,
//! `Escape`, `Minus`, `Equal`, `Comma`, `Period`, `Plus`, `Left`, `Right`,
//! `Up`, `Down`).

use vstd::prelude::*;

use crate::text::chars::{
    after_prefix, ascii_lower, cut, lemma_cut_at, lemma_find, lemma_split_first, lemma_split_none,
    lemma_split_pieces, lemma_trim_is_trimmed, lemma_trim_space_after, lemma_trim_space_before,
    lemma_trim_trimmed, lower, lowered, same, split, split_once, split_str, strip_prefix, trim,
    trim_str, trimmed,
};
use crate::text::number::{
    decimal, decimal_of, lemma_decimal_reads_back, lemma_unsigned_round_trip, parse_u32,
    read_unsigned,
};

verus! {

/// What a shortcut does.
#[derive(Debug, PartialEq)]
pub enum Action {
    Spawn(String),
    StartMenu,
    Launcher,
    Settings,
    QuickSettings,
    Lock,
    Logout,
    CloseWindow,
    NextWindow,
    PrevWindow,
    /// Counted from 1.
    Workspace(u32),
    /// Counted from 1.
    MoveToWorkspace(u32),
    WorkspaceNext,
    WorkspacePrev,
    VolumeUp,
    VolumeDown,
    VolumeMute,
    SnapLeft,
    SnapRight,
    SnapUp,
    SnapDown,
    Maximize,
    Screenshot,
}

/// An [`Action`] as a mathematical value.
pub enum ActionView {
    Spawn(Seq<char>),
    StartMenu,
    Launcher,
    Settings,
    QuickSettings,
    Lock,
    Logout,
    CloseWindow,
    NextWindow,
    PrevWindow,
    Workspace(u32),
    MoveToWorkspace(u32),
    WorkspaceNext,
    WorkspacePrev,
    VolumeUp,
    VolumeDown,
    VolumeMute,
    SnapLeft,
    SnapRight,
    SnapUp,
    SnapDown,
    Maximize,
    Screenshot,
}

impl View for Action {
    type V = ActionView;

    open spec fn view(&self) -> ActionView {
        match self {
            Action::Spawn(cmd) => ActionView::Spawn(cmd@),
            Action::StartMenu => ActionView::StartMenu,
            Action::Launcher => ActionView::Launcher,
            Action::Settings => ActionView::Settings,
            Action::QuickSettings => ActionView::QuickSettings,
            Action::Lock => ActionView::Lock,
            Action::Logout => ActionView::Logout,
            Action::CloseWindow => ActionView::CloseWindow,
            Action::NextWindow => ActionView::NextWindow,
            Action::PrevWindow => ActionView::PrevWindow,
            Action::Workspace(n) => ActionView::Workspace(*n),
            Action::MoveToWorkspace(n) => ActionView::MoveToWorkspace(*n),
            Action::WorkspaceNext => ActionView::WorkspaceNext,
            Action::WorkspacePrev => ActionView::WorkspacePrev,
            Action::VolumeUp => ActionView::VolumeUp,
            Action::VolumeDown => ActionView::VolumeDown,
            Action::VolumeMute => ActionView::VolumeMute,
            Action::SnapLeft => ActionView::SnapLeft,
            Action::SnapRight => ActionView::SnapRight,
            Action::SnapUp => ActionView::SnapUp,
            Action::SnapDown => ActionView::SnapDown,
            Action::Maximize => ActionView::Maximize,
            Action::Screenshot => ActionView::Screenshot,
        }
    }
}

impl Clone for Action {
    fn clone(&self) -> (r: Self)
        ensures
            r@ == self@,
    {
        match self {
            Action::Spawn(cmd) => Action::Spawn(cmd.clone()),
            Action::StartMenu => Action::StartMenu,
            Action::Launcher => Action::Launcher,
            Action::Settings => Action::Settings,
            Action::QuickSettings => Action::QuickSettings,
            Action::Lock => Action::Lock,
            Action::Logout => Action::Logout,
            Action::CloseWindow => Action::CloseWindow,
            Action::NextWindow => Action::NextWindow,
            Action::PrevWindow => Action::PrevWindow,
            Action::Workspace(n) => Action::Workspace(*n),
            Action::MoveToWorkspace(n) => Action::MoveToWorkspace(*n),
            Action::WorkspaceNext => Action::WorkspaceNext,
            Action::WorkspacePrev => Action::WorkspacePrev,
            Action::VolumeUp => Action::VolumeUp,
            Action::VolumeDown => Action::VolumeDown,
            Action::VolumeMute => Action::VolumeMute,
            Action::SnapLeft => Action::SnapLeft,
            Action::SnapRight => Action::SnapRight,
            Action::SnapUp => Action::SnapUp,
            Action::SnapDown => Action::SnapDown,
            Action::Maximize => Action::Maximize,
            Action::Screenshot => Action::Screenshot,
        }
    }
}

/// A modifier combination plus a (normalized) key, bound to an action.
#[derive(Debug, PartialEq)]
pub struct Keybind {
    pub meta: bool,
    pub ctrl: bool,
    pub alt: bool,
    pub shift: bool,
    pub key: String,
    pub action: Action,
}

/// A [`Keybind`] as a mathematical value.
pub struct KeybindView {
    pub meta: bool,
    pub ctrl: bool,
    pub alt: bool,
    pub shift: bool,
    pub key: Seq<char>,
    pub action: ActionView,
}

impl View for Keybind {
    type V = KeybindView;

    open spec fn view(&self) -> KeybindView {
        KeybindView {
            meta: self.meta,
            ctrl: self.ctrl,
            alt: self.alt,
            shift: self.shift,
            key: self.key@,
            action: self.action@,
        }
    }
}

impl Clone for Keybind {
    fn clone(&self) -> (r: Self)
        ensures
            r@ == self@,
    {
        Keybind {
            meta: self.meta,
            ctrl: self.ctrl,
            alt: self.alt,
            shift: self.shift,
            key: self.key.clone(),
            action: self.action.clone(),
        }
    }
}

/// The views of a list of bindings.
pub open spec fn keybind_views(binds: Seq<Keybind>) -> Seq<KeybindView> {
    Seq::new(binds.len(), |i: int| binds[i]@)
}

// ---------------------------------------------------------------------------
// Keys

/// The stable key name of a key event's text.
pub open spec fn text_key(text: Seq<char>) -> Seq<char> {
    if text == "\n"@ || text == "\r"@ {
        "return"@
    } else if text == " "@ {
        "space"@
    } else if text == "\u{1b}"@ {
        "escape"@
    } else if text == "\t"@ {
        "tab"@
    } else if text == "\u{f700}"@ {
        "up"@
    } else if text == "\u{f701}"@ {
        "down"@
    } else if text == "\u{f702}"@ {
        "left"@
    } else if text == "\u{f703}"@ {
        "right"@
    } else {
        lower(text)
    }
}

/// The stable key name that a lower-case name in a binding stands for.
pub open spec fn named_key(name: Seq<char>) -> Seq<char> {
    if name == "enter"@ {
        "return"@
    } else if name == "esc"@ {
        "escape"@
    } else if name == "minus"@ {
        "-"@
    } else if name == "equal"@ {
        "="@
    } else if name == "plus"@ {
        "+"@
    } else if name == "comma"@ {
        ","@
    } else if name == "period"@ {
        "."@
    } else {
        name
    }
}

/// The name that a binding is written with for a key.
pub open spec fn key_name(key: Seq<char>) -> Seq<char> {
    if key == "return"@ {
        "Return"@
    } else if key == "space"@ {
        "Space"@
    } else if key == "escape"@ {
        "Escape"@
    } else if key == "tab"@ {
        "Tab"@
    } else if key == "-"@ {
        "Minus"@
    } else if key == "="@ {
        "Equal"@
    } else if key == "+"@ {
        "Plus"@
    } else if key == ","@ {
        "Comma"@
    } else if key == "."@ {
        "Period"@
    } else {
        key
    }
}

/// Inverse of [`normalize_key`] for keys whose character would clash with the
/// config syntax (notably `=`), so a binding round-trips through the file.
pub fn key_to_name(key: &str) -> (r: String)
    ensures
        r@ == key_name(key@),
{
    let name = if same(key, "return") {
        "Return"
    } else if same(key, "space") {
        "Space"
    } else if same(key, "escape") {
        "Escape"
    } else if same(key, "tab") {
        "Tab"
    } else if same(key, "-") {
        "Minus"
    } else if same(key, "=") {
        "Equal"
    } else if same(key, "+") {
        "Plus"
    } else if same(key, ",") {
        "Comma"
    } else if same(key, ".") {
        "Period"
    } else {
        key
    };
    name.to_string()
}

/// Map a key-event `text` to a stable, comparable key name.
pub fn normalize_text(text: &str) -> (r: String)
    ensures
        r@ == text_key(text@),
{
    if same(text, "\n") || same(text, "\r") {
        "return".to_string()
    } else if same(text, " ") {
        "space".to_string()
    } else if same(text, "\u{1b}") {
        "escape".to_string()
    } else if same(text, "\t") {
        "tab".to_string()
    } else if same(text, "\u{f700}") {
        "up".to_string()
    } else if same(text, "\u{f701}") {
        "down".to_string()
    } else if same(text, "\u{f702}") {
        "left".to_string()
    } else if same(text, "\u{f703}") {
        "right".to_string()
    } else {
        lowered(text)
    }
}

/// Normalize a key *name* from a binding string to match [`normalize_text`].
pub fn normalize_key(name: &str) -> (r: String)
    ensures
        r@ == named_key(lower(name@)),
{
    let low = lowered(name);
    let n = low.as_str();
    if same(n, "enter") {
        "return".to_string()
    } else if same(n, "esc") {
        "escape".to_string()
    } else if same(n, "minus") {
        "-".to_string()
    } else if same(n, "equal") {
        "=".to_string()
    } else if same(n, "plus") {
        "+".to_string()
    } else if same(n, "comma") {
        ",".to_string()
    } else if same(n, "period") {
        ".".to_string()
    } else {
        low
    }
}

// ---------------------------------------------------------------------------
// Actions

/// The action that a trimmed text names.
pub open spec fn read_action(s: Seq<char>) -> Option<ActionView> {
    if let Some(cmd) = after_prefix(s, "spawn:"@) {
        Some(ActionView::Spawn(trim(cmd)))
    } else if let Some(n) = after_prefix(s, "workspace:"@) {
        match read_unsigned(trim(n), 10, u32::MAX as int) {
            Some(v) => Some(ActionView::Workspace(v as u32)),
            None => None,
        }
    } else if let Some(n) = after_prefix(s, "move-to-workspace:"@) {
        match read_unsigned(trim(n), 10, u32::MAX as int) {
            Some(v) => Some(ActionView::MoveToWorkspace(v as u32)),
            None => None,
        }
    } else {
        plain_action(s)
    }
}

/// The action that takes no argument and has the name `s`.
pub open spec fn plain_action(s: Seq<char>) -> Option<ActionView> {
    if s == "start-menu"@ {
        Some(ActionView::StartMenu)
    } else if s == "launcher"@ || s == "run"@ {
        Some(ActionView::Launcher)
    } else if s == "settings"@ {
        Some(ActionView::Settings)
    } else if s == "quick-settings"@ {
        Some(ActionView::QuickSettings)
    } else if s == "lock"@ {
        Some(ActionView::Lock)
    } else if s == "logout"@ {
        Some(ActionView::Logout)
    } else if s == "close-window"@ || s == "close"@ {
        Some(ActionView::CloseWindow)
    } else if s == "next-window"@ {
        Some(ActionView::NextWindow)
    } else if s == "prev-window"@ {
        Some(ActionView::PrevWindow)
    } else if s == "workspace-next"@ {
        Some(ActionView::WorkspaceNext)
    } else if s == "workspace-prev"@ {
        Some(ActionView::WorkspacePrev)
    } else if s == "volume-up"@ {
        Some(ActionView::VolumeUp)
    } else if s == "volume-down"@ {
        Some(ActionView::VolumeDown)
    } else if s == "volume-mute"@ || s == "mute"@ {
        Some(ActionView::VolumeMute)
    } else if s == "snap-left"@ {
        Some(ActionView::SnapLeft)
    } else if s == "snap-right"@ {
        Some(ActionView::SnapRight)
    } else if s == "snap-up"@ {
        Some(ActionView::SnapUp)
    } else if s == "snap-down"@ {
        Some(ActionView::SnapDown)
    } else if s == "maximize"@ {
        Some(ActionView::Maximize)
    } else if s == "screenshot"@ {
        Some(ActionView::Screenshot)
    } else {
        None
    }
}

/// The text of an action.
pub open spec fn action_text(action: ActionView) -> Seq<char> {
    match action {
        ActionView::Spawn(cmd) => "spawn:"@ + cmd,
        ActionView::Workspace(n) => "workspace:"@ + decimal(n as nat),
        ActionView::MoveToWorkspace(n) => "move-to-workspace:"@ + decimal(n as nat),
        ActionView::StartMenu => "start-menu"@,
        ActionView::Launcher => "launcher"@,
        ActionView::Settings => "settings"@,
        ActionView::QuickSettings => "quick-settings"@,
        ActionView::Lock => "lock"@,
        ActionView::Logout => "logout"@,
        ActionView::CloseWindow => "close-window"@,
        ActionView::NextWindow => "next-window"@,
        ActionView::PrevWindow => "prev-window"@,
        ActionView::WorkspaceNext => "workspace-next"@,
        ActionView::WorkspacePrev => "workspace-prev"@,
        ActionView::VolumeUp => "volume-up"@,
        ActionView::VolumeDown => "volume-down"@,
        ActionView::VolumeMute => "volume-mute"@,
        ActionView::SnapLeft => "snap-left"@,
        ActionView::SnapRight => "snap-right"@,
        ActionView::SnapUp => "snap-up"@,
        ActionView::SnapDown => "snap-down"@,
        ActionView::Maximize => "maximize"@,
        ActionView::Screenshot => "screenshot"@,
    }
}

/// The action that a trimmed text names, if any.
pub fn parse_action(s: &str) -> (r: Option<Action>)
    ensures
        match r {
            Some(a) => read_action(s@) == Some(a@),
            None => read_action(s@) is None,
        },
{
    if let Some(cmd) = strip_prefix(s, "spawn:") {
        return Some(Action::Spawn(trim_str(cmd).to_string()));
    }
    if let Some(n) = strip_prefix(s, "workspace:") {
        return match parse_u32(trim_str(n)) {
            Some(v) => Some(Action::Workspace(v)),
            None => None,
        };
    }
    if let Some(n) = strip_prefix(s, "move-to-workspace:") {
        return match parse_u32(trim_str(n)) {
            Some(v) => Some(Action::MoveToWorkspace(v)),
            None => None,
        };
    }
    if same(s, "start-menu") {
        Some(Action::StartMenu)
    } else if same(s, "launcher") || same(s, "run") {
        Some(Action::Launcher)
    } else if same(s, "settings") {
        Some(Action::Settings)
    } else if same(s, "quick-settings") {
        Some(Action::QuickSettings)
    } else if same(s, "lock") {
        Some(Action::Lock)
    } else if same(s, "logout") {
        Some(Action::Logout)
    } else if same(s, "close-window") || same(s, "close") {
        Some(Action::CloseWindow)
    } else if same(s, "next-window") {
        Some(Action::NextWindow)
    } else if same(s, "prev-window") {
        Some(Action::PrevWindow)
    } else if same(s, "workspace-next") {
        Some(Action::WorkspaceNext)
    } else if same(s, "workspace-prev") {
        Some(Action::WorkspacePrev)
    } else if same(s, "volume-up") {
        Some(Action::VolumeUp)
    } else if same(s, "volume-down") {
        Some(Action::VolumeDown)
    } else if same(s, "volume-mute") || same(s, "mute") {
        Some(Action::VolumeMute)
    } else if same(s, "snap-left") {
        Some(Action::SnapLeft)
    } else if same(s, "snap-right") {
        Some(Action::SnapRight)
    } else if same(s, "snap-up") {
        Some(Action::SnapUp)
    } else if same(s, "snap-down") {
        Some(Action::SnapDown)
    } else if same(s, "maximize") {
        Some(Action::Maximize)
    } else if same(s, "screenshot") {
        Some(Action::Screenshot)
    } else {
        None
    }
}

/// The text of an action, as [`parse_action`] reads it.
pub fn action_to_string(action: &Action) -> (r: String)
    ensures
        r@ == action_text(action@),
{
    match action {
        Action::Spawn(cmd) => {
            let mut out = "spawn:".to_string();
            out.append(cmd.as_str());
            out
        },
        Action::Workspace(n) => {
            let mut out = "workspace:".to_string();
            out.append(decimal_of(*n as u64).as_str());
            out
        },
        Action::MoveToWorkspace(n) => {
            let mut out = "move-to-workspace:".to_string();
            out.append(decimal_of(*n as u64).as_str());
            out
        },
        Action::StartMenu => "start-menu".to_string(),
        Action::Launcher => "launcher".to_string(),
        Action::Settings => "settings".to_string(),
        Action::QuickSettings => "quick-settings".to_string(),
        Action::Lock => "lock".to_string(),
        Action::Logout => "logout".to_string(),
        Action::CloseWindow => "close-window".to_string(),
        Action::NextWindow => "next-window".to_string(),
        Action::PrevWindow => "prev-window".to_string(),
        Action::WorkspaceNext => "workspace-next".to_string(),
        Action::WorkspacePrev => "workspace-prev".to_string(),
        Action::VolumeUp => "volume-up".to_string(),
        Action::VolumeDown => "volume-down".to_string(),
        Action::VolumeMute => "volume-mute".to_string(),
        Action::SnapLeft => "snap-left".to_string(),
        Action::SnapRight => "snap-right".to_string(),
        Action::SnapUp => "snap-up".to_string(),
        Action::SnapDown => "snap-down".to_string(),
        Action::Maximize => "maximize".to_string(),
        Action::Screenshot => "screenshot".to_string(),
    }
}

// ---------------------------------------------------------------------------
// Bindings

/// The lower-case names of the Super modifier.
pub open spec fn names_meta(t: Seq<char>) -> bool {
    t == "super"@ || t == "meta"@ || t == "mod"@ || t == "win"@
}

/// The lower-case names of the Ctrl modifier.
pub open spec fn names_ctrl(t: Seq<char>) -> bool {
    t == "ctrl"@ || t == "control"@
}

/// A lower-case name of any modifier.
pub open spec fn names_modifier(t: Seq<char>) -> bool {
    names_meta(t) || names_ctrl(t) || t == "alt"@ || t == "shift"@
}

/// What has been read of a key combination so far.
pub struct Combo {
    pub meta: bool,
    pub ctrl: bool,
    pub alt: bool,
    pub shift: bool,
    pub key: Option<Seq<char>>,
}

/// No modifier and no key.
pub open spec fn no_combo() -> Combo {
    Combo { meta: false, ctrl: false, alt: false, shift: false, key: None }
}

/// Read one trimmed token: a modifier sets its flag, any other token is the
/// key, and an empty one is skipped.
pub open spec fn read_token(c: Combo, token: Seq<char>) -> Combo {
    let t = lower(token);
    if token.len() == 0 {
        c
    } else if names_meta(t) {
        Combo { meta: true, ..c }
    } else if names_ctrl(t) {
        Combo { ctrl: true, ..c }
    } else if t == "alt"@ {
        Combo { alt: true, ..c }
    } else if t == "shift"@ {
        Combo { shift: true, ..c }
    } else {
        Combo { key: Some(named_key(t)), ..c }
    }
}

/// Read the pieces of a combination from left to right.
pub open spec fn read_pieces(c: Combo, pieces: Seq<Seq<char>>) -> Combo
    decreases pieces.len(),
{
    if pieces.len() == 0 {
        c
    } else {
        read_pieces(read_token(c, trim(pieces[0])), pieces.drop_first())
    }
}

/// The binding that a `<combo> = <action>` text stands for.
pub open spec fn read_keybind(spec: Seq<char>) -> Option<KeybindView> {
    match cut(spec, '=') {
        None => None,
        Some((combo, action)) => match read_action(trim(action)) {
            None => None,
            Some(a) => {
                let c = read_pieces(no_combo(), split(combo, '+'));
                match c.key {
                    None => None,
                    Some(key) => Some(
                        KeybindView {
                            meta: c.meta,
                            ctrl: c.ctrl,
                            alt: c.alt,
                            shift: c.shift,
                            key,
                            action: a,
                        },
                    ),
                }
            },
        },
    }
}

/// `name` when the modifier is on.
pub open spec fn modifier_text(on: bool, name: Seq<char>) -> Seq<char> {
    if on {
        name.push('+')
    } else {
        seq![]
    }
}

/// The combination of a binding: its modifiers in a fixed order, then its key.
pub open spec fn combo_text(b: KeybindView) -> Seq<char> {
    modifier_text(b.meta, "Super"@) + (modifier_text(b.ctrl, "Ctrl"@) + (modifier_text(
        b.alt,
        "Alt"@,
    ) + (modifier_text(b.shift, "Shift"@) + key_name(b.key))))
}

/// The `<combo> = <action>` text of a binding.
pub open spec fn keybind_text(b: KeybindView) -> Seq<char> {
    combo_text(b) + " = "@ + action_text(b.action)
}

/// Parse a full `<combo> = <action>` binding string.
pub fn parse(spec: &str) -> (r: Option<Keybind>)
    ensures
        match r {
            Some(b) => read_keybind(spec@) == Some(b@),
            None => read_keybind(spec@) is None,
        },
{
    let (combo, action) = match split_once(spec, '=') {
        Some(parts) => parts,
        None => return None,
    };
    let action = match parse_action(trim_str(action)) {
        Some(a) => a,
        None => return None,
    };
    let mut meta = false;
    let mut ctrl = false;
    let mut alt = false;
    let mut shift = false;
    let mut key: Option<String> = None;
    let pieces = split_str(combo, '+');
    let ghost all = split(combo@, '+');
    let ghost mut c = no_combo();
    assert(all.skip(0) == all);
    for i in 0..pieces.len()
        invariant
            pieces.len() == all.len(),
            forall|k: int| 0 <= k < pieces.len() ==> (#[trigger] pieces@[k])@ == all[k],
            c == (Combo {
                meta,
                ctrl,
                alt,
                shift,
                key: match key {
                    Some(k) => Some(k@),
                    None => None,
                },
            }),
            read_pieces(c, all.skip(i as int)) == read_pieces(no_combo(), all),
    {
        let token = trim_str(pieces[i]);
        proof {
            assert(all.skip(i as int)[0] == all[i as int]);
            assert(all.skip(i as int).drop_first() == all.skip(i + 1));
            c = read_token(c, token@);
        }
        if !token.is_empty() {
            let low = lowered(token);
            let t = low.as_str();
            if same(t, "super") || same(t, "meta") || same(t, "mod") || same(t, "win") {
                meta = true;
            } else if same(t, "ctrl") || same(t, "control") {
                ctrl = true;
            } else if same(t, "alt") {
                alt = true;
            } else if same(t, "shift") {
                shift = true;
            } else {
                proof {
                    lemma_lower_twice(token@);
                }
                key = Some(normalize_key(t));
            }
        }
    }
    assert(all.skip(pieces.len() as int) == Seq::<Seq<char>>::empty());
    match key {
        Some(key) => Some(Keybind { meta, ctrl, alt, shift, key, action }),
        None => None,
    }
}

/// Lower-casing a lower-case text changes nothing.
pub proof fn lemma_lower_twice(s: Seq<char>)
    ensures
        lower(lower(s)) == lower(s),
{
    assert(lower(lower(s)) =~= lower(s));
}

impl Keybind {
    /// Does this binding match a key event? `key` must already be normalized
    /// with [`normalize_text`].
    pub fn matches(&self, key: &str, ctrl: bool, alt: bool, shift: bool, meta: bool) -> (r: bool)
        ensures
            r == (self@.key == key@ && self@.meta == meta && self@.ctrl == ctrl && self@.alt == alt
                && self@.shift == shift),
    {
        same(self.key.as_str(), key) && self.meta == meta && self.ctrl == ctrl && self.alt == alt
            && self.shift == shift
    }

    /// Serialize back to a `<combo> = <action>` string (without the `bind =`).
    pub fn to_config_string(&self) -> (r: String)
        ensures
            r@ == keybind_text(self@),
    {
        let mut out = String::new();
        if self.meta {
            out.append("Super");
            out.push('+');
        }
        if self.ctrl {
            out.append("Ctrl");
            out.push('+');
        }
        if self.alt {
            out.append("Alt");
            out.push('+');
        }
        if self.shift {
            out.append("Shift");
            out.push('+');
        }
        out.append(key_to_name(self.key.as_str()).as_str());
        assert(out@ == combo_text(self@));
        out.append(" = ");
        out.append(action_to_string(&self.action).as_str());
        out
    }
}

// ---------------------------------------------------------------------------
// Writing a binding and reading it back

/// A key that a token of a combination can stand for as it is.
pub open spec fn plain_key(key: Seq<char>) -> bool {
    &&& key.len() > 0
    &&& trimmed(key)
    &&& !key.contains('+')
    &&& !key.contains('=')
    &&& lower(key) == key
    &&& !names_modifier(key)
    &&& named_key(key) == key
}

/// A key that some binding text stands for.
pub open spec fn canonical_key(key: Seq<char>) -> bool {
    key == "="@ || key == "+"@ || plain_key(key)
}

/// An action that some text stands for.
pub open spec fn canonical_action(action: ActionView) -> bool {
    match action {
        ActionView::Spawn(cmd) => trimmed(cmd),
        _ => true,
    }
}

/// A binding that some text stands for.
pub open spec fn canonical(b: KeybindView) -> bool {
    canonical_key(b.key) && canonical_action(b.action)
}

/// A text that differs from a prefix in one place does not start with it.
proof fn lemma_no_prefix(s: Seq<char>, p: Seq<char>, i: int)
    requires
        0 <= i < p.len(),
        i < s.len() ==> s[i] != p[i],
    ensures
        after_prefix(s, p) is None,
{
    if p.len() <= s.len() {
        assert(s.take(p.len() as int)[i] == s[i]);
    }
}

/// What follows a prefix is found behind it.
proof fn lemma_after_prefix(p: Seq<char>, t: Seq<char>)
    ensures
        after_prefix(p + t, p) == Some(t),
{
    assert((p + t).take(p.len() as int) == p);
    assert((p + t).skip(p.len() as int) == t);
}

/// The literals that actions are named by, told apart.
proof fn lemma_action_literals()
    ensures
        "start-menu"@.len() == 10,
        "start-menu"@[0] == 's',
        "start-menu"@[1] == 't',
        "start-menu"@[5] == '-',
        "start-menu"@[7] == 'e',
        "start-menu"@[9] == 'u',
        "launcher"@.len() == 8,
        "launcher"@[0] == 'l',
        "launcher"@[1] == 'a',
        "launcher"@[5] == 'h',
        "launcher"@[7] == 'r',
        "run"@.len() == 3,
        "run"@[0] == 'r',
        "run"@[1] == 'u',
        "run"@[2] == 'n',
        "settings"@.len() == 8,
        "settings"@[0] == 's',
        "settings"@[1] == 'e',
        "settings"@[5] == 'n',
        "settings"@[7] == 's',
        "quick-settings"@.len() == 14,
        "quick-settings"@[0] == 'q',
        "quick-settings"@[1] == 'u',
        "quick-settings"@[5] == '-',
        "quick-settings"@[7] == 'e',
        "quick-settings"@[9] == 't',
        "quick-settings"@[10] == 'i',
        "quick-settings"@[13] == 's',
        "lock"@.len() == 4,
        "lock"@[0] == 'l',
        "lock"@[1] == 'o',
        "lock"@[3] == 'k',
        "logout"@.len() == 6,
        "logout"@[0] == 'l',
        "logout"@[1] == 'o',
        "logout"@[5] == 't',
        "close-window"@.len() == 12,
        "close-window"@[0] == 'c',
        "close-window"@[1] == 'l',
        "close-window"@[5] == '-',
        "close-window"@[7] == 'i',
        "close-window"@[9] == 'd',
        "close-window"@[10] == 'o',
        "close-window"@[11] == 'w',
        "close"@.len() == 5,
        "close"@[0] == 'c',
        "close"@[1] == 'l',
        "close"@[4] == 'e',
        "next-window"@.len() == 11,
        "next-window"@[0] == 'n',
        "next-window"@[1] == 'e',
        "next-window"@[5] == 'w',
        "next-window"@[7] == 'n',
        "next-window"@[9] == 'o',
        "next-window"@[10] == 'w',
        "prev-window"@.len() == 11,
        "prev-window"@[0] == 'p',
        "prev-window"@[1] == 'r',
        "prev-window"@[5] == 'w',
        "prev-window"@[7] == 'n',
        "prev-window"@[9] == 'o',
        "prev-window"@[10] == 'w',
        "workspace-next"@.len() == 14,
        "workspace-next"@[0] == 'w',
        "workspace-next"@[1] == 'o',
        "workspace-next"@[5] == 'p',
        "workspace-next"@[7] == 'c',
        "workspace-next"@[9] == '-',
        "workspace-next"@[10] == 'n',
        "workspace-next"@[13] == 't',
        "workspace-prev"@.len() == 14,
        "workspace-prev"@[0] == 'w',
        "workspace-prev"@[1] == 'o',
        "workspace-prev"@[5] == 'p',
        "workspace-prev"@[7] == 'c',
        "workspace-prev"@[9] == '-',
        "workspace-prev"@[10] == 'p',
        "workspace-prev"@[13] == 'v',
        "volume-up"@.len() == 9,
        "volume-up"@[0] == 'v',
        "volume-up"@[1] == 'o',
        "volume-up"@[5] == 'e',
        "volume-up"@[7] == 'u',
        "volume-up"@[8] == 'p',
        "volume-down"@.len() == 11,
        "volume-down"@[0] == 'v',
        "volume-down"@[1] == 'o',
        "volume-down"@[5] == 'e',
        "volume-down"@[7] == 'd',
        "volume-down"@[9] == 'w',
        "volume-down"@[10] == 'n',
        "volume-mute"@.len() == 11,
        "volume-mute"@[0] == 'v',
        "volume-mute"@[1] == 'o',
        "volume-mute"@[5] == 'e',
        "volume-mute"@[7] == 'm',
        "volume-mute"@[9] == 't',
        "volume-mute"@[10] == 'e',
        "mute"@.len() == 4,
        "mute"@[0] == 'm',
        "mute"@[1] == 'u',
        "mute"@[3] == 'e',
        "snap-left"@.len() == 9,
        "snap-left"@[0] == 's',
        "snap-left"@[1] == 'n',
        "snap-left"@[5] == 'l',
        "snap-left"@[7] == 'f',
        "snap-left"@[8] == 't',
        "snap-right"@.len() == 10,
        "snap-right"@[0] == 's',
        "snap-right"@[1] == 'n',
        "snap-right"@[5] == 'r',
        "snap-right"@[7] == 'g',
        "snap-right"@[9] == 't',
        "snap-up"@.len() == 7,
        "snap-up"@[0] == 's',
        "snap-up"@[1] == 'n',
        "snap-up"@[5] == 'u',
        "snap-up"@[6] == 'p',
        "snap-down"@.len() == 9,
        "snap-down"@[0] == 's',
        "snap-down"@[1] == 'n',
        "snap-down"@[5] == 'd',
        "snap-down"@[7] == 'w',
        "snap-down"@[8] == 'n',
        "maximize"@.len() == 8,
        "maximize"@[0] == 'm',
        "maximize"@[1] == 'a',
        "maximize"@[5] == 'i',
        "maximize"@[7] == 'e',
        "screenshot"@.len() == 10,
        "screenshot"@[0] == 's',
        "screenshot"@[1] == 'c',
        "screenshot"@[5] == 'n',
        "screenshot"@[7] == 'h',
        "screenshot"@[9] == 't',
{
    reveal_strlit("start-menu");
    reveal_strlit("launcher");
    reveal_strlit("run");
    reveal_strlit("settings");
    reveal_strlit("quick-settings");
    reveal_strlit("lock");
    reveal_strlit("logout");
    reveal_strlit("close-window");
    reveal_strlit("close");
    reveal_strlit("next-window");
    reveal_strlit("prev-window");
    reveal_strlit("workspace-next");
    reveal_strlit("workspace-prev");
    reveal_strlit("volume-up");
    reveal_strlit("volume-down");
    reveal_strlit("volume-mute");
    reveal_strlit("mute");
    reveal_strlit("snap-left");
    reveal_strlit("snap-right");
    reveal_strlit("snap-up");
    reveal_strlit("snap-down");
    reveal_strlit("maximize");
    reveal_strlit("screenshot");
}

/// The texts of actions with no argument are read back.
proof fn lemma_plain_action_round_trip(a: ActionView)
    requires
        !(a is Spawn) && !(a is Workspace) && !(a is MoveToWorkspace),
    ensures
        read_action(action_text(a)) == Some(a),
        trimmed(action_text(a)),
        action_text(a).len() > 0,
{
    let s = action_text(a);
    lemma_action_literals();
    reveal_strlit("spawn:");
    reveal_strlit("workspace:");
    reveal_strlit("move-to-workspace:");
    let first = if s[0] == 's' {
        1int
    } else {
        0int
    };
    lemma_no_prefix(s, "spawn:"@, first);
    let second = if s[0] == 'w' {
        9int
    } else {
        0int
    };
    lemma_no_prefix(s, "workspace:"@, second);
    let third = if s[0] == 'm' {
        1int
    } else {
        0int
    };
    lemma_no_prefix(s, "move-to-workspace:"@, third);
}

/// The text of an action is read back as the action.
pub proof fn lemma_action_round_trip(a: ActionView)
    requires
        canonical_action(a),
    ensures
        read_action(action_text(a)) == Some(a),
        trimmed(action_text(a)),
        action_text(a).len() > 0,
{
    match a {
        ActionView::Spawn(cmd) => {
            reveal_strlit("spawn:");
            lemma_after_prefix("spawn:"@, cmd);
            lemma_trim_trimmed(cmd);
        },
        ActionView::Workspace(n) => {
            reveal_strlit("workspace:");
            reveal_strlit("spawn:");
            let d = decimal(n as nat);
            let s = action_text(a);
            lemma_no_prefix(s, "spawn:"@, 0);
            lemma_after_prefix("workspace:"@, d);
            lemma_unsigned_round_trip(n as nat, u32::MAX as int);
            lemma_decimal_reads_back(n as nat);
            assert(s.last() == d.last());
            assert('0' <= d[0] <= '9' && '0' <= d[d.len() - 1] <= '9');
            lemma_trim_trimmed(d);
        },
        ActionView::MoveToWorkspace(n) => {
            reveal_strlit("move-to-workspace:");
            reveal_strlit("workspace:");
            reveal_strlit("spawn:");
            let d = decimal(n as nat);
            let s = action_text(a);
            lemma_no_prefix(s, "spawn:"@, 0);
            lemma_no_prefix(s, "workspace:"@, 0);
            lemma_after_prefix("move-to-workspace:"@, d);
            lemma_unsigned_round_trip(n as nat, u32::MAX as int);
            lemma_decimal_reads_back(n as nat);
            assert(s.last() == d.last());
            assert('0' <= d[0] <= '9' && '0' <= d[d.len() - 1] <= '9');
            lemma_trim_trimmed(d);
        },
        _ => {
            lemma_plain_action_round_trip(a);
        },
    }
}

/// The literals that keys and modifiers are named by.
proof fn lemma_key_literals()
    ensures
        "return"@ == seq!['r', 'e', 't', 'u', 'r', 'n'],
        "Return"@ == seq!['R', 'e', 't', 'u', 'r', 'n'],
        "enter"@ == seq!['e', 'n', 't', 'e', 'r'],
        "space"@ == seq!['s', 'p', 'a', 'c', 'e'],
        "Space"@ == seq!['S', 'p', 'a', 'c', 'e'],
        "escape"@ == seq!['e', 's', 'c', 'a', 'p', 'e'],
        "Escape"@ == seq!['E', 's', 'c', 'a', 'p', 'e'],
        "esc"@ == seq!['e', 's', 'c'],
        "tab"@ == seq!['t', 'a', 'b'],
        "Tab"@ == seq!['T', 'a', 'b'],
        "minus"@ == seq!['m', 'i', 'n', 'u', 's'],
        "Minus"@ == seq!['M', 'i', 'n', 'u', 's'],
        "equal"@ == seq!['e', 'q', 'u', 'a', 'l'],
        "Equal"@ == seq!['E', 'q', 'u', 'a', 'l'],
        "plus"@ == seq!['p', 'l', 'u', 's'],
        "Plus"@ == seq!['P', 'l', 'u', 's'],
        "comma"@ == seq!['c', 'o', 'm', 'm', 'a'],
        "Comma"@ == seq!['C', 'o', 'm', 'm', 'a'],
        "period"@ == seq!['p', 'e', 'r', 'i', 'o', 'd'],
        "Period"@ == seq!['P', 'e', 'r', 'i', 'o', 'd'],
        "left"@ == seq!['l', 'e', 'f', 't'],
        "Left"@ == seq!['L', 'e', 'f', 't'],
        "right"@ == seq!['r', 'i', 'g', 'h', 't'],
        "Right"@ == seq!['R', 'i', 'g', 'h', 't'],
        "up"@ == seq!['u', 'p'],
        "Up"@ == seq!['U', 'p'],
        "down"@ == seq!['d', 'o', 'w', 'n'],
        "Down"@ == seq!['D', 'o', 'w', 'n'],
        "-"@ == seq!['-'],
        "="@ == seq!['='],
        "+"@ == seq!['+'],
        ","@ == seq![','],
        "."@ == seq!['.'],
        "super"@ == seq!['s', 'u', 'p', 'e', 'r'],
        "meta"@ == seq!['m', 'e', 't', 'a'],
        "mod"@ == seq!['m', 'o', 'd'],
        "win"@ == seq!['w', 'i', 'n'],
        "ctrl"@ == seq!['c', 't', 'r', 'l'],
        "control"@ == seq!['c', 'o', 'n', 't', 'r', 'o', 'l'],
        "alt"@ == seq!['a', 'l', 't'],
        "shift"@ == seq!['s', 'h', 'i', 'f', 't'],
        "Super"@ == seq!['S', 'u', 'p', 'e', 'r'],
        "Ctrl"@ == seq!['C', 't', 'r', 'l'],
        "Alt"@ == seq!['A', 'l', 't'],
        "Shift"@ == seq!['S', 'h', 'i', 'f', 't'],
{
    reveal_strlit("return");
    reveal_strlit("Return");
    reveal_strlit("enter");
    reveal_strlit("space");
    reveal_strlit("Space");
    reveal_strlit("escape");
    reveal_strlit("Escape");
    reveal_strlit("esc");
    reveal_strlit("tab");
    reveal_strlit("Tab");
    reveal_strlit("minus");
    reveal_strlit("Minus");
    reveal_strlit("equal");
    reveal_strlit("Equal");
    reveal_strlit("plus");
    reveal_strlit("Plus");
    reveal_strlit("comma");
    reveal_strlit("Comma");
    reveal_strlit("period");
    reveal_strlit("Period");
    reveal_strlit("left");
    reveal_strlit("Left");
    reveal_strlit("right");
    reveal_strlit("Right");
    reveal_strlit("up");
    reveal_strlit("Up");
    reveal_strlit("down");
    reveal_strlit("Down");
    reveal_strlit("-");
    reveal_strlit("=");
    reveal_strlit("+");
    reveal_strlit(",");
    reveal_strlit(".");
    reveal_strlit("super");
    reveal_strlit("meta");
    reveal_strlit("mod");
    reveal_strlit("win");
    reveal_strlit("ctrl");
    reveal_strlit("control");
    reveal_strlit("alt");
    reveal_strlit("shift");
    reveal_strlit("Super");
    reveal_strlit("Ctrl");
    reveal_strlit("Alt");
    reveal_strlit("Shift");
}

/// A name of a key, as a token, is read back as the key.
proof fn lemma_key_round_trip(key: Seq<char>)
    requires
        canonical_key(key),
    ensures
        ({
            let k = key_name(key);
            &&& k.len() > 0
            &&& trimmed(k)
            &&& !k.contains('+')
            &&& !k.contains('=')
            &&& !names_modifier(lower(k))
            &&& named_key(lower(k)) == key
        }),
{
    lemma_key_literals();
    let k = key_name(key);
    if k != key {
        if key == "return"@ {
            assert(lower(k) =~= "return"@);
        } else if key == "space"@ {
            assert(lower(k) =~= "space"@);
        } else if key == "escape"@ {
            assert(lower(k) =~= "escape"@);
        } else if key == "tab"@ {
            assert(lower(k) =~= "tab"@);
        } else if key == "-"@ {
            assert(lower(k) =~= "minus"@);
        } else if key == "="@ {
            assert(lower(k) =~= "equal"@);
        } else if key == "+"@ {
            assert(lower(k) =~= "plus"@);
        } else if key == ","@ {
            assert(lower(k) =~= "comma"@);
        } else if key == "."@ {
            assert(lower(k) =~= "period"@);
        } else if key == "left"@ {
            assert(lower(k) =~= "left"@);
        } else if key == "right"@ {
            assert(lower(k) =~= "right"@);
        } else if key == "up"@ {
            assert(lower(k) =~= "up"@);
        } else {
            assert(lower(k) =~= "down"@);
        }
    }
}

/// A modifier in front of a combination is read, then the rest of it.
proof fn lemma_modifier_round_trip(c: Combo, on: bool, name: Seq<char>, rest: Seq<char>)
    requires
        trimmed(name),
        !name.contains('+'),
    ensures
        read_pieces(c, split(modifier_text(on, name) + rest, '+')) == read_pieces(
            if on {
                read_token(c, name)
            } else {
                c
            },
            split(rest, '+'),
        ),
{
    if on {
        lemma_split_first(name, '+', rest);
        lemma_trim_trimmed(name);
        let pieces = seq![name] + split(rest, '+');
        assert(pieces[0] == name);
        assert(pieces.drop_first() == split(rest, '+'));
    } else {
        assert(modifier_text(on, name) + rest == rest);
    }
}

/// The names that modifiers are written with.
proof fn lemma_modifier_names()
    ensures
        trimmed("Super"@) && trimmed("Ctrl"@) && trimmed("Alt"@) && trimmed("Shift"@),
        !"Super"@.contains('+') && !"Ctrl"@.contains('+') && !"Alt"@.contains('+')
            && !"Shift"@.contains('+'),
        !"Super"@.contains('=') && !"Ctrl"@.contains('=') && !"Alt"@.contains('=')
            && !"Shift"@.contains('='),
        forall|c: Combo| #[trigger] read_token(c, "Super"@) == (Combo { meta: true, ..c }),
        forall|c: Combo| #[trigger] read_token(c, "Ctrl"@) == (Combo { ctrl: true, ..c }),
        forall|c: Combo| #[trigger] read_token(c, "Alt"@) == (Combo { alt: true, ..c }),
        forall|c: Combo| #[trigger] read_token(c, "Shift"@) == (Combo { shift: true, ..c }),
{
    lemma_key_literals();
    assert(lower("Super"@) =~= "super"@);
    assert(lower("Ctrl"@) =~= "ctrl"@);
    assert(lower("Alt"@) =~= "alt"@);
    assert(lower("Shift"@) =~= "shift"@);
}

/// A character that occurs in neither part does not occur in the whole.
proof fn lemma_contains_neither(a: Seq<char>, b: Seq<char>, c: char)
    requires
        !a.contains(c),
        !b.contains(c),
    ensures
        !(a + b).contains(c),
{
    let s = a + b;
    if s.contains(c) {
        let i = choose|i: int| 0 <= i < s.len() && s[i] == c;
        if i < a.len() {
            assert(a[i] == c);
        } else {
            assert(b[i - a.len()] == c);
        }
    }
}

/// A modifier in front of a text without `=` adds none.
proof fn lemma_modifier_no_equal(on: bool, name: Seq<char>, rest: Seq<char>)
    requires
        !name.contains('='),
        !rest.contains('='),
    ensures
        !(modifier_text(on, name) + rest).contains('='),
{
    if on {
        assert(!seq!['+'].contains('='));
        lemma_contains_neither(name, seq!['+'], '=');
        assert(name + seq!['+'] =~= name.push('+'));
    }
    lemma_contains_neither(modifier_text(on, name), rest, '=');
}

/// A combination is read back as its modifiers and its key.
proof fn lemma_combo_round_trip(b: KeybindView)
    requires
        canonical_key(b.key),
    ensures
        !combo_text(b).push(' ').contains('='),
        read_pieces(no_combo(), split(combo_text(b).push(' '), '+')) == (Combo {
            meta: b.meta,
            ctrl: b.ctrl,
            alt: b.alt,
            shift: b.shift,
            key: Some(b.key),
        }),
{
    let name = key_name(b.key);
    lemma_key_round_trip(b.key);
    lemma_modifier_names();
    let r4 = name.push(' ');
    let r3 = modifier_text(b.shift, "Shift"@) + r4;
    let r2 = modifier_text(b.alt, "Alt"@) + r3;
    let r1 = modifier_text(b.ctrl, "Ctrl"@) + r2;
    let r0 = modifier_text(b.meta, "Super"@) + r1;
    assert(combo_text(b).push(' ') =~= r0);
    assert(!seq![' '].contains('=') && !seq![' '].contains('+'));
    lemma_contains_neither(name, seq![' '], '=');
    lemma_contains_neither(name, seq![' '], '+');
    assert(name + seq![' '] =~= r4);
    lemma_modifier_no_equal(b.shift, "Shift"@, r4);
    lemma_modifier_no_equal(b.alt, "Alt"@, r3);
    lemma_modifier_no_equal(b.ctrl, "Ctrl"@, r2);
    lemma_modifier_no_equal(b.meta, "Super"@, r1);
    let c0 = no_combo();
    let c1 = Combo { meta: b.meta, ..c0 };
    let c2 = Combo { ctrl: b.ctrl, ..c1 };
    let c3 = Combo { alt: b.alt, ..c2 };
    let c4 = Combo { shift: b.shift, ..c3 };
    lemma_modifier_round_trip(c0, b.meta, "Super"@, r1);
    lemma_modifier_round_trip(c1, b.ctrl, "Ctrl"@, r2);
    lemma_modifier_round_trip(c2, b.alt, "Alt"@, r3);
    lemma_modifier_round_trip(c3, b.shift, "Shift"@, r4);
    // What is left is the key.
    lemma_split_none(r4, '+');
    lemma_trim_space_after(name, ' ');
    lemma_trim_trimmed(name);
    assert(read_pieces(c4, seq![r4]) == read_token(c4, name)) by {
        assert(seq![r4].drop_first() == Seq::<Seq<char>>::empty());
        reveal_with_fuel(read_pieces, 2);
    }
}

/// The text of a binding is read back as the binding.
pub proof fn lemma_keybind_text_round_trip(b: KeybindView)
    requires
        canonical(b),
    ensures
        read_keybind(keybind_text(b)) == Some(b),
{
    reveal_strlit(" = ");
    lemma_combo_round_trip(b);
    lemma_action_round_trip(b.action);
    let action = action_text(b.action);
    let spaced = combo_text(b).push(' ');
    assert(keybind_text(b) =~= spaced.push('=') + (seq![' '] + action));
    lemma_cut_at(spaced, '=', seq![' '] + action);
    lemma_trim_space_before(' ', action);
    lemma_trim_trimmed(action);
}

/// The text of a binding has no white space at its ends.
pub proof fn lemma_keybind_text_trimmed(b: KeybindView)
    requires
        canonical(b),
    ensures
        keybind_text(b).len() > 0,
        trimmed(keybind_text(b)),
{
    lemma_action_round_trip(b.action);
    lemma_key_round_trip(b.key);
    reveal_strlit("Super");
    reveal_strlit("Ctrl");
    reveal_strlit("Alt");
    reveal_strlit("Shift");
    let combo = combo_text(b);
    assert(combo[0] == if b.meta {
        'S'
    } else if b.ctrl {
        'C'
    } else if b.alt {
        'A'
    } else if b.shift {
        'S'
    } else {
        key_name(b.key)[0]
    });
    assert(keybind_text(b)[0] == combo[0]);
    assert(keybind_text(b).last() == action_text(b.action).last());
}

/// Lower-casing keeps the separators and the white space where they are.
proof fn lemma_lower_keeps(s: Seq<char>)
    ensures
        trimmed(s) ==> trimmed(lower(s)),
        !s.contains('+') ==> !lower(s).contains('+'),
        !s.contains('=') ==> !lower(s).contains('='),
{
    let t = lower(s);
    assert forall|c: char| (c == '+' || c == '=') && t.contains(c) implies s.contains(c) by {
        let i = choose|i: int| 0 <= i < t.len() && t[i] == c;
        assert(s[i] == c);
    }
}

/// A token that is no modifier gives a canonical key.
proof fn lemma_token_key(token: Seq<char>)
    requires
        token.len() > 0,
        trimmed(token),
        !token.contains('+'),
        !token.contains('='),
        !names_modifier(lower(token)),
    ensures
        canonical_key(named_key(lower(token))),
{
    let t = lower(token);
    lemma_key_literals();
    lemma_lower_keeps(token);
    lemma_lower_twice(token);
    let k = named_key(t);
    if k != t {
        assert(lower(k) =~= k);
    }
}

/// The key of a combination that was read is canonical.
proof fn lemma_pieces_key(c: Combo, pieces: Seq<Seq<char>>)
    requires
        c.key matches Some(k) ==> canonical_key(k),
        forall|i: int|
            0 <= i < pieces.len() ==> !(#[trigger] pieces[i]).contains('+') && !pieces[i].contains(
                '=',
            ),
    ensures
        read_pieces(c, pieces).key matches Some(k) ==> canonical_key(k),
    decreases pieces.len(),
{
    if pieces.len() > 0 {
        let token = trim(pieces[0]);
        lemma_trim_is_trimmed(pieces[0]);
        assert(!pieces[0].contains('+') && !pieces[0].contains('='));
        if token.len() > 0 && !names_modifier(lower(token)) {
            lemma_token_key(token);
        }
        let rest = pieces.drop_first();
        assert forall|i: int| 0 <= i < rest.len() implies !(#[trigger] rest[i]).contains('+')
            && !rest[i].contains('=') by {
            assert(rest[i] == pieces[i + 1]);
        }
        lemma_pieces_key(read_token(c, token), rest);
    }
}

/// Whatever binding a text stands for is canonical.
pub proof fn lemma_read_keybind_canonical(spec: Seq<char>)
    ensures
        read_keybind(spec) matches Some(b) ==> canonical(b),
{
    if let Some(b) = read_keybind(spec) {
        let (combo, action) = cut(spec, '=').unwrap();
        lemma_find(spec, '=');
        assert(!combo.contains('='));
        lemma_split_pieces(combo, '+');
        let pieces = split(combo, '+');
        assert forall|i: int| 0 <= i < pieces.len() implies !(#[trigger] pieces[i]).contains('+')
            && !pieces[i].contains('=') by {}
        lemma_pieces_key(no_combo(), pieces);
        let a = trim(action);
        if let Some(cmd) = after_prefix(a, "spawn:"@) {
            lemma_trim_is_trimmed(cmd);
        }
    }
}

/// A binding round-trips through the config file: the text that
/// [`Keybind::to_config_string`] writes for a binding that [`parse`] returned
/// is parsed to the same binding.
pub proof fn law_keybind_round_trip(spec: Seq<char>)
    ensures
        read_keybind(spec) matches Some(b) ==> read_keybind(keybind_text(b)) == Some(b),
{
    lemma_read_keybind_canonical(spec);
    if let Some(b) = read_keybind(spec) {
        lemma_keybind_text_round_trip(b);
    }
}

/// Letters are matched whatever their case: a key event for the letter in
/// upper case and one in lower case have the same key.
pub proof fn law_letters_are_case_insensitive(upper: Seq<char>)
    requires
        upper.len() == 1,
        'A' <= upper[0] <= 'Z',
    ensures
        text_key(upper) == text_key(lower(upper)),
{
    reveal_strlit("\n");
    reveal_strlit("\r");
    reveal_strlit(" ");
    reveal_strlit("\u{1b}");
    reveal_strlit("\t");
    reveal_strlit("\u{f700}");
    reveal_strlit("\u{f701}");
    reveal_strlit("\u{f702}");
    reveal_strlit("\u{f703}");
    let low = lower(upper);
    lemma_lower_twice(upper);
    assert(low[0] == ascii_lower(upper[0]));
    assert('a' <= low[0] <= 'z');
}

// ---------------------------------------------------------------------------
// Defaults

/// A binding of a modifier set and a key.
pub open spec fn binding(
    meta: bool,
    alt: bool,
    shift: bool,
    key: Seq<char>,
    action: ActionView,
) -> KeybindView {
    KeybindView { meta, ctrl: false, alt, shift, key, action }
}

/// The bindings used when the config file lists none: `Super` opens, closes,
/// tiles and maximizes, `Alt+Tab` cycles, `Super+1..4` switch workspace and
/// `Super+Shift+1..4` move the window there.
pub open spec fn default_keybinds() -> Seq<KeybindView> {
    seq![
        binding(true, false, false, "d"@, ActionView::StartMenu),
        binding(true, false, false, "space"@, ActionView::Launcher),
        binding(true, false, false, "return"@, ActionView::Spawn("alacritty"@)),
        binding(true, false, false, "e"@, ActionView::Spawn("s-files"@)),
        binding(true, false, false, "l"@, ActionView::Lock),
        binding(true, false, false, "q"@, ActionView::CloseWindow),
        binding(false, true, false, "tab"@, ActionView::NextWindow),
        binding(false, true, true, "tab"@, ActionView::PrevWindow),
        binding(true, false, false, ","@, ActionView::Settings),
        binding(true, false, false, "="@, ActionView::VolumeUp),
        binding(true, false, false, "-"@, ActionView::VolumeDown),
        binding(true, false, false, "0"@, ActionView::VolumeMute),
        binding(true, false, false, "left"@, ActionView::SnapLeft),
        binding(true, false, false, "right"@, ActionView::SnapRight),
        binding(true, false, false, "up"@, ActionView::Maximize),
        binding(true, false, false, "down"@, ActionView::SnapDown),
        binding(true, false, false, "p"@, ActionView::Screenshot),
        binding(true, false, false, "1"@, ActionView::Workspace(1)),
        binding(true, false, true, "1"@, ActionView::MoveToWorkspace(1)),
        binding(true, false, false, "2"@, ActionView::Workspace(2)),
        binding(true, false, true, "2"@, ActionView::MoveToWorkspace(2)),
        binding(true, false, false, "3"@, ActionView::Workspace(3)),
        binding(true, false, true, "3"@, ActionView::MoveToWorkspace(3)),
        binding(true, false, false, "4"@, ActionView::Workspace(4)),
        binding(true, false, true, "4"@, ActionView::MoveToWorkspace(4)),
    ]
}

/// A binding of a modifier set and a key.
fn bound(meta: bool, alt: bool, shift: bool, key: &str, action: Action) -> (r: Keybind)
    ensures
        r@ == binding(meta, alt, shift, key@, action@),
{
    Keybind { meta, ctrl: false, alt, shift, key: key.to_string(), action }
}

/// Sensible default bindings, used when the config file lists none.
pub fn defaults() -> (r: Vec<Keybind>)
    ensures
        keybind_views(r@) == default_keybinds(),
{
    let mut binds: Vec<Keybind> = Vec::new();
    binds.push(bound(true, false, false, "d", Action::StartMenu));
    binds.push(bound(true, false, false, "space", Action::Launcher));
    binds.push(bound(true, false, false, "return", Action::Spawn("alacritty".to_string())));
    binds.push(bound(true, false, false, "e", Action::Spawn("s-files".to_string())));
    binds.push(bound(true, false, false, "l", Action::Lock));
    binds.push(bound(true, false, false, "q", Action::CloseWindow));
    binds.push(bound(false, true, false, "tab", Action::NextWindow));
    binds.push(bound(false, true, true, "tab", Action::PrevWindow));
    binds.push(bound(true, false, false, ",", Action::Settings));
    binds.push(bound(true, false, false, "=", Action::VolumeUp));
    binds.push(bound(true, false, false, "-", Action::VolumeDown));
    binds.push(bound(true, false, false, "0", Action::VolumeMute));
    binds.push(bound(true, false, false, "left", Action::SnapLeft));
    binds.push(bound(true, false, false, "right", Action::SnapRight));
    binds.push(bound(true, false, false, "up", Action::Maximize));
    binds.push(bound(true, false, false, "down", Action::SnapDown));
    binds.push(bound(true, false, false, "p", Action::Screenshot));
    binds.push(bound(true, false, false, "1", Action::Workspace(1)));
    binds.push(bound(true, false, true, "1", Action::MoveToWorkspace(1)));
    binds.push(bound(true, false, false, "2", Action::Workspace(2)));
    binds.push(bound(true, false, true, "2", Action::MoveToWorkspace(2)));
    binds.push(bound(true, false, false, "3", Action::Workspace(3)));
    binds.push(bound(true, false, true, "3", Action::MoveToWorkspace(3)));
    binds.push(bound(true, false, false, "4", Action::Workspace(4)));
    binds.push(bound(true, false, true, "4", Action::MoveToWorkspace(4)));
    assert(keybind_views(binds@) =~= default_keybinds());
    binds
}

/// A letter or a digit is a canonical key.
proof fn lemma_character_key(c: char)
    requires
        'a' <= c <= 'z' || '0' <= c <= '9',
    ensures
        canonical_key(seq![c]),
{
    lemma_key_literals();
    assert(lower(seq![c]) =~= seq![c]);
    assert(seq![c][0] == c);
}

/// The letters and digits of the default bindings are canonical keys.
proof fn lemma_default_characters()
    ensures
        canonical_key("d"@),
        canonical_key("e"@),
        canonical_key("l"@),
        canonical_key("q"@),
        canonical_key("0"@),
        canonical_key("p"@),
        canonical_key("1"@),
        canonical_key("2"@),
        canonical_key("3"@),
        canonical_key("4"@),
{
    reveal_strlit("d");
    assert("d"@ =~= seq!['d']);
    lemma_character_key('d');
    reveal_strlit("e");
    assert("e"@ =~= seq!['e']);
    lemma_character_key('e');
    reveal_strlit("l");
    assert("l"@ =~= seq!['l']);
    lemma_character_key('l');
    reveal_strlit("q");
    assert("q"@ =~= seq!['q']);
    lemma_character_key('q');
    reveal_strlit("0");
    assert("0"@ =~= seq!['0']);
    lemma_character_key('0');
    reveal_strlit("p");
    assert("p"@ =~= seq!['p']);
    lemma_character_key('p');
    reveal_strlit("1");
    assert("1"@ =~= seq!['1']);
    lemma_character_key('1');
    reveal_strlit("2");
    assert("2"@ =~= seq!['2']);
    lemma_character_key('2');
    reveal_strlit("3");
    assert("3"@ =~= seq!['3']);
    lemma_character_key('3');
    reveal_strlit("4");
    assert("4"@ =~= seq!['4']);
    lemma_character_key('4');
}

/// The named keys of the default bindings are canonical.
proof fn lemma_default_names()
    ensures
        canonical_key("return"@),
        canonical_key("space"@),
        canonical_key("tab"@),
        canonical_key("left"@),
        canonical_key("right"@),
        canonical_key("up"@),
        canonical_key("down"@),
        canonical_key("-"@),
        canonical_key("="@),
        canonical_key(","@),
{
    lemma_key_literals();
    assert(lower("return"@) =~= "return"@);
    assert(lower("space"@) =~= "space"@);
    assert(lower("tab"@) =~= "tab"@);
    assert(lower("left"@) =~= "left"@);
    assert(lower("right"@) =~= "right"@);
    assert(lower("up"@) =~= "up"@);
    assert(lower("down"@) =~= "down"@);
    assert(lower("-"@) =~= "-"@);
    assert(lower(","@) =~= ","@);
    assert("-"@[0] == '-' && "="@[0] == '=' && ","@[0] == ',');
    assert("+"@[0] == '+' && "."@[0] == '.');
}

/// The default bindings are valid: the text of each is read back as the binding,
/// so that a config file can list them.
pub proof fn law_defaults_are_valid(i: int)
    requires
        0 <= i < default_keybinds().len(),
    ensures
        read_keybind(keybind_text(default_keybinds()[i])) == Some(default_keybinds()[i]),
{
    lemma_default_characters();
    lemma_default_names();
    reveal_strlit("alacritty");
    reveal_strlit("s-files");
    lemma_keybind_text_round_trip(default_keybinds()[i]);
}

/// The actions that take no argument are written and read under their documented
/// names; `run`, `close` and `mute` are read too.
pub proof fn law_actions_have_their_names()
    ensures
        read_action("start-menu"@) == Some(ActionView::StartMenu),
        action_text(ActionView::StartMenu) == "start-menu"@,
        read_action("launcher"@) == Some(ActionView::Launcher),
        action_text(ActionView::Launcher) == "launcher"@,
        read_action("settings"@) == Some(ActionView::Settings),
        action_text(ActionView::Settings) == "settings"@,
        read_action("quick-settings"@) == Some(ActionView::QuickSettings),
        action_text(ActionView::QuickSettings) == "quick-settings"@,
        read_action("lock"@) == Some(ActionView::Lock),
        action_text(ActionView::Lock) == "lock"@,
        read_action("logout"@) == Some(ActionView::Logout),
        action_text(ActionView::Logout) == "logout"@,
        read_action("close-window"@) == Some(ActionView::CloseWindow),
        action_text(ActionView::CloseWindow) == "close-window"@,
        read_action("next-window"@) == Some(ActionView::NextWindow),
        action_text(ActionView::NextWindow) == "next-window"@,
        read_action("prev-window"@) == Some(ActionView::PrevWindow),
        action_text(ActionView::PrevWindow) == "prev-window"@,
        read_action("workspace-next"@) == Some(ActionView::WorkspaceNext),
        action_text(ActionView::WorkspaceNext) == "workspace-next"@,
        read_action("workspace-prev"@) == Some(ActionView::WorkspacePrev),
        action_text(ActionView::WorkspacePrev) == "workspace-prev"@,
        read_action("volume-up"@) == Some(ActionView::VolumeUp),
        action_text(ActionView::VolumeUp) == "volume-up"@,
        read_action("volume-down"@) == Some(ActionView::VolumeDown),
        action_text(ActionView::VolumeDown) == "volume-down"@,
        read_action("volume-mute"@) == Some(ActionView::VolumeMute),
        action_text(ActionView::VolumeMute) == "volume-mute"@,
        read_action("snap-left"@) == Some(ActionView::SnapLeft),
        action_text(ActionView::SnapLeft) == "snap-left"@,
        read_action("snap-right"@) == Some(ActionView::SnapRight),
        action_text(ActionView::SnapRight) == "snap-right"@,
        read_action("snap-up"@) == Some(ActionView::SnapUp),
        action_text(ActionView::SnapUp) == "snap-up"@,
        read_action("snap-down"@) == Some(ActionView::SnapDown),
        action_text(ActionView::SnapDown) == "snap-down"@,
        read_action("maximize"@) == Some(ActionView::Maximize),
        action_text(ActionView::Maximize) == "maximize"@,
        read_action("screenshot"@) == Some(ActionView::Screenshot),
        action_text(ActionView::Screenshot) == "screenshot"@,
        read_action("run"@) == Some(ActionView::Launcher),
        read_action("close"@) == Some(ActionView::CloseWindow),
        read_action("mute"@) == Some(ActionView::VolumeMute),
{
    lemma_action_round_trip(ActionView::StartMenu);
    lemma_action_round_trip(ActionView::Launcher);
    lemma_action_round_trip(ActionView::Settings);
    lemma_action_round_trip(ActionView::QuickSettings);
    lemma_action_round_trip(ActionView::Lock);
    lemma_action_round_trip(ActionView::Logout);
    lemma_action_round_trip(ActionView::CloseWindow);
    lemma_action_round_trip(ActionView::NextWindow);
    lemma_action_round_trip(ActionView::PrevWindow);
    lemma_action_round_trip(ActionView::WorkspaceNext);
    lemma_action_round_trip(ActionView::WorkspacePrev);
    lemma_action_round_trip(ActionView::VolumeUp);
    lemma_action_round_trip(ActionView::VolumeDown);
    lemma_action_round_trip(ActionView::VolumeMute);
    lemma_action_round_trip(ActionView::SnapLeft);
    lemma_action_round_trip(ActionView::SnapRight);
    lemma_action_round_trip(ActionView::SnapUp);
    lemma_action_round_trip(ActionView::SnapDown);
    lemma_action_round_trip(ActionView::Maximize);
    lemma_action_round_trip(ActionView::Screenshot);
    lemma_action_literals();
    reveal_strlit("spawn:");
    reveal_strlit("workspace:");
    reveal_strlit("move-to-workspace:");
    reveal_strlit("run");
    reveal_strlit("close");
    reveal_strlit("mute");
    lemma_no_prefix("run"@, "spawn:"@, 0);
    lemma_no_prefix("run"@, "workspace:"@, 0);
    lemma_no_prefix("run"@, "move-to-workspace:"@, 0);
    lemma_no_prefix("close"@, "spawn:"@, 0);
    lemma_no_prefix("close"@, "workspace:"@, 0);
    lemma_no_prefix("close"@, "move-to-workspace:"@, 0);
    lemma_no_prefix("mute"@, "spawn:"@, 0);
    lemma_no_prefix("mute"@, "workspace:"@, 0);
    lemma_no_prefix("mute"@, "move-to-workspace:"@, 1);
}

/// The actions that take an argument: the text behind `spawn:`, and the number
/// behind `workspace:` or `move-to-workspace:`.
pub proof fn law_actions_have_their_arguments(cmd: Seq<char>, n: u32)
    ensures
        action_text(ActionView::Spawn(cmd)) == "spawn:"@ + cmd,
        action_text(ActionView::Workspace(n)) == "workspace:"@ + decimal(n as nat),
        action_text(ActionView::MoveToWorkspace(n)) == "move-to-workspace:"@ + decimal(n as nat),
        read_action("spawn:"@ + cmd) == Some(ActionView::Spawn(trim(cmd))),
        read_action("workspace:"@ + decimal(n as nat)) == Some(ActionView::Workspace(n)),
        read_action("move-to-workspace:"@ + decimal(n as nat)) == Some(
            ActionView::MoveToWorkspace(n),
        ),
{
    lemma_action_round_trip(ActionView::Workspace(n));
    lemma_action_round_trip(ActionView::MoveToWorkspace(n));
    lemma_after_prefix("spawn:"@, cmd);
}

/// A modifier is on exactly if one of the pieces of the combination names it, in
/// any case: `Super`, `Meta`, `Mod` or `Win`; `Ctrl` or `Control`; `Alt`; `Shift`.
/// Other pieces name the key; the last of them counts.
pub proof fn law_combinations_name_modifiers_and_a_key(pieces: Seq<Seq<char>>)
    ensures
        ({
            let c = read_pieces(no_combo(), pieces);
            &&& c.meta <==> exists|i: int|
                0 <= i < pieces.len() && {
                    let t = lower(trim(#[trigger] pieces[i]));
                    t == "super"@ || t == "meta"@ || t == "mod"@ || t == "win"@
                }
            &&& c.ctrl <==> exists|i: int|
                0 <= i < pieces.len() && {
                    let t = lower(trim(#[trigger] pieces[i]));
                    t == "ctrl"@ || t == "control"@
                }
            &&& c.alt <==> exists|i: int|
                0 <= i < pieces.len() && lower(trim(#[trigger] pieces[i])) == "alt"@
            &&& c.shift <==> exists|i: int|
                0 <= i < pieces.len() && lower(trim(#[trigger] pieces[i])) == "shift"@
            &&& match c.key {
                Some(key) => exists|i: int|
                    0 <= i < pieces.len() && names_key(#[trigger] pieces[i]) && key == named_key(
                        lower(trim(pieces[i])),
                    ) && forall|k: int| i < k < pieces.len() ==> !names_key(#[trigger] pieces[k]),
                None => forall|k: int| 0 <= k < pieces.len() ==> !names_key(#[trigger] pieces[k]),
            }
        }),
    decreases pieces.len(),
{
    lemma_modifier_literals();
    if pieces.len() > 0 {
        let less = pieces.drop_last();
        let last = pieces.len() - 1;
        law_combinations_name_modifiers_and_a_key(less);
        lemma_read_last(no_combo(), pieces);
        assert forall|i: int| 0 <= i < last implies less[i] == #[trigger] pieces[i] by {}
        assert(pieces.last() == pieces[last]);
        let c = read_pieces(no_combo(), less);
        let d = read_pieces(no_combo(), pieces);
        let t = lower(trim(pieces[last]));
        assert(trim(pieces[last]).len() == t.len());
        assert(d == read_token(c, trim(pieces[last])));
        if c.meta {
            let i = choose|i: int|
                0 <= i < less.len() && {
                    let t = lower(trim(#[trigger] less[i]));
                    t == "super"@ || t == "meta"@ || t == "mod"@ || t == "win"@
                };
            assert(pieces[i] == less[i]);
        }
        if c.ctrl {
            let i = choose|i: int|
                0 <= i < less.len() && {
                    let t = lower(trim(#[trigger] less[i]));
                    t == "ctrl"@ || t == "control"@
                };
            assert(pieces[i] == less[i]);
        }
        if c.alt {
            let i = choose|i: int|
                0 <= i < less.len() && lower(trim(#[trigger] less[i])) == "alt"@;
            assert(pieces[i] == less[i]);
        }
        if c.shift {
            let i = choose|i: int|
                0 <= i < less.len() && lower(trim(#[trigger] less[i])) == "shift"@;
            assert(pieces[i] == less[i]);
        }
        if let Some(key) = c.key {
            let i = choose|i: int|
                0 <= i < less.len() && names_key(#[trigger] less[i]) && key == named_key(
                    lower(trim(less[i])),
                ) && forall|k: int| i < k < less.len() ==> !names_key(#[trigger] less[k]);
            assert(pieces[i] == less[i]);
            assert forall|k: int| i < k < last implies !names_key(#[trigger] pieces[k]) by {
                assert(less[k] == pieces[k]);
            }
        } else {
            assert forall|k: int| 0 <= k < last implies !names_key(#[trigger] pieces[k]) by {
                assert(less[k] == pieces[k]);
            }
        }
    }
}

/// The piece of a combination names a key: it is neither blank nor a modifier.
pub open spec fn names_key(piece: Seq<char>) -> bool {
    let t = lower(trim(piece));
    t.len() > 0 && t != "super"@ && t != "meta"@ && t != "mod"@ && t != "win"@ && t != "ctrl"@ && t
        != "control"@ && t != "alt"@ && t != "shift"@
}

/// The last piece of a combination is read last.
proof fn lemma_read_last(c: Combo, pieces: Seq<Seq<char>>)
    requires
        pieces.len() > 0,
    ensures
        read_pieces(c, pieces) == read_token(
            read_pieces(c, pieces.drop_last()),
            trim(pieces.last()),
        ),
    decreases pieces.len(),
{
    if pieces.len() == 1 {
        assert(pieces.drop_last() =~= seq![]);
        assert(pieces.drop_first() =~= seq![]);
        assert(read_pieces(c, pieces.drop_last()) == c);
        assert(read_pieces(read_token(c, trim(pieces[0])), pieces.drop_first()) == read_token(
            c,
            trim(pieces[0]),
        ));
    } else {
        lemma_read_last(read_token(c, trim(pieces[0])), pieces.drop_first());
        assert(pieces.drop_first().drop_last() =~= pieces.drop_last().drop_first());
        assert(pieces.drop_first().last() == pieces.last());
        assert(pieces.drop_last()[0] == pieces[0]);
    }
}

/// The names of the modifiers differ, and none is empty.
proof fn lemma_modifier_literals()
    ensures
        "super"@.len() == 5 && "meta"@.len() == 4 && "mod"@.len() == 3 && "win"@.len() == 3,
        "ctrl"@.len() == 4 && "control"@.len() == 7 && "alt"@.len() == 3 && "shift"@.len() == 5,
        "super"@[1] == 'u' && "shift"@[1] == 'h',
        "meta"@[0] == 'm' && "ctrl"@[0] == 'c',
        "mod"@[0] == 'm' && "win"@[0] == 'w' && "alt"@[0] == 'a',
{
    reveal_strlit("super");
    reveal_strlit("meta");
    reveal_strlit("mod");
    reveal_strlit("win");
    reveal_strlit("ctrl");
    reveal_strlit("control");
    reveal_strlit("alt");
    reveal_strlit("shift");
}

/// A key named in a binding and the key event it is meant for have the same key:
/// `Return` or `Enter` the line feed and the carriage return, `Space` the space,
/// `Escape` or `Esc`, `Tab` and the arrows their characters, and the punctuation
/// its signs. Any other text names itself, whatever its case.
pub proof fn law_key_names_match_their_events(text: Seq<char>)
    ensures
        text_key("\n"@) == named_key("return"@) && text_key("\r"@) == named_key("return"@),
        named_key("enter"@) == named_key("return"@) && named_key("return"@) == "return"@,
        text_key(" "@) == named_key("space"@) && named_key("space"@) == "space"@,
        text_key("\u{1b}"@) == named_key("escape"@) && named_key("esc"@) == named_key("escape"@),
        named_key("escape"@) == "escape"@,
        text_key("\t"@) == named_key("tab"@) && named_key("tab"@) == "tab"@,
        text_key("\u{f700}"@) == named_key("up"@) && named_key("up"@) == "up"@,
        text_key("\u{f701}"@) == named_key("down"@) && named_key("down"@) == "down"@,
        text_key("\u{f702}"@) == named_key("left"@) && named_key("left"@) == "left"@,
        text_key("\u{f703}"@) == named_key("right"@) && named_key("right"@) == "right"@,
        named_key("minus"@) == "-"@ && named_key("equal"@) == "="@ && named_key("plus"@) == "+"@,
        named_key("comma"@) == ","@ && named_key("period"@) == "."@,
        text.len() > 1 || (text.len() == 1 && '!' <= text[0] <= '~') ==> text_key(text) == lower(
            text,
        ),
        text.len() == 1 ==> named_key(text) == text,
{
    lemma_text_literals();
}

/// The texts and names of keys.
proof fn lemma_text_literals()
    ensures
        "\n"@.len() == 1 && "\n"@[0] == '\n',
        "\r"@.len() == 1 && "\r"@[0] == '\r',
        " "@.len() == 1 && " "@[0] == ' ',
        "\t"@.len() == 1 && "\t"@[0] == '\t',
        "\u{1b}"@.len() == 1 && "\u{1b}"@[0] == '\u{1b}',
        "\u{f700}"@.len() == 1 && "\u{f700}"@[0] == '\u{f700}',
        "\u{f701}"@.len() == 1 && "\u{f701}"@[0] == '\u{f701}',
        "\u{f702}"@.len() == 1 && "\u{f702}"@[0] == '\u{f702}',
        "\u{f703}"@.len() == 1 && "\u{f703}"@[0] == '\u{f703}',
        "return"@.len() == 6 && "enter"@.len() == 5 && "space"@.len() == 5 && "escape"@.len() == 6,
        "esc"@.len() == 3 && "tab"@.len() == 3 && "up"@.len() == 2 && "down"@.len() == 4,
        "left"@.len() == 4 && "right"@.len() == 5 && "minus"@.len() == 5 && "equal"@.len() == 5,
        "plus"@.len() == 4 && "comma"@.len() == 5 && "period"@.len() == 6,
        "enter"@[1] == 'n' && "space"@[1] == 'p' && "right"@[1] == 'i' && "minus"@[1] == 'i',
        "minus"@[0] == 'm' && "right"@[0] == 'r' && "equal"@[1] == 'q' && "comma"@[1] == 'o',
        "return"@[0] == 'r' && "escape"@[0] == 'e' && "period"@[0] == 'p',
        "esc"@[0] == 'e' && "tab"@[0] == 't',
        "down"@[0] == 'd' && "left"@[0] == 'l' && "plus"@[0] == 'p',
{
    reveal_strlit("\n");
    reveal_strlit("\r");
    reveal_strlit(" ");
    reveal_strlit("\t");
    reveal_strlit("\u{1b}");
    reveal_strlit("\u{f700}");
    reveal_strlit("\u{f701}");
    reveal_strlit("\u{f702}");
    reveal_strlit("\u{f703}");
    reveal_strlit("return");
    reveal_strlit("enter");
    reveal_strlit("space");
    reveal_strlit("escape");
    reveal_strlit("esc");
    reveal_strlit("tab");
    reveal_strlit("up");
    reveal_strlit("down");
    reveal_strlit("left");
    reveal_strlit("right");
    reveal_strlit("minus");
    reveal_strlit("equal");
    reveal_strlit("plus");
    reveal_strlit("comma");
    reveal_strlit("period");
}

/// The default bindings are those that are documented, and there are no others;
/// `Super` with a digit goes to a workspace, and with `Shift` sends a window there.
pub proof fn law_defaults_are_as_documented()
    ensures
        default_keybinds().len() == 25,
        default_keybinds().contains(
            (KeybindView {
                meta: true,
                ctrl: false,
                alt: false,
                shift: false,
                key: "d"@,
                action: ActionView::StartMenu,
            }),
        ),
        default_keybinds().contains(
            (KeybindView {
                meta: true,
                ctrl: false,
                alt: false,
                shift: false,
                key: "space"@,
                action: ActionView::Launcher,
            }),
        ),
        default_keybinds().contains(
            (KeybindView {
                meta: true,
                ctrl: false,
                alt: false,
                shift: false,
                key: "return"@,
                action: ActionView::Spawn("alacritty"@),
            }),
        ),
        default_keybinds().contains(
            (KeybindView {
                meta: true,
                ctrl: false,
                alt: false,
                shift: false,
                key: "e"@,
                action: ActionView::Spawn("s-files"@),
            }),
        ),
        default_keybinds().contains(
            (KeybindView {
                meta: true,
                ctrl: false,
                alt: false,
                shift: false,
                key: "l"@,
                action: ActionView::Lock,
            }),
        ),
        default_keybinds().contains(
            (KeybindView {
                meta: true,
                ctrl: false,
                alt: false,
                shift: false,
                key: "q"@,
                action: ActionView::CloseWindow,
            }),
        ),
        default_keybinds().contains(
            (KeybindView {
                meta: false,
                ctrl: false,
                alt: true,
                shift: false,
                key: "tab"@,
                action: ActionView::NextWindow,
            }),
        ),
        default_keybinds().contains(
            (KeybindView {
                meta: false,
                ctrl: false,
                alt: true,
                shift: true,
                key: "tab"@,
                action: ActionView::PrevWindow,
            }),
        ),
        default_keybinds().contains(
            (KeybindView {
                meta: true,
                ctrl: false,
                alt: false,
                shift: false,
                key: ","@,
                action: ActionView::Settings,
            }),
        ),
        default_keybinds().contains(
            (KeybindView {
                meta: true,
                ctrl: false,
                alt: false,
                shift: false,
                key: "="@,
                action: ActionView::VolumeUp,
            }),
        ),
        default_keybinds().contains(
            (KeybindView {
                meta: true,
                ctrl: false,
                alt: false,
                shift: false,
                key: "-"@,
                action: ActionView::VolumeDown,
            }),
        ),
        default_keybinds().contains(
            (KeybindView {
                meta: true,
                ctrl: false,
                alt: false,
                shift: false,
                key: "0"@,
                action: ActionView::VolumeMute,
            }),
        ),
        default_keybinds().contains(
            (KeybindView {
                meta: true,
                ctrl: false,
                alt: false,
                shift: false,
                key: "left"@,
                action: ActionView::SnapLeft,
            }),
        ),
        default_keybinds().contains(
            (KeybindView {
                meta: true,
                ctrl: false,
                alt: false,
                shift: false,
                key: "right"@,
                action: ActionView::SnapRight,
            }),
        ),
        default_keybinds().contains(
            (KeybindView {
                meta: true,
                ctrl: false,
                alt: false,
                shift: false,
                key: "up"@,
                action: ActionView::Maximize,
            }),
        ),
        default_keybinds().contains(
            (KeybindView {
                meta: true,
                ctrl: false,
                alt: false,
                shift: false,
                key: "down"@,
                action: ActionView::SnapDown,
            }),
        ),
        default_keybinds().contains(
            (KeybindView {
                meta: true,
                ctrl: false,
                alt: false,
                shift: false,
                key: "p"@,
                action: ActionView::Screenshot,
            }),
        ),
        forall|n: int|
            1 <= n <= 4 ==> {
                &&& #[trigger] default_keybinds()[15 + 2 * n] == (KeybindView {
                    meta: true,
                    ctrl: false,
                    alt: false,
                    shift: false,
                    key: if n == 1 {
                        "1"@
                    } else if n == 2 {
                        "2"@
                    } else if n == 3 {
                        "3"@
                    } else {
                        "4"@
                    },
                    action: ActionView::Workspace(n as u32),
                })
                &&& default_keybinds()[16 + 2 * n] == (KeybindView {
                    shift: true,
                    action: ActionView::MoveToWorkspace(n as u32),
                    ..default_keybinds()[15 + 2 * n]
                })
            },
{
    assert(default_keybinds()[0].key == "d"@);
    assert(default_keybinds()[1].key == "space"@);
    assert(default_keybinds()[2].key == "return"@);
    assert(default_keybinds()[3].key == "e"@);
    assert(default_keybinds()[4].key == "l"@);
    assert(default_keybinds()[5].key == "q"@);
    assert(default_keybinds()[6].key == "tab"@);
    assert(default_keybinds()[7].key == "tab"@);
    assert(default_keybinds()[8].key == ","@);
    assert(default_keybinds()[9].key == "="@);
    assert(default_keybinds()[10].key == "-"@);
    assert(default_keybinds()[11].key == "0"@);
    assert(default_keybinds()[12].key == "left"@);
    assert(default_keybinds()[13].key == "right"@);
    assert(default_keybinds()[14].key == "up"@);
    assert(default_keybinds()[15].key == "down"@);
    assert(default_keybinds()[16].key == "p"@);
}

/// A binding is written with the names of its modifiers, in the order Super, Ctrl,
/// Alt, Shift, then its key and its action; only the keys that clash with the syntax,
/// and those that are named, have names of their own.
pub proof fn law_bindings_are_written_in_order(b: KeybindView)
    ensures
        keybind_text(b) == combo_text(b) + " = "@ + action_text(b.action),
        b.meta && b.ctrl && b.alt && b.shift ==> combo_text(b) == "Super"@.push('+') + ("Ctrl"@.push(
            '+',
        ) + ("Alt"@.push('+') + ("Shift"@.push('+') + key_name(b.key)))),
        !b.meta && !b.ctrl && !b.alt && !b.shift ==> combo_text(b) == key_name(b.key),
        key_name("return"@) == "Return"@ && key_name("="@) == "Equal"@ && key_name("+"@) == "Plus"@,
        b.key.len() == 1 && 'a' <= b.key[0] <= 'z' ==> key_name(b.key) == b.key,
{
    reveal_strlit("return");
    reveal_strlit("space");
    reveal_strlit("escape");
    reveal_strlit("tab");
    reveal_strlit("-");
    reveal_strlit("=");
    reveal_strlit("+");
    reveal_strlit(",");
    reveal_strlit(".");
    assert("="@[0] == '=' && "+"@[0] == '+' && "-"@[0] == '-');
    assert(","@[0] == ',' && "."@[0] == '.');
    assert("="@.len() == 1 && "+"@.len() == 1 && "return"@.len() == 6 && "space"@.len() == 5);
    assert("escape"@.len() == 6 && "tab"@.len() == 3);
    if !b.meta && !b.ctrl && !b.alt && !b.shift {
        assert(combo_text(b) =~= key_name(b.key));
    }
}

} // verus!
