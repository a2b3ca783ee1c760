use s_compositor::desktop::actions::{find_binding, key_window, KeyDecision};
use s_compositor::keybind::{defaults, key_to_name, normalize_text, parse, Action};
use s_compositor::keycode::{evdev_button, evdev_keycode, forward_key, KeyEvent};

#[test]
fn parses_modifiers_and_action() {
    let b = parse("Super+Shift+Return = spawn:foot").unwrap();
    assert!(b.meta && b.shift && !b.ctrl && !b.alt);
    assert_eq!(b.key, "return");
    assert_eq!(b.action, Action::Spawn("foot".into()));
}

#[test]
fn matches_normalized_event() {
    let b = parse("Alt+Tab = next-window").unwrap();
    assert!(b.matches(&normalize_text("\t"), false, true, false, false));
    assert!(!b.matches(&normalize_text("\t"), true, true, false, false));
}

#[test]
fn letters_are_case_insensitive() {
    let b = parse("Super+Q = close-window").unwrap();
    assert!(b.matches(&normalize_text("Q"), false, false, false, true));
    assert!(b.matches(&normalize_text("q"), false, false, false, true));
}

#[test]
fn round_trips_through_config_string() {
    for spec in ["Super+d = start-menu", "Super+Equal = volume-up"] {
        let b = parse(spec).unwrap();
        let reparsed = parse(&b.to_config_string()).unwrap();
        assert_eq!(b, reparsed);
    }
}

#[test]
fn defaults_are_valid() {
    assert!(!defaults().is_empty());
}

#[test]
fn defaults_round_trip() {
    for b in defaults() {
        assert_eq!(parse(&b.to_config_string()), Some(b));
    }
}

#[test]
fn defaults_tile_with_arrows_and_take_screenshots() {
    let binds = defaults();
    let action = |text: &str| {
        let i = find_binding(&binds, text, false, false, false, true).unwrap();
        binds[i].action.clone()
    };
    assert_eq!(action("\u{f702}"), Action::SnapLeft);
    assert_eq!(action("\u{f703}"), Action::SnapRight);
    assert_eq!(action("\u{f700}"), Action::Maximize);
    assert_eq!(action("p"), Action::Screenshot);
    assert_eq!(action("3"), Action::Workspace(3));
}

#[test]
fn arrow_keys_are_written_as_they_are_named() {
    let b = parse("Super+Left = snap-left").unwrap();
    assert_eq!(b.key, "left");
    assert_eq!(b.to_config_string(), "Super+left = snap-left");
    assert_eq!(key_to_name("down"), "down");
    assert_eq!(key_to_name("tab"), "Tab");
}

#[test]
fn every_documented_action_parses() {
    let documented = [
        ("spawn:alacritty", Action::Spawn("alacritty".into())),
        ("start-menu", Action::StartMenu),
        ("launcher", Action::Launcher),
        ("settings", Action::Settings),
        ("quick-settings", Action::QuickSettings),
        ("lock", Action::Lock),
        ("logout", Action::Logout),
        ("close-window", Action::CloseWindow),
        ("next-window", Action::NextWindow),
        ("prev-window", Action::PrevWindow),
        ("workspace:2", Action::Workspace(2)),
        ("move-to-workspace:4", Action::MoveToWorkspace(4)),
        ("workspace-next", Action::WorkspaceNext),
        ("workspace-prev", Action::WorkspacePrev),
        ("volume-up", Action::VolumeUp),
        ("volume-down", Action::VolumeDown),
        ("volume-mute", Action::VolumeMute),
        ("snap-left", Action::SnapLeft),
        ("snap-right", Action::SnapRight),
        ("snap-up", Action::SnapUp),
        ("snap-down", Action::SnapDown),
        ("maximize", Action::Maximize),
        ("screenshot", Action::Screenshot),
    ];
    for (text, action) in documented {
        let b = parse(&format!("Super+x = {text}")).unwrap();
        assert_eq!(b.action, action);
    }
}

#[test]
fn rejects_what_is_no_binding() {
    assert!(parse("Super+x").is_none());
    assert!(parse("Super = lock").is_none());
    assert!(parse("Super+x = fly").is_none());
    assert!(parse("Super+x = workspace:two").is_none());
}

#[test]
fn keycode_letters() {
    assert_eq!(evdev_keycode("a"), Some((30, false)));
    assert_eq!(evdev_keycode("z"), Some((44, false)));
    // Uppercase requires shift.
    assert_eq!(evdev_keycode("A"), Some((30, true)));
    assert_eq!(evdev_keycode("Q"), Some((16, true)));
}

#[test]
fn keycode_digits_and_symbols() {
    assert_eq!(evdev_keycode("1"), Some((2, false)));
    assert_eq!(evdev_keycode("0"), Some((11, false)));
    // Shifted symbols share the digit keycodes.
    assert_eq!(evdev_keycode("!"), Some((2, true)));
    assert_eq!(evdev_keycode(")"), Some((11, true)));
    assert_eq!(evdev_keycode("/"), Some((53, false)));
    assert_eq!(evdev_keycode("?"), Some((53, true)));
}

#[test]
fn keycode_named_keys() {
    assert_eq!(evdev_keycode(" "), Some((57, false))); // Space
    assert_eq!(evdev_keycode("\u{000a}"), Some((28, false))); // Return
    assert_eq!(evdev_keycode("\u{0008}"), Some((14, false))); // Backspace
    assert_eq!(evdev_keycode("\u{0009}"), Some((15, false))); // Tab
    assert_eq!(evdev_keycode("\u{001b}"), Some((1, false))); // Escape
    assert_eq!(evdev_keycode("\u{f702}"), Some((105, false))); // Left arrow
}

#[test]
fn keycode_unmapped() {
    assert_eq!(evdev_keycode(""), None);
    assert_eq!(evdev_keycode("ab"), None); // more than one char
    assert_eq!(evdev_keycode("€"), None);
}

#[test]
fn keycode_table_is_the_us_layout() {
    let plain = [
        ('b', 48), ('c', 46), ('d', 32), ('e', 18), ('f', 33), ('g', 34), ('h', 35), ('i', 23),
        ('j', 36), ('k', 37), ('l', 38), ('m', 50), ('n', 49), ('o', 24), ('p', 25), ('q', 16),
        ('r', 19), ('s', 31), ('t', 20), ('u', 22), ('v', 47), ('w', 17), ('x', 45), ('y', 21),
        ('2', 3), ('5', 6), ('9', 10), ('-', 12), ('=', 13), ('[', 26), (']', 27), ('\\', 43),
        (';', 39), ('\'', 40), ('`', 41), (',', 51), ('.', 52),
    ];
    for (c, code) in plain {
        assert_eq!(evdev_keycode(&c.to_string()), Some((code, false)));
    }
    let shifted = [
        ('@', 3), ('#', 4), ('$', 5), ('%', 6), ('^', 7), ('&', 8), ('*', 9), ('(', 10),
        ('_', 12), ('+', 13), ('{', 26), ('}', 27), ('|', 43), (':', 39), ('"', 40), ('~', 41),
        ('<', 51), ('>', 52),
    ];
    for (c, code) in shifted {
        assert_eq!(evdev_keycode(&c.to_string()), Some((code, true)));
    }
}

#[test]
fn buttons_map_to_evdev() {
    assert_eq!(evdev_button(1), 0x110); // left
    assert_eq!(evdev_button(2), 0x111); // right
    assert_eq!(evdev_button(3), 0x112); // middle
    assert_eq!(evdev_button(0), 0x110); // fallback
}

fn key(keycode: u32, pressed: bool) -> KeyEvent {
    KeyEvent { keycode, pressed }
}

#[test]
fn forwarded_keys_are_wrapped_in_modifiers() {
    assert_eq!(
        forward_key("A", true, false, false),
        vec![
            key(29, true),
            key(42, true),
            key(30, true),
            key(30, false),
            key(42, false),
            key(29, false),
        ]
    );
    assert_eq!(
        forward_key("x", false, true, false),
        vec![key(56, true), key(45, true), key(45, false), key(56, false)]
    );
    assert!(forward_key("€", true, true, true).is_empty());
}

#[test]
fn shortcuts_are_intercepted_and_other_keys_forwarded() {
    let binds = vec![
        parse("Super+q = close-window").unwrap(),
        parse("Super+q = lock").unwrap(),
    ];
    match key_window(&binds, "Q", true, false, false, false, true) {
        KeyDecision::Run(i) => assert_eq!(i, 0),
        other => panic!("{other:?}"),
    }
    match key_window(&binds, "q", true, false, false, false, false) {
        KeyDecision::Forward(events) => assert_eq!(events, vec![key(16, true), key(16, false)]),
        other => panic!("{other:?}"),
    }
    match key_window(&binds, "q", false, false, false, false, true) {
        KeyDecision::Forward(events) => assert_eq!(events.len(), 2),
        other => panic!("{other:?}"),
    }
}
