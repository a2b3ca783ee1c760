use s_compositor::config::{is_float_text, Config};
use s_compositor::keybind::{defaults, parse, Action};

#[test]
fn round_trip() {
    let config = Config {
        dark: false,
        accent: 0xa6e3a1,
        panel_edge: 2,
        panel_size: "96".to_string(),
        background: Some("/tmp/bg.png".to_string()),
        keybinds: Vec::new(),
        keyboard_layouts: Vec::new(),
    };
    let mut parsed = Config::default();
    parsed.apply_str(&config.to_text(96));
    assert_eq!(parsed, config);
}

#[test]
fn settings_round_trip_from_any_start() {
    let config = Config {
        dark: true,
        accent: 0x010203,
        panel_edge: 3,
        panel_size: "48".to_string(),
        background: None,
        keybinds: vec![parse("Super+t = launcher").unwrap()],
        keyboard_layouts: Vec::new(),
    };
    let mut start = Config {
        dark: false,
        accent: 0xffffff,
        panel_edge: -2,
        panel_size: "1.5".to_string(),
        background: Some("/old.png".to_string()),
        keybinds: vec![parse("Super+l = lock").unwrap()],
        keyboard_layouts: vec!["us".to_string()],
    };
    start.apply_str(&config.to_text(48));
    assert_eq!((start.dark, start.accent, start.panel_edge), (true, 0x010203, 3));
    assert_eq!((start.panel_size.as_str(), &start.background), ("48", &None));
    let actions: Vec<Action> = start.keybinds.into_iter().map(|b| b.action).collect();
    assert_eq!(actions, [Action::Lock, Action::Launcher]);
    assert_eq!(start.keyboard_layouts, ["us"]);
}

#[test]
fn defaults_and_partial_parse() {
    let mut c = Config::default();
    assert!(c.dark);
    c.apply_str("# comment\nscheme=light\naccent = #ff0000\nbogus line\n");
    assert!(!c.dark);
    assert_eq!(c.accent, 0xff0000);
    // Unspecified keys keep their defaults.
    assert_eq!(c.panel_edge, 0);
}

#[test]
fn text_of_the_defaults() {
    assert_eq!(
        Config::default().to_text(72),
        "# s-compositor settings\nscheme = dark\naccent = #89b4fa\npanel_edge = 0\n\
         panel_size = 72\nbackground = \n"
    );
    assert_eq!(Config::default().panel_size.parse::<f32>().unwrap(), 72.0);
}

#[test]
fn shortcuts_and_layouts_round_trip() {
    let config = Config {
        dark: true,
        accent: 0x000102,
        panel_edge: -1,
        panel_size: "-7".to_string(),
        background: None,
        keybinds: vec![
            parse("Super+Return = spawn:alacritty -e top").unwrap(),
            parse("Ctrl+Alt+plus = volume-up").unwrap(),
        ],
        keyboard_layouts: vec!["us".to_string(), "fr".to_string(), "de".to_string()],
    };
    let text = config.to_text(-7);
    assert!(text.contains("bind = Super+Return = spawn:alacritty -e top\n"));
    assert!(text.contains("keyboard_layouts = us,fr,de\n"));
    let mut parsed = Config::default();
    parsed.apply_str(&text);
    assert_eq!(parsed, config);
}

#[test]
fn values_that_do_not_parse_change_nothing() {
    let mut c = Config::default();
    c.apply_str("accent = #xyz\npanel_edge = left\npanel_size = wide\nbind = nonsense\n");
    assert_eq!(c, Config::default());
}

#[test]
fn values_are_read_leniently() {
    let mut c = Config::default();
    c.apply_str(
        "  accent =  ##FF123456 \r\n panel_edge=+3\r\npanel_size = 1.5e2\r\nbackground=/a b \
         \nbackground =\nscheme = LIGHT\nkeyboard_layouts = us , ,fr\n",
    );
    assert_eq!(c.accent, 0x123456);
    assert_eq!(c.panel_edge, 3);
    assert_eq!(c.panel_size.parse::<f32>().unwrap(), 150.0);
    assert_eq!(c.background, None);
    assert!(c.dark);
    assert_eq!(c.keyboard_layouts, vec!["us".to_string(), "fr".to_string()]);
}

#[test]
fn float_texts_are_those_that_parse() {
    let texts = [
        "72", "72.0", ".5", "5.", ".", "", "+", "-3.25", "+1e9", "1e", "1e+", "e5", "1e-7", "inf",
        "-Infinity", "NaN", "nanx", "1_000", "0x10", " 1", "1.2.3", "1e5.0", "--1", "infinit", "٣",
    ];
    for text in texts {
        assert_eq!(is_float_text(text), text.parse::<f32>().is_ok(), "{text:?}");
    }
}

#[test]
fn no_bind_lines_mean_the_default_shortcuts() {
    let mut c = Config::default();
    assert_eq!(c.effective_keybinds(), defaults());
    assert!(!c.layout_switcher());
    c.apply_str("bind = Super+x = lock\nkeyboard_layouts = us,fr\n");
    let binds = c.effective_keybinds();
    assert_eq!(binds.len(), 1);
    assert_eq!(binds[0].action, Action::Lock);
    assert!(c.layout_switcher());
}
