use s_compositor::icons::{
    data_dirs, desktop_files, desktop_files_by, desktop_icon_name, find_icon_file, icon_key,
    icon_paths, resolve, resolve_by, Cached, IconCache,
};
use s_compositor::launch::{spawn_command, x_display_name, EnvChange};
use s_compositor::launcher::{filter_apps, launcher_query, AppEntry};
use s_compositor::network::{
    connect_settings, merge_networks, scan, serve, wifi_device, AccessPoint, NetCommand, NetEvent,
    NetStep, SettingValue, WifiNet, WifiPanel,
};
use s_compositor::notify::{NotifyEvent, Notifications, Server};
use s_compositor::services::{
    appearance_scheme, color_to_u32, open_file_reply, read_battery, request_title, u32_to_color,
    volume_step, wait_ready, ContextState, Outcome, PowerAction, VolAction, VolCommand, VolWake,
};
use s_compositor::sysmon::{cpu_load, read_cpu_times, read_mem};
use s_compositor::tray::{
    apply_tray_update, best_pixmap, image_from_rgba, IconPixmap, IconSource, TrayEvent, TrayIcon,
    TrayItemInfo, TrayItems, TrayUpdate,
};

fn strings(list: &[&str]) -> Vec<String> {
    list.iter().map(|s| s.to_string()).collect()
}

#[test]
fn data_directories_follow_the_environment() {
    assert_eq!(
        data_dirs(Some("/d"), Some("/home/u"), Some("/a::/b:")),
        strings(&["/d", "/a", "/b"])
    );
    assert_eq!(
        data_dirs(None, Some("/home/u"), None),
        strings(&["/home/u/.local/share", "/usr/local/share", "/usr/share"])
    );
    assert_eq!(data_dirs(None, None, Some("")), strings(&[]));
}

#[test]
fn desktop_files_are_tried_in_lower_case_too() {
    let dirs = strings(&["/a", "/b"]);
    assert_eq!(
        desktop_files(&dirs, "Firefox"),
        strings(&[
            "/a/applications/Firefox.desktop",
            "/a/applications/firefox.desktop",
            "/b/applications/Firefox.desktop",
            "/b/applications/firefox.desktop",
        ])
    );
    assert_eq!(desktop_files_by(&dirs, "X", "y")[1], "/a/applications/y.desktop");
}

#[test]
fn icon_keys_are_read() {
    assert_eq!(
        icon_key("[Desktop Entry]\nName=X\nIcon=  \nIcon= web-browser \r\nIcon=other\n"),
        Some("web-browser".to_string())
    );
    assert_eq!(icon_key(" Icon=x\nicon=y\n"), None);
    let texts = vec![None, Some("Name=x\n".to_string()), Some("Icon=z".to_string())];
    assert_eq!(desktop_icon_name(&texts), Some("z".to_string()));
}

#[test]
fn icons_are_searched_by_theme_size_and_format() {
    let dirs = strings(&["/s"]);
    let paths = icon_paths(&dirs, "x");
    assert_eq!(paths.len(), 4 * 8 * 2 + 4);
    assert_eq!(paths[0], "/s/icons/hicolor/scalable/apps/x.png");
    assert_eq!(paths[1], "/s/icons/hicolor/scalable/apps/x.svg");
    assert_eq!(paths[2], "/s/icons/hicolor/512x512/apps/x.png");
    assert_eq!(paths[16], "/s/icons/Adwaita/scalable/apps/x.png");
    assert_eq!(paths[63], "/s/icons/gnome/32x32/apps/x.svg");
    assert_eq!(paths[64], "/usr/share/pixmaps/x.png");
    assert_eq!(paths[67], "/usr/share/icons/x.svg");
    let only = |p: &str| p == "/s/icons/breeze/64x64/apps/x.svg";
    assert_eq!(
        find_icon_file(&dirs, "x", &only),
        Some("/s/icons/breeze/64x64/apps/x.svg".to_string())
    );
    assert_eq!(find_icon_file(&dirs, "y", &only), None);
}

#[test]
fn icons_are_resolved() {
    let dirs = strings(&["/s"]);
    let any = |_: &str| true;
    let none = |_: &str| false;
    let texts = vec![Some("Icon=/opt/x.png\n".to_string())];
    assert_eq!(resolve(&dirs, "App", &texts, &any), Some("/opt/x.png".to_string()));
    assert_eq!(resolve(&dirs, "App", &texts, &none), None);
    let low = |p: &str| p == "/usr/share/pixmaps/app.png";
    assert_eq!(
        resolve(&dirs, "App", &vec![], &low),
        Some("/usr/share/pixmaps/app.png".to_string())
    );
    assert_eq!(resolve_by(&dirs, "q", "app", &low), Some("/usr/share/pixmaps/app.png".to_string()));
}

#[test]
fn icons_are_looked_up_once() {
    let mut cache: IconCache<u32> = IconCache::new();
    assert!(matches!(cache.get(""), Cached::Empty));
    assert!(matches!(cache.get("foot"), Cached::Miss));
    cache.insert("foot", 7);
    assert!(matches!(cache.get("foot"), Cached::Hit(7)));
    assert!(matches!(cache.get("Foot"), Cached::Miss));
}

#[test]
fn launched_commands_connect_to_the_compositor() {
    let env = Some(("wayland-1".to_string(), "/run/user/1000".to_string()));
    let x_display = Some(x_display_name(3));
    let launch = spawn_command("  foot -e vim ", &env, &x_display).unwrap();
    assert_eq!(launch.command, "foot -e vim");
    let define = |k: &str, v: &str| EnvChange::Define(k.to_string(), v.to_string());
    assert_eq!(
        launch.env,
        vec![
            EnvChange::Remove("WAYLAND_SOCKET".to_string()),
            EnvChange::Remove("DISPLAY".to_string()),
            define("DISPLAY", ":3"),
            define("WAYLAND_DISPLAY", "wayland-1"),
            define("XDG_RUNTIME_DIR", "/run/user/1000"),
        ]
    );
    assert_eq!(spawn_command("x", &None, &None).unwrap().env.len(), 2);
    assert!(spawn_command(" \t", &env, &None).is_none());
    // A display that was named before XWayland is ready is handed on as it is.
    let named = Some("localhost:7.1".to_string());
    let env = spawn_command("x", &None, &named).unwrap().env;
    assert_eq!(env[2..], [define("DISPLAY", "localhost:7.1")]);
}

fn app(name: &str, command: &str) -> AppEntry {
    AppEntry { icon: String::new(), name: name.to_string(), command: command.to_string() }
}

#[test]
fn launcher_finds_apps_whatever_the_case() {
    let apps = vec![app("Firefox", "firefox"), app("Terminal", "ALACRITTY"), app("Ärger", "x")];
    assert_eq!(launcher_query(&apps, "FIRE"), vec![0]);
    assert_eq!(launcher_query(&apps, "alac"), vec![1]);
    assert_eq!(launcher_query(&apps, "äRG"), vec![2]);
    assert_eq!(launcher_query(&apps, "r"), vec![0, 1, 2]);
    assert!(launcher_query(&apps, "zzz").is_empty());
    let many: Vec<AppEntry> = (0..20).map(|i| app(&format!("app{i}"), "c")).collect();
    assert_eq!(launcher_query(&many, ""), vec![0, 1, 2, 3, 4, 5, 6, 7]);
    assert_eq!(filter_apps("b", &strings(&["a", "b"]), &strings(&["B", "x"])), vec![1]);
}

fn point(ssid: &[u8], strength: u8, wpa: u32, rsn: u32, active: bool) -> AccessPoint {
    AccessPoint { ssid: ssid.to_vec(), strength, wpa_flags: wpa, rsn_flags: rsn, active }
}

fn net(ssid: &str, strength: u8, secure: bool, active: bool) -> WifiNet {
    WifiNet { ssid: ssid.to_string(), strength, secure, active }
}

#[test]
fn scans_show_each_network_once_strongest_first() {
    let points = vec![
        point(b"home", 40, 0, 0, false),
        point(b"", 99, 1, 0, false),
        point(b"cafe", 80, 0, 0, false),
        point(b"home", 60, 0, 2, true),
        point(b"home", 50, 0, 0, false),
        point(b"gym", 80, 1, 0, false),
    ];
    assert_eq!(
        scan(&points),
        vec![
            net("home", 60, true, true),
            net("cafe", 80, false, false),
            net("gym", 80, true, false),
        ]
    );
    // Names that are not UTF-8 are shown with replacement characters.
    assert_eq!(scan(&vec![point(b"a\xffb", 1, 0, 0, false)])[0].ssid, "a\u{fffd}b");
}

#[test]
fn access_points_of_one_network_are_merged() {
    let merged = merge_networks(vec![
        net("a", 10, false, false),
        net("b", 20, false, false),
        net("a", 5, true, false),
        net("a", 30, false, true),
    ]);
    assert_eq!(merged, vec![net("a", 30, true, true), net("b", 20, false, false)]);
    assert!(merge_networks(vec![]).is_empty());
}

#[test]
fn network_commands_are_served() {
    assert_eq!(serve(NetCommand::Scan, true), vec![NetStep::RequestScan, NetStep::PushNetworks]);
    assert_eq!(serve(NetCommand::Toggle, true), vec![NetStep::SwitchRadio(false)]);
    assert_eq!(serve(NetCommand::Toggle, false), vec![NetStep::SwitchRadio(true)]);
    let connect = NetCommand::Connect { ssid: "s".to_string(), password: "p".to_string() };
    assert_eq!(
        serve(connect, true),
        vec![
            NetStep::Connect { ssid: "s".to_string(), password: "p".to_string() },
            NetStep::PushNetworks,
        ]
    );
    assert_eq!(wifi_device(&vec![1, 2, 2]), Some(1));
    assert_eq!(wifi_device(&vec![1, 14]), None);
    let open = connect_settings("hé", "");
    assert_eq!(open.len(), 4);
    assert_eq!((open[2].section, open[2].key), ("802-11-wireless", "ssid"));
    assert_eq!(open[2].value, SettingValue::Bytes("hé".as_bytes().to_vec()));
    let wpa = connect_settings("x", "secret");
    assert_eq!((wpa[5].section, wpa[5].key), ("802-11-wireless-security", "psk"));
    assert_eq!(wpa[4].value, SettingValue::Text("wpa-psk".to_string()));
}

#[test]
fn wifi_updates_are_applied() {
    let mut panel = WifiPanel { enabled: false, networks: vec![] };
    panel.apply_net_event(NetEvent::Enabled(true));
    panel.apply_net_event(NetEvent::Networks(vec![net("a", 1, false, false)]));
    assert!(panel.enabled);
    assert_eq!(panel.networks, vec![net("a", 1, false, false)]);
}

fn add(id: u32, summary: &str, timeout_ms: i32) -> NotifyEvent {
    NotifyEvent::Add {
        id,
        app_name: "app".to_string(),
        summary: summary.to_string(),
        body: "body".to_string(),
        icon: String::new(),
        timeout_ms,
    }
}

#[test]
fn notifications_expire() {
    let mut n = Notifications::new();
    n.apply_notify_event(add(1, "default", -1), 1000);
    n.apply_notify_event(add(2, "never", 0), 1000);
    n.apply_notify_event(add(3, "short", 10), 1000);
    assert!(!n.expire_notifications(1009));
    assert!(n.expire_notifications(1010));
    assert_eq!(n.notes.iter().map(|n| n.id).collect::<Vec<_>>(), [1, 2]);
    assert!(!n.expire_notifications(5999));
    assert!(n.expire_notifications(6000));
    assert!(!n.expire_notifications(u64::MAX));
    assert_eq!(n.notes[0].summary, "never");
}

#[test]
fn notifications_are_replaced_in_place_and_closed() {
    let mut n = Notifications::new();
    n.apply_notify_event(add(1, "one", 100), 0);
    n.apply_notify_event(add(2, "two", 100), 0);
    n.apply_notify_event(add(1, "uno", 0), 0);
    assert_eq!(n.notes[0].summary, "uno");
    assert!(n.expire_notifications(100));
    assert_eq!(n.notes.len(), 1);
    n.apply_notify_event(NotifyEvent::Close { id: 1 }, 0);
    n.apply_notify_event(NotifyEvent::Close { id: 9 }, 0);
    assert!(n.notes.is_empty());
    n.notify_internal("Screenshot", "Saved x", 0);
    n.notify_internal("Screenshot", "Saved y", 0);
    assert_eq!(n.notes[0].id, 1_000_000_000);
    assert_eq!(n.notes[1].id, 1_000_000_001);
    assert_eq!((n.notes[0].app_name.as_str(), n.notes[1].body.as_str()), ("s-compositor", "Saved y"));
    n.remove_notification(1_000_000_000);
    assert!(n.expire_notifications(5000));
    assert!(n.notes.is_empty());
}

#[test]
fn notification_server_hands_out_ids() {
    let mut s = Server::new();
    let notify = |s: &mut Server, replaces| {
        let text = || "t".to_string();
        s.notify(text(), replaces, text(), text(), text(), -1)
    };
    assert_eq!(notify(&mut s, 0).0, 1);
    assert_eq!(notify(&mut s, 0).0, 2);
    let (id, event) = notify(&mut s, 1);
    assert_eq!(id, 1);
    assert!(matches!(event, NotifyEvent::Add { id: 1, timeout_ms: -1, .. }));
    assert_eq!(s.next_id, 3);
    s.next_id = u32::MAX;
    assert_eq!(notify(&mut s, 0).0, u32::MAX);
    assert_eq!(s.next_id, 0);
    assert!(matches!(s.close_notification(4), NotifyEvent::Close { id: 4 }));
    assert_eq!(s.get_capabilities(), strings(&["body", "icon-static"]));
    assert_eq!(s.get_server_information("0.1.0").2, "0.1.0");
    assert_eq!(s.get_server_information("0.1.0").3, "1.2");
}

#[test]
fn portal_requests_are_answered() {
    assert_eq!(request_title(String::new()), "Open File");
    assert_eq!(request_title("Pick".to_string()), "Pick");
    let chosen = Outcome::Chosen("/a b".to_string());
    assert_eq!(open_file_reply(&chosen), (0, Some("file:///a%20b".to_string())));
    assert_eq!(open_file_reply(&Outcome::Cancelled), (1, None));
    assert_eq!(open_file_reply(&Outcome::BackendGone), (2, None));
    assert_eq!((appearance_scheme(true), appearance_scheme(false)), (1, 2));
}

#[test]
fn colours_are_packed() {
    assert_eq!(color_to_u32(0x89, 0xb4, 0xfa), 0x89b4fa);
    assert_eq!(u32_to_color(0x89b4fa), (0x89, 0xb4, 0xfa));
    assert_eq!(u32_to_color(0xff000102), (0, 1, 2));
}

#[test]
fn power_and_battery() {
    assert_eq!(PowerAction::Suspend.method(), "Suspend");
    assert_eq!(PowerAction::Reboot.method(), "Reboot");
    assert_eq!(PowerAction::PowerOff.method(), "PowerOff");
    let b = read_battery(true, 55.5f64, 4);
    assert!(b.present && b.charging && b.percent == 55.5);
    assert!(read_battery(true, 1.0, 1).charging);
    assert!(!read_battery(true, 1.0, 2).charging);
}

#[test]
fn volume_worker_steps() {
    let set = || VolWake::Command(VolCommand::SetLevel(30.0f32));
    assert!(matches!(volume_step(set(), true, true, false), (VolAction::SetLevel(l), true) if l == 30.0));
    assert!(matches!(volume_step(set(), true, false, false), (VolAction::Nothing, true)));
    let mute = || VolWake::<f32>::Command(VolCommand::ToggleMute);
    assert!(matches!(volume_step(mute(), true, false, true), (VolAction::SetMute(false), true)));
    assert!(matches!(volume_step(mute(), false, true, true), (VolAction::Nothing, true)));
    assert!(matches!(volume_step(VolWake::<f32>::Timeout, true, true, true), (VolAction::Nothing, true)));
    assert!(matches!(volume_step(VolWake::<f32>::Disconnected, true, true, true), (VolAction::Nothing, false)));
    assert_eq!(wait_ready(0, ContextState::Connecting), None);
    assert_eq!(wait_ready(199, ContextState::Ready), Some(true));
    assert_eq!(wait_ready(5, ContextState::Failed), Some(false));
    assert_eq!(wait_ready(200, ContextState::Connecting), Some(false));
}

#[test]
fn cpu_times_are_read() {
    let stat = "cpu  10 20 30 40 5 6 x 7\ncpu0 1 2 3 4\n";
    assert_eq!(read_cpu_times(stat), Some((45, 118)));
    assert_eq!(read_cpu_times("cpu 1 2 3 4"), Some((4, 10)));
    assert_eq!(read_cpu_times("cpu 1 2 3"), None);
    assert_eq!(read_cpu_times("cpu0 1 2 3 4"), None);
    assert_eq!(read_cpu_times(""), None);
    assert_eq!(cpu_load(Some((10, 100)), Some((40, 200))), Some((70, 100)));
    assert_eq!(cpu_load(Some((40, 100)), Some((10, 200))), Some((100, 100)));
    assert_eq!(cpu_load(Some((0, 100)), Some((500, 200))), Some((0, 100)));
    assert_eq!(cpu_load(Some((0, 100)), Some((0, 100))), None);
    assert_eq!(cpu_load(None, Some((0, 100))), None);
}

#[test]
fn memory_is_read() {
    let info = "MemTotal:       16000 kB\nMemFree:  1 kB\nMemAvailable:    4000 kB\n";
    assert_eq!(read_mem(info), Some((4000, 16000)));
    assert_eq!(read_mem("MemTotal: 5 kB\n"), Some((0, 5)));
    assert_eq!(read_mem("MemAvailable: 5 kB\n"), None);
    assert_eq!(read_mem("MemTotal: many\nMemTotal: 5\n"), None);
    assert_eq!(read_mem("MemTotal:\n"), None);
}

fn pixmap(width: i32, height: i32, pixels: Vec<u8>) -> IconPixmap {
    IconPixmap { width, height, pixels }
}

#[test]
fn the_largest_icon_is_converted() {
    let maps = Some(vec![
        pixmap(1, 1, vec![1, 2, 3, 4]),
        pixmap(-9, -9, vec![]),
        pixmap(2, 1, vec![10, 20, 30, 40, 50, 60, 70, 80, 90]),
        pixmap(0, 5, vec![]),
    ]);
    assert_eq!(best_pixmap(&maps), Some((2, 1, vec![20, 30, 40, 10, 60, 70, 80, 50])));
    // The last of several as large.
    let maps = Some(vec![pixmap(1, 1, vec![1, 2, 3, 4]), pixmap(1, 1, vec![5, 6, 7, 8])]);
    assert_eq!(best_pixmap(&maps), Some((1, 1, vec![6, 7, 8, 5])));
    assert_eq!(best_pixmap(&Some(vec![pixmap(2, 2, vec![0; 15])])), None);
    assert_eq!(best_pixmap(&Some(vec![])), None);
    assert_eq!(best_pixmap(&None), None);
    assert_eq!(image_from_rgba(1, 1, &vec![1, 2, 3, 4, 5]), Some(vec![1, 2, 3, 4]));
    assert_eq!(image_from_rgba(1, 1, &vec![1, 2, 3]), None);
}

fn shown(update: Option<TrayUpdate>) -> (String, String, String, bool) {
    match update {
        Some(TrayUpdate::Add { id, title, icon_name, pixmap }) => {
            (id, title, icon_name, pixmap.is_some())
        }
        other => panic!("{other:?}"),
    }
}

fn tuple(id: &str, title: &str, icon: &str, pixmap: bool) -> (String, String, String, bool) {
    (id.to_string(), title.to_string(), icon.to_string(), pixmap)
}

#[test]
fn partial_tray_updates_are_merged() {
    let mut items = TrayItems::new();
    let info = TrayItemInfo {
        id: "nm-applet".to_string(),
        title: Some(String::new()),
        icon_name: Some("net".to_string()),
        icon_pixmap: None,
    };
    let update = items.handle_event(TrayEvent::Add(":1".to_string(), info));
    assert_eq!(shown(update), tuple(":1", "nm-applet", "net", false));
    let update = items.handle_event(TrayEvent::Title {
        id: ":1".to_string(),
        title: Some("Network".to_string()),
    });
    assert_eq!(shown(update), tuple(":1", "Network", "net", false));
    let update = items.handle_event(TrayEvent::Icon {
        id: ":1".to_string(),
        icon_name: None,
        icon_pixmap: Some(vec![pixmap(1, 1, vec![1, 2, 3, 4])]),
    });
    assert_eq!(shown(update), tuple(":1", "Network", "", true));
    let update = items.handle_event(TrayEvent::Title { id: ":2".to_string(), title: None });
    assert_eq!(shown(update), tuple(":2", "", "", false));
    assert!(items.handle_event(TrayEvent::Other).is_none());
    let gone = items.handle_event(TrayEvent::Remove(":1".to_string()));
    assert!(matches!(gone, Some(TrayUpdate::Remove { id }) if id == ":1"));
    let update = items.handle_event(TrayEvent::Title { id: ":1".to_string(), title: None });
    assert_eq!(shown(update), tuple(":1", "", "", false));
}

#[test]
fn tray_icons_are_upserted() {
    let mut icons: Vec<TrayIcon> = Vec::new();
    let add = |id: &str, name: &str, pixmap| TrayUpdate::Add {
        id: id.to_string(),
        title: "t".to_string(),
        icon_name: name.to_string(),
        pixmap,
    };
    apply_tray_update(&mut icons, add("a", "x", None));
    apply_tray_update(&mut icons, add("b", "y", Some((1, 1, vec![1, 2, 3, 4]))));
    apply_tray_update(&mut icons, add("a", "z", None));
    assert_eq!(icons.len(), 2);
    assert!(matches!(&icons[0].icon, IconSource::Name(n) if n == "z"));
    assert!(matches!(&icons[1].icon, IconSource::Pixels(1, 1, px) if px.len() == 4));
    apply_tray_update(&mut icons, TrayUpdate::Remove { id: "a".to_string() });
    apply_tray_update(&mut icons, TrayUpdate::Remove { id: "q".to_string() });
    assert_eq!(icons.len(), 1);
    assert_eq!(icons[0].id, "b");
}
