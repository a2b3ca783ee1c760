use s_compositor::desktop::actions::{
    area_for, flashes_volume, pointer_window, run_action, Effect, Osd, Ui,
};
use s_compositor::desktop::manage::{panel_edge, PanelEdge, Snap};
use s_compositor::desktop::{titlebar, Placement, Rect, Shell, TileRow};
use s_compositor::keybind::Action;
use s_compositor::shell::model::WindowId;
use s_compositor::wayland::event::{Command, Event};

type Ev = Event<i32>;

fn rect(x: i32, y: i32, width: i32, height: i32) -> Rect<i32> {
    Rect { x, y, width, height }
}

fn frame(id: u64, title: &str) -> Ev {
    Event::WindowBuffer {
        id: WindowId(id),
        width: 30,
        height: 20,
        pixels: vec![id as u8],
        title: title.to_string(),
        app_id: "app".to_string(),
        decorated: true,
    }
}

fn popup(id: u64, parent: Option<u64>) -> Ev {
    Event::PopupBuffer {
        id: WindowId(id),
        parent: parent.map(WindowId),
        ox: 2,
        oy: 3,
        width: 4,
        height: 5,
        pixels: vec![],
    }
}

fn layer(id: u64, layer: u8) -> Ev {
    Event::LayerBuffer {
        id: WindowId(id),
        layer,
        x: -1,
        y: 9,
        width: 4,
        height: 5,
        pixels: vec![],
    }
}

/// A desktop with the windows 1, 2 and 3 on the first workspace.
fn desktop() -> Shell<i32> {
    let mut s = Shell::new(None);
    for id in 1..=3 {
        let at = 100 * id as i32;
        assert!(s.handle_event(frame(id, "w"), 0, rect(at, at, 30, 20)));
    }
    s
}

fn ids(s: &Shell<i32>) -> Vec<u64> {
    s.windows.iter().map(|t| t.id).collect()
}

#[test]
fn new_windows_cascade() {
    let s = desktop();
    match s.placement(&frame(4, "w")) {
        Placement::At { x, y, width, height } => assert_eq!((x, y, width, height), (160, 160, 30, 20)),
        other => panic!("{other:?}"),
    }
    assert!(matches!(s.placement(&frame(2, "w")), Placement::Nowhere));
    let first: Shell<i32> = Shell::new(None);
    assert!(matches!(first.placement(&frame(1, "w")), Placement::At { x: 40, y: 40, .. }));
}

#[test]
fn frames_update_the_window_they_belong_to() {
    let mut s = desktop();
    assert!(s.handle_event(frame(2, "new"), 3, rect(0, 0, 0, 0)));
    assert_eq!(ids(&s), [1, 2, 3]);
    assert_eq!(s.windows[1].title, "new");
    assert_eq!(s.windows[1].rect, rect(200, 200, 30, 20));
    assert_eq!(s.windows[1].workspace, 0);
    assert!(s.handle_event(Ev::WindowDecorated { id: WindowId(2), decorated: false }, 0, rect(0, 0, 0, 0)));
    assert!(!s.windows[1].decorated);
    let frames = s.take_frames();
    assert_eq!(frames.len(), 3);
    assert_eq!(s.pending.len(), 0);
}

#[test]
fn removed_windows_are_freed() {
    let mut s = desktop();
    assert!(s.handle_event(Ev::WindowRemoved(WindowId(2)), 0, rect(0, 0, 0, 0)));
    assert!(s.handle_event(Ev::WindowRemoved(WindowId(9)), 0, rect(0, 0, 0, 0)));
    assert_eq!(ids(&s), [1, 3]);
    assert_eq!(s.find_window(3), Some(1));
    assert!(!s.pending.contains_key(2));
    assert_eq!(s.take_closed(), vec![2]);
    assert!(s.take_closed().is_empty());
}

#[test]
fn popups_go_against_their_parents() {
    let mut s = desktop();
    match s.placement(&popup(10, Some(2))) {
        Placement::Against { base, titlebar, ox, oy, width, height } => {
            assert_eq!((base, titlebar), (rect(200, 200, 30, 20), 28));
            assert_eq!((ox, oy, width, height), (2, 3, 4, 5));
        }
        other => panic!("{other:?}"),
    }
    assert!(s.handle_event(popup(10, Some(2)), 0, rect(202, 231, 4, 5)));
    assert!(matches!(
        s.placement(&popup(11, Some(10))),
        Placement::Against { base: Rect { x: 202, .. }, titlebar: 0, .. }
    ));
    assert!(matches!(s.placement(&popup(11, None)), Placement::At { x: 2, y: 3, .. }));
    assert!(matches!(s.placement(&popup(11, Some(77))), Placement::At { x: 2, y: 3, .. }));
    assert!(s.handle_event(popup(10, Some(2)), 0, rect(1, 1, 4, 5)));
    assert_eq!(s.popups.len(), 1);
    assert_eq!(s.popups[0].rect.x, 1);
    assert!(s.handle_event(Ev::PopupRemoved(WindowId(10)), 0, rect(0, 0, 0, 0)));
    assert!(s.popups.is_empty());
    assert_eq!((titlebar(true), titlebar(false)), (28, 0));
}

#[test]
fn layers_keep_their_layer() {
    let mut s: Shell<i32> = Shell::new(None);
    assert!(matches!(s.placement(&layer(5, 3)), Placement::At { x: -1, y: 9, width: 4, height: 5 }));
    s.handle_event(layer(5, 3), 0, rect(-1, 9, 4, 5));
    s.handle_event(layer(5, 0), 0, rect(0, 0, 4, 5));
    assert_eq!((s.layers.len(), s.layers[0].layer, s.layers[0].rect.y), (1, 3, 0));
    s.handle_event(Ev::LayerRemoved(WindowId(5)), 0, rect(0, 0, 0, 0));
    assert!(s.layers.is_empty());
    assert_eq!(s.take_closed(), vec![5]);
}

#[test]
fn other_events_need_no_redraw() {
    let mut s = desktop();
    let ready = Ev::Ready {
        socket_name: "wayland-1".to_string(),
        runtime_dir: "/run".to_string(),
        outputs: vec![],
    };
    assert!(!s.handle_event(ready, 0, rect(0, 0, 0, 0)));
    assert_eq!(s.wayland_env, Some(("wayland-1".to_string(), "/run".to_string())));
    assert!(!s.handle_event(Ev::XwaylandReady { display: 2 }, 0, rect(0, 0, 0, 0)));
    assert_eq!(s.x_display.as_deref(), Some(":2"));
    let named: Shell<i32> = Shell::new(Some(":9".to_string()));
    assert_eq!(named.x_display.as_deref(), Some(":9"));
    assert!(!s.handle_event(Ev::WindowAdded(WindowId(8)), 0, rect(0, 0, 0, 0)));
    assert_eq!(ids(&s), [1, 2, 3]);
}

#[test]
fn raised_windows_are_on_top_and_focused() {
    let mut s = desktop();
    s.minimize_window(1);
    assert_eq!(s.activate_window(1), Some(0));
    assert_eq!(ids(&s), [2, 3, 1]);
    assert!(s.windows[2].focused && !s.windows[2].minimized);
    s.raise_and_focus(3);
    assert_eq!(ids(&s), [2, 1, 3]);
    assert_eq!(s.windows.iter().filter(|t| t.focused).count(), 1);
    assert_eq!(s.focused, Some(3));
    assert_eq!(s.activate_window(99), None);
    assert_eq!(s.focused, Some(99));
    assert!(s.windows.iter().all(|t| !t.focused));
}

#[test]
fn minimized_windows_lose_the_focus() {
    let mut s = desktop();
    s.raise_and_focus(2);
    s.minimize_window(2);
    assert_eq!(s.focused, None);
    assert!(s.windows[2].minimized && !s.windows[2].focused);
    s.minimize_window(50);
    assert_eq!(s.focused, None);
}

#[test]
fn alt_tab_cycles() {
    let mut s = desktop();
    assert_eq!(s.cycle_focus(0, true), Some(1));
    assert_eq!(ids(&s), [2, 3, 1]);
    assert_eq!(s.cycle_focus(0, true), Some(2));
    assert_eq!(s.cycle_focus(0, false), Some(1));
    s.minimize_window(3);
    assert_eq!(s.cycle_focus(1, true), None);
    assert_eq!(s.focused, Some(1));
}

#[test]
fn maximize_and_restore() {
    let mut s = desktop();
    let area = rect(0, 0, 1280, 772);
    assert_eq!(s.set_maximized(2, true, area), Some((2, area)));
    assert_eq!(s.set_maximized(2, true, rect(9, 9, 9, 9)), None);
    assert!(s.windows[1].maximized);
    let before = rect(200, 200, 30, 20);
    assert_eq!(s.toggle_maximized(2, rect(9, 9, 9, 9)), Some((2, before)));
    assert_eq!(s.windows[1].rect, before);
    assert!(!s.windows[1].maximized);
    assert_eq!(s.set_maximized(8, true, area), None);
    let request = Ev::WindowMaximizeRequested { id: WindowId(3), maximized: true };
    assert_eq!(s.pump_event(request, 0, rect(0, 0, 0, 0), area), (true, Some((3, area))));
    let again = Ev::WindowMaximizeRequested { id: WindowId(3), maximized: true };
    assert_eq!(s.pump_event(again, 0, rect(0, 0, 0, 0), area), (true, None));
    assert_eq!(s.pump_event(frame(4, "w"), 2, rect(1, 1, 1, 1), area), (true, None));
    assert_eq!(s.windows[3].workspace, 2);
}

#[test]
fn windows_are_moved_and_resized() {
    let mut s = desktop();
    s.move_window(2, 7, 8);
    assert_eq!(s.window_rect(2), Some(rect(7, 8, 30, 20)));
    assert_eq!(s.window_rect(9), None);
    assert_eq!(s.frame_uploaded(2, 60, 50), Some(TileRow::Window(1)));
    assert_eq!(s.window_rect(2), Some(rect(7, 8, 60, 50)));
    s.handle_event(popup(10, None), 0, rect(0, 0, 1, 1));
    s.handle_event(layer(11, 0), 0, rect(0, 0, 1, 1));
    assert_eq!(s.frame_uploaded(10, 2, 3), Some(TileRow::Popup(0)));
    assert_eq!(s.frame_uploaded(11, 4, 5), Some(TileRow::Layer(0)));
    assert_eq!((s.popups[0].rect.width, s.layers[0].rect.height), (2, 5));
    assert_eq!(s.frame_uploaded(12, 4, 5), None);
}

#[test]
fn panel_edges() {
    assert_eq!(panel_edge(1), PanelEdge::Left);
    assert_eq!(panel_edge(2), PanelEdge::Top);
    assert_eq!(panel_edge(3), PanelEdge::Bottom);
    assert_eq!(panel_edge(0), PanelEdge::Right);
    assert_eq!(panel_edge(-7), PanelEdge::Right);
}

fn run(s: &mut Shell<i32>, ui: &mut Ui, action: Action) -> Effect<i32> {
    run_action(s, ui, &action, rect(1, 2, 3, 4))
}

#[test]
fn snapping_fills_a_half() {
    let mut s = desktop();
    let mut ui = Ui::new();
    assert!(s.snap_area(Snap::Left).is_none());
    assert!(matches!(run(&mut s, &mut ui, Action::SnapLeft), Effect::Nothing));
    s.raise_and_focus(1);
    let right = area_for(&s, &Action::SnapRight).unwrap();
    assert!(right.half_width && right.right && !right.half_height && right.titlebar == 28);
    let down = s.snap_area(Snap::Down).unwrap();
    assert!(down.half_height && down.bottom && !down.half_width);
    let all = area_for(&s, &Action::Maximize).unwrap();
    assert!(!all.half_width && !all.half_height);
    assert!(area_for(&s, &Action::Lock).is_none());
    assert!(matches!(run(&mut s, &mut ui, Action::Maximize), Effect::Resize(1, _)));
    assert!(matches!(run(&mut s, &mut ui, Action::SnapUp), Effect::Resize(1, Rect { x: 1, .. })));
    assert!(!s.windows[2].maximized);
    assert!(!s.restore.contains_key(1));
}

#[test]
fn maximize_shortcut_toggles() {
    let mut s = desktop();
    let mut ui = Ui::new();
    s.raise_and_focus(2);
    run(&mut s, &mut ui, Action::Maximize);
    assert_eq!(s.windows[2].rect, rect(1, 2, 3, 4));
    run(&mut s, &mut ui, Action::Maximize);
    assert_eq!(s.windows[2].rect, rect(200, 200, 30, 20));
}

#[test]
fn workspaces_are_switched() {
    let mut s = desktop();
    let mut ui = Ui::new();
    let go = |s: &mut Shell<i32>, ui: &mut Ui, a: Action| {
        run(s, ui, a);
        ui.active_workspace
    };
    assert_eq!(go(&mut s, &mut ui, Action::WorkspacePrev), 3);
    assert_eq!(go(&mut s, &mut ui, Action::WorkspaceNext), 0);
    assert_eq!(go(&mut s, &mut ui, Action::Workspace(3)), 2);
    assert_eq!(go(&mut s, &mut ui, Action::Workspace(0)), 0);
    assert_eq!(go(&mut s, &mut ui, Action::Workspace(99)), 3);
    assert_eq!(go(&mut s, &mut ui, Action::Workspace(u32::MAX)), 0);
    s.raise_and_focus(1);
    run(&mut s, &mut ui, Action::MoveToWorkspace(2));
    assert_eq!(s.windows[2].workspace, 1);
}

#[test]
fn actions_run() {
    let mut s = desktop();
    let mut ui = Ui::new();
    assert!(matches!(run(&mut s, &mut ui, Action::CloseWindow), Effect::Nothing));
    assert!(matches!(run(&mut s, &mut ui, Action::NextWindow), Effect::Focus(1)));
    assert!(matches!(run(&mut s, &mut ui, Action::CloseWindow), Effect::Close(1)));
    assert!(matches!(run(&mut s, &mut ui, Action::PrevWindow), Effect::Focus(3)));
    assert!(matches!(run(&mut s, &mut ui, Action::VolumeUp), Effect::StepVolume(5)));
    assert!(matches!(run(&mut s, &mut ui, Action::VolumeDown), Effect::StepVolume(-5)));
    assert!(matches!(run(&mut s, &mut ui, Action::VolumeMute), Effect::ToggleMute));
    assert!(matches!(run(&mut s, &mut ui, Action::Logout), Effect::Quit));
    assert!(matches!(run(&mut s, &mut ui, Action::Screenshot), Effect::Screenshot));
    run(&mut s, &mut ui, Action::StartMenu);
    run(&mut s, &mut ui, Action::QuickSettings);
    run(&mut s, &mut ui, Action::Launcher);
    run(&mut s, &mut ui, Action::Settings);
    assert!(ui.start_menu_visible && ui.quick_settings_visible);
    assert!(ui.launcher_visible && ui.settings_visible);
    run(&mut s, &mut ui, Action::StartMenu);
    assert!(!ui.start_menu_visible);
    match run(&mut s, &mut ui, Action::Spawn(" foot ".to_string())) {
        Effect::Spawn(launch) => assert_eq!(launch.command, "foot"),
        other => panic!("{other:?}"),
    }
    assert!(matches!(run(&mut s, &mut ui, Action::Spawn("  ".to_string())), Effect::Nothing));
    assert!(flashes_volume(&Action::VolumeMute) && !flashes_volume(&Action::Lock));
}

#[test]
fn the_screen_is_locked_until_the_password_matches() {
    let mut s = desktop();
    let mut ui = Ui::new();
    run(&mut s, &mut ui, Action::Lock);
    ui.unlock("wrong", "right");
    assert!(ui.locked && ui.lock_wrong);
    ui.unlock("right", "right");
    assert!(!ui.locked && !ui.lock_wrong);
}

#[test]
fn the_volume_display_hides_itself() {
    let mut osd = Osd { visible: false, until: None };
    assert!(!osd.hide_when_due(u64::MAX));
    osd.flash(100);
    assert!(osd.visible && !osd.hide_when_due(1299));
    assert!(osd.hide_when_due(1300));
    assert!(!osd.visible && osd.until.is_none());
}

#[test]
fn pointer_events_become_commands() {
    let id = WindowId(4);
    match pointer_window(4, 1.5, 2.5, 1, 3) {
        Command::PointerButton { id: i, button, pressed } => {
            assert_eq!((i, button, pressed), (id, 0x112, true));
        }
        other => panic!("{other:?}"),
    }
    assert!(matches!(
        pointer_window(4, 1.5, 2.5, 2, 1),
        Command::PointerButton { button: 0x110, pressed: false, .. }
    ));
    match pointer_window(4, 1.5, 2.5, 0, 1) {
        Command::PointerMotion { x, y, .. } => assert_eq!((x, y), (1.5, 2.5)),
        other => panic!("{other:?}"),
    }
}
