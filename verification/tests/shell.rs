use s_compositor::shell::model::{TrayItem, WindowId, WindowInfo, WorkspaceId};
use s_compositor::shell::workspace::Workspaces;
use s_compositor::table::Table;

#[test]
fn label_prefers_title_then_app_id() {
    let mut w = WindowInfo::new(WindowId(1), WorkspaceId(0));
    assert_eq!(w.label(), "(untitled)");
    w.app_id = "foot".into();
    assert_eq!(w.label(), "foot");
    w.title = "vim".into();
    assert_eq!(w.label(), "vim");
}

#[test]
fn new_windows_have_no_focus() {
    let w = WindowInfo::new(WindowId(5), WorkspaceId(2));
    assert_eq!((w.id, w.workspace, w.focused), (WindowId(5), WorkspaceId(2), false));
    assert_eq!(TrayItem::default().icon_name, "");
}

#[test]
fn add_and_switch() {
    let mut ws = Workspaces::new(4);
    assert_eq!(ws.count(), 4);
    ws.add_window(WindowId(1));
    ws.add_window(WindowId(2));
    assert_eq!(ws.active_windows(), &[WindowId(1), WindowId(2)]);

    ws.switch_to(WorkspaceId(1));
    assert!(ws.active_windows().is_empty());
    assert!(!ws.is_visible(WindowId(1)));

    ws.add_window(WindowId(3));
    ws.switch_to(WorkspaceId(0));
    assert_eq!(ws.active_windows(), &[WindowId(1), WindowId(2)]);
}

#[test]
fn move_between_workspaces() {
    let mut ws = Workspaces::new(2);
    ws.add_window(WindowId(1));
    ws.move_window(WindowId(1), WorkspaceId(1));
    assert!(!ws.is_visible(WindowId(1)));
    ws.switch_to(WorkspaceId(1));
    assert!(ws.is_visible(WindowId(1)));
}

#[test]
fn switch_clamps_out_of_range() {
    let mut ws = Workspaces::new(2);
    assert_eq!(ws.switch_to(WorkspaceId(99)), WorkspaceId(1));
}

#[test]
fn moving_an_unknown_window_does_nothing() {
    let mut ws = Workspaces::new(0);
    assert_eq!(ws.count(), 1);
    ws.add_window(WindowId(1));
    ws.move_window(WindowId(9), WorkspaceId(0));
    assert_eq!(ws.active_windows(), &[WindowId(1)]);
    ws.remove_window(WindowId(1));
    assert!(ws.active_windows().is_empty());
    assert_eq!(ws.active(), WorkspaceId(0));
}

#[test]
fn moving_to_the_same_workspace_raises() {
    let mut ws = Workspaces::new(3);
    ws.add_window(WindowId(1));
    ws.add_window(WindowId(2));
    ws.move_window(WindowId(1), WorkspaceId(0));
    assert_eq!(ws.active_windows(), &[WindowId(2), WindowId(1)]);
}

#[test]
fn tables_map_ids_to_values() {
    let mut t: Table<&str> = Table::new();
    t.insert(4, "four");
    t.insert(2, "two");
    t.insert(4, "IV");
    assert_eq!(t.len(), 2);
    assert_eq!(t.get(4), Some(&"IV"));
    assert_eq!(t.remove(2), Some("two"));
    assert_eq!(t.remove(2), None);
    assert!(!t.contains_key(2));
    assert_eq!((t.key_at(0), *t.value_at(0)), (4, "IV"));
    assert_eq!(t.take(), vec![(4, "IV")]);
    assert_eq!(t.len(), 0);
}
