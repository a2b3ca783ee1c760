use s_compositor::render::crop::Geometry;
use s_compositor::shell::model::WindowId;
use s_compositor::slick::event::Event as Small;
use s_compositor::table::Table;
use s_compositor::wayland::commit::{dmabuf_planes, root_surface, Commit, Dmabuf, Role};
use s_compositor::wayland::composite::{
    composite_tree, surface_position, BufferChange, Picture, SurfaceNode,
};
use s_compositor::wayland::event::{Command, DmabufPlane, Event};
use s_compositor::wayland::input::SeatAction;
use s_compositor::wayland::layers::{
    layer_position, layer_size, layer_to_u8, refill_layers, Anchor, Layer, Margins,
};
use s_compositor::wayland::outputs::{output_layout, parse_output, OutputInfo};
use s_compositor::wayland::setup::{dmabuf_formats, output_modes, ready, Fourcc, Modifier};
use s_compositor::wayland::socket::{BindAction, BindResult, Binder};
use s_compositor::wayland::state::{DecorationMode, SlickState};

fn output(name: &str, x: i32, y: i32, w: i32, h: i32) -> OutputInfo {
    OutputInfo { name: name.to_string(), x, y, w, h }
}

#[test]
fn output_layouts_are_parsed() {
    assert_eq!(
        output_layout(Some("1280x800+0+0;1280x800+1280+0")),
        vec![
            output("s-compositor-0", 0, 0, 1280, 800),
            output("s-compositor-1", 1280, 0, 1280, 800),
        ]
    );
    // A part that is no output still counts in the numbering.
    assert_eq!(
        output_layout(Some("bogus, 640x480 ")),
        vec![output("s-compositor-1", 0, 0, 640, 480)]
    );
    let default = vec![output("s-compositor-0", 0, 0, 1280, 800)];
    assert_eq!(output_layout(Some("bogus")), default);
    assert_eq!(output_layout(None), default);
}

#[test]
fn single_outputs_are_parsed() {
    assert_eq!(parse_output("10 x 20+-3+4", 7), Some(output("s-compositor-7", -3, 4, 10, 20)));
    assert_eq!(parse_output("10x20+3", 0), None);
    assert_eq!(parse_output("10", 0), None);
    assert_eq!(parse_output("10x20+a+b", 0), None);
}

#[test]
fn outputs_are_advertised() {
    let modes = output_modes(&output_layout(None));
    assert_eq!((modes[0].0.width, modes[0].0.height, modes[0].0.refresh), (1280, 800, 60_000));
    assert_eq!(modes[0].1, (0, 0));
    assert_eq!(dmabuf_formats().len(), 4);
    assert_eq!(dmabuf_formats()[1], (Fourcc::Argb8888, Modifier::Linear));
}

type Ev = Event<i32>;

#[test]
fn events_are_logged_without_pixels() {
    let id = WindowId(3);
    let log = |e: Ev| e.debug();
    assert_eq!(log(Event::WindowAdded(id)), "WindowAdded(WindowId(3))");
    assert_eq!(log(Event::LayerRemoved(id)), "LayerRemoved(WindowId(3))");
    assert_eq!(
        log(Event::WindowTitleChanged(id, "a \"b\"\n".to_string())),
        "WindowTitleChanged(WindowId(3), \"a \\\"b\\\"\\n\")"
    );
    assert_eq!(log(Event::XwaylandReady { display: 1 }), "XwaylandReady { display: 1 }");
    assert_eq!(
        log(Event::WindowMaximizeRequested { id, maximized: true }),
        "WindowMaximizeRequested { id: WindowId(3), maximized: true }"
    );
    assert_eq!(
        log(Event::WindowBuffer {
            id,
            width: 1,
            height: 2,
            pixels: vec![1, 2, 3],
            title: "t".to_string(),
            app_id: "é\u{0}".to_string(),
            decorated: false,
        }),
        "WindowBuffer { id: WindowId(3), width: 1, height: 2, title: \"t\", app_id: \"é\\0\", \
         decorated: false }"
    );
    let popup = |parent| Event::PopupBuffer {
        id,
        parent,
        ox: 1,
        oy: 2,
        width: 3,
        height: 4,
        pixels: vec![],
    };
    assert_eq!(
        log(popup(None)),
        "PopupBuffer { id: WindowId(3), parent: None, width: 3, height: 4 }"
    );
    assert_eq!(
        log(popup(Some(WindowId(9)))),
        "PopupBuffer { id: WindowId(3), parent: Some(WindowId(9)), width: 3, height: 4 }"
    );
    assert_eq!(
        log(Event::LayerBuffer { id, layer: 2, x: -1, y: 0, width: 3, height: 4, pixels: vec![] }),
        "LayerBuffer { id: WindowId(3), layer: 2, x: -1, y: 0, width: 3, height: 4 }"
    );
    assert_eq!(
        log(Event::WindowDmabuf {
            id,
            width: 1,
            height: 2,
            fourcc: 3,
            modifier: 4,
            planes: vec![DmabufPlane { fd: 5, offset: 6, stride: 7 }],
        }),
        "WindowDmabuf { id: WindowId(3), width: 1, height: 2, .. }"
    );
    let e: Ev = ready("wayland-1".to_string(), "/run".to_string(), output_layout(Some("1x2;3x4")));
    assert_eq!(
        log(e),
        "Ready { socket_name: \"wayland-1\", runtime_dir: \"/run\", outputs: [OutputInfo { name: \
         \"s-compositor-0\", x: 0, y: 0, w: 1, h: 2 }, OutputInfo { name: \"s-compositor-1\", \
         x: 0, y: 0, w: 3, h: 4 }] }"
    );
}

#[test]
fn log_texts_take_given_strings() {
    let e: Ev = Event::WindowTitleChanged(WindowId(1), "x".to_string());
    assert_eq!(e.debug_with(&vec!["<x>".to_string()]), "WindowTitleChanged(WindowId(1), <x>)");
    let e = s_compositor::slick::event::Event::Ready {
        socket_name: "wayland-1".to_string(),
        runtime_dir: "/run".to_string(),
    };
    assert_eq!(e.debug(), "Ready { socket_name: \"wayland-1\", runtime_dir: \"/run\" }");
    let e = s_compositor::slick::event::Event::WindowDecorated { id: WindowId(2), decorated: true };
    assert_eq!(e.debug(), "WindowDecorated { id: WindowId(2), decorated: true }");
}

#[test]
fn sockets_are_searched() {
    let bind = |dir: &str, n: u32| BindAction::Bind {
        dir: dir.to_string(),
        name: format!("wayland-{n}"),
    };
    let (mut b, action) = Binder::start("s-compositor", Some("/run/user/1"), "/tmp", 1);
    assert_eq!(action, bind("/run/user/1", 1));
    for n in 2..=32 {
        assert_eq!(b.next(BindResult::InUse), bind("/run/user/1", n));
    }
    let own = "/tmp/s-compositor-1";
    assert_eq!(b.next(BindResult::InUse), BindAction::Create(own.to_string()));
    assert_eq!(b.next(BindResult::Created), bind(own, 1));
    assert_eq!(
        b.next(BindResult::BindFailed("denied".to_string())),
        BindAction::Fail(
            "no writable runtime directory for the wayland socket (/tmp/s-compositor-1: denied)"
                .to_string()
        )
    );
}

#[test]
fn socket_search_falls_back_to_its_own_directory() {
    let (mut b, action) = Binder::start("slick", Some("relative"), "/tmp", 0);
    assert_eq!(action, BindAction::Create("/tmp/slick-0".to_string()));
    assert_eq!(
        b.next(BindResult::CreateFailed("no".to_string())),
        BindAction::Fail(
            "no writable runtime directory for the wayland socket (create /tmp/slick-0: no)"
                .to_string()
        )
    );
    let (mut b, action) = Binder::start("p", Some("/tmp//p-5/"), "/tmp/", 5);
    assert_eq!(action, BindAction::Create("/tmp//p-5/".to_string()));
    let mut steps = 0;
    let mut action = b.next(BindResult::Created);
    while !matches!(action, BindAction::Fail(_)) {
        action = match action {
            BindAction::Create(_) => b.next(BindResult::Created),
            _ => b.next(BindResult::InUse),
        };
        steps += 1;
    }
    assert_eq!(steps, 65);
    assert_eq!(
        action,
        BindAction::Fail(
            "no writable runtime directory for the wayland socket (unknown)".to_string()
        )
    );
}

fn anchor(top: bool, bottom: bool, left: bool, right: bool) -> Anchor {
    Anchor { top, bottom, left, right }
}

#[test]
fn layer_surfaces_are_anchored() {
    let margin = Margins { top: 1, right: 2, bottom: 3, left: 4 };
    let at = |a| layer_position((1280, 800), a, margin, 100, 50);
    assert_eq!(at(anchor(false, false, false, false)), (4, 1));
    assert_eq!(at(anchor(false, true, false, true)), (1178, 747));
    assert_eq!(at(anchor(true, true, true, true)), (4, 1));
    assert_eq!(layer_to_u8(Layer::Background), 0);
    assert_eq!(layer_to_u8(Layer::Bottom), 1);
    assert_eq!(layer_to_u8(Layer::Top), 2);
    assert_eq!(layer_to_u8(Layer::Overlay), 3);
    assert_eq!(layer_size((0, 30), (1280, 800)), (1280, 30));
    assert_eq!(
        refill_layers(&vec![(1, (0, 30)), (2, (5, 5)), (3, (-1, 0))], (640, 480)),
        vec![(1, (640, 30)), (3, (640, 480))]
    );
}

fn picture(width: u32, height: u32, value: u8) -> Picture {
    let mut pixels = Vec::new();
    for _ in 0..width * height {
        pixels.extend_from_slice(&[value, value, value, 255]);
    }
    Picture { width, height, pixels }
}

fn node(surface: u64, offset: (i32, i32), change: BufferChange) -> SurfaceNode {
    SurfaceNode { surface, location: (0, 0), offset, change }
}

fn reds(p: &Picture) -> Vec<u8> {
    p.pixels.chunks(4).map(|c| c[0]).collect()
}

#[test]
fn surface_trees_are_flattened() {
    let mut cache: Table<Picture> = Table::new();
    let nodes = vec![
        node(1, (0, 0), BufferChange::New(Some(picture(2, 2, 10)))),
        node(2, (1, 1), BufferChange::New(Some(picture(2, 2, 20)))),
    ];
    let p = composite_tree(1, &vec![], nodes, &mut cache).unwrap();
    assert_eq!((p.width, p.height), (2, 2));
    assert_eq!(reds(&p), [10, 10, 10, 20]);
    // A child that attaches no buffer stays visible.
    let nodes = vec![
        node(1, (0, 0), BufferChange::New(Some(picture(2, 1, 30)))),
        node(2, (1, 0), BufferChange::Unchanged),
    ];
    let p = composite_tree(1, &vec![], nodes, &mut cache).unwrap();
    assert_eq!(reds(&p), [30, 20]);
    // An unreadable buffer keeps the picture; a removed one hides the surface.
    let nodes = vec![
        node(1, (0, 0), BufferChange::New(None)),
        node(2, (1, 0), BufferChange::Removed),
    ];
    let p = composite_tree(1, &vec![], nodes, &mut cache).unwrap();
    assert_eq!(reds(&p), [30, 30]);
    // Dead surfaces are forgotten.
    let nodes = vec![node(1, (0, 0), BufferChange::Unchanged)];
    assert!(composite_tree(1, &vec![1], nodes, &mut cache).is_none());
    assert_eq!(cache.len(), 0);
    assert_eq!(surface_position((5, -5), (1, 2)), (6, -3));
}

#[test]
fn roots_are_found() {
    let mut parents: Table<u64> = Table::new();
    parents.insert(3, 2);
    parents.insert(2, 1);
    assert_eq!(root_surface(&parents, 3), 1);
    assert_eq!(root_surface(&parents, 1), 1);
    assert_eq!(root_surface(&parents, 9), 9);
}

fn commit(root: u64, nodes: Vec<SurfaceNode>) -> Commit<i32> {
    Commit {
        root,
        dead: vec![],
        nodes,
        dmabuf: None,
        title: "title".to_string(),
        app_id: "app".to_string(),
        override_redirect: false,
        geometry: None,
        anchor: anchor(false, true, true, true),
        margin: Margins { top: 0, right: 0, bottom: 5, left: 0 },
    }
}

fn shown(root: u64, w: u32, h: u32) -> Vec<SurfaceNode> {
    vec![node(root, (0, 0), BufferChange::New(Some(picture(w, h, 7))))]
}

#[test]
fn commits_show_windows() {
    let mut s = SlickState::new(false);
    assert!(matches!(s.new_toplevel::<i32>(100), Event::WindowAdded(WindowId(0))));
    assert!(matches!(s.role(100), Role::Window));
    let mut c = commit(100, shown(100, 4, 4));
    c.geometry = Some(Geometry { x: 1, y: 2, width: 2, height: 2 });
    match s.commit(c) {
        Some(Event::WindowBuffer { id, width, height, pixels, title, app_id, decorated }) => {
            assert_eq!((id, width, height, pixels.len()), (WindowId(0), 2, 2, 16));
            assert_eq!((title.as_str(), app_id.as_str(), decorated), ("title", "app", false));
        }
        _ => panic!(),
    }
    assert_eq!(s.windows.get(100).unwrap().geometry_offset, (1, 2));
    assert!(s.commit(commit(55, shown(55, 1, 1))).is_none());
    assert!(!s.surface_pixels.contains_key(55));
    let removed = vec![node(100, (0, 0), BufferChange::Removed)];
    assert!(s.commit(commit(100, removed)).is_none());
}

#[test]
fn commits_hand_on_gpu_buffers() {
    let planes = dmabuf_planes(vec![Some(4), None, Some(6), Some(7)], &vec![1, 2, 3], &vec![9, 8, 7, 6]);
    assert_eq!(planes.len(), 2);
    assert_eq!((planes[1].fd, planes[1].offset, planes[1].stride), (6, 3, 7));
    let buffer = |planes| Some(Dmabuf { width: 8, height: 9, fourcc: 1, modifier: 2, planes });
    let mut s = SlickState::new(true);
    s.new_toplevel::<i32>(100);
    assert!(s.takes_dmabuf(100) && !s.takes_dmabuf(1));
    let mut c = commit(100, vec![]);
    c.dmabuf = buffer(planes);
    match s.commit(c) {
        Some(Event::WindowDmabuf { id, width, height, planes, .. }) => {
            assert_eq!((id, width, height, planes.len()), (WindowId(0), 8, 9, 2));
        }
        _ => panic!(),
    }
    assert!(!SlickState::new(false).takes_dmabuf(100));
}

fn at(x: i32, y: i32) -> Geometry {
    Geometry { x, y, width: 10, height: 20 }
}

#[test]
fn commits_show_popups_and_layers() {
    let mut s = SlickState::new(false);
    s.new_toplevel::<i32>(1);
    assert_eq!(s.new_popup(2, Some(1), at(5, 6)), WindowId(1));
    assert_eq!(s.new_popup(3, Some(2), at(0, 0)), WindowId(2));
    assert_eq!(s.new_popup(4, Some(77), at(0, 0)), WindowId(3));
    assert_eq!(s.popups.get(3).unwrap().parent_id, Some(WindowId(1)));
    assert_eq!(s.popups.get(4).unwrap().parent_id, None);
    match s.commit(commit(2, shown(2, 1, 1))) {
        Some(Event::PopupBuffer { id, parent, ox, oy, .. }) => {
            assert_eq!((id, parent, ox, oy), (WindowId(1), Some(WindowId(0)), 5, 6));
        }
        _ => panic!(),
    }
    assert_eq!(s.new_layer_surface(9, Layer::Top, (0, 30)), (WindowId(4), (1280, 30)));
    match s.commit(commit(9, shown(9, 4, 30))) {
        Some(Event::LayerBuffer { id, layer, x, y, width, height, .. }) => {
            assert_eq!((id, layer, x, y, width, height), (WindowId(4), 2, 0, 765, 4, 30));
        }
        _ => panic!(),
    }
    assert!(matches!(s.popup_destroyed::<i32>(2), Some(Event::PopupRemoved(WindowId(1)))));
    assert!(s.popup_destroyed::<i32>(2).is_none());
    assert!(matches!(s.layer_destroyed::<i32>(9), Some(Event::LayerRemoved(WindowId(4)))));
}

#[test]
fn decorations_are_negotiated() {
    let mut s = SlickState::new(false);
    s.new_toplevel::<i32>(1);
    match s.default_decoration::<i32>(1) {
        Some(Event::WindowDecorated { id, decorated }) => assert_eq!((id, decorated), (WindowId(0), true)),
        _ => panic!(),
    }
    assert!(s.windows.get(1).unwrap().decorated);
    s.set_decoration_mode::<i32>(1, DecorationMode::ClientSide);
    assert!(!s.windows.get(1).unwrap().decorated);
    assert!(s.set_decoration_mode::<i32>(2, DecorationMode::ServerSide).is_none());
    assert!(matches!(
        s.maximize_request::<i32>(1, false),
        Some(Event::WindowMaximizeRequested { id: WindowId(0), maximized: false })
    ));
    assert!(matches!(
        s.move_request::<i32>(1),
        Some(Event::WindowMoveRequested { id: WindowId(0) })
    ));
    assert!(s.move_request::<i32>(2).is_none());
    assert!(matches!(s.toplevel_destroyed::<i32>(1), Some(Event::WindowRemoved(WindowId(0)))));
    assert!(s.workspaces.active_windows().is_empty());
}

#[test]
fn outputs_are_resized() {
    let mut s = SlickState::new(false);
    assert!(s.resize_output(1280, 800, &vec![]).is_none());
    let (size, layers) = s.resize_output(0, 600, &vec![(4, (0, 0)), (5, (9, 9))]).unwrap();
    assert_eq!(size, (1, 600));
    assert_eq!(layers, vec![(4, (1, 600))]);
    assert_eq!(s.current_output_size, (1, 600));
}

#[test]
fn commands_reach_the_seat() {
    let mut s = SlickState::new(false);
    s.new_toplevel::<i32>(10);
    s.new_popup(20, None, at(0, 0));
    let run = |c: Command<i32>, k, p| s.handle_command(c, k, p);
    assert!(matches!(run(Command::CloseWindow(WindowId(0)), false, false), SeatAction::Close(10)));
    assert!(matches!(run(Command::CloseWindow(WindowId(1)), true, true), SeatAction::Nothing));
    assert!(matches!(run(Command::FocusWindow(WindowId(1)), true, false), SeatAction::Focus(20)));
    assert!(matches!(run(Command::FocusWindow(WindowId(1)), false, true), SeatAction::Nothing));
    assert!(matches!(
        run(Command::PointerMotion { id: WindowId(0), x: 3, y: 4 }, false, true),
        SeatAction::Motion { surface: 10, x: 3, y: 4 }
    ));
    let button = |pressed| Command::PointerButton { id: WindowId(0), button: 0x110, pressed };
    assert!(matches!(
        run(button(true), true, true),
        SeatAction::Button { button: 0x110, pressed: true, focus: Some(10) }
    ));
    assert!(matches!(
        run(button(false), true, true),
        SeatAction::Button { pressed: false, focus: None, .. }
    ));
    assert!(matches!(run(Command::PointerLeave, true, true), SeatAction::Leave));
    assert!(matches!(
        run(Command::PointerAxis { id: WindowId(8), dx: 1, dy: 2 }, true, true),
        SeatAction::Axis { dx: 1, dy: 2 }
    ));
    assert!(matches!(
        run(Command::Key { keycode: 30, pressed: true }, true, true),
        SeatAction::Key { keycode: 38, pressed: true }
    ));
    assert!(matches!(
        run(Command::ResizeWindow { id: WindowId(0), width: -5, height: 7 }, true, true),
        SeatAction::Configure { surface: 10, width: 1, height: 7 }
    ));
    assert!(matches!(run(Command::DismissPopups, true, true), SeatAction::Dismiss(all) if all == vec![20]));
    assert_eq!(s.surface_for(WindowId(1)), Some(20));
    assert_eq!(s.surface_for(WindowId(7)), None);
    assert_eq!(s.id_of_surface(20), Some(WindowId(1)));
}

#[test]
fn small_edition_tracks_windows() {
    let mut s = s_compositor::slick::state::SlickState::new();
    assert!(s.workspaces.active_windows().is_empty());
    assert!(matches!(s.new_toplevel(5), Small::WindowAdded(WindowId(0))));
    let picture = || BufferChange::New(Some(picture(1, 1, 3)));
    match s.commit(5, picture(), "t".to_string()) {
        Some(Small::WindowBuffer { id, width, decorated, .. }) => {
            assert_eq!((id, width, decorated), (WindowId(0), 1, true));
        }
        _ => panic!(),
    }
    assert!(s.commit(6, picture(), String::new()).is_none());
    assert!(s.commit(5, BufferChange::New(None), String::new()).is_none());
    assert!(s.set_decoration_mode(5, DecorationMode::ClientSide).is_some());
    assert!(!s.windows.get(5).unwrap().decorated);
    assert_eq!(s.allocate_window_id(), WindowId(1));
    assert!(matches!(s.toplevel_destroyed(5), Some(Small::WindowRemoved(WindowId(0)))));
    assert!(s.toplevel_destroyed(5).is_none());
}
