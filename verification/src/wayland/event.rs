//! Events for the shell and commands from it.

use vstd::prelude::*;

use crate::shell::model::WindowId;
use crate::text::chars::views;
use crate::text::number::{decimal, decimal_of, signed_decimal, signed_decimal_of};
use crate::wayland::outputs::OutputInfo;

verus! {

/// One plane of a dmabuf: a file descriptor plus its offset and stride.
#[derive(Debug)]
pub struct DmabufPlane<F> {
    pub fd: F,
    pub offset: u32,
    pub stride: u32,
}

/// Events emitted by the compositor thread for the UI thread to consume. `F` is
/// the type of file descriptors.
pub enum Event<F> {
    /// The compositor is up and accepting clients on the given `WAYLAND_DISPLAY`.
    Ready {
        socket_name: String,
        /// The directory the socket lives in; launched apps need this as their
        /// `XDG_RUNTIME_DIR` to find it.
        runtime_dir: String,
        /// The output (monitor) layout the compositor advertises.
        outputs: Vec<OutputInfo>,
    },
    WindowAdded(WindowId),
    WindowRemoved(WindowId),
    WindowTitleChanged(WindowId, String),
    /// XWayland is up; X11 apps should be launched with `DISPLAY=:{display}`.
    XwaylandReady { display: u32 },
    /// The client asked to be moved with the pointer; the shell drives the move.
    WindowMoveRequested { id: WindowId },
    /// The client asked to (un)maximize itself; the shell decides the geometry.
    WindowMaximizeRequested { id: WindowId, maximized: bool },
    /// The window's decoration mode changed (false = client draws its own).
    WindowDecorated { id: WindowId, decorated: bool },
    /// A window committed a new frame: tightly-packed RGBA8 of `width`x`height`.
    WindowBuffer {
        id: WindowId,
        width: u32,
        height: u32,
        pixels: Vec<u8>,
        title: String,
        /// The toplevel app-id, used to resolve a window icon.
        app_id: String,
        /// Whether server-side decorations are drawn for this window.
        decorated: bool,
    },
    /// A window committed a GPU (dmabuf) buffer instead of shm. The planes carry
    /// owned file descriptors for the UI thread to import.
    WindowDmabuf {
        id: WindowId,
        width: u32,
        height: u32,
        /// DRM FourCC format code.
        fourcc: u32,
        /// DRM format modifier.
        modifier: u64,
        planes: Vec<DmabufPlane<F>>,
    },
    /// A popup committed a frame, to be drawn at offset `(ox, oy)` from `parent`.
    PopupBuffer {
        id: WindowId,
        parent: Option<WindowId>,
        ox: i32,
        oy: i32,
        width: u32,
        height: u32,
        pixels: Vec<u8>,
    },
    PopupRemoved(WindowId),
    /// A layer-shell surface committed a frame, to be drawn at `(x, y)`.
    /// `layer` is 0=background, 1=bottom, 2=top, 3=overlay.
    LayerBuffer {
        id: WindowId,
        layer: u8,
        x: i32,
        y: i32,
        width: u32,
        height: u32,
        pixels: Vec<u8>,
    },
    LayerRemoved(WindowId),
}

/// Commands sent from the UI thread to the compositor thread. `C` is the type of
/// pointer coordinates.
#[derive(Debug, Clone)]
pub enum Command<C> {
    /// Ask a window to close (sends `xdg_toplevel.close`).
    CloseWindow(WindowId),
    /// Give keyboard focus to a window (e.g. taskbar click).
    FocusWindow(WindowId),
    /// Pointer moved to surface-local `(x, y)` over the given window.
    PointerMotion { id: WindowId, x: C, y: C },
    /// Pointer button (evdev code) pressed/released over the given window.
    PointerButton { id: WindowId, button: u32, pressed: bool },
    /// Pointer left all client windows.
    PointerLeave,
    /// Vertical/horizontal scroll over the given window.
    PointerAxis { id: WindowId, dx: C, dy: C },
    /// A key (evdev keycode) pressed/released for the focused window.
    Key { keycode: u32, pressed: bool },
    /// Resize a window to the given size (sends an xdg configure).
    ResizeWindow { id: WindowId, width: i32, height: i32 },
    /// Dismiss all open popups (e.g. a click landed outside them).
    DismissPopups,
}

// ---------------------------------------------------------------------------
// Log texts

/// `s` between double quotes, with the characters escaped that would not print
/// as themselves.
pub uninterp spec fn quoted(s: Seq<char>) -> Seq<char>;

/// The `{:?}` format of a string slice (`<str as Debug>::fmt`). Its escaping
/// rules rest on the Unicode tables; the text is named, not spelled out.
#[verifier::external_body]
pub(crate) fn quote(s: &str) -> (r: String)
    ensures
        r@ == quoted(s@),
{
    format!("{:?}", s)
}

/// A field name and the text of its value.
pub type Field = (Seq<char>, Seq<char>);

/// Texts with `, ` between each two.
pub open spec fn comma_joined(parts: Seq<Seq<char>>) -> Seq<char>
    decreases parts.len(),
{
    if parts.len() == 0 {
        seq![]
    } else if parts.len() == 1 {
        parts[0]
    } else {
        comma_joined(parts.drop_last()) + ", "@ + parts.last()
    }
}

/// `name: value` for each field.
pub open spec fn field_texts(fields: Seq<Field>) -> Seq<Seq<char>> {
    Seq::new(fields.len(), |i: int| fields[i].0 + ": "@ + fields[i].1)
}

/// The text of a struct: `Name { field: value, .. }`.
pub open spec fn struct_text(name: Seq<char>, fields: Seq<Field>) -> Seq<char> {
    name + " { "@ + comma_joined(field_texts(fields)) + " }"@
}

/// The text of a struct some of whose fields are not shown.
pub open spec fn partial_struct_text(name: Seq<char>, fields: Seq<Field>) -> Seq<char> {
    name + " { "@ + comma_joined(field_texts(fields)) + ", .. }"@
}

/// The text of a tuple: `Name(value, ..)`.
pub open spec fn tuple_text(name: Seq<char>, values: Seq<Seq<char>>) -> Seq<char> {
    name + "("@ + comma_joined(values) + ")"@
}

/// The text of a list: `[value, ..]`.
pub open spec fn list_text(values: Seq<Seq<char>>) -> Seq<char> {
    "["@ + comma_joined(values) + "]"@
}

/// The text of a window id.
pub open spec fn id_text(id: WindowId) -> Seq<char> {
    tuple_text("WindowId"@, seq![decimal(id.0 as nat)])
}

/// The text of an optional window id.
pub open spec fn optional_id_text(id: Option<WindowId>) -> Seq<char> {
    match id {
        Some(id) => tuple_text("Some"@, seq![id_text(id)]),
        None => "None"@,
    }
}

/// The text of a truth value.
pub open spec fn bool_text(b: bool) -> Seq<char> {
    if b {
        "true"@
    } else {
        "false"@
    }
}

/// The text of an output whose name is shown as `name`.
pub open spec fn output_text(output: OutputInfo, name: Seq<char>) -> Seq<char> {
    struct_text(
        "OutputInfo"@,
        seq![
            ("name"@, name),
            ("x"@, signed_decimal(output.x as int)),
            ("y"@, signed_decimal(output.y as int)),
            ("w"@, signed_decimal(output.w as int)),
            ("h"@, signed_decimal(output.h as int)),
        ],
    )
}

/// The strings of an event that its log text shows between quotes, in order.
pub open spec fn shown_strings<F>(event: Event<F>) -> Seq<Seq<char>> {
    match event {
        Event::Ready { socket_name, runtime_dir, outputs } => seq![socket_name@, runtime_dir@]
            + Seq::new(outputs@.len(), |i: int| outputs@[i].name@),
        Event::WindowTitleChanged(_, title) => seq![title@],
        Event::WindowBuffer { title, app_id, .. } => seq![title@, app_id@],
        _ => seq![],
    }
}

/// The log text of an event whose strings are shown as `strings`. Pixels are not
/// shown.
pub open spec fn event_text<F>(event: Event<F>, strings: Seq<Seq<char>>) -> Seq<char> {
    match event {
        Event::Ready { outputs, .. } => struct_text(
            "Ready"@,
            seq![
                ("socket_name"@, strings[0]),
                ("runtime_dir"@, strings[1]),
                (
                    "outputs"@,
                    list_text(
                        Seq::new(
                            outputs@.len(),
                            |i: int| output_text(outputs@[i], strings[i + 2]),
                        ),
                    ),
                ),
            ],
        ),
        Event::WindowDmabuf { id, width, height, .. } => partial_struct_text(
            "WindowDmabuf"@,
            seq![
                ("id"@, id_text(id)),
                ("width"@, decimal(width as nat)),
                ("height"@, decimal(height as nat)),
            ],
        ),
        Event::WindowAdded(id) => tuple_text("WindowAdded"@, seq![id_text(id)]),
        Event::WindowRemoved(id) => tuple_text("WindowRemoved"@, seq![id_text(id)]),
        Event::XwaylandReady { display } => struct_text(
            "XwaylandReady"@,
            seq![("display"@, decimal(display as nat))],
        ),
        Event::WindowMoveRequested { id } => struct_text(
            "WindowMoveRequested"@,
            seq![("id"@, id_text(id))],
        ),
        Event::WindowMaximizeRequested { id, maximized } => struct_text(
            "WindowMaximizeRequested"@,
            seq![("id"@, id_text(id)), ("maximized"@, bool_text(maximized))],
        ),
        Event::WindowTitleChanged(id, _) => tuple_text(
            "WindowTitleChanged"@,
            seq![id_text(id), strings[0]],
        ),
        Event::WindowDecorated { id, decorated } => struct_text(
            "WindowDecorated"@,
            seq![("id"@, id_text(id)), ("decorated"@, bool_text(decorated))],
        ),
        Event::WindowBuffer { id, width, height, decorated, .. } => struct_text(
            "WindowBuffer"@,
            seq![
                ("id"@, id_text(id)),
                ("width"@, decimal(width as nat)),
                ("height"@, decimal(height as nat)),
                ("title"@, strings[0]),
                ("app_id"@, strings[1]),
                ("decorated"@, bool_text(decorated)),
            ],
        ),
        Event::PopupBuffer { id, parent, width, height, .. } => struct_text(
            "PopupBuffer"@,
            seq![
                ("id"@, id_text(id)),
                ("parent"@, optional_id_text(parent)),
                ("width"@, decimal(width as nat)),
                ("height"@, decimal(height as nat)),
            ],
        ),
        Event::PopupRemoved(id) => tuple_text("PopupRemoved"@, seq![id_text(id)]),
        Event::LayerBuffer { id, layer, x, y, width, height, .. } => struct_text(
            "LayerBuffer"@,
            seq![
                ("id"@, id_text(id)),
                ("layer"@, decimal(layer as nat)),
                ("x"@, signed_decimal(x as int)),
                ("y"@, signed_decimal(y as int)),
                ("width"@, decimal(width as nat)),
                ("height"@, decimal(height as nat)),
            ],
        ),
        Event::LayerRemoved(id) => tuple_text("LayerRemoved"@, seq![id_text(id)]),
    }
}

/// The parts with `, ` between each two.
fn join_parts(parts: &Vec<String>) -> (r: String)
    ensures
        r@ == comma_joined(views(parts@)),
{
    let ghost all = views(parts@);
    let mut out = String::new();
    assert(out@ =~= comma_joined(all.take(0)));
    for i in 0..parts.len()
        invariant
            all == views(parts@),
            out@ == comma_joined(all.take(i as int)),
    {
        if i > 0 {
            out.append(", ");
        }
        out.append(parts[i].as_str());
        proof {
            assert(all.take(i + 1).drop_last() =~= all.take(i as int));
            assert(all.take(i + 1).last() == all[i as int]);
            if i == 0 {
                assert(out@ =~= all[0]);
            }
        }
    }
    assert(all.take(all.len() as int) =~= all);
    out
}

/// `name`, `open`, the joined parts and `close`.
pub(crate) fn wrap_parts(name: &str, open: &str, parts: &Vec<String>, close: &str) -> (r: String)
    ensures
        r@ == name@ + open@ + comma_joined(views(parts@)) + close@,
{
    let mut out = name.to_string();
    out.append(open);
    out.append(join_parts(parts).as_str());
    out.append(close);
    out
}

/// Append `name: value` to the parts.
pub(crate) fn push_field(parts: &mut Vec<String>, name: &str, value: String)
    ensures
        views(final(parts)@) == views(old(parts)@).push(name@ + ": "@ + value@),
{
    let ghost before = views(parts@);
    let mut out = name.to_string();
    out.append(": ");
    out.append(value.as_str());
    parts.push(out);
    assert(views(parts@) =~= before.push(name@ + ": "@ + value@));
}

/// Append a value to the parts.
pub(crate) fn push_value(parts: &mut Vec<String>, value: String)
    ensures
        views(final(parts)@) == views(old(parts)@).push(value@),
{
    let ghost before = views(parts@);
    parts.push(value);
    assert(views(parts@) =~= before.push(value@));
}

/// No parts yet.
pub(crate) fn no_parts() -> (r: Vec<String>)
    ensures
        views(r@) == Seq::<Seq<char>>::empty(),
{
    let r: Vec<String> = Vec::new();
    assert(views(r@) =~= Seq::empty());
    r
}

/// The text of a tuple of one value.
pub(crate) fn tuple_of(name: &str, value: String) -> (r: String)
    ensures
        r@ == tuple_text(name@, seq![value@]),
{
    let mut parts = no_parts();
    push_value(&mut parts, value);
    assert(views(parts@) =~= seq![value@]);
    wrap_parts(name, "(", &parts, ")")
}

/// The text of a window id.
pub(crate) fn id_of(id: WindowId) -> (r: String)
    ensures
        r@ == id_text(id),
{
    tuple_of("WindowId", decimal_of(id.0))
}

/// The text of an optional window id.
fn optional_id_of(id: Option<WindowId>) -> (r: String)
    ensures
        r@ == optional_id_text(id),
{
    match id {
        Some(id) => tuple_of("Some", id_of(id)),
        None => "None".to_string(),
    }
}

/// The text of a truth value.
pub(crate) fn bool_of(b: bool) -> (r: String)
    ensures
        r@ == bool_text(b),
{
    if b {
        "true".to_string()
    } else {
        "false".to_string()
    }
}

/// The text of an output whose name is shown as `name`.
fn output_of(output: &OutputInfo, name: &str) -> (r: String)
    ensures
        r@ == output_text(*output, name@),
{
    let mut parts = no_parts();
    push_field(&mut parts, "name", name.to_string());
    push_field(&mut parts, "x", signed_decimal_of(output.x as i64));
    push_field(&mut parts, "y", signed_decimal_of(output.y as i64));
    push_field(&mut parts, "w", signed_decimal_of(output.w as i64));
    push_field(&mut parts, "h", signed_decimal_of(output.h as i64));
    proof {
        let fields = seq![
            ("name"@, name@),
            ("x"@, signed_decimal(output.x as int)),
            ("y"@, signed_decimal(output.y as int)),
            ("w"@, signed_decimal(output.w as int)),
            ("h"@, signed_decimal(output.h as int)),
        ];
        assert(views(parts@) =~= field_texts(fields));
    }
    wrap_parts("OutputInfo", " { ", &parts, " }")
}

/// The text of the outputs, whose names are shown as `strings` from the third on.
fn outputs_of(outputs: &Vec<OutputInfo>, strings: &Vec<String>) -> (r: String)
    requires
        strings.len() == outputs.len() + 2,
    ensures
        r@ == list_text(
            Seq::new(
                outputs@.len(),
                |i: int| output_text(outputs@[i], views(strings@)[i + 2]),
            ),
        ),
{
    let ghost all = Seq::new(
        outputs@.len(),
        |i: int| output_text(outputs@[i], views(strings@)[i + 2]),
    );
    let mut parts = no_parts();
    for i in 0..outputs.len()
        invariant
            strings.len() == outputs.len() + 2,
            all == Seq::new(
                outputs@.len(),
                |i: int| output_text(outputs@[i], views(strings@)[i + 2]),
            ),
            views(parts@) =~= all.take(i as int),
    {
        push_value(&mut parts, output_of(&outputs[i], strings[i + 2].as_str()));
    }
    assert(views(parts@) =~= all);
    let r = wrap_parts("", "[", &parts, "]");
    proof {
        reveal_strlit("");
        assert(r@ =~= list_text(all));
    }
    r
}

impl<F> Event<F> {
    /// The strings that the log text shows between quotes, quoted.
    fn quoted_strings(&self) -> (r: Vec<String>)
        ensures
            views(r@) == shown_strings(*self).map_values(|s: Seq<char>| quoted(s)),
    {
        let mut out = no_parts();
        let ghost shown = shown_strings(*self).map_values(|s: Seq<char>| quoted(s));
        match self {
            Event::Ready { socket_name, runtime_dir, outputs } => {
                push_value(&mut out, quote(socket_name.as_str()));
                push_value(&mut out, quote(runtime_dir.as_str()));
                for i in 0..outputs.len()
                    invariant
                        shown == (seq![socket_name@, runtime_dir@] + Seq::new(
                            outputs@.len(),
                            |k: int| outputs@[k].name@,
                        )).map_values(|s: Seq<char>| quoted(s)),
                        views(out@) =~= shown.take(i + 2),
                {
                    push_value(&mut out, quote(outputs[i].name.as_str()));
                }
            },
            Event::WindowTitleChanged(_, title) => {
                push_value(&mut out, quote(title.as_str()));
            },
            Event::WindowBuffer { title, app_id, .. } => {
                push_value(&mut out, quote(title.as_str()));
                push_value(&mut out, quote(app_id.as_str()));
            },
            _ => {},
        }
        assert(views(out@) =~= shown);
        out
    }

    /// The log text of the event, with the given texts for the strings that it
    /// shows (see [`shown_strings`]).
    pub fn debug_with(&self, strings: &Vec<String>) -> (r: String)
        requires
            strings.len() == shown_strings(*self).len(),
        ensures
            r@ == event_text(*self, views(strings@)),
    {
        let mut parts = no_parts();
        let ghost shown = views(strings@);
        match self {
            Event::Ready { outputs, .. } => {
                push_field(&mut parts, "socket_name", strings[0].clone());
                push_field(&mut parts, "runtime_dir", strings[1].clone());
                push_field(&mut parts, "outputs", outputs_of(outputs, strings));
                proof {
                    let fields = seq![
                        ("socket_name"@, shown[0]),
                        ("runtime_dir"@, shown[1]),
                        (
                            "outputs"@,
                            list_text(
                                Seq::new(
                                    outputs@.len(),
                                    |i: int| output_text(outputs@[i], shown[i + 2]),
                                ),
                            ),
                        ),
                    ];
                    assert(views(parts@) =~= field_texts(fields));
                }
                wrap_parts("Ready", " { ", &parts, " }")
            },
            Event::WindowDmabuf { id, width, height, .. } => {
                push_field(&mut parts, "id", id_of(*id));
                push_field(&mut parts, "width", decimal_of(*width as u64));
                push_field(&mut parts, "height", decimal_of(*height as u64));
                proof {
                    let fields = seq![
                        ("id"@, id_text(*id)),
                        ("width"@, decimal(*width as nat)),
                        ("height"@, decimal(*height as nat)),
                    ];
                    assert(views(parts@) =~= field_texts(fields));
                }
                wrap_parts("WindowDmabuf", " { ", &parts, ", .. }")
            },
            Event::WindowAdded(id) => tuple_of("WindowAdded", id_of(*id)),
            Event::WindowRemoved(id) => tuple_of("WindowRemoved", id_of(*id)),
            Event::XwaylandReady { display } => {
                push_field(&mut parts, "display", decimal_of(*display as u64));
                proof {
                    let fields = seq![("display"@, decimal(*display as nat))];
                    assert(views(parts@) =~= field_texts(fields));
                }
                wrap_parts("XwaylandReady", " { ", &parts, " }")
            },
            Event::WindowMoveRequested { id } => {
                push_field(&mut parts, "id", id_of(*id));
                proof {
                    let fields = seq![("id"@, id_text(*id))];
                    assert(views(parts@) =~= field_texts(fields));
                }
                wrap_parts("WindowMoveRequested", " { ", &parts, " }")
            },
            Event::WindowMaximizeRequested { id, maximized } => {
                push_field(&mut parts, "id", id_of(*id));
                push_field(&mut parts, "maximized", bool_of(*maximized));
                proof {
                    let fields = seq![
                        ("id"@, id_text(*id)),
                        ("maximized"@, bool_text(*maximized)),
                    ];
                    assert(views(parts@) =~= field_texts(fields));
                }
                wrap_parts("WindowMaximizeRequested", " { ", &parts, " }")
            },
            Event::WindowTitleChanged(id, _) => {
                push_value(&mut parts, id_of(*id));
                push_value(&mut parts, strings[0].clone());
                assert(views(parts@) =~= seq![id_text(*id), shown[0]]);
                wrap_parts("WindowTitleChanged", "(", &parts, ")")
            },
            Event::WindowDecorated { id, decorated } => {
                push_field(&mut parts, "id", id_of(*id));
                push_field(&mut parts, "decorated", bool_of(*decorated));
                proof {
                    let fields = seq![
                        ("id"@, id_text(*id)),
                        ("decorated"@, bool_text(*decorated)),
                    ];
                    assert(views(parts@) =~= field_texts(fields));
                }
                wrap_parts("WindowDecorated", " { ", &parts, " }")
            },
            Event::WindowBuffer { id, width, height, decorated, .. } => {
                push_field(&mut parts, "id", id_of(*id));
                push_field(&mut parts, "width", decimal_of(*width as u64));
                push_field(&mut parts, "height", decimal_of(*height as u64));
                push_field(&mut parts, "title", strings[0].clone());
                push_field(&mut parts, "app_id", strings[1].clone());
                push_field(&mut parts, "decorated", bool_of(*decorated));
                proof {
                    let fields = seq![
                        ("id"@, id_text(*id)),
                        ("width"@, decimal(*width as nat)),
                        ("height"@, decimal(*height as nat)),
                        ("title"@, shown[0]),
                        ("app_id"@, shown[1]),
                        ("decorated"@, bool_text(*decorated)),
                    ];
                    assert(views(parts@) =~= field_texts(fields));
                }
                wrap_parts("WindowBuffer", " { ", &parts, " }")
            },
            Event::PopupBuffer { id, parent, width, height, .. } => {
                push_field(&mut parts, "id", id_of(*id));
                push_field(&mut parts, "parent", optional_id_of(*parent));
                push_field(&mut parts, "width", decimal_of(*width as u64));
                push_field(&mut parts, "height", decimal_of(*height as u64));
                proof {
                    let fields = seq![
                        ("id"@, id_text(*id)),
                        ("parent"@, optional_id_text(*parent)),
                        ("width"@, decimal(*width as nat)),
                        ("height"@, decimal(*height as nat)),
                    ];
                    assert(views(parts@) =~= field_texts(fields));
                }
                wrap_parts("PopupBuffer", " { ", &parts, " }")
            },
            Event::PopupRemoved(id) => tuple_of("PopupRemoved", id_of(*id)),
            Event::LayerBuffer { id, layer, x, y, width, height, .. } => {
                push_field(&mut parts, "id", id_of(*id));
                push_field(&mut parts, "layer", decimal_of(*layer as u64));
                push_field(&mut parts, "x", signed_decimal_of(*x as i64));
                push_field(&mut parts, "y", signed_decimal_of(*y as i64));
                push_field(&mut parts, "width", decimal_of(*width as u64));
                push_field(&mut parts, "height", decimal_of(*height as u64));
                proof {
                    let fields = seq![
                        ("id"@, id_text(*id)),
                        ("layer"@, decimal(*layer as nat)),
                        ("x"@, signed_decimal(*x as int)),
                        ("y"@, signed_decimal(*y as int)),
                        ("width"@, decimal(*width as nat)),
                        ("height"@, decimal(*height as nat)),
                    ];
                    assert(views(parts@) =~= field_texts(fields));
                }
                wrap_parts("LayerBuffer", " { ", &parts, " }")
            },
            Event::LayerRemoved(id) => tuple_of("LayerRemoved", id_of(*id)),
        }
    }

    /// The log text of the event. Pixel buffers are not dumped.
    pub fn debug(&self) -> (r: String)
        ensures
            r@ == event_text(
                *self,
                shown_strings(*self).map_values(|s: Seq<char>| quoted(s)),
            ),
    {
        let strings = self.quoted_strings();
        assert(views(strings@).len() == shown_strings(*self).len());
        self.debug_with(&strings)
    }
}

/// The log text of a frame does not depend on its pixels.
pub proof fn law_log_text_hides_pixels<F>(a: Event<F>, b: Event<F>, strings: Seq<Seq<char>>)
    requires
        match (a, b) {
            (
                Event::WindowBuffer { id, width, height, decorated, .. },
                Event::WindowBuffer { id: id2, width: w2, height: h2, decorated: d2, .. },
            ) => id == id2 && width == w2 && height == h2 && decorated == d2,
            (
                Event::PopupBuffer { id, parent, width, height, .. },
                Event::PopupBuffer { id: id2, parent: p2, width: w2, height: h2, .. },
            ) => id == id2 && parent == p2 && width == w2 && height == h2,
            (
                Event::LayerBuffer { id, layer, x, y, width, height, .. },
                Event::LayerBuffer {
                    id: id2,
                    layer: l2,
                    x: x2,
                    y: y2,
                    width: w2,
                    height: h2,
                    ..
                },
            ) => id == id2 && layer == l2 && x == x2 && y == y2 && width == w2 && height == h2,
            _ => false,
        },
    ensures
        event_text(a, strings) == event_text(b, strings),
{
}

/// The log text of an event names the event and shows its id, and what else it says
/// beside its pixels.
pub proof fn law_log_texts_name_the_event<F>(event: Event<F>, strings: Seq<Seq<char>>)
    ensures
        ({
            let text = event_text(event, strings);
            let tuple = |name: Seq<char>, id: WindowId|
                name + "("@ + ("WindowId"@ + "("@ + decimal(id.0 as nat) + ")"@) + ")"@;
            &&& event matches Event::WindowAdded(id) ==> text == tuple("WindowAdded"@, id)
            &&& event matches Event::WindowRemoved(id) ==> text == tuple("WindowRemoved"@, id)
            &&& event matches Event::PopupRemoved(id) ==> text == tuple("PopupRemoved"@, id)
            &&& event matches Event::LayerRemoved(id) ==> text == tuple("LayerRemoved"@, id)
            &&& event matches Event::XwaylandReady { display } ==> text == "XwaylandReady"@
                + " { "@ + ("display"@ + ": "@ + decimal(display as nat)) + " }"@
            &&& event matches Event::WindowMoveRequested { id } ==> text == "WindowMoveRequested"@
                + " { "@ + ("id"@ + ": "@ + ("WindowId"@ + "("@ + decimal(id.0 as nat) + ")"@))
                + " }"@
            &&& event matches Event::WindowMaximizeRequested { id, maximized } ==> text
                == "WindowMaximizeRequested"@ + " { "@ + (("id"@ + ": "@ + ("WindowId"@ + "("@
                + decimal(id.0 as nat) + ")"@)) + ", "@ + ("maximized"@ + ": "@ + (if maximized {
                "true"@
            } else {
                "false"@
            }))) + " }"@
            &&& event matches Event::WindowDecorated { id, decorated } ==> text
                == "WindowDecorated"@ + " { "@ + (("id"@ + ": "@ + ("WindowId"@ + "("@ + decimal(
                id.0 as nat,
            ) + ")"@)) + ", "@ + ("decorated"@ + ": "@ + (if decorated {
                "true"@
            } else {
                "false"@
            }))) + " }"@
        }),
{
    if let Event::XwaylandReady { display } = event {
        let f = field_texts(seq![("display"@, decimal(display as nat))]);
        assert(f.len() == 1 && f[0] == "display"@ + ": "@ + decimal(display as nat));
    }
    if let Event::WindowMoveRequested { id } = event {
        let f = field_texts(seq![("id"@, id_text(id))]);
        assert(f.len() == 1 && f[0] == "id"@ + ": "@ + id_text(id));
    }
    if let Event::WindowMaximizeRequested { id, maximized } = event {
        let f = field_texts(seq![("id"@, id_text(id)), ("maximized"@, bool_text(maximized))]);
        assert(f.len() == 2 && f.drop_last().len() == 1 && f.drop_last()[0] == f[0]);
        assert(f[0] == "id"@ + ": "@ + id_text(id));
        assert(f.last() == "maximized"@ + ": "@ + bool_text(maximized));
        assert(comma_joined(f.drop_last()) == f[0]);
    }
    if let Event::WindowDecorated { id, decorated } = event {
        let f = field_texts(seq![("id"@, id_text(id)), ("decorated"@, bool_text(decorated))]);
        assert(f.len() == 2 && f.drop_last().len() == 1 && f.drop_last()[0] == f[0]);
        assert(f[0] == "id"@ + ": "@ + id_text(id));
        assert(f.last() == "decorated"@ + ": "@ + bool_text(decorated));
        assert(comma_joined(f.drop_last()) == f[0]);
    }
}

} // verus!
