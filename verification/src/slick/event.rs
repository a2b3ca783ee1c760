//! Events for the shell and commands from it.

use vstd::prelude::*;

use crate::shell::model::WindowId;
use crate::text::chars::views;
use crate::text::number::{decimal, decimal_of};
use crate::wayland::event::{
    bool_of, bool_text, field_texts, id_of, id_text, no_parts, push_field, push_value, quote,
    quoted, struct_text, tuple_of, tuple_text, wrap_parts,
};

verus! {

/// Events emitted by the compositor thread for the UI thread to consume.
pub enum Event {
    /// The compositor is up and accepting clients on the given `WAYLAND_DISPLAY`.
    Ready {
        socket_name: String,
        /// The directory the socket lives in; launched apps need this as their
        /// `XDG_RUNTIME_DIR` to find it.
        runtime_dir: String,
    },
    WindowAdded(WindowId),
    WindowRemoved(WindowId),
    WindowTitleChanged(WindowId, String),
    /// The window's decoration mode changed (false = client draws its own).
    WindowDecorated { id: WindowId, decorated: bool },
    /// A window committed a new frame: tightly-packed RGBA8 of `width`x`height`.
    WindowBuffer {
        id: WindowId,
        width: u32,
        height: u32,
        pixels: Vec<u8>,
        title: String,
        /// Whether server-side decorations are drawn for this window.
        decorated: bool,
    },
}

/// Commands sent from the UI thread to the compositor thread.
#[derive(Debug, Clone)]
pub enum Command {
    /// Ask a window to close (sends `xdg_toplevel.close`).
    CloseWindow(WindowId),
}

/// The strings of an event that its log text shows between quotes, in order.
pub open spec fn shown_strings(event: Event) -> Seq<Seq<char>> {
    match event {
        Event::Ready { socket_name, runtime_dir } => seq![socket_name@, runtime_dir@],
        Event::WindowTitleChanged(_, title) => seq![title@],
        Event::WindowBuffer { title, .. } => seq![title@],
        _ => seq![],
    }
}

/// The log text of an event whose strings are shown as `strings`. Pixels are not
/// shown.
pub open spec fn event_text(event: Event, strings: Seq<Seq<char>>) -> Seq<char> {
    match event {
        Event::Ready { .. } => struct_text(
            "Ready"@,
            seq![("socket_name"@, strings[0]), ("runtime_dir"@, strings[1])],
        ),
        Event::WindowAdded(id) => tuple_text("WindowAdded"@, seq![id_text(id)]),
        Event::WindowRemoved(id) => tuple_text("WindowRemoved"@, seq![id_text(id)]),
        Event::WindowTitleChanged(id, _) => tuple_text(
            "WindowTitleChanged"@,
            seq![id_text(id), strings[0]],
        ),
        Event::WindowDecorated { id, decorated } => struct_text(
            "WindowDecorated"@,
            seq![("id"@, id_text(id)), ("decorated"@, bool_text(decorated))],
        ),
        Event::WindowBuffer { id, width, height, decorated, .. } => struct_text(
            "WindowBuffer"@,
            seq![
                ("id"@, id_text(id)),
                ("width"@, decimal(width as nat)),
                ("height"@, decimal(height as nat)),
                ("title"@, strings[0]),
                ("decorated"@, bool_text(decorated)),
            ],
        ),
    }
}

impl Event {
    /// The strings that the log text shows between quotes, quoted.
    fn quoted_strings(&self) -> (r: Vec<String>)
        ensures
            views(r@) == shown_strings(*self).map_values(|s: Seq<char>| quoted(s)),
    {
        let mut out = no_parts();
        match self {
            Event::Ready { socket_name, runtime_dir } => {
                push_value(&mut out, quote(socket_name.as_str()));
                push_value(&mut out, quote(runtime_dir.as_str()));
            },
            Event::WindowTitleChanged(_, title) => {
                push_value(&mut out, quote(title.as_str()));
            },
            Event::WindowBuffer { title, .. } => {
                push_value(&mut out, quote(title.as_str()));
            },
            _ => {},
        }
        assert(views(out@) =~= shown_strings(*self).map_values(|s: Seq<char>| quoted(s)));
        out
    }

    /// The log text of the event, with the given texts for the strings that it
    /// shows (see [`shown_strings`]).
    pub fn debug_with(&self, strings: &Vec<String>) -> (r: String)
        requires
            strings.len() == shown_strings(*self).len(),
        ensures
            r@ == event_text(*self, views(strings@)),
    {
        let mut parts = no_parts();
        let ghost shown = views(strings@);
        match self {
            Event::Ready { .. } => {
                push_field(&mut parts, "socket_name", strings[0].clone());
                push_field(&mut parts, "runtime_dir", strings[1].clone());
                proof {
                    let fields = seq![("socket_name"@, shown[0]), ("runtime_dir"@, shown[1])];
                    assert(views(parts@) =~= field_texts(fields));
                }
                wrap_parts("Ready", " { ", &parts, " }")
            },
            Event::WindowAdded(id) => tuple_of("WindowAdded", id_of(*id)),
            Event::WindowRemoved(id) => tuple_of("WindowRemoved", id_of(*id)),
            Event::WindowTitleChanged(id, _) => {
                push_value(&mut parts, id_of(*id));
                push_value(&mut parts, strings[0].clone());
                assert(views(parts@) =~= seq![id_text(*id), shown[0]]);
                wrap_parts("WindowTitleChanged", "(", &parts, ")")
            },
            Event::WindowDecorated { id, decorated } => {
                push_field(&mut parts, "id", id_of(*id));
                push_field(&mut parts, "decorated", bool_of(*decorated));
                proof {
                    let fields = seq![
                        ("id"@, id_text(*id)),
                        ("decorated"@, bool_text(*decorated)),
                    ];
                    assert(views(parts@) =~= field_texts(fields));
                }
                wrap_parts("WindowDecorated", " { ", &parts, " }")
            },
            Event::WindowBuffer { id, width, height, decorated, .. } => {
                push_field(&mut parts, "id", id_of(*id));
                push_field(&mut parts, "width", decimal_of(*width as u64));
                push_field(&mut parts, "height", decimal_of(*height as u64));
                push_field(&mut parts, "title", strings[0].clone());
                push_field(&mut parts, "decorated", bool_of(*decorated));
                proof {
                    let fields = seq![
                        ("id"@, id_text(*id)),
                        ("width"@, decimal(*width as nat)),
                        ("height"@, decimal(*height as nat)),
                        ("title"@, shown[0]),
                        ("decorated"@, bool_text(*decorated)),
                    ];
                    assert(views(parts@) =~= field_texts(fields));
                }
                wrap_parts("WindowBuffer", " { ", &parts, " }")
            },
        }
    }

    /// The log text of the event. Pixel buffers are not dumped.
    pub fn debug(&self) -> (r: String)
        ensures
            r@ == event_text(
                *self,
                shown_strings(*self).map_values(|s: Seq<char>| quoted(s)),
            ),
    {
        let strings = self.quoted_strings();
        assert(views(strings@).len() == shown_strings(*self).len());
        self.debug_with(&strings)
    }
}

} // verus!
