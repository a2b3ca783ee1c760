//! Commands from the user interface, turned into what the seat and the clients
//! are told.

use vstd::prelude::*;

use crate::shell::model::WindowId;
use crate::table::{has_key, index_of, lemma_entry, Table};
use crate::wayland::event::Command;
use crate::wayland::state::{
    at_least_one, law_ids_are_unique, owns_id, slot_id, state_wf, SlickState, Slot, StateView,
};

verus! {

/// What an evdev keycode is increased by to give an xkb keycode.
pub const XKB_OFFSET: u32 = 8;

/// What the seat or a client is to be told. Surfaces are named by their numbers.
#[derive(Debug)]
pub enum SeatAction<C> {
    Nothing,
    /// Send `xdg_toplevel.close`.
    Close(u64),
    /// Give the keyboard focus to a surface.
    Focus(u64),
    /// The pointer is at `(x, y)` of a surface.
    Motion { surface: u64, x: C, y: C },
    /// The pointer is over no surface.
    Leave,
    /// A button changed; a surface that was clicked gets the keyboard focus.
    Button { button: u32, pressed: bool, focus: Option<u64> },
    /// The wheel turned.
    Axis { dx: C, dy: C },
    /// A key (xkb keycode) changed.
    Key { keycode: u32, pressed: bool },
    /// Configure a toplevel with a size.
    Configure { surface: u64, width: i32, height: i32 },
    /// Dismiss these popups.
    Dismiss(Vec<u64>),
}

/// The keycode of a command is one that xkb has.
pub open spec fn key_fits<C>(command: Command<C>) -> bool {
    command matches Command::Key { keycode, .. } ==> keycode <= u32::MAX - XKB_OFFSET
}

/// `action` is what follows from a command, on a seat with or without a keyboard
/// and a pointer.
pub open spec fn answers<C>(
    v: StateView,
    command: Command<C>,
    keyboard: bool,
    pointer: bool,
    action: SeatAction<C>,
) -> bool {
    match command {
        Command::CloseWindow(id) => match action {
            SeatAction::Close(s) => slot_id(v, Slot::Window(s)) == Some(id),
            SeatAction::Nothing => forall|s: u64| slot_id(v, Slot::Window(s)) != Some(id),
            _ => false,
        },
        Command::FocusWindow(id) => match action {
            SeatAction::Focus(s) => keyboard && owns_id(v, s, id),
            SeatAction::Nothing => !keyboard || forall|s: u64| !owns_id(v, s, id),
            _ => false,
        },
        Command::PointerMotion { id, x, y } => match action {
            SeatAction::Motion { surface, x: ax, y: ay } => {
                &&& pointer
                &&& owns_id(v, surface, id)
                &&& ax == x
                &&& ay == y
            },
            SeatAction::Nothing => !pointer || forall|s: u64| !owns_id(v, s, id),
            _ => false,
        },
        Command::PointerButton { id, button, pressed } => match action {
            SeatAction::Button { button: b, pressed: p, focus } => {
                &&& pointer
                &&& b == button
                &&& p == pressed
                &&& match focus {
                    Some(s) => pressed && keyboard && owns_id(v, s, id),
                    None => !(pressed && keyboard) && exists|s: u64| owns_id(v, s, id),
                }
            },
            SeatAction::Nothing => !pointer || forall|s: u64| !owns_id(v, s, id),
            _ => false,
        },
        Command::PointerLeave => if pointer {
            action is Leave
        } else {
            action is Nothing
        },
        Command::PointerAxis { id, dx, dy } => if pointer {
            action == (SeatAction::Axis { dx, dy })
        } else {
            action is Nothing
        },
        Command::Key { keycode, pressed } => if keyboard {
            action == (SeatAction::<C>::Key { keycode: (keycode + XKB_OFFSET) as u32, pressed })
        } else {
            action is Nothing
        },
        Command::ResizeWindow { id, width, height } => match action {
            SeatAction::Configure { surface, width: w, height: h } => {
                &&& slot_id(v, Slot::Window(surface)) == Some(id)
                &&& w == at_least_one(width)
                &&& h == at_least_one(height)
            },
            SeatAction::Nothing => forall|s: u64| slot_id(v, Slot::Window(s)) != Some(id),
            _ => false,
        },
        Command::DismissPopups => action matches SeatAction::Dismiss(all) && {
            &&& all@.no_duplicates()
            &&& forall|s: u64| #[trigger] all@.contains(s) <==> v.popups.contains_key(s)
        },
    }
}

/// The keys of a table.
fn keys_of<V>(table: &Table<V>) -> (r: Vec<u64>)
    requires
        table.wf(),
    ensures
        r@.no_duplicates(),
        forall|s: u64| #[trigger] r@.contains(s) <==> table@.contains_key(s),
{
    let mut out: Vec<u64> = Vec::new();
    let n = table.len();
    for i in 0..n
        invariant
            table.wf(),
            n == table.seq().len(),
            out.len() == i,
            forall|k: int| 0 <= k < i ==> out@[k] == (#[trigger] table.seq()[k]).0,
    {
        out.push(table.key_at(i));
    }
    proof {
        let s = table.seq();
        assert forall|a: int, b: int|
            0 <= a < out@.len() && 0 <= b < out@.len() && a != b implies out@[a] != out@[b] by {
            assert(out@[a] == s[a].0 && out@[b] == s[b].0);
        }
        assert forall|k: u64| #[trigger] out@.contains(k) <==> table@.contains_key(k) by {
            if out@.contains(k) {
                let i = choose|i: int| 0 <= i < out@.len() && out@[i] == k;
                assert(out@[i] == s[i].0);
                lemma_entry(s, i);
            }
            if table@.contains_key(k) {
                let i = index_of(s, k);
                assert(has_key(s, k));
                assert(out@[i] == s[i].0);
            }
        }
    }
    out
}

impl SlickState {
    /// Apply a command coming from the UI thread.
    pub fn handle_command<C>(&self, command: Command<C>, keyboard: bool, pointer: bool) -> (r:
        SeatAction<C>)
        requires
            self.wf(),
            key_fits(command),
        ensures
            answers(self@, command, keyboard, pointer, r),
    {
        match command {
            Command::CloseWindow(id) => match self.window_surface(id) {
                Some(surface) => SeatAction::Close(surface),
                None => SeatAction::Nothing,
            },
            Command::FocusWindow(id) => match self.surface_for(id) {
                Some(surface) if keyboard => SeatAction::Focus(surface),
                _ => SeatAction::Nothing,
            },
            Command::PointerMotion { id, x, y } => match self.surface_for(id) {
                Some(surface) if pointer => SeatAction::Motion { surface, x, y },
                _ => SeatAction::Nothing,
            },
            Command::PointerButton { id, button, pressed } => match self.surface_for(id) {
                Some(surface) if pointer => {
                    // Clicking a window also gives it keyboard focus.
                    let focus = if pressed && keyboard {
                        Some(surface)
                    } else {
                        None
                    };
                    SeatAction::Button { button, pressed, focus }
                },
                _ => SeatAction::Nothing,
            },
            Command::PointerLeave => if pointer {
                SeatAction::Leave
            } else {
                SeatAction::Nothing
            },
            Command::PointerAxis { dx, dy, .. } => if pointer {
                SeatAction::Axis { dx, dy }
            } else {
                SeatAction::Nothing
            },
            Command::Key { keycode, pressed } => if keyboard {
                SeatAction::Key { keycode: keycode + XKB_OFFSET, pressed }
            } else {
                SeatAction::Nothing
            },
            Command::ResizeWindow { id, width, height } => match self.window_surface(id) {
                Some(surface) => {
                    let width = if width < 1 {
                        1
                    } else {
                        width
                    };
                    let height = if height < 1 {
                        1
                    } else {
                        height
                    };
                    SeatAction::Configure { surface, width, height }
                },
                None => SeatAction::Nothing,
            },
            Command::DismissPopups => SeatAction::Dismiss(keys_of(&self.popups)),
        }
    }
}

// ---------------------------------------------------------------------------
// Laws

/// A command reaches the surface whose id it names: windows are closed and
/// resized, to one pixel at least; windows, popups and layer surfaces get the
/// focus and the pointer, at the same place. A click gives the focus, a release
/// does not. Nothing happens where there is no such surface, or no keyboard or
/// pointer to tell.
pub proof fn law_commands_reach_their_surface<C>(
    v: StateView,
    command: Command<C>,
    keyboard: bool,
    pointer: bool,
    action: SeatAction<C>,
    s: u64,
)
    requires
        state_wf(v),
        key_fits(command),
        answers(v, command, keyboard, pointer, action),
    ensures
        command matches Command::CloseWindow(id) ==> (v.windows.contains_key(s)
            && v.windows[s].id == id ==> action == SeatAction::<C>::Close(s)),
        command matches Command::ResizeWindow { id, width, height } ==> (v.windows.contains_key(s)
            && v.windows[s].id == id ==> (action matches SeatAction::Configure {
            surface,
            width: w,
            height: h,
        } && surface == s && w >= 1 && h >= 1 && (width >= 1 ==> w == width) && (height >= 1 ==> h
            == height) && (width < 1 ==> w == 1) && (height < 1 ==> h == 1))),
        command matches Command::FocusWindow(id) ==> (keyboard && known_as(v, s, id) ==> action
            == SeatAction::<C>::Focus(s)),
        command matches Command::PointerMotion { id, x, y } ==> (pointer && known_as(v, s, id)
            ==> action == (SeatAction::Motion { surface: s, x, y })),
        command matches Command::PointerButton { id, button, pressed } ==> (pointer && known_as(
            v,
            s,
            id,
        ) ==> action == (SeatAction::<C>::Button {
            button,
            pressed,
            focus: if pressed && keyboard {
                Some(s)
            } else {
                None
            },
        })),
        command is PointerLeave ==> (action is Leave <==> pointer),
        command matches Command::PointerAxis { dx, dy, .. } ==> (pointer ==> action == (
        SeatAction::Axis { dx, dy })),
        command matches Command::Key { keycode, pressed } ==> (keyboard ==> (action matches
            SeatAction::Key { keycode: k, pressed: p } && k == keycode + 8 && p == pressed)),
        command is DismissPopups ==> (action matches SeatAction::Dismiss(all) && (all@.contains(s)
            <==> v.popups.contains_key(s))),
        !keyboard && (command is FocusWindow || command is Key) ==> action is Nothing,
        !pointer && (command is PointerMotion || command is PointerButton || command is PointerLeave
            || command is PointerAxis) ==> action is Nothing,
{
    if command is CloseWindow || command is ResizeWindow {
        let id = if command is CloseWindow {
            command->CloseWindow_0
        } else {
            command->ResizeWindow_id
        };
        if v.windows.contains_key(s) && v.windows[s].id == id {
            assert(slot_id(v, Slot::Window(s)) == Some(id));
            if let SeatAction::Close(t) = action {
                assert(slot_id(v, Slot::Window(t)) == Some(id));
            }
            if let SeatAction::Configure { surface, .. } = action {
                assert(slot_id(v, Slot::Window(surface)) == Some(id));
            }
        }
    }
    if command is FocusWindow || command is PointerMotion || command is PointerButton {
        let id = if command is FocusWindow {
            command->FocusWindow_0
        } else if command is PointerMotion {
            command->PointerMotion_id
        } else {
            command->PointerButton_id
        };
        if known_as(v, s, id) {
            assert(owns_id(v, s, id));
            assert forall|t: u64| owns_id(v, t, id) implies t == s by {
                lemma_one_owner(v, s, t, id);
            }
        }
    }
}

/// The surface is the window, popup or layer surface with the id.
pub open spec fn known_as(v: StateView, s: u64, id: WindowId) -> bool {
    ||| v.windows.contains_key(s) && v.windows[s].id == id
    ||| v.popups.contains_key(s) && v.popups[s].id == id
    ||| v.layers.contains_key(s) && v.layers[s].id == id
}

/// An id is that of one surface.
proof fn lemma_one_owner(v: StateView, a: u64, b: u64, id: WindowId)
    requires
        state_wf(v),
        owns_id(v, a, id),
        owns_id(v, b, id),
    ensures
        a == b,
{
    let x = if slot_id(v, Slot::Window(a)) == Some(id) {
        Slot::Window(a)
    } else if slot_id(v, Slot::Popup(a)) == Some(id) {
        Slot::Popup(a)
    } else {
        Slot::Layer(a)
    };
    let y = if slot_id(v, Slot::Window(b)) == Some(id) {
        Slot::Window(b)
    } else if slot_id(v, Slot::Popup(b)) == Some(id) {
        Slot::Popup(b)
    } else {
        Slot::Layer(b)
    };
    law_ids_are_unique(v, x, y, id);
}

} // verus!
