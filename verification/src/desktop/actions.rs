//! Shortcuts and the actions they run.

use vstd::prelude::*;

use crate::desktop::manage::{
    candidates, focused_row, full_area, law_restore_undoes_maximize, maximized_rect, next_in, raised,
    sent_to_workspace, snapped, snapped_area, with_maximized, Area, Snap,
};
use crate::desktop::{lemma_row, shell_wf, window_ids, Rect, Shell, ShellView, WindowTile};
use crate::keybind::{
    keybind_views, normalize_text, text_key, Action, ActionView, Keybind, KeybindView,
};
use crate::keycode::{button_code, evdev_button, forward_key, forwarded, KeyEvent};
use crate::launch::{change_views, env_view, launch_changes, spawn_command, Launch};
use crate::shell::model::WindowId;
use crate::text::chars::{same, trim};
use crate::wayland::event::Command;

verus! {

/// Number of virtual desktops.
pub const WORKSPACES: i32 = 4;

/// How many percent a volume shortcut steps.
pub const VOLUME_STEP: i32 = 5;

/// What the user interface shows beside the windows.
#[derive(Debug, Clone, Copy, PartialEq, Eq, Structural)]
pub struct Ui {
    pub start_menu_visible: bool,
    pub launcher_visible: bool,
    pub settings_visible: bool,
    pub quick_settings_visible: bool,
    pub locked: bool,
    pub lock_wrong: bool,
    pub active_workspace: i32,
}

impl Ui {
    /// The active workspace exists.
    pub open spec fn wf(&self) -> bool {
        0 <= self.active_workspace < WORKSPACES
    }

    /// Nothing open, the first workspace active.
    pub fn new() -> (r: Self)
        ensures
            r.wf(),
            r == (Ui {
                start_menu_visible: false,
                launcher_visible: false,
                settings_visible: false,
                quick_settings_visible: false,
                locked: false,
                lock_wrong: false,
                active_workspace: 0,
            }),
    {
        Ui {
            start_menu_visible: false,
            launcher_visible: false,
            settings_visible: false,
            quick_settings_visible: false,
            locked: false,
            lock_wrong: false,
            active_workspace: 0,
        }
    }

    /// Unlock the screen when the typed password matches (or none is set).
    pub fn unlock(&mut self, entered: &str, password: &str)
        ensures
            *final(self) == if entered@ == password@ {
                Ui { lock_wrong: false, locked: false, ..*old(self) }
            } else {
                Ui { lock_wrong: true, ..*old(self) }
            },
    {
        if same(entered, password) {
            self.lock_wrong = false;
            self.locked = false;
        } else {
            self.lock_wrong = true;
        }
    }
}

/// What is left to do outside the shell for an action.
#[derive(Debug)]
pub enum Effect<C> {
    Nothing,
    /// Run a command.
    Spawn(Launch),
    /// Leave the event loop.
    Quit,
    /// Ask a window to close.
    Close(u64),
    /// Give a window the keyboard focus.
    Focus(u64),
    /// Ask a window's client for a new size.
    Resize(u64, Rect<C>),
    /// Change the volume by so many percent, within 0 and 100.
    StepVolume(i32),
    ToggleMute,
    /// Capture the screen.
    Screenshot,
}

/// The workspace with a number counted from 1, clamped to those that exist.
pub open spec fn workspace_index(n: u32) -> i32 {
    if n == 0 || n > i32::MAX {
        0
    } else if n <= WORKSPACES {
        (n - 1) as i32
    } else {
        (WORKSPACES - 1) as i32
    }
}

/// The next workspace, round all of them.
pub open spec fn next_workspace(active: i32) -> i32 {
    ((active + 1) % WORKSPACES as int) as i32
}

/// The previous workspace, round all of them.
pub open spec fn prev_workspace(active: i32) -> i32 {
    ((active + WORKSPACES - 1) % WORKSPACES as int) as i32
}

/// The workspace number of an action can be counted from 0.
pub open spec fn workspace_fits(action: ActionView) -> bool {
    match action {
        ActionView::Workspace(n) => n != 0x8000_0000,
        ActionView::MoveToWorkspace(n) => n != 0x8000_0000,
        _ => true,
    }
}

/// The snap that an action stands for.
pub open spec fn action_snap(action: ActionView) -> Option<Snap> {
    match action {
        ActionView::SnapLeft => Some(Snap::Left),
        ActionView::SnapRight => Some(Snap::Right),
        ActionView::SnapUp => Some(Snap::Up),
        ActionView::SnapDown => Some(Snap::Down),
        _ => None,
    }
}

/// The windows after an action. `area` is the part of the work area that the
/// action puts a window in.
pub open spec fn acted_shell<C>(
    v: ShellView<C>,
    ui: Ui,
    action: ActionView,
    area: Rect<C>,
) -> ShellView<C> {
    match action {
        ActionView::NextWindow => match next_in(
            candidates(v.windows, ui.active_workspace),
            v.focused,
            true,
        ) {
            Some(id) => raised(v, id),
            None => v,
        },
        ActionView::PrevWindow => match next_in(
            candidates(v.windows, ui.active_workspace),
            v.focused,
            false,
        ) {
            Some(id) => raised(v, id),
            None => v,
        },
        ActionView::MoveToWorkspace(n) => sent_to_workspace(v, workspace_index(n)),
        ActionView::SnapLeft => snapped(v, area),
        ActionView::SnapRight => snapped(v, area),
        ActionView::SnapUp => snapped(v, area),
        ActionView::SnapDown => snapped(v, area),
        ActionView::Maximize => match focused_row(v) {
            Some(i) => with_maximized(v, v.windows[i].id, !v.windows[i].maximized, area),
            None => v,
        },
        _ => v,
    }
}

/// What the user interface shows after an action.
pub open spec fn acted_ui(ui: Ui, action: ActionView) -> Ui {
    match action {
        ActionView::StartMenu => Ui { start_menu_visible: !ui.start_menu_visible, ..ui },
        ActionView::Launcher => Ui { launcher_visible: true, ..ui },
        ActionView::Settings => Ui { settings_visible: true, ..ui },
        ActionView::QuickSettings => Ui { quick_settings_visible: !ui.quick_settings_visible, ..ui },
        ActionView::Lock => Ui { lock_wrong: false, locked: true, ..ui },
        ActionView::Workspace(n) => Ui { active_workspace: workspace_index(n), ..ui },
        ActionView::WorkspaceNext => Ui {
            active_workspace: next_workspace(ui.active_workspace),
            ..ui
        },
        ActionView::WorkspacePrev => Ui {
            active_workspace: prev_workspace(ui.active_workspace),
            ..ui
        },
        _ => ui,
    }
}

/// `effect` is what is left to do for an action.
pub open spec fn effect_of<C>(
    v: ShellView<C>,
    ui: Ui,
    action: ActionView,
    area: Rect<C>,
    effect: Effect<C>,
) -> bool {
    match action {
        ActionView::Spawn(cmd) => if trim(cmd).len() == 0 {
            effect is Nothing
        } else {
            effect matches Effect::Spawn(launch) && {
                &&& launch.command@ == trim(cmd)
                &&& change_views(launch.env@) == launch_changes(
                    env_view(v.wayland_env),
                    v.x_display,
                )
            }
        },
        ActionView::Logout => effect is Quit,
        ActionView::CloseWindow => effect == match v.focused {
            Some(id) => Effect::<C>::Close(id),
            None => Effect::<C>::Nothing,
        },
        ActionView::NextWindow => effect == match next_in(
            candidates(v.windows, ui.active_workspace),
            v.focused,
            true,
        ) {
            Some(id) => Effect::<C>::Focus(id),
            None => Effect::<C>::Nothing,
        },
        ActionView::PrevWindow => effect == match next_in(
            candidates(v.windows, ui.active_workspace),
            v.focused,
            false,
        ) {
            Some(id) => Effect::<C>::Focus(id),
            None => Effect::<C>::Nothing,
        },
        ActionView::VolumeUp => effect == Effect::<C>::StepVolume(VOLUME_STEP),
        ActionView::VolumeDown => effect == Effect::<C>::StepVolume((-VOLUME_STEP) as i32),
        ActionView::VolumeMute => effect is ToggleMute,
        ActionView::Maximize => effect == match focused_row(v) {
            Some(i) => Effect::Resize(
                v.windows[i].id,
                maximized_rect(v, v.windows[i].id, !v.windows[i].maximized, area),
            ),
            None => Effect::<C>::Nothing,
        },
        ActionView::Screenshot => effect is Screenshot,
        _ => if action_snap(action) is Some {
            effect == match focused_row(v) {
                Some(i) => Effect::Resize(v.windows[i].id, area),
                None => Effect::<C>::Nothing,
            }
        } else {
            effect is Nothing
        },
    }
}

/// The part of the work area that an action puts the focused window in.
pub open spec fn action_area<C>(v: ShellView<C>, action: ActionView) -> Option<Area> {
    match focused_row(v) {
        Some(i) => match action_snap(action) {
            Some(snap) => Some(snapped_area(snap, v.windows[i].decorated)),
            None => if action is Maximize {
                Some(full_area(v.windows[i].decorated))
            } else {
                None
            },
        },
        None => None,
    }
}

/// The snap that an action stands for.
fn snap_of(action: &Action) -> (r: Option<Snap>)
    ensures
        r == action_snap(action@),
{
    match action {
        Action::SnapLeft => Some(Snap::Left),
        Action::SnapRight => Some(Snap::Right),
        Action::SnapUp => Some(Snap::Up),
        Action::SnapDown => Some(Snap::Down),
        _ => None,
    }
}

/// The workspace with a number counted from 1, clamped to those that exist.
fn clamped_workspace(n: u32) -> (r: i32)
    ensures
        r == workspace_index(n),
        0 <= r < WORKSPACES,
{
    if n == 0 || n > i32::MAX as u32 {
        0
    } else if n <= WORKSPACES as u32 {
        (n - 1) as i32
    } else {
        WORKSPACES - 1
    }
}

/// The part of the work area that running `action` puts a window in, if it does
/// so.
pub fn area_for<C: Copy>(shell: &Shell<C>, action: &Action) -> (r: Option<Area>)
    requires
        shell.wf(),
    ensures
        r == action_area(shell@, action@),
{
    match snap_of(action) {
        Some(snap) => shell.snap_area(snap),
        None => match action {
            Action::Maximize => {
                let id = shell.focused?;
                shell.maximize_area(id)
            },
            _ => None,
        },
    }
}

/// Run a shortcut's action against the shell. `area` is the part of the work
/// area that [`area_for`] names, in the coordinates of the user interface.
/// Returns what is left to do outside.
pub fn run_action<C: Copy>(
    shell: &mut Shell<C>,
    ui: &mut Ui,
    action: &Action,
    area: Rect<C>,
) -> (r: Effect<C>)
    requires
        old(shell).wf(),
        old(ui).wf(),
        workspace_fits(action@),
    ensures
        final(shell).wf(),
        final(ui).wf(),
        final(shell)@ == acted_shell(old(shell)@, *old(ui), action@, area),
        *final(ui) == acted_ui(*old(ui), action@),
        effect_of(old(shell)@, *old(ui), action@, area, r),
{
    match action {
        Action::Spawn(cmd) => match spawn_command(
            cmd.as_str(),
            &shell.wayland_env,
            &shell.x_display,
        ) {
            Some(launch) => Effect::Spawn(launch),
            None => Effect::Nothing,
        },
        Action::StartMenu => {
            ui.start_menu_visible = !ui.start_menu_visible;
            Effect::Nothing
        },
        Action::Launcher => {
            ui.launcher_visible = true;
            Effect::Nothing
        },
        Action::Settings => {
            ui.settings_visible = true;
            Effect::Nothing
        },
        Action::QuickSettings => {
            ui.quick_settings_visible = !ui.quick_settings_visible;
            Effect::Nothing
        },
        Action::Lock => {
            ui.lock_wrong = false;
            ui.locked = true;
            Effect::Nothing
        },
        Action::Logout => Effect::Quit,
        Action::CloseWindow => match shell.focused {
            Some(id) => Effect::Close(id),
            None => Effect::Nothing,
        },
        Action::NextWindow => match shell.cycle_focus(ui.active_workspace, true) {
            Some(id) => Effect::Focus(id),
            None => Effect::Nothing,
        },
        Action::PrevWindow => match shell.cycle_focus(ui.active_workspace, false) {
            Some(id) => Effect::Focus(id),
            None => Effect::Nothing,
        },
        Action::Workspace(n) => {
            ui.active_workspace = clamped_workspace(*n);
            Effect::Nothing
        },
        Action::MoveToWorkspace(n) => {
            shell.move_focused_to_workspace(clamped_workspace(*n));
            Effect::Nothing
        },
        Action::WorkspaceNext => {
            ui.active_workspace = (ui.active_workspace + 1) % WORKSPACES;
            Effect::Nothing
        },
        Action::WorkspacePrev => {
            ui.active_workspace = (ui.active_workspace + WORKSPACES - 1) % WORKSPACES;
            Effect::Nothing
        },
        Action::VolumeUp => Effect::StepVolume(VOLUME_STEP),
        Action::VolumeDown => Effect::StepVolume(-VOLUME_STEP),
        Action::VolumeMute => Effect::ToggleMute,
        Action::SnapLeft | Action::SnapRight | Action::SnapUp | Action::SnapDown => {
            match shell.snap_focused(area) {
                Some((id, rect)) => Effect::Resize(id, rect),
                None => Effect::Nothing,
            }
        },
        Action::Maximize => match shell.focused {
            Some(id) => match shell.toggle_maximized(id, area) {
                Some((id, rect)) => Effect::Resize(id, rect),
                None => Effect::Nothing,
            },
            None => Effect::Nothing,
        },
        Action::Screenshot => Effect::Screenshot,
    }
}

// ---------------------------------------------------------------------------
// Bindings

/// The binding matches a key with modifiers.
pub open spec fn bound(
    b: KeybindView,
    key: Seq<char>,
    ctrl: bool,
    alt: bool,
    shift: bool,
    meta: bool,
) -> bool {
    b.key == key && b.meta == meta && b.ctrl == ctrl && b.alt == alt && b.shift == shift
}

/// `i` is the first binding that matches.
pub open spec fn first_bound(
    binds: Seq<KeybindView>,
    i: int,
    key: Seq<char>,
    ctrl: bool,
    alt: bool,
    shift: bool,
    meta: bool,
) -> bool {
    &&& 0 <= i < binds.len()
    &&& bound(binds[i], key, ctrl, alt, shift, meta)
    &&& forall|k: int|
        0 <= k < i ==> !bound(#[trigger] binds[k], key, ctrl, alt, shift, meta)
}

/// No binding matches.
pub open spec fn none_bound(
    binds: Seq<KeybindView>,
    key: Seq<char>,
    ctrl: bool,
    alt: bool,
    shift: bool,
    meta: bool,
) -> bool {
    forall|k: int| 0 <= k < binds.len() ==> !bound(#[trigger] binds[k], key, ctrl, alt, shift, meta)
}

/// The first binding that matches a key text with modifiers.
pub fn find_binding(
    binds: &Vec<Keybind>,
    text: &str,
    ctrl: bool,
    alt: bool,
    shift: bool,
    meta: bool,
) -> (r: Option<usize>)
    ensures
        match r {
            Some(i) => first_bound(
                keybind_views(binds@),
                i as int,
                text_key(text@),
                ctrl,
                alt,
                shift,
                meta,
            ),
            None => none_bound(keybind_views(binds@), text_key(text@), ctrl, alt, shift, meta),
        },
{
    let key = normalize_text(text);
    let ghost views = keybind_views(binds@);
    for i in 0..binds.len()
        invariant
            views == keybind_views(binds@),
            key@ == text_key(text@),
            forall|k: int|
                0 <= k < i ==> !bound(#[trigger] views[k], key@, ctrl, alt, shift, meta),
    {
        assert(views[i as int] == binds@[i as int]@);
        if binds[i].matches(key.as_str(), ctrl, alt, shift, meta) {
            return Some(i);
        }
    }
    None
}

/// What to do with a key event for the focused client.
#[derive(Debug)]
pub enum KeyDecision {
    /// Run the action of the binding with this index.
    Run(usize),
    /// Send these key events to the client.
    Forward(Vec<KeyEvent>),
}

/// Intercept a shortcut, else forward the key to the focused client.
pub fn key_window(
    binds: &Vec<Keybind>,
    text: &str,
    pressed: bool,
    ctrl: bool,
    alt: bool,
    shift: bool,
    meta: bool,
) -> (r: KeyDecision)
    ensures
        match r {
            KeyDecision::Run(i) => pressed && first_bound(
                keybind_views(binds@),
                i as int,
                text_key(text@),
                ctrl,
                alt,
                shift,
                meta,
            ),
            KeyDecision::Forward(events) => {
                &&& pressed ==> none_bound(
                    keybind_views(binds@),
                    text_key(text@),
                    ctrl,
                    alt,
                    shift,
                    meta,
                )
                &&& events@ == forwarded(text@, ctrl, alt, shift)
            },
        },
{
    if pressed {
        if let Some(i) = find_binding(binds, text, ctrl, alt, shift, meta) {
            return KeyDecision::Run(i);
        }
    }
    KeyDecision::Forward(forward_key(text, ctrl, alt, shift))
}

/// Whether an action shows the volume display for a moment.
pub fn flashes_volume(action: &Action) -> (r: bool)
    ensures
        r == (action@ is VolumeUp || action@ is VolumeDown || action@ is VolumeMute),
{
    match action {
        Action::VolumeUp | Action::VolumeDown | Action::VolumeMute => true,
        _ => false,
    }
}

// ---------------------------------------------------------------------------
// Volume display

/// How long the volume display is shown, in milliseconds.
pub const OSD_MS: u64 = 1200;

/// The volume display.
#[derive(Debug, Clone, Copy)]
pub struct Osd {
    pub visible: bool,
    /// When it hides itself, in milliseconds of some clock.
    pub until: Option<u64>,
}

impl Osd {
    /// Show the display for a moment.
    pub fn flash(&mut self, now: u64)
        requires
            now <= u64::MAX - OSD_MS,
        ensures
            final(self).visible,
            final(self).until == Some((now + OSD_MS) as u64),
    {
        self.visible = true;
        self.until = Some(now + OSD_MS);
    }

    /// Hide the display once its time has come. Returns whether it has.
    pub fn hide_when_due(&mut self, now: u64) -> (r: bool)
        ensures
            r == (old(self).until matches Some(t) && now >= t),
            *final(self) == if r {
                Osd { visible: false, until: None }
            } else {
                *old(self)
            },
    {
        let due = match self.until {
            Some(t) => now >= t,
            None => false,
        };
        if due {
            self.visible = false;
            self.until = None;
        }
        due
    }
}

// ---------------------------------------------------------------------------
// Pointer

/// The command for a pointer event over a client window: `kind` 1 is a press and
/// 2 a release of the button `btn`; any other is a motion to `(x, y)`.
pub fn pointer_window<C>(id: u64, x: C, y: C, kind: i32, btn: i32) -> (r: Command<C>)
    ensures
        r == if kind == 1 || kind == 2 {
            Command::<C>::PointerButton {
                id: WindowId(id),
                button: button_code(btn as int),
                pressed: kind == 1,
            }
        } else {
            Command::PointerMotion { id: WindowId(id), x, y }
        },
{
    match kind {
        1 | 2 => Command::PointerButton {
            id: WindowId(id),
            button: evdev_button(btn),
            pressed: kind == 1,
        },
        _ => Command::PointerMotion { id: WindowId(id), x, y },
    }
}

// ---------------------------------------------------------------------------
// Laws

/// Going to the next workspace and back, or back and to the next, stays where it
/// was.
pub proof fn law_workspace_steps_undo_each_other(ui: Ui)
    requires
        ui.wf(),
    ensures
        acted_ui(acted_ui(ui, ActionView::WorkspaceNext), ActionView::WorkspacePrev) == ui,
        acted_ui(acted_ui(ui, ActionView::WorkspacePrev), ActionView::WorkspaceNext) == ui,
{
}

/// Toggling a menu twice leaves it as it was.
pub proof fn law_menu_toggles_undo_themselves(ui: Ui)
    ensures
        acted_ui(acted_ui(ui, ActionView::StartMenu), ActionView::StartMenu) == ui,
        acted_ui(acted_ui(ui, ActionView::QuickSettings), ActionView::QuickSettings) == ui,
{
}

/// Maximizing the focused window and maximizing it again puts all windows back.
pub proof fn law_maximize_twice_restores<C>(
    v: ShellView<C>,
    ui: Ui,
    area: Rect<C>,
    other: Rect<C>,
)
    requires
        shell_wf(v),
        focused_row(v) matches Some(i) ==> !v.windows[i].maximized,
    ensures
        ({
            let once = acted_shell(v, ui, ActionView::Maximize, area);
            acted_shell(once, ui, ActionView::Maximize, other).windows == v.windows
        }),
{
    let once = acted_shell(v, ui, ActionView::Maximize, area);
    if let Some(i) = focused_row(v) {
        let id = v.windows[i].id;
        assert(window_ids(once.windows) =~= window_ids(v.windows));
        lemma_row(window_ids(v.windows), i);
        law_restore_undoes_maximize(v, id, area, other);
    }
}

/// What actions do to the menus, the lock and the workspace shown: each changes
/// the one thing that it is named after. Workspaces are counted from 1, there are
/// four, and a number beyond is the nearest of them.
pub proof fn law_actions_change_what_they_name(ui: Ui, action: ActionView)
    requires
        ui.wf(),
    ensures
        ({
            let after = acted_ui(ui, action);
            &&& after.start_menu_visible == (if action is StartMenu {
                !ui.start_menu_visible
            } else {
                ui.start_menu_visible
            })
            &&& after.quick_settings_visible == (if action is QuickSettings {
                !ui.quick_settings_visible
            } else {
                ui.quick_settings_visible
            })
            &&& after.launcher_visible == (ui.launcher_visible || action is Launcher)
            &&& after.settings_visible == (ui.settings_visible || action is Settings)
            &&& after.locked == (ui.locked || action is Lock)
            &&& after.lock_wrong == (ui.lock_wrong && !(action is Lock))
            &&& 0 <= after.active_workspace < 4
            &&& action matches ActionView::Workspace(n) ==> {
                &&& 1 <= n <= 4 ==> after.active_workspace == n - 1
                &&& 4 < n <= i32::MAX ==> after.active_workspace == 3
                &&& n == 0 ==> after.active_workspace == 0
            }
            &&& action is WorkspaceNext ==> after.active_workspace == (if ui.active_workspace
                == 3 {
                0
            } else {
                ui.active_workspace + 1
            })
            &&& action is WorkspacePrev ==> after.active_workspace == (if ui.active_workspace
                == 0 {
                3
            } else {
                ui.active_workspace - 1
            })
            &&& !(action is Workspace || action is WorkspaceNext || action is WorkspacePrev)
                ==> after.active_workspace == ui.active_workspace
        }),
{
}

/// What actions leave to do: `spawn` runs its command, `logout` quits, a window is
/// closed only by `close-window` and only the focused one, the volume goes up or
/// down by five percent, and so on. An action that changes the menus, the lock or
/// the workspace shown leaves nothing to do.
pub proof fn law_actions_have_their_effects<C>(
    v: ShellView<C>,
    ui: Ui,
    action: ActionView,
    area: Rect<C>,
    effect: Effect<C>,
)
    requires
        effect_of(v, ui, action, area, effect),
    ensures
        effect is Spawn ==> (action matches ActionView::Spawn(cmd) && effect->Spawn_0.command@
            == trim(cmd) && trim(cmd).len() > 0),
        action matches ActionView::Spawn(cmd) ==> (trim(cmd).len() > 0 ==> effect is Spawn),
        effect is Quit <==> action is Logout,
        effect is Close <==> action is CloseWindow && v.focused is Some,
        effect is Close ==> v.focused == Some(effect->Close_0),
        effect is Focus ==> action is NextWindow || action is PrevWindow,
        effect is StepVolume <==> action is VolumeUp || action is VolumeDown,
        action is VolumeUp ==> effect == Effect::<C>::StepVolume(5),
        action is VolumeDown ==> (effect matches Effect::StepVolume(n) && n == -5),
        effect is ToggleMute <==> action is VolumeMute,
        effect is Screenshot <==> action is Screenshot,
        effect is Resize <==> focused_row(v) is Some && (action is SnapLeft || action is SnapRight
            || action is SnapUp || action is SnapDown || action is Maximize),
        effect is Resize ==> v.focused == Some(effect->Resize_0),
        effect is Resize && !(action is Maximize) ==> effect->Resize_1 == area,
        action is StartMenu || action is Launcher || action is Settings || action is QuickSettings
            || action is Lock || action is Workspace || action is MoveToWorkspace
            || action is WorkspaceNext || action is WorkspacePrev ==> effect is Nothing,
{
    if let Some(i) = focused_row(v) {
        assert(window_ids(v.windows)[i] == v.focused.unwrap());
    }
}

/// The snap shortcuts tile the focused window into the half they are named after,
/// and `maximize` into all of the work area, each below a title bar of 28 pixels
/// if the window is decorated; no other action places a window.
pub proof fn law_shortcuts_tile_where_they_say<C>(v: ShellView<C>, action: ActionView)
    ensures
        match action_area(v, action) {
            Some(area) => {
                &&& focused_row(v) is Some
                &&& area.half_width == (action is SnapLeft || action is SnapRight)
                &&& area.half_height == (action is SnapUp || action is SnapDown)
                &&& area.right == action is SnapRight
                &&& area.bottom == action is SnapDown
                &&& area.titlebar == (if v.windows[focused_row(v).unwrap()].decorated {
                    28
                } else {
                    0int
                })
                &&& action is SnapLeft || action is SnapRight || action is SnapUp
                    || action is SnapDown || action is Maximize
            },
            None => focused_row(v) is None || !(action is SnapLeft || action is SnapRight
                || action is SnapUp || action is SnapDown || action is Maximize),
        },
{
}

/// What actions do to the windows: cycling raises the window that it gives the
/// focus to, `move-to-workspace` sends the focused window to a workspace counted
/// from 1, the snaps put it into the area, `maximize` maximizes or restores it,
/// and no other action touches a window.
pub proof fn law_actions_move_windows<C>(
    v: ShellView<C>,
    ui: Ui,
    action: ActionView,
    area: Rect<C>,
    effect: Effect<C>,
    i: int,
)
    requires
        shell_wf(v),
        effect_of(v, ui, action, area, effect),
        0 <= i < v.windows.len(),
    ensures
        ({
            let after = acted_shell(v, ui, action, area);
            let t = v.windows[i];
            let focused = v.focused == Some(t.id);
            &&& action is NextWindow || action is PrevWindow ==> (if effect is Focus {
                after == raised(v, effect->Focus_0)
            } else {
                after == v
            })
            &&& action matches ActionView::MoveToWorkspace(n) ==> {
                &&& focused && 1 <= n <= 4 ==> after.windows[i] == (WindowTile {
                    workspace: (n - 1) as i32,
                    ..t
                })
                &&& focused && 4 < n <= i32::MAX ==> after.windows[i].workspace == 3
                &&& focused && n == 0 ==> after.windows[i].workspace == 0
                &&& !focused ==> after.windows[i] == t
            }
            &&& action is SnapLeft || action is SnapRight || action is SnapUp || action is SnapDown
                ==> after.windows[i] == (if focused {
                WindowTile { rect: area, maximized: false, ..t }
            } else {
                t
            })
            &&& action is Maximize ==> {
                &&& !focused ==> after.windows[i] == t
                &&& focused ==> after.windows[i].maximized == !t.maximized
                &&& focused && !t.maximized ==> after.windows[i].rect == area
            }
            &&& !(action is NextWindow || action is PrevWindow || action is MoveToWorkspace
                || action is SnapLeft || action is SnapRight || action is SnapUp
                || action is SnapDown || action is Maximize) ==> after == v
        }),
{
    let ids = window_ids(v.windows);
    lemma_row(ids, i);
    if let Some(k) = focused_row(v) {
        assert(ids[k] == v.focused.unwrap());
        lemma_row(ids, k);
    }
}

/// The first binding with the key and exactly the modifiers of an event is the one
/// that is run.
pub proof fn law_the_first_matching_binding_runs(
    binds: Seq<KeybindView>,
    key: Seq<char>,
    ctrl: bool,
    alt: bool,
    shift: bool,
    meta: bool,
    i: int,
    k: int,
)
    requires
        0 <= k < binds.len(),
        binds[k].key == key,
        binds[k].ctrl == ctrl,
        binds[k].alt == alt,
        binds[k].shift == shift,
        binds[k].meta == meta,
    ensures
        !none_bound(binds, key, ctrl, alt, shift, meta),
        first_bound(binds, i, key, ctrl, alt, shift, meta) ==> {
            &&& 0 <= i <= k
            &&& binds[i].key == key && binds[i].ctrl == ctrl && binds[i].alt == alt
            &&& binds[i].shift == shift && binds[i].meta == meta
        },
{
    assert(bound(binds[k], key, ctrl, alt, shift, meta));
}

/// The volume display stays for 1.2 seconds, and there are four workspaces.
pub proof fn law_display_and_workspace_numbers()
    ensures
        OSD_MS == 1200,
        WORKSPACES == 4,
        VOLUME_STEP == 5,
{
}

/// Only a press runs a shortcut; a key that is bound to none is forwarded as it
/// was, with its modifiers. The volume shortcuts, and no others, show the volume.
pub proof fn law_keys_are_bound_or_forwarded(
    binds: &Vec<Keybind>,
    text: &str,
    pressed: bool,
    ctrl: bool,
    alt: bool,
    shift: bool,
    meta: bool,
    r: KeyDecision,
    action: &Action,
    flashes: bool,
)
    requires
        call_ensures(key_window, (binds, text, pressed, ctrl, alt, shift, meta), r),
        call_ensures(flashes_volume, (action,), flashes),
    ensures
        !pressed ==> r is Forward,
        r matches KeyDecision::Forward(events) ==> events@ == forwarded(text@, ctrl, alt, shift),
        r matches KeyDecision::Run(i) ==> i < binds.len() && binds@[i as int].key@ == text_key(
            text@,
        ) && binds@[i as int].ctrl == ctrl && binds@[i as int].alt == alt
            && binds@[i as int].shift == shift && binds@[i as int].meta == meta,
        pressed && r is Forward ==> forall|k: int|
            0 <= k < binds.len() ==> !(binds@[k].key@ == text_key(text@) && binds@[k].ctrl == ctrl
                && binds@[k].alt == alt && (#[trigger] binds@[k]).shift == shift && binds@[k].meta
                == meta),
        flashes <==> *action is VolumeUp || *action is VolumeDown || *action is VolumeMute,
{
    let views = keybind_views(binds@);
    assert forall|k: int| 0 <= k < binds.len() implies #[trigger] views[k] == binds@[k]@ by {}
    if pressed && r is Forward {
        assert forall|k: int| 0 <= k < binds.len() implies !(binds@[k].key@ == text_key(text@)
            && binds@[k].ctrl == ctrl && binds@[k].alt == alt && (#[trigger] binds@[k]).shift
            == shift && binds@[k].meta == meta) by {
            assert(!bound(views[k], text_key(text@), ctrl, alt, shift, meta));
        }
    }
}

/// A pointer event is a press, a release or a motion, of the window it is over and at
/// its place.
pub proof fn law_pointer_events<C>(id: u64, x: C, y: C, kind: i32, btn: i32, r: Command<C>)
    requires
        call_ensures(pointer_window::<C>, (id, x, y, kind, btn), r),
    ensures
        kind == 1 || kind == 2 ==> (r matches Command::PointerButton { id: w, button, pressed }
            && w.0 == id && (pressed <==> kind == 1) && (btn == 1 ==> button == 0x110) && (btn == 2
            ==> button == 0x111) && (btn == 3 ==> button == 0x112)),
        kind != 1 && kind != 2 ==> r == (Command::PointerMotion { id: WindowId(id), x, y }),
{
}

} // verus!
