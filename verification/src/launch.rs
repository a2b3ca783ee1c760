//! Launching applications against the compositor's own socket.

use vstd::prelude::*;

use crate::text::chars::{trim, trim_str};
use crate::text::number::{decimal, decimal_of};

verus! {

/// A change to the environment that a launched command inherits.
#[derive(Debug, PartialEq)]
pub enum EnvChange {
    Remove(String),
    Define(String, String),
}

/// An [`EnvChange`] as a mathematical value.
pub enum EnvChangeView {
    Remove(Seq<char>),
    Define(Seq<char>, Seq<char>),
}

impl View for EnvChange {
    type V = EnvChangeView;

    open spec fn view(&self) -> EnvChangeView {
        match self {
            EnvChange::Remove(name) => EnvChangeView::Remove(name@),
            EnvChange::Define(name, value) => EnvChangeView::Define(name@, value@),
        }
    }
}

/// The values of changes.
pub open spec fn change_views(changes: Seq<EnvChange>) -> Seq<EnvChangeView> {
    Seq::new(changes.len(), |i: int| changes[i]@)
}

/// A shell command to run detached, and the changes to its environment in the
/// order in which they are made.
#[derive(Debug, PartialEq)]
pub struct Launch {
    pub command: String,
    pub env: Vec<EnvChange>,
}

/// The text that names an X display.
pub open spec fn x_display_text(display: u32) -> Seq<char> {
    seq![':'] + decimal(display as nat)
}

/// The text that names an X display.
pub fn x_display_name(display: u32) -> (r: String)
    ensures
        r@ == x_display_text(display),
{
    let mut name = ":".to_string();
    name.append(decimal_of(display as u64).as_str());
    proof {
        reveal_strlit(":");
        assert(name@ =~= x_display_text(display));
    }
    name
}

/// The changes to the environment of a launched command: it must not inherit a
/// socket of the host compositor, nor its X display, and is pointed at the X
/// display that is named and at the socket that is ready.
pub open spec fn launch_changes(
    wayland: Option<(Seq<char>, Seq<char>)>,
    x_display: Option<Seq<char>>,
) -> Seq<EnvChangeView> {
    seq![EnvChangeView::Remove("WAYLAND_SOCKET"@), EnvChangeView::Remove("DISPLAY"@)] + (
    match x_display {
        Some(name) => seq![EnvChangeView::Define("DISPLAY"@, name)],
        None => seq![],
    }) + (match wayland {
        Some((display, runtime_dir)) => seq![
            EnvChangeView::Define("WAYLAND_DISPLAY"@, display),
            EnvChangeView::Define("XDG_RUNTIME_DIR"@, runtime_dir),
        ],
        None => seq![],
    })
}

/// `(WAYLAND_DISPLAY, XDG_RUNTIME_DIR)` as mathematical values.
pub open spec fn env_view(env: Option<(String, String)>) -> Option<(Seq<char>, Seq<char>)> {
    match env {
        Some((display, runtime_dir)) => Some((display@, runtime_dir@)),
        None => None,
    }
}

/// The name of an X display as a mathematical value.
pub open spec fn name_view(name: Option<String>) -> Option<Seq<char>> {
    match name {
        Some(n) => Some(n@),
        None => None,
    }
}

/// What to run for a command line. `wayland` is `(WAYLAND_DISPLAY,
/// XDG_RUNTIME_DIR)` of the compositor's own socket, once it is ready, and
/// `x_display` the name of the X display, if there is one. A blank command runs
/// nothing.
pub fn spawn_command(
    cmd: &str,
    wayland: &Option<(String, String)>,
    x_display: &Option<String>,
) -> (r: Option<Launch>)
    ensures
        match r {
            Some(launch) => {
                &&& trim(cmd@).len() > 0
                &&& launch.command@ == trim(cmd@)
                &&& change_views(launch.env@) == launch_changes(
                    env_view(*wayland),
                    name_view(*x_display),
                )
            },
            None => trim(cmd@).len() == 0,
        },
{
    let cmd = trim_str(cmd);
    if cmd.is_empty() {
        return None;
    }
    let mut env: Vec<EnvChange> = Vec::new();
    env.push(EnvChange::Remove("WAYLAND_SOCKET".to_string()));
    env.push(EnvChange::Remove("DISPLAY".to_string()));
    if let Some(name) = x_display {
        env.push(EnvChange::Define("DISPLAY".to_string(), name.clone()));
    }
    if let Some((display, runtime_dir)) = wayland {
        env.push(EnvChange::Define("WAYLAND_DISPLAY".to_string(), display.clone()));
        env.push(EnvChange::Define("XDG_RUNTIME_DIR".to_string(), runtime_dir.clone()));
    }
    assert(change_views(env@) =~= launch_changes(env_view(*wayland), name_view(*x_display)));
    Some(Launch { command: cmd.to_string(), env })
}

/// An environment after changes.
pub open spec fn changed_env(env: Map<Seq<char>, Seq<char>>, changes: Seq<EnvChangeView>) -> Map<
    Seq<char>,
    Seq<char>,
>
    decreases changes.len(),
{
    if changes.len() == 0 {
        env
    } else {
        let before = changed_env(env, changes.drop_last());
        match changes.last() {
            EnvChangeView::Remove(name) => before.remove(name),
            EnvChangeView::Define(name, value) => before.insert(name, value),
        }
    }
}

/// One more change.
proof fn lemma_changed_push(
    env: Map<Seq<char>, Seq<char>>,
    changes: Seq<EnvChangeView>,
    change: EnvChangeView,
)
    ensures
        changed_env(env, changes.push(change)) == match change {
            EnvChangeView::Remove(name) => changed_env(env, changes).remove(name),
            EnvChangeView::Define(name, value) => changed_env(env, changes).insert(name, value),
        },
{
    assert(changes.push(change).drop_last() =~= changes);
}

/// Whatever the host's environment, a launched command inherits no
/// `WAYLAND_SOCKET`, has the X display that is named or none, and, once the
/// compositor is ready, connects to its socket.
pub proof fn law_launched_commands_connect_here(
    env: Map<Seq<char>, Seq<char>>,
    wayland: Option<(Seq<char>, Seq<char>)>,
    x_display: Option<Seq<char>>,
)
    ensures
        ({
            let child = changed_env(env, launch_changes(wayland, x_display));
            &&& !child.contains_key("WAYLAND_SOCKET"@)
            &&& match x_display {
                Some(name) => child.contains_key("DISPLAY"@) && child["DISPLAY"@] == name,
                None => !child.contains_key("DISPLAY"@),
            }
            &&& wayland matches Some((display, runtime_dir)) ==> {
                &&& child.contains_key("WAYLAND_DISPLAY"@)
                &&& child["WAYLAND_DISPLAY"@] == display
                &&& child.contains_key("XDG_RUNTIME_DIR"@)
                &&& child["XDG_RUNTIME_DIR"@] == runtime_dir
            }
        }),
{
    reveal_strlit("WAYLAND_SOCKET");
    reveal_strlit("DISPLAY");
    reveal_strlit("WAYLAND_DISPLAY");
    reveal_strlit("XDG_RUNTIME_DIR");
    assert("WAYLAND_SOCKET"@.len() == 14 && "DISPLAY"@.len() == 7);
    assert("WAYLAND_DISPLAY"@[0] == 'W' && "XDG_RUNTIME_DIR"@[0] == 'X');
    let c0 = Seq::<EnvChangeView>::empty();
    let a = EnvChangeView::Remove("WAYLAND_SOCKET"@);
    let b = EnvChangeView::Remove("DISPLAY"@);
    let c1 = c0.push(a);
    let c2 = c1.push(b);
    lemma_changed_push(env, c0, a);
    lemma_changed_push(env, c1, b);
    let c3 = match x_display {
        Some(name) => c2.push(EnvChangeView::Define("DISPLAY"@, name)),
        None => c2,
    };
    if let Some(name) = x_display {
        lemma_changed_push(env, c2, EnvChangeView::Define("DISPLAY"@, name));
    }
    if let Some((display, runtime_dir)) = wayland {
        let d = EnvChangeView::Define("WAYLAND_DISPLAY"@, display);
        let e = EnvChangeView::Define("XDG_RUNTIME_DIR"@, runtime_dir);
        lemma_changed_push(env, c3, d);
        lemma_changed_push(env, c3.push(d), e);
        assert(launch_changes(wayland, x_display) =~= c3.push(d).push(e));
    } else {
        assert(launch_changes(wayland, x_display) =~= c3);
    }
}

} // verus!
