//! What the session's D-Bus services are asked and answered: power actions,
//! battery state, the desktop portal and volume.

use vstd::prelude::*;

use crate::text::ospath::shown_text;
use crate::text::percent::{path_to_uri, percent_encoded};

verus! {

// ---------------------------------------------------------------------------
// Power

/// A power action the shell can request from logind.
#[derive(Debug, Clone, Copy, PartialEq, Eq, Structural)]
pub enum PowerAction {
    Suspend,
    Reboot,
    PowerOff,
}

impl PowerAction {
    /// The method of logind's manager that performs the action.
    pub fn method(self) -> (r: &'static str)
        ensures
            r@ == match self {
                PowerAction::Suspend => "Suspend"@,
                PowerAction::Reboot => "Reboot"@,
                PowerAction::PowerOff => "PowerOff"@,
            },
    {
        match self {
            PowerAction::Suspend => "Suspend",
            PowerAction::Reboot => "Reboot",
            PowerAction::PowerOff => "PowerOff",
        }
    }
}

/// Battery state for the UI. `P` is the type of percentages.
#[derive(Debug, Clone, Copy)]
pub struct Battery<P> {
    pub present: bool,
    pub percent: P,
    pub charging: bool,
}

/// The battery state from what UPower reports. State 1 is charging and 4 fully
/// charged; both are on AC.
pub fn read_battery<P>(present: bool, percent: P, state: u32) -> (r: Battery<P>)
    ensures
        r.present == present,
        r.percent == percent,
        r.charging == (state == 1 || state == 4),
{
    Battery { present, percent, charging: state == 1 || state == 4 }
}

// ---------------------------------------------------------------------------
// Portal

/// The title of the dialog for a file-open request.
pub open spec fn dialog_title(title: Seq<char>) -> Seq<char> {
    if title.len() == 0 {
        "Open File"@
    } else {
        title
    }
}

/// The title of the dialog for a file-open request: the one asked for, or a
/// default.
pub fn request_title(title: String) -> (r: String)
    ensures
        r@ == dialog_title(title@),
{
    if title.as_str().is_empty() {
        "Open File".to_string()
    } else {
        title
    }
}

/// What became of a file-open request.
#[derive(Debug)]
pub enum Outcome {
    /// The shell that serves requests is gone.
    BackendGone,
    /// The user cancelled, or the request was dropped.
    Cancelled,
    /// The user chose the path with this text.
    Chosen(String),
}

/// The reply to a file-open request: 0 = success with the `file://` URI of the
/// chosen file, 1 = cancelled, 2 = ended some other way.
pub fn open_file_reply(outcome: &Outcome) -> (r: (u32, Option<String>))
    ensures
        match outcome {
            Outcome::BackendGone => r.0 == 2 && r.1 is None,
            Outcome::Cancelled => r.0 == 1 && r.1 is None,
            Outcome::Chosen(path) => r.0 == 0 && (r.1 matches Some(uri) && uri@ == "file://"@
                + percent_encoded(shown_text(path@))),
        },
{
    match outcome {
        Outcome::BackendGone => (2, None),
        Outcome::Cancelled => (1, None),
        Outcome::Chosen(path) => (0, Some(path_to_uri(path.as_str()))),
    }
}

/// The colour scheme that the appearance portal publishes: 1 = prefer dark, 2 =
/// prefer light.
pub fn appearance_scheme(dark: bool) -> (r: u32)
    ensures
        r == if dark {
            1u32
        } else {
            2u32
        },
{
    if dark {
        1
    } else {
        2
    }
}

// ---------------------------------------------------------------------------
// Colours

/// A colour as `0xRRGGBB`.
pub open spec fn packed(red: u8, green: u8, blue: u8) -> int {
    red * 0x1_0000 + green * 0x100 + blue
}

/// A colour as `0xRRGGBB`.
pub fn color_to_u32(red: u8, green: u8, blue: u8) -> (r: u32)
    ensures
        r == packed(red, green, blue),
{
    red as u32 * 0x1_0000 + green as u32 * 0x100 + blue as u32
}

/// The red, green and blue of `0xRRGGBB`. Anything above is left out.
pub fn u32_to_color(n: u32) -> (r: (u8, u8, u8))
    ensures
        packed(r.0, r.1, r.2) == n % 0x100_0000,
{
    let red: u32 = n / 0x1_0000 % 0x100;
    let green: u32 = n / 0x100 % 0x100;
    let blue: u32 = n % 0x100;
    (red as u8, green as u8, blue as u8)
}

/// A colour that is packed and unpacked again is the same colour: the only one
/// that the number `0xRRGGBB` stands for.
pub proof fn law_packing_keeps_the_colour(color: (u8, u8, u8), unpacked: (u8, u8, u8))
    requires
        packed(unpacked.0, unpacked.1, unpacked.2) == packed(color.0, color.1, color.2)
            % 0x100_0000,
    ensures
        unpacked == color,
{
    let n = packed(color.0, color.1, color.2);
    assert(n % 0x100_0000 == n) by {
        assert(0 <= n < 0x100_0000);
        vstd::arithmetic::div_mod::lemma_small_mod(n as nat, 0x100_0000);
    }
}

// ---------------------------------------------------------------------------
// Volume

/// A request for the volume worker. `V` is the type of levels.
#[derive(Debug, Clone)]
pub enum VolCommand<V> {
    /// Change the level, 0..100.
    SetLevel(V),
    ToggleMute,
}

/// What the volume worker is woken by.
#[derive(Debug)]
pub enum VolWake<V> {
    Command(VolCommand<V>),
    /// It is time to refresh.
    Timeout,
    /// The user interface is gone.
    Disconnected,
}

/// What the volume worker does to the default sink.
#[derive(Debug)]
pub enum VolAction<V> {
    Nothing,
    SetLevel(V),
    SetMute(bool),
}

/// What the volume worker does when it is woken: to the default sink, if there is
/// one, and whether it goes on (and refreshes what the user interface shows).
/// `channels` is whether the channel layout of the sink is known, `muted` whether
/// the sink is muted.
pub fn volume_step<V>(wake: VolWake<V>, sink: bool, channels: bool, muted: bool) -> (r: (
    VolAction<V>,
    bool,
))
    ensures
        match wake {
            VolWake::Command(VolCommand::SetLevel(level)) => r.1 && r.0 == if sink && channels {
                VolAction::SetLevel(level)
            } else {
                VolAction::<V>::Nothing
            },
            VolWake::Command(VolCommand::ToggleMute) => r.1 && r.0 == if sink {
                VolAction::<V>::SetMute(!muted)
            } else {
                VolAction::<V>::Nothing
            },
            VolWake::Timeout => r.1 && r.0 is Nothing,
            VolWake::Disconnected => !r.1 && r.0 is Nothing,
        },
{
    match wake {
        VolWake::Command(VolCommand::SetLevel(level)) => {
            if sink && channels {
                (VolAction::SetLevel(level), true)
            } else {
                (VolAction::Nothing, true)
            }
        },
        VolWake::Command(VolCommand::ToggleMute) => {
            if sink {
                (VolAction::SetMute(!muted), true)
            } else {
                (VolAction::Nothing, true)
            }
        },
        VolWake::Timeout => (VolAction::Nothing, true),
        VolWake::Disconnected => (VolAction::Nothing, false),
    }
}

/// How often a state is polled before giving up.
pub const POLLS: u32 = 200;

/// The state of a connection to the sound server.
#[derive(Debug, Clone, Copy, PartialEq, Eq, Structural)]
pub enum ContextState {
    Ready,
    /// The connection failed or was ended.
    Failed,
    /// The connection is being made.
    Connecting,
}

/// Whether a connection that was polled so many times before is ready, or not, or
/// has to be polled again.
pub fn wait_ready(polled: u32, state: ContextState) -> (r: Option<bool>)
    ensures
        r == if polled >= POLLS {
            Some(false)
        } else {
            match state {
                ContextState::Ready => Some(true),
                ContextState::Failed => Some(false),
                ContextState::Connecting => None,
            }
        },
{
    if polled >= POLLS {
        return Some(false);
    }
    match state {
        ContextState::Ready => Some(true),
        ContextState::Failed => Some(false),
        ContextState::Connecting => None,
    }
}

// ---------------------------------------------------------------------------
// Laws

/// A dialog has the title that was asked for, and one of its own if none was. A
/// state is polled two hundred times.
pub proof fn law_dialogs_have_a_title(title: Seq<char>)
    ensures
        dialog_title(title).len() > 0,
        title.len() > 0 ==> dialog_title(title) == title,
        title.len() == 0 ==> dialog_title(title) == "Open File"@,
        POLLS == 200,
{
    reveal_strlit("Open File");
}

/// A colour is packed with red above green above blue, eight bits each.
pub proof fn law_colours_are_packed_as_rgb(red: u8, green: u8, blue: u8)
    ensures
        packed(red, green, blue) / 0x1_0000 == red,
        packed(red, green, blue) / 0x100 % 0x100 == green,
        packed(red, green, blue) % 0x100 == blue,
{
    let n = packed(red, green, blue);
    assert(n == (red * 0x100 + green) * 0x100 + blue);
    assert(n / 0x100 == red * 0x100 + green);
}

/// The level is set only of a sink whose channels are known, and to what was asked
/// for; the mute of a sink is turned round. The worker goes on until nobody listens.
pub proof fn law_volume_commands<V>(
    wake: VolWake<V>,
    sink: bool,
    channels: bool,
    muted: bool,
    r: (VolAction<V>, bool),
)
    requires
        call_ensures(volume_step::<V>, (wake, sink, channels, muted), r),
    ensures
        r.1 <==> !(wake is Disconnected),
        r.0 is SetLevel <==> sink && channels && (wake matches VolWake::Command(c) && c is SetLevel),
        r.0 matches VolAction::SetLevel(level) ==> wake == VolWake::Command(
            VolCommand::SetLevel(level),
        ),
        r.0 is SetMute <==> sink && (wake matches VolWake::Command(c) && c is ToggleMute),
        r.0 matches VolAction::SetMute(on) ==> on == !muted,
{
}

/// The power actions are asked for by their names; a battery in the states 1 and 4
/// is on AC; the colour schemes are numbered 1 for dark and 2 for light.
pub proof fn law_power_and_appearance<P>(
    action: PowerAction,
    method: &'static str,
    present: bool,
    percent: P,
    state: u32,
    battery: Battery<P>,
    dark: bool,
    scheme: u32,
)
    requires
        call_ensures(PowerAction::method, (action,), method),
        call_ensures(read_battery::<P>, (present, percent, state), battery),
        call_ensures(appearance_scheme, (dark,), scheme),
    ensures
        action is Suspend ==> method@ == "Suspend"@,
        action is Reboot ==> method@ == "Reboot"@,
        action is PowerOff ==> method@ == "PowerOff"@,
        battery.present == present && battery.percent == percent,
        battery.charging <==> state == 1 || state == 4,
        dark ==> scheme == 1,
        !dark ==> scheme == 2,
{
}

/// A file-open request is answered with 0 and the URI of the chosen file, with 1 if
/// it was cancelled, and with 2 if nobody serves it; only the first has a URI.
pub proof fn law_requests_are_answered(outcome: &Outcome, r: (u32, Option<String>))
    requires
        call_ensures(open_file_reply, (outcome,), r),
    ensures
        r.0 == 0 <==> *outcome is Chosen,
        r.0 == 1 <==> *outcome is Cancelled,
        r.0 == 2 <==> *outcome is BackendGone,
        r.1 is Some <==> *outcome is Chosen,
        *outcome matches Outcome::Chosen(path) ==> (r.1 matches Some(uri) && uri@ == "file://"@
            + percent_encoded(shown_text(path@))),
{
}

/// A connection is waited for while it is being made, two hundred times; it is
/// ready only if it says so.
pub proof fn law_connections_are_waited_for(polled: u32, state: ContextState, r: Option<bool>)
    requires
        call_ensures(wait_ready, (polled, state), r),
    ensures
        r == Some(true) <==> polled < 200 && state is Ready,
        r is None <==> polled < 200 && state is Connecting,
{
}

} // verus!
