//! Clock formatting.

use vstd::prelude::*;

use crate::clock::{two_digits, LocalTime};

verus! {

/// Format a timestamp for the panel clock as a stacked "HH\nMM" string so it
/// reads well in the narrow vertical right-edge panel.
pub fn format_clock(now: &LocalTime) -> (r: String)
    ensures
        r@ == two_digits(now.hour) + "\n"@ + two_digits(now.minute),
{
    let (hours, minutes) = crate::clock::format_clock(now);
    let mut out = hours;
    out.append("\n");
    out.append(minutes.as_str());
    out
}

} // verus!
