//! The render mode switch.
//!
//! A request carries an optional boundary marker saying it came from an
//! in-page partial-refresh interaction. Exactly the marker value `true` —
//! case-sensitive, byte-exact — selects the bare fragment; any other value,
//! or no marker at all, selects the full page shell.

use vstd::prelude::*;

use crate::chars::str_equal;

verus! {

/// Whether a response carries the full page shell or only the inner
/// fragment.
#[derive(Clone, Copy, PartialEq, Eq, Structural, Debug)]
pub enum RenderMode {
    Full,
    Fragment,
}

/// The mode a marker value selects: `Fragment` exactly for `true`.
pub open spec fn mode_of_marker(marker: Option<Seq<char>>) -> RenderMode {
    if marker == Some("true"@) {
        RenderMode::Fragment
    } else {
        RenderMode::Full
    }
}

/// Decides the render mode from the request's boundary marker.
pub fn render_mode(marker: Option<&String>) -> (r: RenderMode)
    ensures
        r == mode_of_marker(match marker {
            Some(m) => Some(m@),
            None => None,
        }),
{
    match marker {
        None => RenderMode::Full,
        Some(m) => {
            if str_equal(m.as_str(), "true") {
                RenderMode::Fragment
            } else {
                RenderMode::Full
            }
        },
    }
}

} // verus!
