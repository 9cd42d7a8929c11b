//! When the palette shortcut opens or closes the palette.

use vstd::prelude::*;

verus! {

/// What the palette shortcut does.
#[derive(Clone, Copy, Debug, PartialEq, Eq, Structural)]
pub enum PaletteToggle {
    Open,
    Close,
    /// Another modal is up: the shortcut does nothing.
    Ignore,
}

/// The shortcut closes an open palette and opens it when no other modal is
/// up.
pub fn toggle(palette_open: bool, has_modal: bool) -> (r: PaletteToggle)
    ensures
        palette_open ==> r == PaletteToggle::Close,
        !palette_open && !has_modal ==> r == PaletteToggle::Open,
        !palette_open && has_modal ==> r == PaletteToggle::Ignore,
{
    if palette_open {
        PaletteToggle::Close
    } else if !has_modal {
        PaletteToggle::Open
    } else {
        PaletteToggle::Ignore
    }
}

/// Only a signed-in user with a window to show it in can toggle the
/// palette.
pub fn may_toggle(authenticated: bool, has_window: bool) -> (r: bool)
    ensures
        r == (authenticated && has_window),
{
    authenticated && has_window
}

} // verus!
