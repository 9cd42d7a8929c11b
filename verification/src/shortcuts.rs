//! Keyboard shortcuts of browser-style history navigation inside the app
//! shell.

use vstd::prelude::*;

use crate::chars::{push_str_chars, string_from_chars};

verus! {

/// Key context of the application shell.
pub const APP_SHELL_KEY_CONTEXT: &'static str = "AppShell";
/// Key context of a focused video player.
pub const VIDEO_PLAYER_KEY_CONTEXT: &'static str = "VideoPlayer";
/// Key context of an open menu.
pub const MENU_KEY_CONTEXT: &'static str = "menu";
/// Key context of a modal's backdrop.
pub const MODAL_BACKDROP_KEY_CONTEXT: &'static str = "modal_backdrop";

/// The history keystrokes of a platform, each with whether it goes back
/// (else forward): on macOS cmd-left/cmd-right and cmd-[/cmd-], elsewhere
/// alt-left/alt-right.
pub open spec fn history_keystrokes_spec(macos: bool) -> Seq<(&'static str, bool)> {
    if macos {
        seq![("cmd-left", true), ("cmd-right", false), ("cmd-[", true), ("cmd-]", false)]
    } else {
        seq![("alt-left", true), ("alt-right", false)]
    }
}

pub fn history_keystrokes(macos: bool) -> (r: Vec<(&'static str, bool)>)
    ensures
        r@ == history_keystrokes_spec(macos),
{
    if macos {
        vec![("cmd-left", true), ("cmd-right", false), ("cmd-[", true), ("cmd-]", false)]
    } else {
        vec![("alt-left", true), ("alt-right", false)]
    }
}

/// The context expression under which history keys navigate: inside the
/// app shell, and not while a menu, a modal, the command palette or the
/// tour holds the keyboard.
pub open spec fn navigation_scope_spec(command_palette: Seq<char>, tour: Seq<char>) -> Seq<char> {
    APP_SHELL_KEY_CONTEXT@ + " && !"@ + MENU_KEY_CONTEXT@ + " && !"@ + MODAL_BACKDROP_KEY_CONTEXT@ + " && !"@
        + command_palette + " && !"@ + tour
}

/// [`navigation_scope_spec`] for the key contexts of the command palette
/// and of the tour.
pub fn history_navigation_scope(command_palette_key_context: &str, tour_key_context: &str) -> (r: String)
    ensures
        r@ == navigation_scope_spec(command_palette_key_context@, tour_key_context@),
{
    let mut out: Vec<char> = Vec::new();
    push_str_chars(&mut out, APP_SHELL_KEY_CONTEXT);
    push_str_chars(&mut out, " && !");
    push_str_chars(&mut out, MENU_KEY_CONTEXT);
    push_str_chars(&mut out, " && !");
    push_str_chars(&mut out, MODAL_BACKDROP_KEY_CONTEXT);
    push_str_chars(&mut out, " && !");
    push_str_chars(&mut out, command_palette_key_context);
    push_str_chars(&mut out, " && !");
    push_str_chars(&mut out, tour_key_context);
    string_from_chars(&out)
}

} // verus!
