use mezon_ui::shortcuts::{
    history_keystrokes, history_navigation_scope, APP_SHELL_KEY_CONTEXT, MENU_KEY_CONTEXT,
    MODAL_BACKDROP_KEY_CONTEXT, VIDEO_PLAYER_KEY_CONTEXT,
};

#[test]
fn macos_history_keys_use_command() {
    assert_eq!(
        history_keystrokes(true),
        vec![("cmd-left", true), ("cmd-right", false), ("cmd-[", true), ("cmd-]", false)]
    );
}

#[test]
fn other_platforms_use_alt_arrows() {
    assert_eq!(history_keystrokes(false), vec![("alt-left", true), ("alt-right", false)]);
}

#[test]
fn history_scope_excludes_overlays() {
    assert_eq!(
        history_navigation_scope("CommandPalette", "Tour"),
        "AppShell && !menu && !modal_backdrop && !CommandPalette && !Tour"
    );
    assert_eq!(APP_SHELL_KEY_CONTEXT, "AppShell");
    assert_eq!(VIDEO_PLAYER_KEY_CONTEXT, "VideoPlayer");
    assert_eq!(MENU_KEY_CONTEXT, "menu");
    assert_eq!(MODAL_BACKDROP_KEY_CONTEXT, "modal_backdrop");
}
