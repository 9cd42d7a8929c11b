use mezon_ui::copy_button::CopyButtonState;

#[test]
fn the_copied_indicator_lasts_five_seconds() {
    let mut state = CopyButtonState::new();
    assert!(!state.is_copied(0));
    state.mark_copied(1_000);
    assert!(state.is_copied(1_000));
    assert!(state.is_copied(5_999));
    assert!(!state.is_copied(6_000));
    assert!(!state.is_copied(999));
}
