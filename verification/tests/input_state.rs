use mezon_ui::input_state::{input_text_runs, InputState, StyledRun};
use mezon_ui::text_edit::Selection;

fn sel(start: usize, end: usize, reversed: bool) -> Selection {
    Selection { start, end, reversed }
}

/// Types `text` the way the owner commits an accepted edit.
fn type_text(input: &mut InputState, text: &str) {
    assert!(input.edit_range_in_text(None));
    input.replace_text_in_range(None, text);
}

#[test]
fn edits_replace_the_selection() {
    let mut input = InputState::new();
    type_text(&mut input, "héllo");
    assert_eq!(input.value(), "héllo");
    assert_eq!(input.selection(), sel(6, 6, false));
    input.move_to(1);
    input.select_to(3);
    assert_eq!(input.candidate(None, "E"), "hEllo");
    type_text(&mut input, "E");
    assert_eq!(input.value(), "hEllo");
    assert_eq!(input.selection(), sel(2, 2, false));
}

#[test]
fn backspace_and_delete_select_what_they_remove() {
    let mut input = InputState::new();
    input.set_value("ab".to_string());
    assert!(!input.delete());
    assert!(input.backspace());
    assert_eq!(input.selection(), sel(1, 2, true));
    type_text(&mut input, "");
    assert_eq!(input.value(), "a");
    input.home();
    assert!(!input.backspace());
    assert!(input.delete());
    assert_eq!(input.selection(), sel(0, 1, false));
}

#[test]
fn clearing_reports_whether_there_was_text() {
    let mut input = InputState::new();
    assert!(!input.clear());
    input.set_value("x".to_string());
    assert!(input.clear());
    assert_eq!(input.value(), "");
    assert_eq!(input.selection(), sel(0, 0, false));
}

#[test]
fn masked_text_shows_bullets_and_is_not_copied() {
    let mut input = InputState::new();
    input.set_value("pä".to_string());
    assert!(!input.is_masked());
    input.set_masked(true);
    assert!(input.is_masked());
    assert_eq!(input.display_text(), "\u{2022}\u{2022}");
    assert_eq!(input.to_display_offset(1), 3);
    assert_eq!(input.to_display_offset(3), 6);
    assert_eq!(input.display_to_content_offset(4), 1);
    assert_eq!(input.display_to_content_offset(9), 3);
    input.select_all();
    assert!(input.selection_in_text());
    assert_eq!(input.copy(), None);
    input.set_masked(false);
    assert_eq!(input.copy(), Some("pä".to_string()));
    assert_eq!(input.display_to_content_offset(2), 2);
}

#[test]
fn pastes_follow_the_line_mode() {
    let single = InputState::new();
    assert_eq!(single.pasted_text("a\nb"), "a b");
    let multi = InputState::new().multi_line(true);
    assert!(multi.accepts_line_breaks());
    assert_eq!(multi.pasted_text("a\nb"), "a\nb");
}

#[test]
fn arrows_and_ends_move_the_caret() {
    let mut input = InputState::new();
    input.set_value("añb".to_string());
    input.left();
    assert_eq!(input.selection(), sel(3, 3, false));
    input.left();
    assert_eq!(input.selection(), sel(1, 1, false));
    input.select_right();
    assert_eq!(input.selection(), sel(1, 3, false));
    input.right();
    assert_eq!(input.selection(), sel(3, 3, false));
    input.select_left();
    input.select_left();
    assert_eq!(input.selection(), sel(0, 3, true));
    input.end();
    assert_eq!(input.selection(), sel(4, 4, true));
}

#[test]
fn composition_marks_text_and_utf16_ranges_map_back() {
    let mut input = InputState::new();
    input.set_value("a😀".to_string());
    assert_eq!(input.selected_text_range(), ((3, 3), false));
    let (text, actual) = input.text_for_range((0, 3));
    assert_eq!(text, "a😀");
    assert_eq!(actual, (0, 3));
    assert!(input.edit_range_in_text(None));
    input.replace_and_mark_text_in_range(None, "ka", Some((0, 1)));
    assert_eq!(input.value(), "a😀ka");
    assert_eq!(input.marked_text_range(), Some((3, 5)));
    assert_eq!(input.selection(), sel(5, 6, false));
    input.replace_text_in_range(None, "か");
    assert_eq!(input.value(), "a😀か");
    assert_eq!(input.marked_text_range(), None);
    input.replace_and_mark_text_in_range(Some((1, 3)), "", None);
    assert_eq!(input.value(), "aか");
    assert_eq!(input.marked_text_range(), None);
    input.unmark_text();
    assert_eq!(input.value(), "aか");
}

fn run(len: usize, token_bg: bool, underlined: bool) -> StyledRun {
    StyledRun { len, token_bg, underlined }
}

#[test]
fn plain_text_is_one_run() {
    assert_eq!(input_text_runs(7, None, &vec![], true), vec![run(7, false, false)]);
    assert_eq!(input_text_runs(7, None, &vec![(0, 3)], false), vec![run(7, false, false)]);
}

#[test]
fn runs_split_at_composed_and_token_ranges() {
    let runs = input_text_runs(10, Some((6, 20)), &vec![(2, 4), (3, 8)], true);
    assert_eq!(
        runs,
        vec![
            run(2, false, false),
            run(1, true, false),
            run(1, true, false),
            run(2, true, false),
            run(2, true, true),
            run(2, false, true),
        ]
    );
    assert_eq!(runs.iter().map(|r| r.len).sum::<usize>(), 10);
    assert!(input_text_runs(0, Some((0, 0)), &vec![], false).is_empty());
}
