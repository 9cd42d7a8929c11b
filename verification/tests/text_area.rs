use mezon_ui::text_area::{EditKind, TextArea, TextAreaEvent};
use mezon_ui::text_edit::Selection;

fn sel(start: usize, end: usize, reversed: bool) -> Selection {
    Selection { start, end, reversed }
}

fn typed(text: &str) -> TextArea {
    let mut area = TextArea::new(100);
    area.replace_text_in_range(None, text, false);
    area
}

#[test]
fn typing_inserts_at_the_caret() {
    let mut area = TextArea::new(100);
    assert_eq!(area.edit_kind(None, "hé"), EditKind::Insert);
    area.replace_text_in_range(None, "hé", false);
    assert_eq!(area.value(), "hé");
    assert_eq!(area.selection(), sel(3, 3, false));
    assert_eq!(area.last_edit_kind(), Some(EditKind::Insert));
    area.move_to(1);
    area.replace_text_in_range(None, "ol", false);
    assert_eq!(area.value(), "holé");
    assert_eq!(area.selection(), sel(3, 3, false));
}

#[test]
fn backspace_and_undo_round_trip() {
    let mut area = typed("hé");
    assert!(area.backspace(false));
    assert_eq!(area.value(), "h");
    assert_eq!(area.selection(), sel(1, 1, true));
    assert!(area.undo());
    assert_eq!(area.value(), "hé");
    assert_eq!(area.selection(), sel(1, 3, true));
    assert!(area.redo());
    assert_eq!(area.value(), "h");
    assert!(area.undo());
    assert!(area.undo());
    assert_eq!(area.value(), "");
    assert_eq!(area.selection(), sel(0, 0, false));
    assert!(!area.undo());
}

#[test]
fn nothing_to_delete_at_the_ends() {
    let mut area = typed("ab");
    assert!(!area.delete(false));
    area.move_to(0);
    assert!(!area.backspace(false));
    assert!(area.delete(false));
    assert_eq!(area.value(), "b");
}

#[test]
fn a_new_edit_drops_the_redo_history() {
    let mut area = typed("a");
    area.undo();
    area.replace_text_in_range(None, "b", false);
    assert!(!area.redo());
    assert_eq!(area.value(), "b");
}

#[test]
fn coalesced_edits_undo_together() {
    let mut area = TextArea::new(100);
    area.replace_text_in_range(None, "a", false);
    area.replace_text_in_range(None, "b", true);
    area.replace_text_in_range(None, "c", true);
    assert_eq!(area.value(), "abc");
    assert!(area.undo());
    assert_eq!(area.value(), "");
}

#[test]
fn the_history_keeps_its_limit() {
    let mut area = TextArea::new(2);
    for t in ["a", "b", "c"] {
        area.replace_text_in_range(None, t, false);
    }
    assert!(area.undo());
    assert!(area.undo());
    assert_eq!(area.value(), "a");
    assert!(!area.undo());
}

#[test]
fn enter_depends_on_single_line() {
    let mut multi = typed("a");
    assert_eq!(multi.enter(false), TextAreaEvent::Change);
    assert_eq!(multi.value(), "a\n");
    assert_eq!(multi.edit_kind(None, "x\ny"), EditKind::Other);
    let mut single = TextArea::new(10).single_line(true);
    single.replace_text_in_range(None, "a", false);
    assert_eq!(single.enter(false), TextAreaEvent::PressEnter);
    assert_eq!(single.value(), "a");
}

#[test]
fn pastes_unify_line_endings() {
    let mut multi = TextArea::new(10);
    multi.paste("a\r\nb\rc", false);
    assert_eq!(multi.value(), "a\nb\nc");
    let mut single = TextArea::new(10).single_line(true);
    assert_eq!(single.pasted_text("a\r\nb"), "a b");
    single.paste("a\r\nb", false);
    assert_eq!(single.value(), "a b");
}

#[test]
fn copy_and_cut_take_the_selection() {
    let mut area = typed("hello");
    assert!(area.selection_in_text());
    assert_eq!(area.copy(), None);
    area.move_to(1);
    area.select_to(4);
    assert_eq!(area.copy(), Some("ell".to_string()));
    assert_eq!(area.cut(false), Some("ell".to_string()));
    assert_eq!(area.value(), "ho");
    assert_eq!(area.selection(), sel(1, 1, false));
    area.select_all();
    assert_eq!(area.selection(), sel(0, 2, false));
    assert_eq!(area.cut(false), Some("ho".to_string()));
    assert_eq!(area.value(), "");
}

#[test]
fn utf16_ranges_map_to_characters() {
    let mut area = typed("a😀b");
    let (text, actual) = area.text_for_range((1, 3));
    assert_eq!(text, "😀");
    assert_eq!(actual, (1, 3));
    let (text, actual) = area.text_for_range((2, 3));
    assert_eq!(text, "");
    assert_eq!(actual, (3, 3));
    area.select_all();
    assert_eq!(area.selected_text_range(), ((0, 4), false));
    area.replace_text_in_range(Some((1, 3)), "x", false);
    assert_eq!(area.value(), "axb");
}

#[test]
fn composition_marks_and_commits() {
    let mut area = typed("x");
    assert_eq!(area.marked_text_range(), None);
    area.replace_and_mark_text_in_range(None, "ka", None, false);
    assert_eq!(area.value(), "xka");
    assert_eq!(area.marked_text_range(), Some((1, 3)));
    assert_eq!(area.selection(), sel(3, 3, false));
    assert_eq!(area.edit_kind(None, "か"), EditKind::Insert);
    area.replace_text_in_range(None, "か", false);
    assert_eq!(area.value(), "xか");
    assert_eq!(area.marked_text_range(), None);
    assert_eq!(area.selection(), sel(4, 4, false));
    area.replace_and_mark_text_in_range(None, "ab", Some((0, 1)), false);
    assert_eq!(area.selection(), sel(4, 5, false));
    area.unmark_text();
    assert_eq!(area.marked_text_range(), None);
    assert_eq!(area.value(), "xかab");
}

#[test]
fn arrows_move_by_grapheme_cluster() {
    let mut area = typed("e\u{301}x");
    area.move_to(0);
    area.right();
    assert_eq!(area.selection(), sel(3, 3, false));
    area.right();
    assert_eq!(area.selection(), sel(4, 4, false));
    area.left();
    assert_eq!(area.selection(), sel(3, 3, false));
    area.select_left();
    assert_eq!(area.selection(), sel(0, 3, true));
    area.left();
    assert_eq!(area.selection(), sel(0, 0, true));
    area.select_right();
    assert_eq!(area.selection(), sel(0, 3, false));
    area.right();
    assert_eq!(area.selection(), sel(3, 3, false));
    area.move_to_doc_end();
    assert_eq!(area.selection(), sel(4, 4, false));
    area.select_to_doc_start();
    assert_eq!(area.selection(), sel(0, 4, true));
    area.move_to_doc_start();
    area.select_to_doc_end();
    assert_eq!(area.selection(), sel(0, 4, false));
}

#[test]
fn set_value_resets_the_history() {
    let mut area = typed("abc");
    area.set_value("xyz".to_string());
    assert_eq!(area.value(), "xyz");
    assert_eq!(area.selection(), sel(3, 3, false));
    assert!(!area.undo());
    assert_eq!(area.last_edit_kind(), None);
}

#[test]
fn delete_to_a_boundary_removes_the_span_or_the_selection() {
    let mut area = typed("hello world");
    assert!(!area.delete_to(11, false));
    assert_eq!(area.value(), "hello world");
    assert!(area.delete_to(6, false));
    assert_eq!(area.value(), "hello ");
    assert_eq!(area.selection(), sel(6, 6, true));
    area.move_to(0);
    area.select_to(2);
    assert!(area.delete_to(5, false));
    assert_eq!(area.value(), "llo ");
    assert_eq!(area.selection(), sel(0, 0, false));
}
