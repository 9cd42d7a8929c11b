use mezon_ui::text_edit::{
    byte_offset_to_utf16, clamp_offset, display_to_content_offset, is_masked, locate_span, masked_text,
    next_boundary, next_start, normalize_pasted, offset_from_utf16, previous_boundary, previous_start,
    to_display_offset, Selection,
};

#[test]
fn normalize_pasted_unifies_line_endings() {
    assert_eq!(normalize_pasted("a\r\nb\rc\nd"), "a\nb\nc\nd");
    assert_eq!(normalize_pasted("plain"), "plain");
}

#[test]
fn byte_offset_to_utf16_counts_surrogates() {
    assert_eq!(byte_offset_to_utf16("abc", 2), 2);
    assert_eq!(byte_offset_to_utf16("é", 2), 1);
    assert_eq!(byte_offset_to_utf16("😀x", 4), 2);
}

#[test]
fn locate_span_maps_offset_to_line_and_local() {
    let spans = [(0usize, 5usize), (6, 4), (11, 3)];
    assert_eq!(locate_span(&spans, 0), (0, 0));
    assert_eq!(locate_span(&spans, 3), (0, 3));
    assert_eq!(locate_span(&spans, 7), (1, 1));
    assert_eq!(locate_span(&spans, 13), (2, 2));
}

#[test]
fn locate_span_past_the_end_and_without_spans() {
    let spans = [(0usize, 5usize), (6, 4)];
    assert_eq!(locate_span(&spans, 40), (1, 34));
    assert_eq!(locate_span(&[], 3), (0, 0));
}

#[test]
fn lone_carriage_returns_and_pairs_both_become_newlines() {
    assert_eq!(normalize_pasted("\r\r\n"), "\n\n");
    assert_eq!(normalize_pasted("\r"), "\n");
    assert_eq!(normalize_pasted(""), "");
}

#[test]
fn utf16_offsets_convert_back_to_bytes() {
    assert_eq!(offset_from_utf16("😀x", 2), 4);
    assert_eq!(offset_from_utf16("😀x", 1), 4);
    assert_eq!(offset_from_utf16("héllo", 2), 3);
    assert_eq!(offset_from_utf16("ab", 10), 2);
    assert_eq!(byte_offset_to_utf16("ab", 10), 2);
}

#[test]
fn selecting_past_the_anchor_flips_the_selection() {
    let mut sel = Selection::collapsed(5);
    sel.select_to(9);
    assert_eq!(sel, Selection { start: 5, end: 9, reversed: false });
    sel.select_to(2);
    assert_eq!(sel, Selection { start: 2, end: 5, reversed: true });
    assert_eq!(sel.cursor_offset(), 2);
    sel.select_to(5);
    assert!(sel.is_empty());
}

#[test]
fn clamping_lands_on_a_character_boundary() {
    assert_eq!(clamp_offset("héllo", 2), 1);
    assert_eq!(clamp_offset("héllo", 3), 3);
    assert_eq!(clamp_offset("abc", 99), 3);
}

#[test]
fn masked_fields_show_one_dot_per_character() {
    assert!(is_masked(true, "pw"));
    assert!(!is_masked(true, ""));
    assert!(!is_masked(false, "pw"));
    assert_eq!(masked_text("héllo"), "•••••");
    assert_eq!(to_display_offset("héllo", 3), 6);
    assert_eq!(display_to_content_offset("héllo", 6), 3);
    assert_eq!(display_to_content_offset("héllo", 7), 3);
    assert_eq!(display_to_content_offset("héllo", 300), 6);
}

#[test]
fn grapheme_steps_skip_whole_clusters() {
    let text = "a\u{310}e\u{301}o";
    assert_eq!(next_boundary(text, 0), 3);
    assert_eq!(previous_boundary(text, 6), 3);
    assert_eq!(previous_boundary(text, 0), 0);
    assert_eq!(next_boundary(text, 6), text.len());
    assert_eq!(previous_start(&vec![0, 3, 6], 4), 3);
    assert_eq!(next_start(&vec![0, 3, 6], 6, 7), 7);
}
