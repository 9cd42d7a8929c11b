use mezon_ui::clan_assets::{
    can_manage_sound, can_manage_sticker, can_preview, can_submit, grid_row_count, sound_error_key, StickerCardData,
    StickerGrid, StickerGridCell,
};

fn card(id: &str, shortname: &str) -> StickerCardData {
    StickerCardData {
        id: id.to_string(),
        shortname: shortname.to_string(),
        src: format!("https://cdn/{id}.webp"),
        creator_name: "ann".to_string(),
        creator_avatar: None,
        can_manage: true,
        is_for_sale: false,
    }
}

#[test]
fn managers_and_creators_may_manage_stickers() {
    assert!(can_manage_sticker(true, "", None));
    assert!(can_manage_sticker(false, "42", Some(42)));
    assert!(can_manage_sticker(false, "+42", Some(42)));
    assert!(!can_manage_sticker(false, "42", Some(7)));
    assert!(!can_manage_sticker(false, "42", None));
    assert!(!can_manage_sticker(false, "abc", Some(0)));
}

#[test]
fn sound_creators_match_by_decimal_text() {
    assert!(can_manage_sound(true, "x", None));
    assert!(can_manage_sound(false, "-5", Some(-5)));
    assert!(!can_manage_sound(false, "+5", Some(5)));
    assert!(!can_manage_sound(false, "05", Some(5)));
    assert!(!can_manage_sound(false, "5", None));
}

#[test]
fn grid_rows_round_up() {
    assert_eq!(grid_row_count(0, 5), 0);
    assert_eq!(grid_row_count(10, 5), 2);
    assert_eq!(grid_row_count(11, 5), 3);
    assert_eq!(grid_row_count(usize::MAX, 2), usize::MAX / 2 + 1);
}

#[test]
fn the_grid_rebuilds_only_on_change() {
    let mut grid = StickerGrid { columns: 0, cells: Vec::new() };
    assert!(grid.rebuild(4, vec![card("1", "a"), card("2", "b")]));
    assert_eq!(grid.sticker_count(), 2);
    assert_eq!(grid.cells.len(), 3);
    assert!(matches!(grid.cells[2], StickerGridCell::Add));
    assert!(!grid.rebuild(4, vec![card("1", "a"), card("2", "b")]));
    assert!(grid.rebuild(5, vec![card("1", "a"), card("2", "b")]));
    assert_eq!(grid.columns, 5);
    assert!(grid.rebuild(5, vec![card("1", "a"), card("2", "renamed")]));
    match &grid.cells[1] {
        StickerGridCell::Sticker(c) => assert_eq!(c.shortname, "renamed"),
        StickerGridCell::Add => panic!("expected a sticker"),
    }
    assert!(grid.rebuild(5, Vec::new()));
    assert_eq!(grid.sticker_count(), 0);
}

#[test]
fn previews_need_a_file_or_a_remote_url() {
    assert!(can_preview(true, None));
    assert!(can_preview(false, Some("https://cdn/a.mp3")));
    assert!(can_preview(false, Some("file:/")));
    assert!(!can_preview(false, Some("file:///tmp/a.mp3")));
    assert!(!can_preview(false, None));
}

#[test]
fn upload_errors_map_to_messages() {
    assert_eq!(sound_error_key("size_limit"), "clanSoundSetting.toast.errorSizeLimit");
    assert_eq!(sound_error_key("decode_failed"), "clanSoundSetting.toast.errorFileType");
    assert_eq!(sound_error_key("empty"), "clanSoundSetting.toast.errorFileType");
    assert_eq!(sound_error_key("invalid_name"), "clanSoundSetting.modal.errorName");
    assert_eq!(sound_error_key("boom"), "clanSoundSetting.modal.errorUploadFailed");
}

#[test]
fn sound_form_submits_only_with_a_valid_changed_name_or_a_file() {
    assert!(can_submit(false, "airhorn", true, None, true));
    assert!(!can_submit(false, "airhorn", true, None, false));
    assert!(!can_submit(true, "airhorn", true, None, true));
    assert!(!can_submit(false, "a", false, None, true));
    assert!(!can_submit(false, "airhorn", true, Some("airhorn"), false));
    assert!(can_submit(false, "airhorn2", true, Some("airhorn"), false));
}
