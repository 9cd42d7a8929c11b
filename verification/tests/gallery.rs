use mezon_ui::date_picker::{Date, DatePicker, DatePickerEvent};
use mezon_ui::gallery::{
    calculate_timestamps, date_range_label, empty_label_key, end_of_day_ts, gallery_rows, near_bottom,
    needs_rebuild, start_of_day_ts, DateRangeLabel, GalleryAttachment, GalleryFilterState, GalleryRow,
    MediaFilter, RowsSnapshot,
};

fn att(id: i64, day: i64, label: &str) -> GalleryAttachment {
    GalleryAttachment {
        id,
        is_video: id % 2 == 0,
        thumb_src: format!("thumb-{id}"),
        day_index: day,
        day_label: label.to_string(),
    }
}

/// A row as text: `H:label` for a header, the tile ids for an image row.
fn describe(rows: &[GalleryRow]) -> Vec<String> {
    rows.iter()
        .map(|row| match row {
            GalleryRow::Header(label) => format!("H:{label}"),
            GalleryRow::Images(tiles) => {
                tiles.iter().map(|t| t.id.to_string()).collect::<Vec<_>>().join(",")
            }
        })
        .collect()
}

fn date(year: i32, month: u32, day: u32) -> Date {
    Date { year, month, day }
}

fn gallery_state() -> GalleryFilterState {
    let today = date(2026, 3, 15);
    GalleryFilterState::new(DatePicker::new(today), DatePicker::new(today))
}

#[test]
fn rows_group_by_day_three_tiles_a_row() {
    let atts = vec![
        att(1, 10, "Mon"),
        att(2, 10, "Mon"),
        att(3, 10, "Mon"),
        att(4, 10, "Mon"),
        att(5, 9, "Sun"),
        att(6, 9, "Sun"),
    ];
    let rows = gallery_rows(&atts);
    assert_eq!(describe(&rows), vec!["H:Mon", "1,2,3", "4", "H:Sun", "5,6"]);
    match &rows[1] {
        GalleryRow::Images(tiles) => {
            assert_eq!(tiles[1].thumb_src, "thumb-2");
            assert!(tiles[1].is_video);
        }
        GalleryRow::Header(_) => panic!("expected an image row"),
    }
}

#[test]
fn no_attachments_give_no_rows() {
    assert!(gallery_rows(&Vec::new()).is_empty());
}

#[test]
fn near_bottom_needs_rows_and_the_threshold() {
    assert!(near_bottom(6, 10));
    assert!(!near_bottom(5, 10));
    assert!(!near_bottom(0, 0));
}

#[test]
fn rows_rebuild_only_when_the_snapshot_moves() {
    let snap = RowsSnapshot { filter: MediaFilter::All, len: 3, head_id: Some(1), tail_id: Some(3) };
    assert!(needs_rebuild(None, snap));
    assert!(!needs_rebuild(Some(snap), snap));
    assert!(needs_rebuild(Some(snap), RowsSnapshot { len: 4, tail_id: Some(4), ..snap }));
    assert!(needs_rebuild(Some(snap), RowsSnapshot { filter: MediaFilter::Video, ..snap }));
}

#[test]
fn day_bounds_are_utc_seconds() {
    assert_eq!(start_of_day_ts(date(2020, 1, 1)), 1_577_836_800);
    assert_eq!(end_of_day_ts(date(2020, 1, 1)), 1_577_836_800 + 86_399);
    assert_eq!(start_of_day_ts(date(1969, 12, 31)), 0);
    assert_eq!(start_of_day_ts(date(2024, 2, 29)), 1_709_164_800);
}

#[test]
fn timestamps_span_from_start_to_end_of_day() {
    let a = date(2026, 3, 1);
    let b = date(2026, 3, 2);
    assert_eq!(calculate_timestamps(Some(a), Some(a)), (Some(1_772_323_200), Some(1_772_409_599)));
    assert_eq!(calculate_timestamps(Some(a), Some(b)), (Some(1_772_323_200), Some(1_772_495_999)));
    assert_eq!(calculate_timestamps(None, Some(b)), (None, Some(1_772_495_999)));
    assert_eq!(calculate_timestamps(None, None), (None, None));
}

#[test]
fn range_labels_name_the_applied_range() {
    let a = date(2026, 3, 1);
    let b = date(2026, 3, 2);
    assert_eq!(date_range_label(None, None), DateRangeLabel::SentDate);
    assert_eq!(date_range_label(Some(a), None), DateRangeLabel::From(a));
    assert_eq!(date_range_label(None, Some(b)), DateRangeLabel::To(b));
    assert_eq!(date_range_label(Some(a), Some(a)), DateRangeLabel::Day(a));
    assert_eq!(date_range_label(Some(a), Some(b)), DateRangeLabel::Range(a, b));
}

#[test]
fn empty_state_keys_follow_filter_and_range() {
    assert_eq!(empty_label_key(MediaFilter::Image, false), "channelTopbar.gallery.emptyState.noImages");
    assert_eq!(empty_label_key(MediaFilter::Video, false), "channelTopbar.gallery.emptyState.noVideos");
    assert_eq!(empty_label_key(MediaFilter::All, false), "channelTopbar.gallery.emptyState.noMediaFiles");
    assert_eq!(
        empty_label_key(MediaFilter::Video, true),
        "channelTopbar.gallery.emptyState.noMediaFilesDateRange"
    );
}

#[test]
fn an_inverted_range_is_refused() {
    let mut state = gallery_state();
    state.toggle_date_filter("en".to_string());
    assert!(state.date_filter_open);
    state.from_picker.set_selected_silent(Some(date(2026, 3, 5)));
    state.to_picker.set_selected_silent(Some(date(2026, 3, 4)));
    assert_eq!(state.apply_date_filter(), None);
    assert!(state.date_invalid);
    assert!(!state.has_date_filter());
    assert!(state.date_filter_open);
}

#[test]
fn an_empty_draft_applies_nothing() {
    let mut state = gallery_state();
    state.toggle_date_filter("en".to_string());
    assert_eq!(state.apply_date_filter(), None);
    assert!(!state.date_invalid);
    assert!(state.date_filter_open);
}

#[test]
fn applying_a_range_closes_the_panel_and_returns_bounds() {
    let mut state = gallery_state();
    state.toggle_date_filter("en".to_string());
    state.from_picker.set_selected_silent(Some(date(2026, 3, 1)));
    assert_eq!(state.apply_date_filter(), Some((Some(1_772_323_200), None)));
    assert!(state.has_date_filter());
    assert!(!state.date_filter_open);
    assert_eq!(state.applied_from, Some(date(2026, 3, 1)));

    state.toggle_date_filter("vi".to_string());
    assert_eq!(state.from_picker.selected, Some(date(2026, 3, 1)));
    assert_eq!(state.to_picker.min_date, Some(date(2026, 3, 1)));
    assert_eq!(state.from_picker.locale, "vi");

    state.clear_date_filter();
    assert!(!state.has_date_filter());
    assert_eq!(state.from_picker.selected, None);
    assert_eq!(state.from_picker.min_date, Some(date(2020, 1, 1)));
    assert_eq!(state.to_picker.min_date, None);
}

#[test]
fn picker_events_bound_each_other() {
    let mut state = gallery_state();
    state.toggle_date_filter("en".to_string());
    state.to_picker.toggle_open(date(2026, 3, 15));
    assert!(state.any_calendar_open());
    state.on_from_picker_event(DatePickerEvent::Opened);
    assert!(!state.to_picker.open);

    state.on_from_picker_event(DatePickerEvent::Change(Some(date(2026, 3, 10))));
    assert_eq!(state.to_picker.min_date, Some(date(2026, 3, 10)));
    state.on_to_picker_event(DatePickerEvent::Change(Some(date(2026, 3, 20))));
    assert_eq!(state.from_picker.max_date, Some(date(2026, 3, 20)));

    state.from_picker.toggle_open(date(2026, 3, 15));
    state.close_calendar_pickers();
    assert!(!state.any_calendar_open());
}

#[test]
fn switching_media_filter_closes_the_panel() {
    let mut state = gallery_state();
    state.toggle_date_filter("en".to_string());
    assert!(!state.set_filter(MediaFilter::All));
    assert!(!state.date_filter_open);
    assert!(state.set_filter(MediaFilter::Image));
    assert_eq!(state.active_filter, MediaFilter::Image);
}
