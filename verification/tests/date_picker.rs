use chrono::Datelike;
use mezon_ui::date_picker::{
    day_grid, days_in_month, format_date, header_label, is_day_in_range, month_in_range, month_title, range_overlaps,
    short_month_label, weekday_offset, year_in_range, year_page_start, CalendarView, Date, DatePicker, DatePickerEvent,
    DatePickerPopupMode, Weekday,
};

fn local_today() -> Date {
    let now = chrono::Local::now().date_naive();
    Date { year: now.year(), month: now.month(), day: now.day() }
}

fn date(year: i32, month: u32, day: u32) -> Option<Date> {
    Some(Date { year, month, day })
}

#[test]
fn walking_the_three_views_lands_on_the_picked_month_and_year() {
    let mut picker = DatePicker::new(local_today());
    picker.set_selected_silent(date(2026, 8, 24));
    picker.set_min(None);
    picker.toggle_open(local_today());

    assert_eq!(picker.view_mode, CalendarView::Days);
    assert_eq!((picker.view_year, picker.view_month), (2026, 8));

    picker.step_view(true);
    assert_eq!((picker.view_year, picker.view_month), (2026, 9));
    picker.step_view(false);
    assert_eq!((picker.view_year, picker.view_month), (2026, 8));

    picker.zoom_out_view();
    assert_eq!(picker.view_mode, CalendarView::Months);
    picker.step_view(false);
    assert_eq!(picker.view_year, 2025);

    picker.zoom_out_view();
    assert_eq!(picker.view_mode, CalendarView::Years);
    picker.step_view(false);
    assert_eq!(year_page_start(picker.view_year), 2004);

    picker.pick_year(2019);
    assert_eq!(picker.view_mode, CalendarView::Months);
    assert_eq!(picker.view_year, 2019);

    picker.pick_month(3);
    assert_eq!(picker.view_mode, CalendarView::Days);
    assert_eq!((picker.view_year, picker.view_month), (2019, 3));

    picker.pick_day(15);
    assert_eq!(picker.selected, date(2019, 3, 15), "picking a day commits the month and year walked to");
    assert!(!picker.open, "picking a day closes the popup");
}

#[test]
fn reopening_resets_to_the_day_view() {
    let mut picker = DatePicker::new(local_today());
    picker.toggle_open(local_today());
    picker.zoom_out_view();
    picker.zoom_out_view();
    assert_eq!(picker.view_mode, CalendarView::Years);
    picker.close();
    picker.toggle_open(local_today());
    assert_eq!(picker.view_mode, CalendarView::Days);
}

#[test]
fn a_day_outside_the_allowed_range_is_not_picked() {
    let mut picker = DatePicker::new(local_today());
    picker.set_min(date(2026, 8, 10));
    picker.set_max(date(2026, 8, 20));
    picker.toggle_open(local_today());
    picker.pick_month(8);
    picker.view_year = 2026;
    picker.pick_day(5);
    assert_eq!(picker.selected, None);
    picker.pick_day(15);
    assert_eq!(picker.selected, date(2026, 8, 15));
}

#[test]
fn year_pages_are_aligned_blocks_of_twelve() {
    assert_eq!(year_page_start(2026), 2016);
    assert_eq!(year_page_start(2016), 2016);
    assert_eq!(year_page_start(2015), 2004);
}

#[test]
fn month_and_year_cells_respect_the_allowed_range() {
    let min = date(2026, 3, 10);
    let max = date(2026, 5, 20);

    assert!(!month_in_range(2026, 2, min, max));
    assert!(month_in_range(2026, 3, min, max));
    assert!(month_in_range(2026, 5, min, max));
    assert!(!month_in_range(2026, 6, min, max));

    assert!(!year_in_range(2025, min, max));
    assert!(year_in_range(2026, min, max));
    assert!(!year_in_range(2027, min, max));

    assert!(month_in_range(1970, 1, None, None));
    assert!(year_in_range(3000, None, None));
}

#[test]
fn every_month_renders_six_week_rows() {
    for (year, month) in [(2026, 2), (2026, 8), (2021, 5), (2024, 2)] {
        let grid = day_grid(year, month);
        assert_eq!(grid.len(), 42, "{year}-{month} needs more than six rows");
        let days: Vec<u32> = grid.iter().filter_map(|c| *c).collect();
        assert_eq!(days.len() as u32, days_in_month(year, month));
    }
}

#[test]
fn short_month_labels_cover_every_month() {
    assert_eq!(short_month_label(1), "Jan");
    assert_eq!(short_month_label(12), "Dec");
}

#[test]
fn short_month_labels_outside_the_year_are_empty() {
    assert_eq!(short_month_label(0), "");
    assert_eq!(short_month_label(13), "");
    assert_eq!(short_month_label(5), "May");
}

#[test]
fn month_lengths_follow_the_gregorian_leap_rule() {
    assert_eq!(days_in_month(2024, 2), 29);
    assert_eq!(days_in_month(2023, 2), 28);
    assert_eq!(days_in_month(1900, 2), 28);
    assert_eq!(days_in_month(2000, 2), 29);
    assert_eq!(days_in_month(2026, 4), 30);
    assert_eq!(days_in_month(2026, 12), 31);
}

#[test]
fn the_grid_starts_on_the_weekday_of_the_first() {
    let grid = day_grid(2026, 8);
    assert_eq!(&grid[..7], &[None, None, None, None, None, None, Some(1)]);
    assert_eq!(weekday_offset(Weekday::Sun), 0);
    assert_eq!(weekday_offset(Weekday::Sat), 6);
    let feb = day_grid(2026, 2);
    assert_eq!(feb[0], Some(1));
    assert_eq!(feb[27], Some(28));
    assert_eq!(feb[28], None);
}

#[test]
fn month_steps_cross_year_ends_and_back() {
    let mut picker = DatePicker::new(Date { year: 2025, month: 12, day: 31 });
    picker.next_month();
    assert_eq!((picker.view_year, picker.view_month), (2026, 1));
    picker.prev_month();
    assert_eq!((picker.view_year, picker.view_month), (2025, 12));
    picker.zoom_out_view();
    picker.zoom_out_view();
    picker.step_view(true);
    assert_eq!(picker.view_year, 2037);
}

#[test]
fn range_checks_include_their_bounds() {
    let d = Date { year: 2026, month: 3, day: 10 };
    assert!(is_day_in_range(d, Some(d), Some(d)));
    assert!(!is_day_in_range(d, date(2026, 3, 11), None));
    assert!(range_overlaps(d, Date { year: 2026, month: 3, day: 31 }, date(2026, 3, 31), None));
    assert!(!range_overlaps(d, Date { year: 2026, month: 3, day: 30 }, date(2026, 3, 31), None));
}

#[test]
fn picker_events_report_opening_and_changes() {
    let mut picker = DatePicker::new(Date { year: 2026, month: 1, day: 1 });
    assert_eq!(picker.pick_day(31), Some(DatePickerEvent::Change(date(2026, 1, 31))));
    assert_eq!(picker.pick_day(32), None);
    assert_eq!(picker.toggle_open(local_today()), Some(DatePickerEvent::Opened));
    assert_eq!((picker.view_year, picker.view_month), (2026, 1));
    assert_eq!(picker.toggle_open(local_today()), None);
    assert_eq!(picker.clear(), DatePickerEvent::Change(None));
    assert_eq!(picker.selected, None);
    assert_eq!(picker.pick_today(Date { year: 2019, month: 5, day: 5 }), None);
    assert_eq!(
        picker.pick_today(Date { year: 2026, month: 2, day: 3 }),
        Some(DatePickerEvent::Change(date(2026, 2, 3)))
    );
    assert_eq!((picker.view_year, picker.view_month), (2026, 2));
}

#[test]
fn field_and_header_texts() {
    assert_eq!(format_date(Date { year: 2026, month: 3, day: 5 }), "05/03/2026");
    assert_eq!(format_date(Date { year: 7, month: 12, day: 31 }), "31/12/0007");
    assert_eq!(format_date(Date { year: 10000, month: 1, day: 1 }), "01/01/+10000");
    assert_eq!(month_title(2026, 2), "February 2026");
    assert_eq!(month_title(2026, 13), "");
    assert_eq!(header_label(2026, 4, CalendarView::Days), "April 2026");
    assert_eq!(header_label(2026, 4, CalendarView::Months), "2026");
    assert_eq!(header_label(2026, 4, CalendarView::Years), "2016 \u{2013} 2027");
    assert_eq!(header_label(-5, 4, CalendarView::Years), "-12 \u{2013} -1");
    let mut picker = DatePicker::new(Date { year: 2026, month: 1, day: 1 });
    picker.set_empty_label("Any date".to_string());
    assert_eq!(picker.field_label(local_today()), "Any date");
    picker.set_selected_silent(Some(Date { year: 2026, month: 1, day: 9 }));
    assert_eq!(picker.field_label(local_today()), "09/01/2026");
}

#[test]
fn popup_mode_and_today() {
    let mut picker = DatePicker::new(local_today());
    assert_eq!(picker.popup_mode(), DatePickerPopupMode::DeferredOverlay);
    picker.set_popup_mode(DatePickerPopupMode::InlineExpand);
    assert_eq!(picker.popup_mode(), DatePickerPopupMode::InlineExpand);
    match picker.pick_today(local_today()) {
        Some(DatePickerEvent::Change(Some(today))) => {
            assert_eq!(picker.selected, Some(today));
            assert!(!picker.open);
            assert_eq!((picker.view_year, picker.view_month), (today.year, today.month));
        }
        other => panic!("today lies within the default range, got {other:?}"),
    }
}
