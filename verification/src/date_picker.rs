//! Calendar model of the date picker: proleptic Gregorian dates, the day
//! grid of a month, the allowed range, and the picker's view state machine
//! (days, months, years).

use vstd::prelude::*;

use chrono::{Datelike, NaiveDate};

use crate::chars::{push_str_chars, string_from_chars};
use crate::formatting::{format_i64, padded_spec, signed_decimal_spec};

verus! {

/// First year a calendar date can have.
pub const DATE_MIN_YEAR: i32 = -262143;
/// Last year a calendar date can have.
pub const DATE_MAX_YEAR: i32 = 262142;
/// Years shown on one page of the year view.
pub const YEAR_PAGE: i32 = 12;
/// Cells of the day view: six weeks of seven days.
pub const DAY_GRID_CELLS: usize = 42;
/// Earliest date the gallery filter offers, as year, month and day.
pub const MIN_GALLERY_YEAR: i32 = 2020;
pub const MIN_GALLERY_MONTH: u32 = 1;
pub const MIN_GALLERY_DAY: u32 = 1;

/// A calendar date, by year, month (1 to 12) and day of the month.
#[derive(Clone, Copy, Debug, PartialEq, Eq, Structural)]
pub struct Date {
    pub year: i32,
    pub month: u32,
    pub day: u32,
}

/// Day of the week.
#[derive(Clone, Copy, Debug, PartialEq, Eq, Structural)]
pub enum Weekday {
    Mon,
    Tue,
    Wed,
    Thu,
    Fri,
    Sat,
    Sun,
}

/// Gregorian leap year.
pub open spec fn is_leap(y: int) -> bool {
    y % 4 == 0 && (y % 100 != 0 || y % 400 == 0)
}

/// Days in month `m` (1 to 12) of year `y`.
pub open spec fn dim_spec(y: int, m: int) -> int {
    if m == 2 {
        if is_leap(y) { 29 } else { 28 }
    } else if m == 4 || m == 6 || m == 9 || m == 11 {
        30
    } else {
        31
    }
}

pub open spec fn year_in_span(y: int) -> bool {
    DATE_MIN_YEAR <= y <= DATE_MAX_YEAR
}

/// An existing calendar day within the representable years.
pub open spec fn valid_ymd(y: int, m: int, d: int) -> bool {
    year_in_span(y) && 1 <= m <= 12 && 1 <= d <= dim_spec(y, m)
}

impl Date {
    pub open spec fn valid(self) -> bool {
        valid_ymd(self.year as int, self.month as int, self.day as int)
    }
}

/// Calendar order of dates.
pub open spec fn date_lt(a: Date, b: Date) -> bool {
    a.year < b.year || (a.year == b.year && (a.month < b.month || (a.month == b.month && a.day < b.day)))
}

pub open spec fn opt_date(y: int, m: int, d: int) -> Option<Date> {
    if valid_ymd(y, m, d) {
        Some(Date { year: y as i32, month: m as u32, day: d as u32 })
    } else {
        None
    }
}

/// The day before a valid date; none before the first representable day.
pub open spec fn pred_spec(d: Date) -> Option<Date> {
    if d.day > 1 {
        Some(Date { year: d.year, month: d.month, day: (d.day - 1) as u32 })
    } else if d.month > 1 {
        Some(Date { year: d.year, month: (d.month - 1) as u32, day: dim_spec(d.year as int, d.month - 1) as u32 })
    } else if d.year > DATE_MIN_YEAR {
        Some(Date { year: (d.year - 1) as i32, month: 12, day: 31 })
    } else {
        None
    }
}

/// Offset of month `m` in the weekday formula.
pub open spec fn month_shift(m: int) -> int {
    if m == 1 { 0 } else if m == 2 { 3 } else if m == 3 { 2 } else if m == 4 { 5 } else if m == 5 { 0 }
    else if m == 6 { 3 } else if m == 7 { 5 } else if m == 8 { 1 } else if m == 9 { 4 } else if m == 10 { 6 }
    else if m == 11 { 2 } else { 4 }
}

/// Days since the last Sunday of a date of the proleptic Gregorian calendar.
pub open spec fn days_from_sunday(y: int, m: int, d: int) -> int {
    let yy = if m < 3 { y - 1 } else { y };
    (yy + yy / 4 - yy / 100 + yy / 400 + month_shift(m) + d) % 7
}

pub open spec fn weekday_spec(y: int, m: int, d: int) -> Weekday {
    let k = days_from_sunday(y, m, d);
    if k == 0 { Weekday::Sun } else if k == 1 { Weekday::Mon } else if k == 2 { Weekday::Tue }
    else if k == 3 { Weekday::Wed } else if k == 4 { Weekday::Thu } else if k == 5 { Weekday::Fri }
    else { Weekday::Sat }
}

/// English three-letter month abbreviation.
pub open spec fn month_abbrev(m: int) -> Seq<char> {
    if m == 1 { "Jan"@ } else if m == 2 { "Feb"@ } else if m == 3 { "Mar"@ } else if m == 4 { "Apr"@ }
    else if m == 5 { "May"@ } else if m == 6 { "Jun"@ } else if m == 7 { "Jul"@ } else if m == 8 { "Aug"@ }
    else if m == 9 { "Sep"@ } else if m == 10 { "Oct"@ } else if m == 11 { "Nov"@ } else { "Dec"@ }
}

/// `NaiveDate::from_ymd_opt` from chrono: the date when the day exists in
/// the representable years, else none.
#[verifier::external_body]
fn from_ymd(year: i32, month: u32, day: u32) -> (r: Option<Date>)
    ensures
        r == opt_date(year as int, month as int, day as int),
{
    match NaiveDate::from_ymd_opt(year, month, day) {
        Some(n) => Some(Date { year: n.year(), month: n.month(), day: n.day() }),
        None => None,
    }
}

/// `NaiveDate::pred_opt` from chrono: the previous calendar day.
#[verifier::external_body]
fn pred(date: Date) -> (r: Option<Date>)
    requires
        date.valid(),
    ensures
        r == pred_spec(date),
{
    let n = NaiveDate::from_ymd_opt(date.year, date.month, date.day).expect("valid date");
    match n.pred_opt() {
        Some(p) => Some(Date { year: p.year(), month: p.month(), day: p.day() }),
        None => None,
    }
}

/// `Datelike::weekday` from chrono: the day of the week of a valid date in
/// the proleptic Gregorian calendar.
#[verifier::external_body]
fn weekday_of(date: Date) -> (r: Weekday)
    requires
        date.valid(),
    ensures
        r == weekday_spec(date.year as int, date.month as int, date.day as int),
{
    match NaiveDate::from_ymd_opt(date.year, date.month, date.day).expect("valid date").weekday() {
        chrono::Weekday::Mon => Weekday::Mon,
        chrono::Weekday::Tue => Weekday::Tue,
        chrono::Weekday::Wed => Weekday::Wed,
        chrono::Weekday::Thu => Weekday::Thu,
        chrono::Weekday::Fri => Weekday::Fri,
        chrono::Weekday::Sat => Weekday::Sat,
        chrono::Weekday::Sun => Weekday::Sun,
    }
}

/// chrono's `%b` format item on the first of month `month` of 2000: the
/// English abbreviation of the month.
#[verifier::external_body]
fn chrono_month_abbrev(month: u32) -> (r: String)
    requires
        1 <= month <= 12,
    ensures
        r@ == month_abbrev(month as int),
{
    NaiveDate::from_ymd_opt(2000, month, 1).expect("valid month").format("%b").to_string()
}

/// English name of month `m`.
pub open spec fn month_name(m: int) -> Seq<char> {
    if m == 1 { "January"@ } else if m == 2 { "February"@ } else if m == 3 { "March"@ } else if m == 4 { "April"@ }
    else if m == 5 { "May"@ } else if m == 6 { "June"@ } else if m == 7 { "July"@ } else if m == 8 { "August"@ }
    else if m == 9 { "September"@ } else if m == 10 { "October"@ } else if m == 11 { "November"@ } else { "December"@ }
}

/// A year as chrono's `%Y` writes it: zero-padded to four digits, with a
/// sign before years outside 0 to 9999.
pub open spec fn year_text(y: int) -> Seq<char> {
    if 0 <= y <= 9999 {
        padded_spec(y as nat, 4)
    } else {
        seq![if y < 0 { '-' } else { '+' }] + padded_spec((if y < 0 { -y } else { y }) as nat, 4)
    }
}

/// A date as `%d/%m/%Y`: day and month on two digits, then the year.
pub open spec fn date_text(d: Date) -> Seq<char> {
    padded_spec(d.day as nat, 2) + "/"@ + padded_spec(d.month as nat, 2) + "/"@ + year_text(d.year as int)
}

/// A month as `%B %Y`: its English name, a space, the year.
pub open spec fn month_title_spec(y: int, m: int) -> Seq<char> {
    month_name(m) + " "@ + year_text(y)
}

/// `NaiveDate::format("%d/%m/%Y")` from chrono, which writes the day and
/// month zero-padded to two digits and the year as [`year_text`].
#[verifier::external_body]
fn chrono_format_date(date: Date) -> (r: String)
    requires
        date.valid(),
    ensures
        r@ == date_text(date),
{
    NaiveDate::from_ymd_opt(date.year, date.month, date.day).expect("valid date").format("%d/%m/%Y").to_string()
}

/// `NaiveDate::format("%B %Y")` from chrono on the first of a month: the
/// month's English name (chrono built without locales) and the year as
/// [`year_text`].
#[verifier::external_body]
fn chrono_month_title(year: i32, month: u32) -> (r: String)
    requires
        valid_ymd(year as int, month as int, 1),
    ensures
        r@ == month_title_spec(year as int, month as int),
{
    NaiveDate::from_ymd_opt(year, month, 1).expect("valid month").format("%B %Y").to_string()
}

/// The text of a date in the picker's field.
pub fn format_date(date: Date) -> (r: String)
    requires
        date.valid(),
    ensures
        r@ == date_text(date),
{
    chrono_format_date(date)
}

/// Title of the day view: the month's name and year; empty for a month
/// that does not exist.
pub fn month_title(year: i32, month: u32) -> (r: String)
    ensures
        valid_ymd(year as int, month as int, 1) ==> r@ == month_title_spec(year as int, month as int),
        !valid_ymd(year as int, month as int, 1) ==> r@ == Seq::<char>::empty(),
{
    match from_ymd(year, month, 1) {
        Some(_) => chrono_month_title(year, month),
        None => String::new(),
    }
}

/// Header of the open calendar: the month title in the day view, the year
/// in the month view, the span of the year page in the year view.
pub open spec fn header_spec(year: int, month: int, mode: CalendarView) -> Seq<char> {
    match mode {
        CalendarView::Days => if valid_ymd(year, month, 1) { month_title_spec(year, month) } else { Seq::empty() },
        CalendarView::Months => signed_decimal_spec(year),
        CalendarView::Years => signed_decimal_spec(year_page_spec(year)) + " \u{2013} "@ + signed_decimal_spec(
            year_page_spec(year) + YEAR_PAGE - 1,
        ),
    }
}

pub fn header_label(year: i32, month: u32, mode: CalendarView) -> (r: String)
    requires
        mode is Years ==> year_page_spec(year as int) >= i32::MIN && year_page_spec(year as int) + YEAR_PAGE - 1
            <= i32::MAX,
    ensures
        r@ == header_spec(year as int, month as int, mode),
{
    match mode {
        CalendarView::Days => month_title(year, month),
        CalendarView::Months => format_i64(year as i64),
        CalendarView::Years => {
            let start = year_page_start(year);
            let mut out: Vec<char> = Vec::new();
            push_str_chars(&mut out, format_i64(start as i64).as_str());
            push_str_chars(&mut out, " \u{2013} ");
            push_str_chars(&mut out, format_i64((start + YEAR_PAGE - 1) as i64).as_str());
            string_from_chars(&out)
        },
    }
}

/// Offset of a weekday in a week that starts on Sunday.
pub open spec fn weekday_offset_spec(w: Weekday) -> nat {
    match w {
        Weekday::Sun => 0,
        Weekday::Mon => 1,
        Weekday::Tue => 2,
        Weekday::Wed => 3,
        Weekday::Thu => 4,
        Weekday::Fri => 5,
        Weekday::Sat => 6,
    }
}

pub fn weekday_offset(weekday: Weekday) -> (r: usize)
    ensures
        r == weekday_offset_spec(weekday),
        r < 7,
{
    match weekday {
        Weekday::Sun => 0,
        Weekday::Mon => 1,
        Weekday::Tue => 2,
        Weekday::Wed => 3,
        Weekday::Thu => 4,
        Weekday::Fri => 5,
        Weekday::Sat => 6,
    }
}

/// Year and month after (`year`, `month`).
pub open spec fn next_ym(y: int, m: int) -> (int, int) {
    if m == 12 { (y + 1, 1) } else { (y, m + 1) }
}

/// Year and month before (`year`, `month`).
pub open spec fn prev_ym(y: int, m: int) -> (int, int) {
    if m == 1 { (y - 1, 12) } else { (y, m - 1) }
}

/// The first day of the following month exists and is not the first
/// representable day.
pub open spec fn days_in_month_defined(y: int, m: int) -> bool {
    let (ny, nm) = next_ym(y, m);
    valid_ymd(ny, nm, 1) && !(ny == DATE_MIN_YEAR && nm == 1)
}

/// Days of a month: the day of the month of the day before the first of the
/// following month.
pub fn days_in_month(year: i32, month: u32) -> (r: u32)
    requires
        days_in_month_defined(year as int, month as int),
    ensures
        1 <= month <= 12 ==> r == dim_spec(year as int, month as int),
        month == 0 ==> r == 31,
{
    let (next_year, next_month) = if month == 12 {
        (year + 1, 1u32)
    } else {
        (year, month + 1)
    };
    let first_next = from_ymd(next_year, next_month, 1).unwrap();
    let last = pred(first_next).unwrap();
    last.day
}

/// Start of the twelve-year page holding `year`.
pub open spec fn year_page_spec(year: int) -> int {
    year - year % 12
}

pub fn year_page_start(year: i32) -> (r: i32)
    requires
        year_page_spec(year as int) >= i32::MIN,
    ensures
        r == year_page_spec(year as int),
        r % 12 == 0,
        r <= year < r + YEAR_PAGE,
{
    let rem = year % YEAR_PAGE;
    let euclid = if rem < 0 { rem + YEAR_PAGE } else { rem };
    assert(euclid == (year as int) % 12);
    year - euclid
}

/// The abbreviated English name of a month, empty for a month number out of
/// range.
pub fn short_month_label(month: u32) -> (r: String)
    ensures
        1 <= month <= 12 ==> r@ == month_abbrev(month as int),
        !(1 <= month <= 12) ==> r@ == Seq::<char>::empty(),
{
    if 1 <= month && month <= 12 {
        chrono_month_abbrev(month)
    } else {
        String::new()
    }
}

/// Whether a date lies within the optional bounds.
pub open spec fn in_range_spec(date: Date, min: Option<Date>, max: Option<Date>) -> bool {
    (match min { Some(lo) => !date_lt(date, lo), None => true }) && (match max {
        Some(hi) => !date_lt(hi, date),
        None => true,
    })
}

/// Whether the span from `first` to `last` meets the optional bounds.
pub open spec fn overlaps_spec(first: Date, last: Date, min: Option<Date>, max: Option<Date>) -> bool {
    (match min { Some(lo) => !date_lt(last, lo), None => true }) && (match max {
        Some(hi) => !date_lt(hi, first),
        None => true,
    })
}

fn lt(a: Date, b: Date) -> (r: bool)
    ensures
        r == date_lt(a, b),
{
    a.year < b.year || (a.year == b.year && (a.month < b.month || (a.month == b.month && a.day < b.day)))
}

pub fn is_day_in_range(date: Date, min_date: Option<Date>, max_date: Option<Date>) -> (r: bool)
    ensures
        r == in_range_spec(date, min_date, max_date),
{
    if let Some(min) = min_date {
        if lt(date, min) {
            return false;
        }
    }
    if let Some(max) = max_date {
        if lt(max, date) {
            return false;
        }
    }
    true
}

pub fn range_overlaps(first: Date, last: Date, min_date: Option<Date>, max_date: Option<Date>) -> (r: bool)
    ensures
        r == overlaps_spec(first, last, min_date, max_date),
{
    if let Some(min) = min_date {
        if lt(last, min) {
            return false;
        }
    }
    if let Some(max) = max_date {
        if lt(max, first) {
            return false;
        }
    }
    true
}

/// A month can be picked when some of its days are within the bounds.
pub open spec fn month_in_range_spec(year: int, month: int, min: Option<Date>, max: Option<Date>) -> bool {
    valid_ymd(year, month, 1) && overlaps_spec(
        Date { year: year as i32, month: month as u32, day: 1 },
        Date { year: year as i32, month: month as u32, day: dim_spec(year, month) as u32 },
        min,
        max,
    )
}

pub fn month_in_range(year: i32, month: u32, min_date: Option<Date>, max_date: Option<Date>) -> (r: bool)
    requires
        !(year == DATE_MAX_YEAR && month == 12),
    ensures
        r == month_in_range_spec(year as int, month as int, min_date, max_date),
{
    let first = match from_ymd(year, month, 1) {
        Some(first) => first,
        None => return false,
    };
    let last = Date { year, month, day: days_in_month(year, month) };
    range_overlaps(first, last, min_date, max_date)
}

/// A year can be picked when some of its days are within the bounds.
pub open spec fn year_in_range_spec(year: int, min: Option<Date>, max: Option<Date>) -> bool {
    year_in_span(year) && overlaps_spec(
        Date { year: year as i32, month: 1, day: 1 },
        Date { year: year as i32, month: 12, day: 31 },
        min,
        max,
    )
}

pub fn year_in_range(year: i32, min_date: Option<Date>, max_date: Option<Date>) -> (r: bool)
    ensures
        r == year_in_range_spec(year as int, min_date, max_date),
{
    let first = from_ymd(year, 1, 1);
    let last = from_ymd(year, 12, 31);
    match (first, last) {
        (Some(first), Some(last)) => range_overlaps(first, last, min_date, max_date),
        _ => false,
    }
}

/// Blank cells before the first day of a month in a Sunday-first week.
pub open spec fn leading_blanks(y: int, m: int) -> nat {
    weekday_offset_spec(weekday_spec(y, m, 1))
}

/// The day grid of a month: six weeks of seven cells, the days of the month
/// in order after the blank cells before its first day.
pub open spec fn day_grid_spec(y: int, m: int) -> Seq<Option<u32>> {
    let lead = leading_blanks(y, m) as int;
    Seq::new(DAY_GRID_CELLS as nat, |i: int| if lead <= i < lead + dim_spec(y, m) { Some((i - lead + 1) as u32) } else { None })
}

/// The cells of the day view of a month, week by week.
pub fn day_grid(year: i32, month: u32) -> (r: Vec<Option<u32>>)
    requires
        valid_ymd(year as int, month as int, 1),
        days_in_month_defined(year as int, month as int),
    ensures
        r@ == day_grid_spec(year as int, month as int),
{
    let first = from_ymd(year, month, 1).unwrap();
    let dim = days_in_month(year, month);
    let leading = weekday_offset(weekday_of(first));
    let mut cells: Vec<Option<u32>> = Vec::new();
    let mut day: u32 = 1;
    let mut i: usize = 0;
    while i < DAY_GRID_CELLS
        invariant
            i <= DAY_GRID_CELLS,
            leading < 7,
            dim == dim_spec(year as int, month as int),
            leading == leading_blanks(year as int, month as int),
            day == (if i <= leading { 1 } else if i - leading <= dim { i - leading + 1 } else { dim + 1 }),
            cells@ == day_grid_spec(year as int, month as int).take(i as int),
        decreases DAY_GRID_CELLS - i,
    {
        if i < leading || day > dim {
            cells.push(None);
        } else {
            cells.push(Some(day));
            day = day + 1;
        }
        i = i + 1;
        assert(cells@ =~= day_grid_spec(year as int, month as int).take(i as int));
    }
    assert(cells@ =~= day_grid_spec(year as int, month as int));
    cells
}

/// Cell of day `d` in the day grid of a month.
pub open spec fn day_cell_index(y: int, m: int, d: int) -> int {
    leading_blanks(y, m) + d - 1
}

/// Every month fits the six weeks of the day view, and each of its days
/// appears in the grid exactly at its place.
pub proof fn lemma_month_fits_six_weeks(y: int, m: int)
    requires
        1 <= m <= 12,
    ensures
        leading_blanks(y, m) + dim_spec(y, m) <= DAY_GRID_CELLS,
        forall|d: int| 1 <= d <= dim_spec(y, m) ==> day_grid_spec(y, m)[#[trigger] day_cell_index(y, m, d)] == Some(d as u32),
{
}

/// Stepping a month forward and back, or back and forward, returns to the
/// same month.
pub proof fn lemma_month_steps_undo(y: int, m: int)
    requires
        1 <= m <= 12,
    ensures
        prev_ym(next_ym(y, m).0, next_ym(y, m).1) == (y, m),
        next_ym(prev_ym(y, m).0, prev_ym(y, m).1) == (y, m),
        1 <= next_ym(y, m).1 <= 12,
        1 <= prev_ym(y, m).1 <= 12,
{
}

/// How the popup is shown.
#[derive(Clone, Copy, Debug, PartialEq, Eq, Structural)]
pub enum DatePickerPopupMode {
    /// Drawn in a deferred overlay over the page.
    DeferredOverlay,
    /// Expanded inline below the field.
    InlineExpand,
}

/// Which grid the open calendar shows.
#[derive(Clone, Copy, Debug, PartialEq, Eq, Structural)]
pub enum CalendarView {
    Days,
    Months,
    Years,
}

/// What the picker reports to its listeners.
#[derive(Clone, Copy, Debug, PartialEq, Eq, Structural)]
pub enum DatePickerEvent {
    /// The selection changed (or was cleared).
    Change(Option<Date>),
    /// The popup opened.
    Opened,
}

/// State of a date picker: the selection, whether the popup is open, the
/// month or page it shows, and the allowed range.
pub struct DatePicker {
    pub selected: Option<Date>,
    pub open: bool,
    pub view_year: i32,
    pub view_month: u32,
    pub view_mode: CalendarView,
    pub min_date: Option<Date>,
    pub max_date: Option<Date>,
    pub locale: String,
    pub empty_label: Option<String>,
    pub popup_mode: DatePickerPopupMode,
}

/// The view after one step forward or back in a view mode: a month in the
/// day view, a year in the month view, a page of years in the year view.
pub open spec fn step_spec(mode: CalendarView, y: int, m: int, forward: bool) -> (int, int) {
    match mode {
        CalendarView::Days => if forward { next_ym(y, m) } else { prev_ym(y, m) },
        CalendarView::Months => (if forward { y + 1 } else { y - 1 }, m),
        CalendarView::Years => (if forward { y + YEAR_PAGE } else { y - YEAR_PAGE }, m),
    }
}

/// The step stays within the integer range of the view.
pub open spec fn step_fits(mode: CalendarView, y: int, m: int, forward: bool) -> bool {
    let (ny, nm) = step_spec(mode, y, m, forward);
    i32::MIN <= ny <= i32::MAX && (mode is Days ==> (forward ==> m < u32::MAX) && (!forward ==> m != 0))
}

pub open spec fn zoom_out_spec(mode: CalendarView) -> CalendarView {
    match mode {
        CalendarView::Days => CalendarView::Months,
        _ => CalendarView::Years,
    }
}

impl DatePicker {
    /// A closed picker showing the month of `today`, with the earliest
    /// gallery date as lower bound.
    pub fn new(today: Date) -> (r: Self)
        ensures
            r.selected is None,
            !r.open,
            r.view_year == today.year,
            r.view_month == today.month,
            r.view_mode == CalendarView::Days,
            r.min_date == Some(Date { year: MIN_GALLERY_YEAR, month: MIN_GALLERY_MONTH, day: MIN_GALLERY_DAY }),
            r.max_date is None,
            r.empty_label is None,
            r.locale@ == Seq::<char>::empty(),
            r.popup_mode == DatePickerPopupMode::DeferredOverlay,
    {
        let min = match from_ymd(MIN_GALLERY_YEAR, MIN_GALLERY_MONTH, MIN_GALLERY_DAY) {
            Some(d) => d,
            None => today,
        };
        DatePicker {
            selected: None,
            open: false,
            view_year: today.year,
            view_month: today.month,
            view_mode: CalendarView::Days,
            min_date: Some(min),
            max_date: None,
            locale: String::new(),
            empty_label: None,
            popup_mode: DatePickerPopupMode::DeferredOverlay,
        }
    }

    pub fn set_popup_mode(&mut self, mode: DatePickerPopupMode)
        ensures
            *final(self) == (DatePicker { popup_mode: mode, ..*old(self) }),
    {
        self.popup_mode = mode;
    }

    pub fn popup_mode(&self) -> (r: DatePickerPopupMode)
        ensures
            r == self.popup_mode,
    {
        self.popup_mode
    }

    pub fn set_empty_label(&mut self, label: String)
        ensures
            *final(self) == (DatePicker { empty_label: Some(label), ..*old(self) }),
    {
        self.empty_label = Some(label);
    }

    pub fn selected(&self) -> (r: Option<Date>)
        ensures
            r == self.selected,
    {
        self.selected
    }

    pub fn set_locale(&mut self, locale: String)
        ensures
            *final(self) == (DatePicker { locale, ..*old(self) }),
    {
        self.locale = locale;
    }

    /// Selects a date (or none) and shows its month, reporting nothing.
    pub fn set_selected_silent(&mut self, date: Option<Date>)
        ensures
            *final(self) == (match date {
                Some(d) => DatePicker { selected: date, view_year: d.year, view_month: d.month, ..*old(self) },
                None => DatePicker { selected: None, ..*old(self) },
            }),
    {
        self.selected = date;
        if let Some(d) = date {
            self.view_year = d.year;
            self.view_month = d.month;
        }
    }

    /// [`DatePicker::set_selected_silent`], reporting the change.
    pub fn set_selected(&mut self, date: Option<Date>) -> (r: DatePickerEvent)
        ensures
            r == DatePickerEvent::Change(date),
            *final(self) == (match date {
                Some(d) => DatePicker { selected: date, view_year: d.year, view_month: d.month, ..*old(self) },
                None => DatePicker { selected: None, ..*old(self) },
            }),
    {
        self.set_selected_silent(date);
        DatePickerEvent::Change(date)
    }

    pub fn set_min(&mut self, min: Option<Date>)
        ensures
            *final(self) == (DatePicker { min_date: min, ..*old(self) }),
    {
        self.min_date = min;
    }

    pub fn set_max(&mut self, max: Option<Date>)
        ensures
            *final(self) == (DatePicker { max_date: max, ..*old(self) }),
    {
        self.max_date = max;
    }

    pub fn is_open(&self) -> (r: bool)
        ensures
            r == self.open,
    {
        self.open
    }

    /// Closes the popup; a closed calendar reopens on the day view.
    pub fn close(&mut self)
        ensures
            *final(self) == (if old(self).open {
                DatePicker { open: false, view_mode: CalendarView::Days, ..*old(self) }
            } else {
                *old(self)
            }),
    {
        if self.open {
            self.open = false;
            self.view_mode = CalendarView::Days;
        }
    }

    /// The selected date, else `today`.
    pub fn display_date(&self, today: Date) -> (r: Date)
        ensures
            r == match self.selected {
                Some(d) => d,
                None => today,
            },
    {
        match self.selected {
            Some(d) => d,
            None => today,
        }
    }

    /// Text of the field: the empty label while nothing is selected and
    /// one is set, else the date shown (the selection, else `today`).
    pub fn field_label(&self, today: Date) -> (r: String)
        requires
            self.selected matches Some(d) ==> d.valid(),
            today.valid(),
        ensures
            (match (self.selected, self.empty_label) {
                (None, Some(label)) => r@ == label@,
                (Some(d), _) => r@ == date_text(d),
                (None, None) => r@ == date_text(today),
            }),
    {
        match (&self.selected, &self.empty_label) {
            (None, Some(label)) => label.clone(),
            _ => format_date(self.display_date(today)),
        }
    }

    /// Opens or closes the popup, on the day view; opening shows the month
    /// of the selection (else of `today`) and reports the opening.
    pub fn toggle_open(&mut self, today: Date) -> (r: Option<DatePickerEvent>)
        ensures
            !old(self).open ==> r == Some(DatePickerEvent::Opened) && *final(self) == (DatePicker {
                open: true,
                view_mode: CalendarView::Days,
                view_year: old(self).display_date_spec(today).year,
                view_month: old(self).display_date_spec(today).month,
                ..*old(self)
            }),
            old(self).open ==> r is None && *final(self) == (DatePicker {
                open: false,
                view_mode: CalendarView::Days,
                ..*old(self)
            }),
    {
        self.open = !self.open;
        self.view_mode = CalendarView::Days;
        if self.open {
            let display = self.display_date(today);
            self.view_year = display.year;
            self.view_month = display.month;
            Some(DatePickerEvent::Opened)
        } else {
            None
        }
    }

    /// The selected date, else `today`.
    pub open spec fn display_date_spec(&self, today: Date) -> Date {
        match self.selected {
            Some(d) => d,
            None => today,
        }
    }

    pub fn prev_month(&mut self)
        requires
            old(self).view_month != 0,
            old(self).view_month == 1 ==> old(self).view_year > i32::MIN,
        ensures
            (final(self).view_year as int, final(self).view_month as int) == prev_ym(
                old(self).view_year as int,
                old(self).view_month as int,
            ),
            *final(self) == (DatePicker { view_year: final(self).view_year, view_month: final(self).view_month, ..*old(self) }),
    {
        if self.view_month == 1 {
            self.view_month = 12;
            self.view_year = self.view_year - 1;
        } else {
            self.view_month = self.view_month - 1;
        }
    }

    pub fn next_month(&mut self)
        requires
            old(self).view_month < u32::MAX,
            old(self).view_month == 12 ==> old(self).view_year < i32::MAX,
        ensures
            (final(self).view_year as int, final(self).view_month as int) == next_ym(
                old(self).view_year as int,
                old(self).view_month as int,
            ),
            *final(self) == (DatePicker { view_year: final(self).view_year, view_month: final(self).view_month, ..*old(self) }),
    {
        if self.view_month == 12 {
            self.view_month = 1;
            self.view_year = self.view_year + 1;
        } else {
            self.view_month = self.view_month + 1;
        }
    }

    /// One step of the header arrows in the current view.
    pub fn step_view(&mut self, forward: bool)
        requires
            step_fits(old(self).view_mode, old(self).view_year as int, old(self).view_month as int, forward),
        ensures
            (final(self).view_year as int, final(self).view_month as int) == step_spec(
                old(self).view_mode,
                old(self).view_year as int,
                old(self).view_month as int,
                forward,
            ),
            *final(self) == (DatePicker { view_year: final(self).view_year, view_month: final(self).view_month, ..*old(self) }),
    {
        match self.view_mode {
            CalendarView::Days => {
                if forward {
                    self.next_month();
                } else {
                    self.prev_month();
                }
            },
            CalendarView::Months => {
                self.view_year = if forward { self.view_year + 1 } else { self.view_year - 1 };
            },
            CalendarView::Years => {
                self.view_year = if forward { self.view_year + YEAR_PAGE } else { self.view_year - YEAR_PAGE };
            },
        }
    }

    /// The header label zooms out: days to months, months to years.
    pub fn zoom_out_view(&mut self)
        ensures
            *final(self) == (DatePicker { view_mode: zoom_out_spec(old(self).view_mode), ..*old(self) }),
    {
        self.view_mode = match self.view_mode {
            CalendarView::Days => CalendarView::Months,
            _ => CalendarView::Years,
        };
    }

    /// Picking a month shows its days.
    pub fn pick_month(&mut self, month: u32)
        ensures
            *final(self) == (DatePicker { view_month: month, view_mode: CalendarView::Days, ..*old(self) }),
    {
        self.view_month = month;
        self.view_mode = CalendarView::Days;
    }

    /// Picking a year shows its months.
    pub fn pick_year(&mut self, year: i32)
        ensures
            *final(self) == (DatePicker { view_year: year, view_mode: CalendarView::Months, ..*old(self) }),
    {
        self.view_year = year;
        self.view_mode = CalendarView::Months;
    }

    pub open spec fn day_enabled_spec(&self, date: Date) -> bool {
        in_range_spec(date, self.min_date, self.max_date)
    }

    pub fn is_day_enabled(&self, date: Date) -> (r: bool)
        ensures
            r == self.day_enabled_spec(date),
    {
        is_day_in_range(date, self.min_date, self.max_date)
    }

    /// Picking a day of the shown month selects it and closes the popup,
    /// unless the day does not exist or is out of range: then nothing
    /// changes.
    pub fn pick_day(&mut self, day: u32) -> (r: Option<DatePickerEvent>)
        ensures
            ({
                let d = Date { year: old(self).view_year, month: old(self).view_month, day };
                if d.valid() && old(self).day_enabled_spec(d) {
                    r == Some(DatePickerEvent::Change(Some(d)))
                        && *final(self) == (DatePicker { selected: Some(d), open: false, ..*old(self) })
                } else {
                    r is None && *final(self) == *old(self)
                }
            }),
    {
        let date = match from_ymd(self.view_year, self.view_month, day) {
            Some(date) => date,
            None => return None,
        };
        if !self.is_day_enabled(date) {
            return None;
        }
        self.selected = Some(date);
        self.open = false;
        Some(DatePickerEvent::Change(Some(date)))
    }

    /// Clears the selection and closes the popup.
    pub fn clear(&mut self) -> (r: DatePickerEvent)
        ensures
            r == DatePickerEvent::Change(None),
            *final(self) == (DatePicker { selected: None, open: false, ..*old(self) }),
    {
        self.selected = None;
        self.open = false;
        DatePickerEvent::Change(None)
    }

    /// Selects `today` and closes the popup when it is within range; else
    /// nothing changes.
    pub fn pick_today(&mut self, today: Date) -> (r: Option<DatePickerEvent>)
        ensures
            old(self).day_enabled_spec(today) ==> r == Some(DatePickerEvent::Change(Some(today)))
                && *final(self) == (DatePicker {
                    selected: Some(today),
                    open: false,
                    view_year: today.year,
                    view_month: today.month,
                    ..*old(self)
                }),
            !old(self).day_enabled_spec(today) ==> r is None && *final(self) == *old(self),
    {
        if self.is_day_enabled(today) {
            let event = self.set_selected(Some(today));
            self.open = false;
            Some(event)
        } else {
            None
        }
    }
}

/// A step forward and a step back (or back then forward) in any view
/// returns to the same view, within the integer range.
pub proof fn lemma_step_view_undo(mode: CalendarView, y: int, m: int, forward: bool)
    requires
        1 <= m <= 12,
    ensures
        ({
            let (y1, m1) = step_spec(mode, y, m, forward);
            step_spec(mode, y1, m1, !forward) == (y, m)
        }),
{
}

/// Zooming out twice always reaches the year view, and stays there.
pub proof fn lemma_zoom_out_reaches_years(mode: CalendarView)
    ensures
        zoom_out_spec(zoom_out_spec(mode)) == CalendarView::Years,
        zoom_out_spec(CalendarView::Years) == CalendarView::Years,
{
}

} // verus!
