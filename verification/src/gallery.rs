//! Media gallery of a channel: the list rows (a header per day, then the
//! day's tiles three to a row), the sent-date filter with its two pickers,
//! and the timestamps the filter sends to the store.

use vstd::prelude::*;

use chrono::NaiveDate;

use crate::date_picker::{date_lt, is_day_in_range, Date, DatePicker, DatePickerEvent, MIN_GALLERY_DAY, MIN_GALLERY_MONTH, MIN_GALLERY_YEAR};

verus! {

/// Tiles per image row.
pub const COLUMNS: usize = 3;
/// Rows from the end of the list at which the next page is fetched.
pub const LOAD_MORE_THRESHOLD: usize = 4;
/// Seconds in a day.
pub const SECONDS_PER_DAY: i64 = 86400;

/// Which media the gallery lists.
#[derive(Clone, Copy, Debug, PartialEq, Eq, Structural)]
pub enum MediaFilter {
    All,
    Image,
    Video,
}

/// An attachment as the gallery reads it from the store, in list order.
pub struct GalleryAttachment {
    pub id: i64,
    pub is_video: bool,
    pub thumb_src: String,
    /// Day the attachment was sent, as a day number.
    pub day_index: i64,
    /// Header text of that day.
    pub day_label: String,
}

/// One tile of an image row.
pub struct GalleryTile {
    pub id: i64,
    pub is_video: bool,
    pub thumb_src: String,
}

/// A row of the gallery list.
pub enum GalleryRow {
    Header(String),
    Images(Vec<GalleryTile>),
}

/// What a tile shows: id, video flag and thumbnail source.
pub type TileView = (i64, bool, Seq<char>);

pub ghost enum RowView {
    Header(Seq<char>),
    Images(Seq<TileView>),
}

pub open spec fn tile_of(a: GalleryAttachment) -> TileView {
    (a.id, a.is_video, a.thumb_src@)
}

pub open spec fn tile_view(t: GalleryTile) -> TileView {
    (t.id, t.is_video, t.thumb_src@)
}

pub open spec fn tiles_view(ts: Seq<GalleryTile>) -> Seq<TileView> {
    ts.map_values(|t: GalleryTile| tile_view(t))
}

pub open spec fn row_view(r: GalleryRow) -> RowView {
    match r {
        GalleryRow::Header(label) => RowView::Header(label@),
        GalleryRow::Images(tiles) => RowView::Images(tiles_view(tiles@)),
    }
}

pub open spec fn rows_view(rows: Seq<GalleryRow>) -> Seq<RowView> {
    rows.map_values(|r: GalleryRow| row_view(r))
}

/// Rows with the pending tiles appended as a row, when there are any.
pub open spec fn flushed(rows: Seq<RowView>, bucket: Seq<TileView>) -> Seq<RowView> {
    if bucket.len() > 0 { rows.push(RowView::Images(bucket)) } else { rows }
}

/// Rows, day and pending tiles after listing `atts` in order: a new day
/// closes the pending tiles and opens with its header; a row closes when it
/// holds [`COLUMNS`] tiles.
pub open spec fn layout_state(atts: Seq<GalleryAttachment>) -> (Seq<RowView>, Option<i64>, Seq<TileView>)
    decreases atts.len(),
{
    if atts.len() == 0 {
        (Seq::empty(), None, Seq::empty())
    } else {
        let (rows, day, bucket) = layout_state(atts.drop_last());
        let a = atts.last();
        let (rows1, bucket1) = if day != Some(a.day_index) {
            (flushed(rows, bucket).push(RowView::Header(a.day_label@)), Seq::<TileView>::empty())
        } else {
            (rows, bucket)
        };
        let bucket2 = bucket1.push(tile_of(a));
        if bucket2.len() == COLUMNS {
            (rows1.push(RowView::Images(bucket2)), Some(a.day_index), Seq::empty())
        } else {
            (rows1, Some(a.day_index), bucket2)
        }
    }
}

/// The gallery rows of a list of attachments.
pub open spec fn layout_spec(atts: Seq<GalleryAttachment>) -> Seq<RowView> {
    let (rows, _, bucket) = layout_state(atts);
    flushed(rows, bucket)
}

/// The tiles of the image rows, in order.
pub open spec fn row_tiles(rows: Seq<RowView>) -> Seq<TileView>
    decreases rows.len(),
{
    if rows.len() == 0 {
        Seq::empty()
    } else {
        row_tiles(rows.drop_last()) + match rows.last() {
            RowView::Images(ts) => ts,
            RowView::Header(_) => Seq::empty(),
        }
    }
}

/// Every image row holds one to [`COLUMNS`] tiles.
pub open spec fn rows_bounded(rows: Seq<RowView>) -> bool {
    forall|i: int| 0 <= i < rows.len() ==> match #[trigger] rows[i] {
        RowView::Images(ts) => 1 <= ts.len() <= COLUMNS,
        RowView::Header(_) => true,
    }
}

proof fn lemma_row_tiles_push(rows: Seq<RowView>, r: RowView)
    ensures
        row_tiles(rows.push(r)) == row_tiles(rows) + match r {
            RowView::Images(ts) => ts,
            RowView::Header(_) => Seq::empty(),
        },
{
    assert(rows.push(r).drop_last() =~= rows);
}

/// Laying out keeps every attachment, in order, as exactly one tile, and
/// no image row is empty or holds more than [`COLUMNS`] tiles.
proof fn lemma_layout_state(atts: Seq<GalleryAttachment>)
    ensures
        row_tiles(layout_state(atts).0) + layout_state(atts).2 == atts.map_values(|a: GalleryAttachment| tile_of(a)),
        rows_bounded(layout_state(atts).0),
        layout_state(atts).2.len() < COLUMNS,
        atts.len() == 0 ==> layout_state(atts).2.len() == 0,
    decreases atts.len(),
{
    if atts.len() > 0 {
        let prev = atts.drop_last();
        lemma_layout_state(prev);
        let (rows, day, bucket) = layout_state(prev);
        let a = atts.last();
        let tiles = atts.map_values(|x: GalleryAttachment| tile_of(x));
        assert(tiles =~= prev.map_values(|x: GalleryAttachment| tile_of(x)).push(tile_of(a)));
        let (rows1, bucket1) = if day != Some(a.day_index) {
            (flushed(rows, bucket).push(RowView::Header(a.day_label@)), Seq::<TileView>::empty())
        } else {
            (rows, bucket)
        };
        if day != Some(a.day_index) {
            if bucket.len() > 0 {
                lemma_row_tiles_push(rows, RowView::Images(bucket));
            }
            lemma_row_tiles_push(flushed(rows, bucket), RowView::Header(a.day_label@));
        }
        assert(row_tiles(rows1) + bucket1 =~= row_tiles(rows) + bucket);
        let bucket2 = bucket1.push(tile_of(a));
        if bucket2.len() == COLUMNS {
            lemma_row_tiles_push(rows1, RowView::Images(bucket2));
            assert(row_tiles(rows1.push(RowView::Images(bucket2))) + Seq::<TileView>::empty() =~= tiles);
        } else {
            assert(row_tiles(rows1) + bucket2 =~= tiles);
        }
    }
}

/// Laying out keeps every attachment, in order, as exactly one tile of an
/// image row, and every image row holds one to [`COLUMNS`] tiles.
pub proof fn lemma_layout_keeps_every_attachment(atts: Seq<GalleryAttachment>)
    ensures
        row_tiles(layout_spec(atts)) == atts.map_values(|a: GalleryAttachment| tile_of(a)),
        rows_bounded(layout_spec(atts)),
{
    lemma_layout_state(atts);
    let (rows, _, bucket) = layout_state(atts);
    if bucket.len() > 0 {
        lemma_row_tiles_push(rows, RowView::Images(bucket));
    } else {
        assert(row_tiles(rows) + bucket =~= row_tiles(rows));
    }
}

fn tile_from(att: &GalleryAttachment) -> (r: GalleryTile)
    ensures
        tile_view(r) == tile_of(*att),
{
    GalleryTile { id: att.id, is_video: att.is_video, thumb_src: att.thumb_src.clone() }
}

/// Closes the pending tiles into an image row, when there are any.
fn flush_bucket(rows: &mut Vec<GalleryRow>, bucket: &mut Vec<GalleryTile>)
    ensures
        rows_view(final(rows)@) == flushed(rows_view(old(rows)@), tiles_view(old(bucket)@)),
        final(bucket)@.len() == 0,
{
    if bucket.len() > 0 {
        let ghost before = rows@;
        let mut tiles: Vec<GalleryTile> = Vec::new();
        std::mem::swap(&mut tiles, bucket);
        rows.push(GalleryRow::Images(tiles));
        assert(rows_view(rows@) =~= rows_view(before).push(RowView::Images(tiles_view(old(bucket)@))));
        assert(bucket@ =~= Seq::<GalleryTile>::empty());
    }
}

/// The gallery rows of the attachments listed in order.
pub fn gallery_rows(atts: &Vec<GalleryAttachment>) -> (r: Vec<GalleryRow>)
    ensures
        rows_view(r@) == layout_spec(atts@),
{
    let mut rows: Vec<GalleryRow> = Vec::new();
    let mut current_day: Option<i64> = None;
    let mut bucket: Vec<GalleryTile> = Vec::new();
    let mut i: usize = 0;
    while i < atts.len()
        invariant
            i <= atts@.len(),
            layout_state(atts@.take(i as int)) == (rows_view(rows@), current_day, tiles_view(bucket@)),
        decreases atts@.len() - i,
    {
        let att = &atts[i];
        proof {
            assert(atts@.take(i + 1).drop_last() =~= atts@.take(i as int));
            assert(atts@.take(i + 1).last() == *att);
        }
        let same_day = match current_day {
            Some(d) => d == att.day_index,
            None => false,
        };
        if !same_day {
            flush_bucket(&mut rows, &mut bucket);
            let ghost before = rows@;
            rows.push(GalleryRow::Header(att.day_label.clone()));
            assert(rows_view(rows@) =~= rows_view(before).push(RowView::Header(att.day_label@)));
            assert(tiles_view(bucket@) =~= Seq::<TileView>::empty());
            current_day = Some(att.day_index);
        }
        let ghost pending = bucket@;
        bucket.push(tile_from(att));
        assert(tiles_view(bucket@) =~= tiles_view(pending).push(tile_of(*att)));
        if bucket.len() == COLUMNS {
            let ghost before = rows@;
            let mut full: Vec<GalleryTile> = Vec::new();
            std::mem::swap(&mut full, &mut bucket);
            rows.push(GalleryRow::Images(full));
            assert(rows_view(rows@) =~= rows_view(before).push(RowView::Images(tiles_view(full@))));
            assert(tiles_view(bucket@) =~= Seq::<TileView>::empty());
        }
        i = i + 1;
    }
    assert(atts@.take(atts@.len() as int) =~= atts@);
    flush_bucket(&mut rows, &mut bucket);
    rows
}

/// Whether the list is scrolled within [`LOAD_MORE_THRESHOLD`] rows of
/// its end (and holds rows), so the next page is due.
pub fn near_bottom(visible_end: usize, count: usize) -> (r: bool)
    requires
        visible_end + LOAD_MORE_THRESHOLD <= usize::MAX,
    ensures
        r == (visible_end + LOAD_MORE_THRESHOLD >= count && count > 0),
{
    visible_end + LOAD_MORE_THRESHOLD >= count && count > 0
}

/// What the list was built from: the filter, the number of attachments
/// and the ids at both ends.
#[derive(Clone, Copy, Debug, PartialEq, Eq, Structural)]
pub struct RowsSnapshot {
    pub filter: MediaFilter,
    pub len: usize,
    pub head_id: Option<i64>,
    pub tail_id: Option<i64>,
}

/// The rows are rebuilt unless they were built from the same snapshot.
pub fn needs_rebuild(built_from: Option<RowsSnapshot>, now: RowsSnapshot) -> (r: bool)
    ensures
        r == (built_from != Some(now)),
{
    match built_from {
        Some(prev) => !(prev == now),
        None => true,
    }
}

/// Days from 1970-01-01 to a date of the proleptic Gregorian calendar.
pub open spec fn days_from_civil(y: int, m: int, d: int) -> int {
    let yy = if m <= 2 { y - 1 } else { y };
    let era = yy / 400;
    let yoe = yy - era * 400;
    let mp = if m > 2 { m - 3 } else { m + 9 };
    let doy = (153 * mp + 2) / 5 + d - 1;
    let doe = yoe * 365 + yoe / 4 - yoe / 100 + doy;
    era * 146097 + doe - 719468
}

/// Unix time of `hour:minute:second` on a date, read as UTC.
pub open spec fn utc_second(date: Date, hour: u32, minute: u32, second: u32) -> int {
    days_from_civil(date.year as int, date.month as int, date.day as int) * SECONDS_PER_DAY
        + hour as int * 3600 + minute as int * 60 + second as int
}

/// Unix time of the first (or last) second of a date, read as UTC.
pub open spec fn day_second(date: Date, end_of_day: bool) -> int {
    if end_of_day { utc_second(date, 23, 59, 59) } else { utc_second(date, 0, 0, 0) }
}

/// `NaiveDate::and_hms_opt(hour, minute, second).and_utc().timestamp()`
/// from chrono: the Unix time of that time of a valid date read as UTC.
#[verifier::external_body]
fn utc_timestamp(date: Date, hour: u32, minute: u32, second: u32) -> (r: i64)
    requires
        date.valid(),
        hour < 24,
        minute < 60,
        second < 60,
    ensures
        r == utc_second(date, hour, minute, second),
{
    let day = NaiveDate::from_ymd_opt(date.year, date.month, date.day).expect("valid date");
    day.and_hms_opt(hour, minute, second).expect("valid time").and_utc().timestamp()
}

/// A Unix time as `u32`, zero where it does not fit.
pub open spec fn as_u32_or_zero(t: int) -> u32 {
    if 0 <= t <= u32::MAX { t as u32 } else { 0 }
}

pub fn start_of_day_ts(date: Date) -> (r: u32)
    requires
        date.valid(),
    ensures
        r == as_u32_or_zero(day_second(date, false)),
{
    let t = utc_timestamp(date, 0, 0, 0);
    if 0 <= t && t <= 0xffff_ffff { t as u32 } else { 0 }
}

pub fn end_of_day_ts(date: Date) -> (r: u32)
    requires
        date.valid(),
    ensures
        r == as_u32_or_zero(day_second(date, true)),
{
    let t = utc_timestamp(date, 23, 59, 59);
    if 0 <= t && t <= 0xffff_ffff { t as u32 } else { 0 }
}

pub open spec fn opt_valid(d: Option<Date>) -> bool {
    match d {
        Some(x) => x.valid(),
        None => true,
    }
}

/// Bounds of the date filter: from the start of the first day to the end
/// of the last; one day alone spans that whole day.
pub open spec fn timestamps_spec(from: Option<Date>, to: Option<Date>) -> (Option<u32>, Option<u32>) {
    (
        match from {
            Some(d) => Some(as_u32_or_zero(day_second(d, false))),
            None => None,
        },
        match to {
            Some(d) => Some(as_u32_or_zero(day_second(d, true))),
            None => None,
        },
    )
}

pub fn calculate_timestamps(from: Option<Date>, to: Option<Date>) -> (r: (Option<u32>, Option<u32>))
    requires
        opt_valid(from),
        opt_valid(to),
    ensures
        r == timestamps_spec(from, to),
{
    match (from, to) {
        (Some(start), Some(end)) if start == end => (Some(start_of_day_ts(start)), Some(end_of_day_ts(start))),
        _ => (
            match from {
                Some(d) => Some(start_of_day_ts(d)),
                None => None,
            },
            match to {
                Some(d) => Some(end_of_day_ts(d)),
                None => None,
            },
        ),
    }
}

/// Which sentence describes the applied date range.
#[derive(Clone, Copy, Debug, PartialEq, Eq, Structural)]
pub enum DateRangeLabel {
    /// No range: the "sent date" placeholder.
    SentDate,
    From(Date),
    To(Date),
    /// A single day.
    Day(Date),
    Range(Date, Date),
}

pub open spec fn range_label_spec(from: Option<Date>, to: Option<Date>) -> DateRangeLabel {
    match (from, to) {
        (None, None) => DateRangeLabel::SentDate,
        (Some(a), None) => DateRangeLabel::From(a),
        (None, Some(b)) => DateRangeLabel::To(b),
        (Some(a), Some(b)) => if a == b { DateRangeLabel::Day(a) } else { DateRangeLabel::Range(a, b) },
    }
}

/// Key of the empty-state text: the date-range text while a range is
/// applied, else the text of the media filter.
pub fn empty_label_key(filter: MediaFilter, date_filtered: bool) -> (r: &'static str)
    ensures
        date_filtered ==> r == "channelTopbar.gallery.emptyState.noMediaFilesDateRange",
        !date_filtered ==> r == (match filter {
            MediaFilter::All => "channelTopbar.gallery.emptyState.noMediaFiles",
            MediaFilter::Image => "channelTopbar.gallery.emptyState.noImages",
            MediaFilter::Video => "channelTopbar.gallery.emptyState.noVideos",
        }),
{
    if date_filtered {
        "channelTopbar.gallery.emptyState.noMediaFilesDateRange"
    } else {
        match filter {
            MediaFilter::All => "channelTopbar.gallery.emptyState.noMediaFiles",
            MediaFilter::Image => "channelTopbar.gallery.emptyState.noImages",
            MediaFilter::Video => "channelTopbar.gallery.emptyState.noVideos",
        }
    }
}

/// The earliest date the gallery filter offers.
pub open spec fn gallery_min_date() -> Date {
    Date { year: MIN_GALLERY_YEAR, month: MIN_GALLERY_MONTH, day: MIN_GALLERY_DAY }
}

/// The media filter and the sent-date filter of the gallery, with the two
/// pickers of the date panel.
pub struct GalleryFilterState {
    pub active_filter: MediaFilter,
    pub from_picker: DatePicker,
    pub to_picker: DatePicker,
    /// The start date of the drafted range is after its end.
    pub date_invalid: bool,
    pub applied_from: Option<Date>,
    pub applied_to: Option<Date>,
    pub date_filter_open: bool,
}

/// A drafted range is invalid when its start is after its end.
pub open spec fn draft_invalid(from: Option<Date>, to: Option<Date>) -> bool {
    match (from, to) {
        (Some(a), Some(b)) => date_lt(b, a),
        _ => false,
    }
}

/// A drafted range is refused exactly when its start comes after its end in
/// the calendar: a single day is accepted, a missing end is accepted, of two
/// different dates exactly one order is accepted, and a start in an earlier
/// year, an earlier month of the same year, or an earlier day of the same
/// month is accepted.
pub proof fn lemma_draft_order(a: Date, b: Date)
    ensures
        !draft_invalid(Some(a), Some(a)),
        !draft_invalid(Some(a), None) && !draft_invalid(None, Some(b)) && !draft_invalid(None, None),
        a != b ==> draft_invalid(Some(a), Some(b)) != draft_invalid(Some(b), Some(a)),
        a.year < b.year ==> !draft_invalid(Some(a), Some(b)),
        a.year == b.year && a.month < b.month ==> !draft_invalid(Some(a), Some(b)),
        a.year == b.year && a.month == b.month && a.day < b.day ==> !draft_invalid(Some(a), Some(b)),
{
}

impl GalleryFilterState {
    /// No filter applied, all media, the panel closed.
    pub fn new(from_picker: DatePicker, to_picker: DatePicker) -> (r: Self)
        ensures
            r.active_filter == MediaFilter::All,
            r.from_picker == from_picker,
            r.to_picker == to_picker,
            !r.date_invalid,
            r.applied_from is None,
            r.applied_to is None,
            !r.date_filter_open,
    {
        GalleryFilterState {
            active_filter: MediaFilter::All,
            from_picker,
            to_picker,
            date_invalid: false,
            applied_from: None,
            applied_to: None,
            date_filter_open: false,
        }
    }

    pub fn has_date_filter(&self) -> (r: bool)
        ensures
            r == (self.applied_from is Some || self.applied_to is Some),
    {
        self.applied_from.is_some() || self.applied_to.is_some()
    }

    /// Records whether the drafted range is valid, and returns it.
    pub fn validate_dates(&mut self) -> (r: bool)
        ensures
            r == !draft_invalid(old(self).from_picker.selected, old(self).to_picker.selected),
            old(self).from_picker.selected is Some && old(self).from_picker.selected == old(self).to_picker.selected ==> r,
            final(self).date_invalid == !r,
            *final(self) == (GalleryFilterState { date_invalid: final(self).date_invalid, ..*old(self) }),
    {
        proof {
            let from = self.from_picker.selected;
            if from is Some {
                lemma_draft_order(from->0, from->0);
            }
        }
        let invalid = match (self.from_picker.selected(), self.to_picker.selected()) {
            (Some(start), Some(end)) => date_lt_exec(end, start),
            _ => false,
        };
        self.date_invalid = invalid;
        !invalid
    }

    /// Applies the drafted range: nothing happens when it is invalid or
    /// empty; else it becomes the applied range, the panel closes, and the
    /// bounds to query are returned.
    pub fn apply_date_filter(&mut self) -> (r: Option<(Option<u32>, Option<u32>)>)
        requires
            opt_valid(old(self).from_picker.selected),
            opt_valid(old(self).to_picker.selected),
        ensures
            ({
                let from = old(self).from_picker.selected;
                let to = old(self).to_picker.selected;
                let invalid = draft_invalid(from, to);
                if invalid || (from is None && to is None) {
                    r is None && *final(self) == (GalleryFilterState { date_invalid: invalid, ..*old(self) })
                } else {
                    r == Some(timestamps_spec(from, to)) && *final(self) == (GalleryFilterState {
                        date_invalid: false,
                        applied_from: from,
                        applied_to: to,
                        date_filter_open: false,
                        ..*old(self)
                    })
                }
            }),
            old(self).from_picker.selected is Some && old(self).from_picker.selected == old(self).to_picker.selected ==> {
                let d = old(self).from_picker.selected->0;
                &&& !final(self).date_invalid
                &&& r == Some((Some(as_u32_or_zero(utc_second(d, 0, 0, 0))), Some(as_u32_or_zero(utc_second(d, 23, 59, 59)))))
            },
    {
        proof {
            let from = old(self).from_picker.selected;
            if from is Some {
                lemma_draft_order(from->0, from->0);
            }
        }
        if !self.validate_dates() {
            return None;
        }
        let from = self.from_picker.selected();
        let to = self.to_picker.selected();
        if from.is_none() && to.is_none() {
            return None;
        }
        let bounds = calculate_timestamps(from, to);
        self.applied_from = from;
        self.applied_to = to;
        self.date_filter_open = false;
        Some(bounds)
    }

    /// Drops the applied range and resets both pickers: empty, closed, the
    /// start picker bounded below by the earliest gallery date.
    pub fn clear_date_filter(&mut self)
        ensures
            final(self).applied_from is None,
            final(self).applied_to is None,
            !final(self).date_invalid,
            final(self).active_filter == old(self).active_filter,
            final(self).date_filter_open == old(self).date_filter_open,
            final(self).from_picker.selected is None,
            final(self).from_picker.min_date == Some(gallery_min_date()),
            final(self).from_picker.max_date is None,
            !final(self).from_picker.open,
            final(self).to_picker.selected is None,
            final(self).to_picker.min_date is None,
            final(self).to_picker.max_date is None,
            !final(self).to_picker.open,
    {
        self.applied_from = None;
        self.applied_to = None;
        self.date_invalid = false;
        self.from_picker.set_selected_silent(None);
        self.from_picker.set_min(Some(Date { year: MIN_GALLERY_YEAR, month: MIN_GALLERY_MONTH, day: MIN_GALLERY_DAY }));
        self.from_picker.set_max(None);
        self.from_picker.close();
        self.to_picker.set_selected_silent(None);
        self.to_picker.set_min(None);
        self.to_picker.set_max(None);
        self.to_picker.close();
    }

    /// Opens or closes the date panel; opening loads the applied range into
    /// the pickers, each bounded by the other's date, and clears the error.
    pub fn toggle_date_filter(&mut self, locale: String)
        ensures
            final(self).date_filter_open == !old(self).date_filter_open,
            final(self).active_filter == old(self).active_filter,
            final(self).applied_from == old(self).applied_from,
            final(self).applied_to == old(self).applied_to,
            !old(self).date_filter_open ==> {
                &&& !final(self).date_invalid
                &&& final(self).from_picker.selected == old(self).applied_from
                &&& final(self).from_picker.min_date == Some(gallery_min_date())
                &&& final(self).from_picker.max_date == old(self).applied_to
                &&& !final(self).from_picker.open
                &&& final(self).from_picker.locale@ == locale@
                &&& final(self).to_picker.selected == old(self).applied_to
                &&& final(self).to_picker.min_date == old(self).applied_from
                &&& final(self).to_picker.max_date is None
                &&& !final(self).to_picker.open
                &&& final(self).to_picker.locale@ == locale@
            },
            old(self).date_filter_open ==> *final(self) == (GalleryFilterState { date_filter_open: false, ..*old(self) }),
    {
        self.date_filter_open = !self.date_filter_open;
        if self.date_filter_open {
            let from = self.applied_from;
            let to = self.applied_to;
            self.from_picker.set_locale(locale.clone());
            self.from_picker.set_selected_silent(from);
            self.from_picker.set_min(Some(Date { year: MIN_GALLERY_YEAR, month: MIN_GALLERY_MONTH, day: MIN_GALLERY_DAY }));
            self.from_picker.set_max(to);
            self.from_picker.close();
            self.to_picker.set_locale(locale);
            self.to_picker.set_selected_silent(to);
            self.to_picker.set_min(from);
            self.to_picker.set_max(None);
            self.to_picker.close();
            self.date_invalid = false;
        }
    }

    pub fn close_date_filter_panel(&mut self)
        ensures
            *final(self) == (GalleryFilterState { date_filter_open: false, ..*old(self) }),
    {
        self.date_filter_open = false;
    }

    pub fn close_calendar_pickers(&mut self)
        ensures
            !final(self).from_picker.open,
            !final(self).to_picker.open,
            final(self).from_picker.selected == old(self).from_picker.selected,
            final(self).to_picker.selected == old(self).to_picker.selected,
            final(self).applied_from == old(self).applied_from,
            final(self).applied_to == old(self).applied_to,
            final(self).date_filter_open == old(self).date_filter_open,
    {
        self.from_picker.close();
        self.to_picker.close();
    }

    pub fn any_calendar_open(&self) -> (r: bool)
        ensures
            r == (self.from_picker.open || self.to_picker.open),
    {
        self.from_picker.is_open() || self.to_picker.is_open()
    }

    /// Switches the media filter, closing the date panel; returns whether
    /// the rows must be rebuilt (the filter changed).
    pub fn set_filter(&mut self, filter: MediaFilter) -> (r: bool)
        ensures
            r == (old(self).active_filter != filter),
            *final(self) == (GalleryFilterState { active_filter: filter, date_filter_open: false, ..*old(self) }),
    {
        self.close_date_filter_panel();
        if self.active_filter == filter {
            false
        } else {
            self.active_filter = filter;
            true
        }
    }

    /// Reaction to the start picker: opening it closes the end picker; a
    /// new start date bounds the end picker below and is validated.
    pub fn on_from_picker_event(&mut self, event: DatePickerEvent)
        ensures
            match event {
                DatePickerEvent::Opened => *final(self) == (GalleryFilterState {
                    to_picker: if old(self).to_picker.open {
                        DatePicker { open: false, view_mode: crate::date_picker::CalendarView::Days, ..old(self).to_picker }
                    } else {
                        old(self).to_picker
                    },
                    ..*old(self)
                }),
                DatePickerEvent::Change(from) => final(self).to_picker.min_date == from
                    && final(self).date_invalid == draft_invalid(old(self).from_picker.selected, old(self).to_picker.selected)
                    && final(self).from_picker == old(self).from_picker
                    && final(self).applied_from == old(self).applied_from
                    && final(self).applied_to == old(self).applied_to,
            },
    {
        match event {
            DatePickerEvent::Opened => self.to_picker.close(),
            DatePickerEvent::Change(from) => {
                self.to_picker.set_min(from);
                self.validate_dates();
            },
        }
    }

    /// Reaction to the end picker: opening it closes the start picker; a
    /// new end date bounds the start picker above and is validated.
    pub fn on_to_picker_event(&mut self, event: DatePickerEvent)
        ensures
            match event {
                DatePickerEvent::Opened => *final(self) == (GalleryFilterState {
                    from_picker: if old(self).from_picker.open {
                        DatePicker { open: false, view_mode: crate::date_picker::CalendarView::Days, ..old(self).from_picker }
                    } else {
                        old(self).from_picker
                    },
                    ..*old(self)
                }),
                DatePickerEvent::Change(to) => final(self).from_picker.max_date == to
                    && final(self).date_invalid == draft_invalid(old(self).from_picker.selected, old(self).to_picker.selected)
                    && final(self).to_picker == old(self).to_picker
                    && final(self).applied_from == old(self).applied_from
                    && final(self).applied_to == old(self).applied_to,
            },
    {
        match event {
            DatePickerEvent::Opened => self.from_picker.close(),
            DatePickerEvent::Change(to) => {
                self.from_picker.set_max(to);
                self.validate_dates();
            },
        }
    }
}

fn date_lt_exec(a: Date, b: Date) -> (r: bool)
    ensures
        r == date_lt(a, b),
{
    a.year < b.year || (a.year == b.year && (a.month < b.month || (a.month == b.month && a.day < b.day)))
}

/// Which sentence describes the applied range.
pub fn date_range_label(from: Option<Date>, to: Option<Date>) -> (r: DateRangeLabel)
    ensures
        r == range_label_spec(from, to),
{
    match (from, to) {
        (None, None) => DateRangeLabel::SentDate,
        (Some(a), None) => DateRangeLabel::From(a),
        (None, Some(b)) => DateRangeLabel::To(b),
        (Some(a), Some(b)) => if a == b {
            DateRangeLabel::Day(a)
        } else {
            DateRangeLabel::Range(a, b)
        },
    }
}

} // verus!
