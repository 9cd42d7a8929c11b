use vstd::prelude::*;

use super::items::{PaletteItem, PaletteItemKind};
use crate::records::{ChannelId, ChannelType, ClanId, DirectKind};

verus! {

/// Rows shown per group when the palette is browsed without a query.
pub const GROUP_ITEM_LIMIT: usize = 5;
/// Raw channel type of a group conversation.
pub const DM_GROUP_CHANNEL_TYPE: u32 = 2;
/// Raw channel type of a one-to-one conversation.
pub const DM_PEER_CHANNEL_TYPE: u32 = 3;

/// A displayed palette row: a section header, or an item by its index.
#[derive(Debug, Clone, PartialEq, Eq)]
pub enum PaletteDisplayRow {
    SectionHeader(String),
    Item { item_index: usize },
}

/// Titles of the browse sections.
pub struct PaletteSectionLabels {
    pub previous: String,
    pub mentions: String,
    pub unread: String,
}

/// Where the palette was opened from, which scopes the browse sections.
#[derive(Debug, Clone, Copy, PartialEq, Eq, Structural)]
pub enum PaletteBrowseContext {
    Direct,
    Clan(ClanId),
}

/// A direct conversation as listed on the DM tab: a DM or group DM, or a
/// clan-less channel of a DM channel type.
pub open spec fn dm_tab_spec(item: PaletteItem) -> bool {
    match item.kind {
        PaletteItemKind::Direct => match item.dm_kind {
            Some(DirectKind::Dm) | Some(DirectKind::Group) | None => true,
        },
        PaletteItemKind::Channel => {
            (match item.clan_id {
                None => true,
                Some(id) => id.0 == 0,
            }) && (item.channel_type == Some(ChannelType::Unknown(DM_GROUP_CHANNEL_TYPE))
                || item.channel_type == Some(ChannelType::Unknown(DM_PEER_CHANNEL_TYPE)))
        },
        PaletteItemKind::Member => false,
    }
}

pub open spec fn in_context_spec(item: PaletteItem, context: PaletteBrowseContext) -> bool {
    match context {
        PaletteBrowseContext::Direct => dm_tab_spec(item),
        PaletteBrowseContext::Clan(clan_id) => item.kind == PaletteItemKind::Channel && item.clan_id == Some(clan_id),
    }
}

pub open spec fn text_or_thread(t: Option<ChannelType>) -> bool {
    t == Some(ChannelType::Text) || t == Some(ChannelType::Thread)
}

pub open spec fn mention_spec(item: PaletteItem) -> bool {
    item.unread_count > 0 && text_or_thread(item.channel_type)
}

pub open spec fn unread_list_spec(item: PaletteItem, context: PaletteBrowseContext) -> bool {
    item.unread_spec() && match context {
        PaletteBrowseContext::Direct => dm_tab_spec(item),
        PaletteBrowseContext::Clan(_) => item.kind == PaletteItemKind::Channel && text_or_thread(item.channel_type),
    }
}

pub fn is_dm_tab_conversation(item: &PaletteItem) -> (r: bool)
    ensures
        r == dm_tab_spec(*item),
{
    match item.kind {
        PaletteItemKind::Direct => true,
        PaletteItemKind::Channel => {
            let clanless = match item.clan_id {
                None => true,
                Some(id) => id.is_zero(),
            };
            clanless && match item.channel_type {
                Some(ChannelType::Unknown(t)) => t == DM_GROUP_CHANNEL_TYPE || t == DM_PEER_CHANNEL_TYPE,
                _ => false,
            }
        },
        PaletteItemKind::Member => false,
    }
}

pub fn item_matches_browse_context(item: &PaletteItem, context: PaletteBrowseContext) -> (r: bool)
    ensures
        r == in_context_spec(*item, context),
        context matches PaletteBrowseContext::Clan(c) ==> (r <==> (item.kind == PaletteItemKind::Channel
            && item.clan_id == Some(c))),
{
    match context {
        PaletteBrowseContext::Direct => is_dm_tab_conversation(item),
        PaletteBrowseContext::Clan(clan_id) => item.kind == PaletteItemKind::Channel && match item.clan_id {
            Some(id) => id.0 == clan_id.0,
            None => false,
        },
    }
}

fn is_text_or_thread(t: Option<ChannelType>) -> (r: bool)
    ensures
        r == text_or_thread(t),
{
    match t {
        Some(ChannelType::Text) | Some(ChannelType::Thread) => true,
        _ => false,
    }
}

pub fn is_mention_item(item: &PaletteItem, _context: PaletteBrowseContext) -> (r: bool)
    ensures
        r == mention_spec(*item),
{
    item.unread_count > 0 && is_text_or_thread(item.channel_type)
}

pub fn is_unread_list_item(item: &PaletteItem, context: PaletteBrowseContext) -> (r: bool)
    ensures
        r == unread_list_spec(*item, context),
{
    if !item.is_unread() {
        return false;
    }
    match context {
        PaletteBrowseContext::Direct => is_dm_tab_conversation(item),
        PaletteBrowseContext::Clan(_) => item.kind == PaletteItemKind::Channel && is_text_or_thread(item.channel_type),
    }
}

/// Whether `ix` is a row whose item is the channel `id`.
pub open spec fn row_is_channel(items: Seq<PaletteItem>, ix: usize, id: ChannelId) -> bool {
    ix < items.len() && items[ix as int].channel_id == Some(id)
}

/// First position in `rem` whose item is the channel `id`.
pub open spec fn first_channel_pos(items: Seq<PaletteItem>, rem: Seq<usize>, id: ChannelId, k: int) -> Option<int>
    decreases rem.len() - k,
{
    if k < 0 || k >= rem.len() {
        None
    } else if row_is_channel(items, rem[k], id) {
        Some(k)
    } else {
        first_channel_pos(items, rem, id, k + 1)
    }
}

proof fn lemma_first_channel_pos_bounds(items: Seq<PaletteItem>, rem: Seq<usize>, id: ChannelId, k: int)
    requires
        0 <= k,
    ensures
        match first_channel_pos(items, rem, id, k) {
            Some(p) => k <= p < rem.len() && row_is_channel(items, rem[p], id),
            None => true,
        },
    decreases rem.len() - k,
{
    if k < rem.len() && !row_is_channel(items, rem[k], id) {
        lemma_first_channel_pos_bounds(items, rem, id, k + 1);
    }
}

/// Take the rows of the previously visited channels out of the remaining
/// rows, in visit order: each channel takes its first remaining row, if any.
/// Result: (taken rows, rows left).
pub open spec fn pull_recent(items: Seq<PaletteItem>, rem: Seq<usize>, ids: Seq<ChannelId>) -> (Seq<usize>, Seq<usize>)
    decreases ids.len(),
{
    if ids.len() == 0 {
        (Seq::empty(), rem)
    } else {
        let (taken, left) = pull_recent(items, rem, ids.drop_last());
        match first_channel_pos(items, left, ids.last(), 0) {
            Some(p) => (taken.push(left[p]), left.remove(p)),
            None => (taken, left),
        }
    }
}

/// A row of the remaining rows that belongs to the mentions section.
pub open spec fn mention_row(items: Seq<PaletteItem>, context: Option<PaletteBrowseContext>, ix: usize) -> bool {
    match context {
        None => false,
        Some(c) => ix < items.len() && in_context_spec(items[ix as int], c) && mention_spec(items[ix as int]),
    }
}

/// A row of the remaining rows that belongs to the unread section.
pub open spec fn unread_row(items: Seq<PaletteItem>, context: Option<PaletteBrowseContext>, ix: usize) -> bool {
    match context {
        None => false,
        Some(c) => ix < items.len() && in_context_spec(items[ix as int], c) && !mention_spec(items[ix as int])
            && unread_list_spec(items[ix as int], c),
    }
}

/// What a display row shows.
pub ghost enum RowView {
    Header(Seq<char>),
    Item(usize),
}

pub open spec fn row_view(row: PaletteDisplayRow) -> RowView {
    match row {
        PaletteDisplayRow::SectionHeader(label) => RowView::Header(label@),
        PaletteDisplayRow::Item { item_index } => RowView::Item(item_index),
    }
}

pub open spec fn item_rows(ixs: Seq<usize>) -> Seq<RowView> {
    ixs.map_values(|i: usize| RowView::Item(i))
}

/// A section: nothing when it has no rows, else its header and at most
/// `limit` of its rows.
pub open spec fn section(label: Seq<char>, ixs: Seq<usize>, limit: nat) -> Seq<RowView> {
    if ixs.len() == 0 {
        Seq::empty()
    } else {
        seq![RowView::Header(label)] + item_rows(if ixs.len() <= limit { ixs } else { ixs.take(limit as int) })
    }
}

/// The rows of the palette browsed without a query: previously visited
/// channels (all of them), then mentions and unread conversations of the
/// browse context among the other rows, at most [`GROUP_ITEM_LIMIT`] each.
pub open spec fn grouped_rows_spec(
    items: Seq<PaletteItem>,
    sorted: Seq<usize>,
    previous: Seq<ChannelId>,
    context: Option<PaletteBrowseContext>,
    labels: PaletteSectionLabels,
) -> Seq<RowView> {
    let (recent, left) = pull_recent(items, sorted, previous);
    section(labels.previous@, recent, recent.len())
        + section(labels.mentions@, left.filter(|ix: usize| mention_row(items, context, ix)), GROUP_ITEM_LIMIT as nat)
        + section(labels.unread@, left.filter(|ix: usize| unread_row(items, context, ix)), GROUP_ITEM_LIMIT as nat)
}

/// Rows of the palette: grouped sections without a query, else one row per
/// filtered item in order.
pub open spec fn display_rows_spec(
    items: Seq<PaletteItem>,
    filtered: Seq<usize>,
    query: Seq<char>,
    previous: Seq<ChannelId>,
    context: Option<PaletteBrowseContext>,
    labels: PaletteSectionLabels,
) -> Seq<RowView> {
    if query.len() == 0 {
        grouped_rows_spec(items, filtered, previous, context, labels)
    } else {
        item_rows(filtered)
    }
}

/// `ix` is the row of one of the channels `ids`.
pub open spec fn is_previous_row(items: Seq<PaletteItem>, ids: Seq<ChannelId>, ix: usize) -> bool {
    exists|j: int| 0 <= j < ids.len() && #[trigger] row_is_channel(items, ix, ids[j])
}

/// Every row taken for the previously visited channels is the row of one
/// of them.
proof fn lemma_pull_recent_taken(items: Seq<PaletteItem>, rem: Seq<usize>, ids: Seq<ChannelId>)
    ensures
        forall|k: int| 0 <= k < pull_recent(items, rem, ids).0.len()
            ==> is_previous_row(items, ids, #[trigger] pull_recent(items, rem, ids).0[k]),
    decreases ids.len(),
{
    if ids.len() > 0 {
        let rest = ids.drop_last();
        lemma_pull_recent_taken(items, rem, rest);
        let (taken, left) = pull_recent(items, rem, rest);
        lemma_first_channel_pos_bounds(items, left, ids.last(), 0);
        let t = pull_recent(items, rem, ids).0;
        assert forall|k: int| 0 <= k < t.len() implies is_previous_row(items, ids, #[trigger] t[k]) by {
            if k < taken.len() {
                assert(t[k] == taken[k]);
                assert(is_previous_row(items, rest, taken[k]));
                let j = choose|j: int| 0 <= j < rest.len() && #[trigger] row_is_channel(items, taken[k], rest[j]);
                assert(ids[j] == rest[j]);
                assert(row_is_channel(items, t[k], ids[j]));
            } else {
                assert(row_is_channel(items, t[k], ids[ids.len() - 1]));
            }
        }
    }
}

/// The item rows of a section come from its rows.
proof fn lemma_section_rows(label: Seq<char>, ixs: Seq<usize>, limit: nat, ok: spec_fn(usize) -> bool)
    requires
        forall|i: int| 0 <= i < ixs.len() ==> ok(#[trigger] ixs[i]),
    ensures
        forall|k: int| 0 <= k < section(label, ixs, limit).len() ==> ((#[trigger] section(label, ixs, limit)[k]) matches RowView::Item(ix) ==> ok(ix)),
{
    if ixs.len() > 0 {
        let kept = if ixs.len() <= limit { ixs } else { ixs.take(limit as int) };
        let sec = section(label, ixs, limit);
        assert forall|k: int| 0 <= k < sec.len() implies ((#[trigger] sec[k]) matches RowView::Item(ix) ==> ok(ix)) by {
            if k > 0 {
                assert(sec[k] == item_rows(kept)[k - 1]);
                assert(kept[k - 1] == ixs[k - 1]);
            }
        }
    }
}

/// A row a clan browse may list: the row of a previously visited channel,
/// or a channel of that clan.
pub open spec fn clan_browse_row(items: Seq<PaletteItem>, previous: Seq<ChannelId>, clan: ClanId, ix: usize) -> bool {
    ix < items.len() && (
        (exists|j: int| 0 <= j < previous.len() && items[ix as int].channel_id == Some(#[trigger] previous[j]))
        || (items[ix as int].kind == PaletteItemKind::Channel && items[ix as int].clan_id == Some(clan)))
}

/// Browsing a clan without a query lists, besides the channels visited
/// before, only channels of that clan: every item row of its mentions and
/// unread sections is a channel whose clan is the browsed one.
pub proof fn lemma_clan_sections_stay_in_clan(
    items: Seq<PaletteItem>,
    sorted: Seq<usize>,
    previous: Seq<ChannelId>,
    clan: ClanId,
    labels: PaletteSectionLabels,
)
    ensures
        ({
            let rows = grouped_rows_spec(items, sorted, previous, Some(PaletteBrowseContext::Clan(clan)), labels);
            forall|k: int| 0 <= k < rows.len() ==> ((#[trigger] rows[k]) matches RowView::Item(ix) ==> clan_browse_row(items, previous, clan, ix))
        }),
{
    let context = Some(PaletteBrowseContext::Clan(clan));
    let (recent, left) = pull_recent(items, sorted, previous);
    let ok = |ix: usize| clan_browse_row(items, previous, clan, ix);
    lemma_pull_recent_taken(items, sorted, previous);
    assert forall|i: int| 0 <= i < recent.len() implies ok(#[trigger] recent[i]) by {
        assert(is_previous_row(items, previous, recent[i]));
        let j = choose|j: int| 0 <= j < previous.len() && #[trigger] row_is_channel(items, recent[i], previous[j]);
        assert(items[recent[i] as int].channel_id == Some(previous[j]));
    }
    let mp = |ix: usize| mention_row(items, context, ix);
    let up = |ix: usize| unread_row(items, context, ix);
    let m = left.filter(mp);
    let u = left.filter(up);
    left.filter_lemma(mp);
    left.filter_lemma(up);
    assert forall|i: int| 0 <= i < m.len() implies ok(#[trigger] m[i]) by {
        assert(mp(m[i]));
    }
    assert forall|i: int| 0 <= i < u.len() implies ok(#[trigger] u[i]) by {
        assert(up(u[i]));
    }
    let s1 = section(labels.previous@, recent, recent.len());
    let s2 = section(labels.mentions@, m, GROUP_ITEM_LIMIT as nat);
    let s3 = section(labels.unread@, u, GROUP_ITEM_LIMIT as nat);
    lemma_section_rows(labels.previous@, recent, recent.len(), ok);
    lemma_section_rows(labels.mentions@, m, GROUP_ITEM_LIMIT as nat, ok);
    lemma_section_rows(labels.unread@, u, GROUP_ITEM_LIMIT as nat, ok);
    let rows = s1 + s2 + s3;
    assert(rows == grouped_rows_spec(items, sorted, previous, context, labels));
    assert forall|k: int| 0 <= k < rows.len() implies ((#[trigger] rows[k]) matches RowView::Item(ix) ==> ok(ix)) by {
        if k < s1.len() {
            assert(rows[k] == s1[k]);
        } else if k < s1.len() + s2.len() {
            assert(rows[k] == s2[k - s1.len()]);
        } else {
            assert(rows[k] == s3[k - s1.len() - s2.len()]);
        }
    }
}

/// First position in `rem` whose row is the channel `id`.
fn channel_position(items: &[PaletteItem], rem: &Vec<usize>, id: ChannelId) -> (r: Option<usize>)
    ensures
        match first_channel_pos(items@, rem@, id, 0) {
            Some(p) => r == Some(p as usize),
            None => r is None,
        },
{
    let mut k: usize = 0;
    while k < rem.len()
        invariant
            k <= rem@.len(),
            first_channel_pos(items@, rem@, id, 0) == first_channel_pos(items@, rem@, id, k as int),
        decreases rem@.len() - k,
    {
        let ix = rem[k];
        if ix < items.len() {
            let hit = match items[ix].channel_id {
                Some(c) => c.0 == id.0,
                None => false,
            };
            if hit {
                return Some(k);
            }
        }
        k = k + 1;
    }
    None
}

/// Appends one item row per index.
fn push_items(rows: &mut Vec<PaletteDisplayRow>, ixs: &Vec<usize>, limit: usize)
    ensures
        final(rows)@.map_values(|r: PaletteDisplayRow| row_view(r)) == old(rows)@.map_values(
            |r: PaletteDisplayRow| row_view(r),
        ) + item_rows(if ixs@.len() <= limit { ixs@ } else { ixs@.take(limit as int) }),
{
    let n = if ixs.len() <= limit { ixs.len() } else { limit };
    let ghost base = rows@.map_values(|r: PaletteDisplayRow| row_view(r));
    let ghost shown = if ixs@.len() <= limit { ixs@ } else { ixs@.take(limit as int) };
    assert(shown.len() == n);
    let mut i: usize = 0;
    while i < n
        invariant
            i <= n,
            n == shown.len(),
            n <= ixs@.len(),
            forall|j: int| 0 <= j < n ==> shown[j] == ixs@[j],
            rows@.map_values(|r: PaletteDisplayRow| row_view(r)) == base + item_rows(shown.take(i as int)),
        decreases n - i,
    {
        let ghost before = rows@;
        rows.push(PaletteDisplayRow::Item { item_index: ixs[i] });
        proof {
            assert(item_rows(shown.take(i + 1)) =~= item_rows(shown.take(i as int)).push(RowView::Item(ixs@[i as int])));
            assert(rows@.map_values(|r: PaletteDisplayRow| row_view(r)) =~= before.map_values(
                |r: PaletteDisplayRow| row_view(r),
            ).push(RowView::Item(ixs@[i as int])));
        }
        i = i + 1;
    }
    assert(shown.take(n as int) =~= shown);
}

fn build_grouped_rows(
    items: &[PaletteItem],
    sorted_indices: &[usize],
    previous_channel_ids: &[ChannelId],
    browse_context: Option<PaletteBrowseContext>,
    labels: &PaletteSectionLabels,
) -> (rows: Vec<PaletteDisplayRow>)
    ensures
        rows@.map_values(|r: PaletteDisplayRow| row_view(r)) == grouped_rows_spec(
            items@,
            sorted_indices@,
            previous_channel_ids@,
            browse_context,
            *labels,
        ),
{
    let mut remaining: Vec<usize> = Vec::new();
    let mut i: usize = 0;
    while i < sorted_indices.len()
        invariant
            i <= sorted_indices@.len(),
            remaining@ == sorted_indices@.take(i as int),
        decreases sorted_indices@.len() - i,
    {
        remaining.push(sorted_indices[i]);
        proof { assert(sorted_indices@.take(i + 1) =~= sorted_indices@.take(i as int).push(sorted_indices@[i as int])); }
        i = i + 1;
    }
    assert(sorted_indices@.take(sorted_indices@.len() as int) =~= sorted_indices@);
    let mut recent: Vec<usize> = Vec::new();
    let mut j: usize = 0;
    while j < previous_channel_ids.len()
        invariant
            j <= previous_channel_ids@.len(),
            (recent@, remaining@) == pull_recent(items@, sorted_indices@, previous_channel_ids@.take(j as int)),
        decreases previous_channel_ids@.len() - j,
    {
        let id = previous_channel_ids[j];
        let ghost ids = previous_channel_ids@.take(j + 1);
        let ghost prev_recent = recent@;
        let ghost prev_left = remaining@;
        proof {
            assert(ids.drop_last() =~= previous_channel_ids@.take(j as int));
            assert(ids.last() == id);
            lemma_first_channel_pos_bounds(items@, remaining@, id, 0);
            assert(pull_recent(items@, sorted_indices@, ids) == (match first_channel_pos(items@, prev_left, id, 0) {
                Some(p) => (prev_recent.push(prev_left[p]), prev_left.remove(p)),
                None => (prev_recent, prev_left),
            }));
        }
        let len_before = remaining.len();
        let found = channel_position(items, &remaining, id);
        assert(prev_left.len() == len_before);
        match found {
            Some(pos) => {
                let ix = remaining.remove(pos);
                recent.push(ix);
                proof {
                    match first_channel_pos(items@, prev_left, id, 0) {
                        Some(p) => {
                            assert(p == pos as int);
                            assert(recent@ =~= prev_recent.push(prev_left[p]));
                            assert(remaining@ =~= prev_left.remove(p));
                        },
                        None => {
                            assert(found is None);
                        },
                    }
                }
            },
            None => {
                assert(first_channel_pos(items@, prev_left, id, 0) is None);
                assert(recent@ =~= prev_recent);
                assert(remaining@ =~= prev_left);
            },
        }
        assert((recent@, remaining@) == pull_recent(items@, sorted_indices@, ids));
        j = j + 1;
    }
    assert(previous_channel_ids@.take(previous_channel_ids@.len() as int) =~= previous_channel_ids@);
    let ghost left = remaining@;
    let mut mentions: Vec<usize> = Vec::new();
    let mut unread: Vec<usize> = Vec::new();
    let mut k: usize = 0;
    while k < remaining.len()
        invariant
            k <= remaining@.len(),
            remaining@ == left,
            mentions@ == left.take(k as int).filter(|ix: usize| mention_row(items@, browse_context, ix)),
            unread@ == left.take(k as int).filter(|ix: usize| unread_row(items@, browse_context, ix)),
        decreases remaining@.len() - k,
    {
        let item_index = remaining[k];
        proof {
            assert(left.take(k + 1).drop_last() =~= left.take(k as int));
            reveal(Seq::filter);
        }
        if item_index < items.len() {
            match browse_context {
                Some(context) => {
                    let item = &items[item_index];
                    if item_matches_browse_context(item, context) {
                        if is_mention_item(item, context) {
                            mentions.push(item_index);
                        } else if is_unread_list_item(item, context) {
                            unread.push(item_index);
                        }
                    }
                },
                None => {},
            }
        }
        k = k + 1;
    }
    assert(left.take(left.len() as int) =~= left);
    let mut rows: Vec<PaletteDisplayRow> = Vec::new();
    let ghost empty_view = rows@.map_values(|r: PaletteDisplayRow| row_view(r));
    assert(empty_view =~= Seq::<RowView>::empty());
    if recent.len() > 0 {
        rows.push(PaletteDisplayRow::SectionHeader(labels.previous.clone()));
        let n = recent.len();
        push_items(&mut rows, &recent, n);
    }
    let ghost after_recent = rows@.map_values(|r: PaletteDisplayRow| row_view(r));
    assert(after_recent =~= section(labels.previous@, recent@, recent@.len()));
    if mentions.len() > 0 {
        rows.push(PaletteDisplayRow::SectionHeader(labels.mentions.clone()));
        push_items(&mut rows, &mentions, GROUP_ITEM_LIMIT);
    }
    let ghost after_mentions = rows@.map_values(|r: PaletteDisplayRow| row_view(r));
    assert(after_mentions =~= after_recent + section(labels.mentions@, mentions@, GROUP_ITEM_LIMIT as nat));
    if unread.len() > 0 {
        rows.push(PaletteDisplayRow::SectionHeader(labels.unread.clone()));
        push_items(&mut rows, &unread, GROUP_ITEM_LIMIT);
    }
    assert(rows@.map_values(|r: PaletteDisplayRow| row_view(r)) =~= after_mentions + section(labels.unread@, unread@, GROUP_ITEM_LIMIT as nat));
    rows
}

/// Rows of the palette: without a query, the grouped sections (previously
/// visited channels, then mentions and unread conversations of the browse
/// context); with one, a row per filtered item in order.
pub fn build_display_rows(
    items: &[PaletteItem],
    filtered_indices: &[usize],
    raw_query: &str,
    previous_channel_ids: &[ChannelId],
    browse_context: Option<PaletteBrowseContext>,
    labels: &PaletteSectionLabels,
) -> (rows: Vec<PaletteDisplayRow>)
    ensures
        rows@.map_values(|r: PaletteDisplayRow| row_view(r)) == display_rows_spec(
            items@,
            filtered_indices@,
            raw_query@,
            previous_channel_ids@,
            browse_context,
            *labels,
        ),
        raw_query@.len() == 0 ==> (browse_context matches Some(PaletteBrowseContext::Clan(clan)) ==> forall|k: int|
            0 <= k < rows@.len() ==> ((#[trigger] rows@[k]) matches PaletteDisplayRow::Item { item_index }
                ==> clan_browse_row(items@, previous_channel_ids@, clan, item_index))),
{
    proof {
        if let Some(PaletteBrowseContext::Clan(clan)) = browse_context {
            lemma_clan_sections_stay_in_clan(items@, filtered_indices@, previous_channel_ids@, clan, *labels);
        }
    }
    if raw_query.is_empty() {
        let rows = build_grouped_rows(items, filtered_indices, previous_channel_ids, browse_context, labels);
        proof {
            if let Some(PaletteBrowseContext::Clan(clan)) = browse_context {
                let g = grouped_rows_spec(items@, filtered_indices@, previous_channel_ids@, browse_context, *labels);
                assert(rows@.map_values(|r: PaletteDisplayRow| row_view(r)) == g);
                assert forall|k: int| 0 <= k < rows@.len() implies ((#[trigger] rows@[k]) matches PaletteDisplayRow::Item { item_index }
                    ==> clan_browse_row(items@, previous_channel_ids@, clan, item_index)) by {
                    assert(g[k] == row_view(rows@[k]));
                }
            }
        }
        rows
    } else {
        let mut rows: Vec<PaletteDisplayRow> = Vec::new();
        let n = filtered_indices.len();
        let mut i: usize = 0;
        while i < n
            invariant
                i <= n,
                n == filtered_indices@.len(),
                rows@.map_values(|r: PaletteDisplayRow| row_view(r)) == item_rows(filtered_indices@.take(i as int)),
            decreases n - i,
        {
            rows.push(PaletteDisplayRow::Item { item_index: filtered_indices[i] });
            proof {
                assert(item_rows(filtered_indices@.take(i + 1)) =~= item_rows(filtered_indices@.take(i as int)).push(
                    RowView::Item(filtered_indices@[i as int]),
                ));
                assert(rows@.map_values(|r: PaletteDisplayRow| row_view(r)) =~= item_rows(filtered_indices@.take(i as int)).push(
                    RowView::Item(filtered_indices@[i as int]),
                ));
            }
            i = i + 1;
        }
        assert(filtered_indices@.take(n as int) =~= filtered_indices@);
        rows
    }
}

} // verus!
