use mezon_ui::command_palette::modal::{may_toggle, toggle, PaletteToggle};
use mezon_ui::command_palette::filter::{cmp_items, filter_and_sort_indices};
use mezon_ui::command_palette::groups::{
    build_display_rows, PaletteBrowseContext, PaletteDisplayRow, PaletteSectionLabels,
};
use mezon_ui::command_palette::items::{
    badge_label, build_palette_items, dm_username_subtext, highlight_query, highlight_split, member_label, normalize_search_string,
    normalize_string, palette_channel_subtext, palette_item_kind_id, palette_row_model, ChannelRecord,
    DirectChannelRecord, PaletteItem, PaletteItemKind, UserRecord,
};
use mezon_ui::records::{ChannelId, ChannelType, ClanId, DirectKind, UserId};

fn item(
    kind: PaletteItemKind,
    label: &str,
    name: &str,
    display: &str,
    blob: &str,
    last_sent_timestamp: i64,
) -> PaletteItem {
    PaletteItem {
        kind,
        label: label.to_string(),
        subtext: String::new(),
        avatar: String::new(),
        unread_count: 0,
        last_sent_timestamp,
        last_seen_timestamp: 0,
        channel_id: None,
        clan_id: None,
        user_id: None,
        channel_type: None,
        private: false,
        dm_kind: None,
        dm_channel_type: None,
        filter_prioritize: normalize_search_string(label),
        filter_name: normalize_search_string(name),
        filter_display: normalize_search_string(display),
        filter_blob: normalize_search_string(blob),
    }
}

#[test]
fn empty_query_returns_all_sorted_by_timestamp() {
    let items = vec![
        item(PaletteItemKind::Channel, "general", "general", "", "", 10),
        item(PaletteItemKind::Direct, "alice", "alice", "", "", 30),
    ];
    let indices = filter_and_sort_indices(&items, "");
    assert_eq!(indices, vec![1, 0]);
}

#[test]
fn at_prefix_filters_members_only() {
    let items = vec![
        item(PaletteItemKind::Channel, "general", "general", "", "", 10),
        item(PaletteItemKind::Member, "Alice", "alice", "Alice Display", "alice", 0),
    ];
    let indices = filter_and_sort_indices(&items, "@ali");
    assert_eq!(indices, vec![1]);
}

#[test]
fn hash_prefix_filters_channels_only() {
    let items = vec![
        item(PaletteItemKind::Channel, "general", "general", "", "", 10),
        item(PaletteItemKind::Direct, "general-dm", "general-dm", "", "", 20),
    ];
    let indices = filter_and_sort_indices(&items, "#gen");
    assert_eq!(indices, vec![0]);
}

#[test]
fn general_search_matches_blob_fields() {
    let items = vec![item(PaletteItemKind::Member, "Nick", "hidden-user", "", "secret-clan-nick", 0)];
    let indices = filter_and_sort_indices(&items, "secret");
    assert_eq!(indices, vec![0]);
}

#[test]
fn exact_match_sorts_before_prefix_match() {
    let items = vec![
        item(PaletteItemKind::Channel, "dev", "dev", "", "", 0),
        item(PaletteItemKind::Channel, "development", "development", "", "", 0),
    ];
    let indices = filter_and_sort_indices(&items, "dev");
    assert_eq!(indices, vec![0, 1]);
}

#[test]
fn normalize_string_strips_diacritics_and_uppercases() {
    assert_eq!(normalize_string("café"), "CAFE");
    assert_eq!(normalize_string("Hà Nội"), "HA NOI");
}

#[test]
fn normalize_search_string_replaces_separators() {
    assert_eq!(normalize_search_string("foo-bar_baz+qux"), "FOO BAR BAZ QUX");
}

#[test]
fn normalizing_the_empty_string_gives_the_empty_string() {
    assert_eq!(normalize_string(""), "");
    assert_eq!(normalize_search_string(""), "");
}

#[test]
fn equal_keys_keep_their_input_order() {
    let items = vec![
        item(PaletteItemKind::Channel, "same", "same", "", "", 5),
        item(PaletteItemKind::Channel, "same", "same", "", "", 5),
        item(PaletteItemKind::Channel, "same", "same", "", "", 5),
    ];
    assert_eq!(filter_and_sort_indices(&items, ""), vec![0, 1, 2]);
    assert_eq!(filter_and_sort_indices(&items, "same"), vec![0, 1, 2]);
}

#[test]
fn recency_ties_fall_back_to_label_order() {
    let b = item(PaletteItemKind::Channel, "beta", "beta", "", "", 5);
    let a = item(PaletteItemKind::Channel, "alpha", "alpha", "", "", 5);
    assert_eq!(cmp_items(&a, &b), std::cmp::Ordering::Less);
    assert_eq!(cmp_items(&b, &a), std::cmp::Ordering::Greater);
    let newer = item(PaletteItemKind::Channel, "zzz", "zzz", "", "", 9);
    assert_eq!(cmp_items(&newer, &a), std::cmp::Ordering::Less);
}

fn channel_item(id: i64, label: &str, channel_type: ChannelType, unread_count: u32, last_sent: i64, last_seen: i64) -> PaletteItem {
    PaletteItem {
        kind: PaletteItemKind::Channel,
        label: label.to_string(),
        subtext: String::new(),
        avatar: String::new(),
        unread_count,
        last_sent_timestamp: last_sent,
        last_seen_timestamp: last_seen,
        channel_id: Some(ChannelId(id)),
        clan_id: Some(ClanId(1)),
        user_id: None,
        channel_type: Some(channel_type),
        private: false,
        dm_kind: None,
        dm_channel_type: None,
        filter_prioritize: normalize_search_string(label),
        filter_name: normalize_search_string(label),
        filter_display: String::new(),
        filter_blob: normalize_search_string(label),
    }
}

fn labels() -> PaletteSectionLabels {
    PaletteSectionLabels { previous: "Previous".to_string(), mentions: "Mentions".to_string(), unread: "Unread".to_string() }
}

fn item_indices(rows: &[PaletteDisplayRow]) -> Vec<usize> {
    rows.iter()
        .filter_map(|row| match row {
            PaletteDisplayRow::Item { item_index } => Some(*item_index),
            _ => None,
        })
        .collect()
}

#[test]
fn grouped_view_builds_recent_mentions_and_unread_sections() {
    let items = vec![
        channel_item(1, "recent", ChannelType::Text, 0, 100, 100),
        channel_item(2, "mention", ChannelType::Text, 2, 90, 90),
        channel_item(3, "unread", ChannelType::Text, 0, 80, 10),
    ];
    let sorted = vec![0, 1, 2];
    let previous = vec![ChannelId(1)];
    let rows = build_display_rows(&items, &sorted, "", &previous, Some(PaletteBrowseContext::Clan(ClanId(1))), &labels());
    assert_eq!(rows.len(), 6);
    assert!(matches!(rows[0], PaletteDisplayRow::SectionHeader(_)));
    assert!(matches!(rows[1], PaletteDisplayRow::Item { item_index: 0 }));
    assert!(matches!(rows[3], PaletteDisplayRow::Item { item_index: 1 }));
    assert!(matches!(rows[5], PaletteDisplayRow::Item { item_index: 2 }));
}

#[test]
fn grouped_view_scopes_mentions_and_unread_to_browse_context() {
    let mut dm = channel_item(10, "dm-unread", ChannelType::Text, 0, 50, 10);
    dm.kind = PaletteItemKind::Direct;
    dm.clan_id = None;
    dm.channel_type = None;
    dm.dm_kind = Some(DirectKind::Dm);
    let items = vec![channel_item(1, "clan-mention", ChannelType::Text, 2, 90, 90), dm];
    let sorted = vec![0, 1];
    let clan_rows = build_display_rows(&items, &sorted, "", &[], Some(PaletteBrowseContext::Clan(ClanId(1))), &labels());
    assert_eq!(item_indices(&clan_rows), vec![0]);
    let dm_rows = build_display_rows(&items, &sorted, "", &[], Some(PaletteBrowseContext::Direct), &labels());
    assert_eq!(item_indices(&dm_rows), vec![1]);
}

#[test]
fn grouped_view_includes_user_channel_group_on_dm_tab() {
    let mut group = channel_item(20, "group-unread", ChannelType::Unknown(2), 1, 60, 10);
    group.clan_id = Some(ClanId(0));
    let items = vec![group];
    let rows = build_display_rows(&items, &[0], "", &[], Some(PaletteBrowseContext::Direct), &labels());
    assert_eq!(item_indices(&rows), vec![0]);
}

#[test]
fn search_query_uses_flat_rows() {
    let items = vec![channel_item(1, "general", ChannelType::Text, 0, 10, 10)];
    let filtered = vec![0];
    let rows = build_display_rows(&items, &filtered, "gen", &[], None, &labels());
    assert_eq!(rows, vec![PaletteDisplayRow::Item { item_index: 0 }]);
}

#[test]
fn sections_show_at_most_five_rows_and_skip_without_context() {
    let items: Vec<PaletteItem> = (0..8).map(|i| channel_item(i, "m", ChannelType::Text, 3, 10, 10)).collect();
    let sorted: Vec<usize> = (0..8).collect();
    let rows = build_display_rows(&items, &sorted, "", &[], Some(PaletteBrowseContext::Clan(ClanId(1))), &labels());
    assert_eq!(rows.len(), 6);
    assert_eq!(item_indices(&rows), vec![0, 1, 2, 3, 4]);
    let none = build_display_rows(&items, &sorted, "", &[], None, &labels());
    assert!(none.is_empty());
}

#[test]
fn previous_channels_come_out_in_visit_order() {
    let items: Vec<PaletteItem> = (0..3).map(|i| channel_item(i, "c", ChannelType::Voice, 0, 10, 10)).collect();
    let rows = build_display_rows(&items, &[0, 1, 2], "", &[ChannelId(2), ChannelId(0), ChannelId(9)], None, &labels());
    assert_eq!(rows[0], PaletteDisplayRow::SectionHeader("Previous".to_string()));
    assert_eq!(item_indices(&rows), vec![2, 0]);
}

fn direct(id: i64, label: &str, kind: DirectKind, peer: Option<i64>, peer_username: &str, directory: Option<&str>, last_sent: i64) -> DirectChannelRecord {
    DirectChannelRecord {
        id: ChannelId(id),
        kind,
        label: label.to_string(),
        avatar: String::new(),
        peer_user_id: peer.map(UserId),
        peer_username: peer_username.to_string(),
        directory_username: directory.map(|s| s.to_string()),
        unread_count: 0,
        last_sent_timestamp: last_sent,
        last_seen_timestamp: 0,
    }
}

fn channel(id: i64, name: &str, channel_type: ChannelType, last_sent: i64) -> ChannelRecord {
    ChannelRecord {
        id: ChannelId(id),
        clan_id: ClanId(7),
        name: name.to_string(),
        channel_type,
        private: false,
        badge_count: 0,
        last_sent_timestamp: last_sent,
        last_seen_timestamp: 0,
        parent_display_name: Some("parent".to_string()),
        clan_name: "Clan".to_string(),
        listed_clan_name: Some("Listed".to_string()),
    }
}

fn user(id: i64, username: &str, display: &str, nick: Option<&str>) -> UserRecord {
    UserRecord {
        id: UserId(id),
        username: username.to_string(),
        display_name: display.to_string(),
        avatar: String::new(),
        clan_nickname: nick.map(|s| s.to_string()),
    }
}

#[test]
fn direct_subtext_prefers_the_conversation_username() {
    assert_eq!(dm_username_subtext(&direct(1, "Bob", DirectKind::Dm, Some(5), "bob", Some("robert"), 0)), "bob");
    assert_eq!(dm_username_subtext(&direct(1, "Bob", DirectKind::Dm, Some(5), "", Some("robert"), 0)), "robert");
    assert_eq!(dm_username_subtext(&direct(1, "Bob", DirectKind::Dm, None, "", Some("robert"), 0)), "");
    assert_eq!(dm_username_subtext(&direct(1, "Team", DirectKind::Group, Some(5), "bob", None, 0)), "");
}

#[test]
fn channel_subtext_names_the_parent_of_a_thread_else_the_clan() {
    assert_eq!(palette_channel_subtext(&channel(1, "t", ChannelType::Thread, 0)), "PARENT");
    assert_eq!(palette_channel_subtext(&channel(1, "c", ChannelType::Text, 0)), "CLAN");
    let mut unnamed = channel(1, "c", ChannelType::Text, 0);
    unnamed.clan_name = String::new();
    assert_eq!(palette_channel_subtext(&unnamed), "LISTED");
}

#[test]
fn member_label_prefers_nickname_then_display_name() {
    assert_eq!(member_label(&user(1, "al", "Alice", Some("Ally"))), "Ally");
    assert_eq!(member_label(&user(1, "al", "Alice", Some(""))), "Alice");
    assert_eq!(member_label(&user(1, "al", "", None)), "al");
}

#[test]
fn palette_items_list_directs_channels_and_other_users_by_recency() {
    let directs = vec![direct(100, "Bob", DirectKind::Dm, Some(5), "bob", None, 50)];
    let channels = vec![channel(200, "general", ChannelType::Text, 70)];
    let users = vec![user(5, "bob", "Bob", None), user(6, "carol", "", Some("Caz"))];
    let items = build_palette_items(&directs, &channels, Some(&users));
    assert_eq!(items.len(), 3);
    assert_eq!(items[0].label, "general");
    assert_eq!(items[0].subtext, "CLAN");
    assert_eq!(items[1].label, "Bob");
    assert_eq!(items[1].kind, PaletteItemKind::Direct);
    assert_eq!(items[1].dm_channel_type, Some(3));
    assert_eq!(items[2].kind, PaletteItemKind::Member);
    assert_eq!(items[2].label, "carol");
    assert_eq!(items[2].filter_blob, "CAROL.CAZ");
    let without_directory = build_palette_items(&directs, &channels, None);
    assert_eq!(without_directory.len(), 2);
}

#[test]
fn row_model_shows_badge_and_highlight() {
    let mut it = channel_item(3, "general", ChannelType::Text, 120, 10, 10);
    it.subtext = "clan".to_string();
    let model = palette_row_model(&it, "#gen");
    assert_eq!(model.badge.as_deref(), Some("99+"));
    assert!(model.emphasized);
    assert_eq!(model.subtext.as_deref(), Some("CLAN"));
    assert_eq!(model.element_id, "palette-item-0-3-0");
    assert_eq!(highlight_query("#gen", PaletteItemKind::Channel), "gen");
    assert_eq!(highlight_query("#gen", PaletteItemKind::Member), "#gen");
    assert_eq!(highlight_query("@al", PaletteItemKind::Member), "al");
    assert_eq!(palette_item_kind_id(PaletteItemKind::Member), 2);
    it.unread_count = 7;
    assert_eq!(palette_row_model(&it, "").badge.as_deref(), Some("7"));
}

#[test]
fn the_shortcut_toggles_the_palette_unless_a_modal_is_up() {
    assert_eq!(toggle(true, true), PaletteToggle::Close);
    assert_eq!(toggle(false, false), PaletteToggle::Open);
    assert_eq!(toggle(false, true), PaletteToggle::Ignore);
    assert!(may_toggle(true, true));
    assert!(!may_toggle(false, true));
    assert!(!may_toggle(true, false));
}

#[test]
fn highlight_split_marks_the_matched_bytes() {
    assert_eq!(highlight_split("Hello World", "wor", true), Some((6, 3)));
    assert_eq!(highlight_split("Hello World", "wor", false), None);
    assert_eq!(highlight_split("Hello World", "", true), None);
    assert_eq!(highlight_split("Hello World", "xyz", true), None);
    assert_eq!(highlight_split("xe", "\u{e9}", true), Some((1, 1)));
    assert_eq!(highlight_split("H\u{e0} N\u{1ed9}i", "noi", true), None);
    assert_eq!(highlight_split("general", "\u{301}", true), None);
}

#[test]
fn badge_label_caps_at_ninety_nine() {
    assert_eq!(badge_label(7), "7");
    assert_eq!(badge_label(99), "99");
    assert_eq!(badge_label(100), "99+");
}
