use mezon_ui::image_viewer::{
    channel_label_source, is_animated_image, sort_by_newest, uploader_display, viewer_key_action, ChannelLabelSource,
    RotationFetch, ViewerAttachment, ViewerKey, ViewerPlaylist, VIEWER_FETCH_LIMIT,
};
use mezon_ui::records::ClanId;

fn att(id: i64, time: u32) -> ViewerAttachment {
    ViewerAttachment {
        id,
        create_time_seconds: time,
        is_image: true,
        filetype: "image/png".to_string(),
        url: format!("https://cdn/{id}.png"),
        viewer_src: format!("https://proxy/{id}.png"),
    }
}

fn ids(list: &[ViewerAttachment]) -> Vec<i64> {
    list.iter().map(|a| a.id).collect()
}

fn typed(filetype: &str, url: &str, is_image: bool) -> ViewerAttachment {
    ViewerAttachment { filetype: filetype.to_string(), url: url.to_string(), is_image, ..att(1, 0) }
}

#[test]
fn only_gifs_are_animated() {
    assert!(is_animated_image(&typed("IMAGE/GIF", "https://cdn/a", true)));
    assert!(is_animated_image(&typed("", "https://cdn/a.GIF", true)));
    assert!(is_animated_image(&typed("", "https://cdn/a.png?name=b.gif", true)));
    assert!(!is_animated_image(&typed("", "https://cdn/a.gif?size=2", true)));
    assert!(!is_animated_image(&typed("image/gif", "https://cdn/a.gif", false)));
    assert!(!is_animated_image(&typed("image/png", "gif", true)));
}

#[test]
fn sorting_puts_newest_first_and_keeps_ties_in_order() {
    let sorted = sort_by_newest(vec![att(1, 10), att(2, 30), att(3, 10), att(4, 20)]);
    assert_eq!(ids(&sorted), vec![2, 4, 1, 3]);
}

#[test]
fn a_request_opens_at_its_url_or_index() {
    let mut playlist = ViewerPlaylist::new();
    assert!(!playlist.set_request(vec![att(1, 30), att(2, 20), att(3, 10)], Some("https://proxy/2.png"), 0));
    assert_eq!(playlist.index, 1);
    assert_eq!(playlist.list_generation, 1);
    assert!(!playlist.loading);
    playlist.set_request(vec![att(1, 30), att(2, 20)], None, 7);
    assert_eq!(playlist.index, 1);
    playlist.set_request(vec![att(1, 30), att(2, 20)], Some("missing"), 1);
    assert_eq!(playlist.index, 0);
    assert!(playlist.set_request(Vec::new(), None, 0));
    assert!(playlist.loading);
}

#[test]
fn the_first_page_fills_an_empty_request() {
    let mut playlist = ViewerPlaylist::new();
    playlist.set_request(Vec::new(), None, 0);
    let generation = playlist.list_generation;
    assert_eq!(playlist.on_initial_page(generation + 1, Some(vec![att(9, 9)]), None), None);
    assert!(playlist.attachments.is_empty());
    let after = playlist.on_initial_page(generation, Some(vec![att(1, 30), att(2, 20)]), Some("https://cdn/2.png"));
    assert_eq!(after, Some(30));
    assert_eq!(playlist.index, 1);
    assert!(playlist.loading);
    assert!(playlist.has_more_after);
    assert!(!playlist.has_more_before);
}

#[test]
fn newer_pages_merge_and_keep_the_shown_attachment() {
    let mut playlist = ViewerPlaylist::new();
    playlist.set_request(vec![att(2, 20), att(1, 10)], None, 1);
    playlist.has_more_after = true;
    assert_eq!(playlist.fetch_newer(), Some(20));
    assert_eq!(playlist.fetch_newer(), None);
    let generation = playlist.list_generation;
    playlist.on_newer_page(generation, Some(vec![att(4, 40), att(2, 20), att(3, 30)]));
    assert_eq!(ids(&playlist.attachments), vec![4, 3, 2, 1]);
    assert_eq!(playlist.index, 3);
    assert!(!playlist.loading);
    assert!(!playlist.has_more_after);
}

#[test]
fn older_pages_append_the_new_ones() {
    let mut playlist = ViewerPlaylist::new();
    playlist.set_request(vec![att(3, 30), att(2, 20)], None, 0);
    assert_eq!(playlist.fetch_older(), Some(20));
    let generation = playlist.list_generation;
    playlist.on_older_page(generation, Some(vec![att(2, 20), att(1, 10)]));
    assert_eq!(ids(&playlist.attachments), vec![3, 2, 1]);
    assert!(playlist.has_more_before);
    playlist.on_older_page(generation, Some(vec![att(1, 10)]));
    assert!(!playlist.has_more_before);
}

#[test]
fn stepping_near_the_end_asks_for_older_ones() {
    let list: Vec<ViewerAttachment> = (0..10).map(|k| att(k, 100 - k as u32)).collect();
    let mut playlist = ViewerPlaylist::new();
    playlist.set_request(list, None, 4);
    playlist.rotate_right();
    assert_eq!(playlist.next(), Some((None, None)));
    assert_eq!(playlist.index, 5);
    assert_eq!(playlist.rotation_deg, 0);
    assert_eq!(playlist.go_to(7), Some((Some(91), None)));
    assert!(playlist.loading);
    assert_eq!(playlist.go_to(7), None);
    assert_eq!(playlist.go_to(10), None);
    assert_eq!(playlist.go_to(0), Some((None, None)));
    assert_eq!(playlist.prev(), None);
    assert_eq!(VIEWER_FETCH_LIMIT, 50);
}

#[test]
fn quarter_turns_wrap_around() {
    let mut playlist = ViewerPlaylist::new();
    playlist.rotate_left();
    assert_eq!(playlist.rotation_deg, 270);
    playlist.rotate_right();
    assert_eq!(playlist.rotation_deg, 0);
    for _ in 0..4 {
        playlist.rotate_right();
    }
    assert_eq!(playlist.rotation_deg, 0);
}

#[test]
fn keys_map_to_viewer_actions() {
    assert_eq!(viewer_key_action("escape", true), ViewerKey::CloseMenu);
    assert_eq!(viewer_key_action("escape", false), ViewerKey::CloseWindow);
    assert_eq!(viewer_key_action("up", false), ViewerKey::Prev);
    assert_eq!(viewer_key_action("down", false), ViewerKey::Next);
    assert_eq!(viewer_key_action("=", false), ViewerKey::ZoomIn);
    assert_eq!(viewer_key_action("_", false), ViewerKey::ZoomOut);
    assert_eq!(viewer_key_action("0", false), ViewerKey::ResetZoom);
    assert_eq!(viewer_key_action("a", false), ViewerKey::Ignore);
}

#[test]
fn turning_fetches_a_rotated_copy_of_images_only() {
    let mut playlist = ViewerPlaylist::new();
    playlist.set_request(vec![att(1, 10), typed("video/mp4", "https://cdn/v.mp4", false)], None, 0);
    assert_eq!(playlist.rotation_fetch(), RotationFetch::Clear);
    playlist.rotate_right();
    assert_eq!(
        playlist.rotation_fetch(),
        RotationFetch::Fetch { src: "https://proxy/1.png".to_string(), degrees: 90 }
    );
    playlist.next();
    playlist.rotate_left();
    assert_eq!(playlist.rotation_fetch(), RotationFetch::Clear);
    assert_eq!(playlist.rotation_deg, 0);
}

#[test]
fn nameless_uploaders_are_anonymous() {
    let shown = uploader_display(String::new(), "a.png".to_string(), "raw.png".to_string());
    assert_eq!(shown.name, "Anonymous");
    assert_eq!(shown.avatar, "");
    assert_eq!(shown.avatar_raw, "");
    let shown = uploader_display("Ann".to_string(), "a.png".to_string(), "raw.png".to_string());
    assert_eq!((shown.name.as_str(), shown.avatar.as_str(), shown.avatar_raw.as_str()), ("Ann", "a.png", "raw.png"));
}

#[test]
fn channel_labels_prefer_the_hint() {
    assert_eq!(channel_label_source("general", ClanId(1)), ChannelLabelSource::Hint);
    assert_eq!(channel_label_source("", ClanId(1)), ChannelLabelSource::ChannelName);
    assert_eq!(channel_label_source("", ClanId(0)), ChannelLabelSource::DirectLabel);
}
