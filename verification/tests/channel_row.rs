use mezon_ui::channel_row::{channel_icon, channel_row_badge, channel_type_icon, is_age_restricted, shows_left_unread_nub, ChannelIcon, IconName};
use mezon_ui::records::ChannelType;

fn icon(channel_type: ChannelType, private: bool, age_restricted: i32) -> IconName {
    channel_type_icon(channel_type, private, age_restricted)
}

#[test]
fn private_channels_get_the_locked_variant() {
    assert_eq!(icon(ChannelType::Thread, true, 0), IconName::ThreadIconLocker);
    assert_eq!(icon(ChannelType::Text, true, 0), IconName::HashtagLocked);
    assert_eq!(icon(ChannelType::Voice, true, 0), IconName::SpeakerLocked);
    assert_eq!(icon(ChannelType::App, true, 0), IconName::PrivateAppChannelIcon);
}

#[test]
fn public_channels_get_the_plain_variant() {
    assert_eq!(icon(ChannelType::Thread, false, 0), IconName::ThreadIcon);
    assert_eq!(icon(ChannelType::Text, false, 0), IconName::Hashtag);
    assert_eq!(icon(ChannelType::Voice, false, 0), IconName::Speaker);
}

#[test]
fn age_restricted_text_channels_use_the_warning_glyph() {
    assert_eq!(icon(ChannelType::Text, false, 1), IconName::HashtagWarning);
    assert_eq!(icon(ChannelType::Text, true, 1), IconName::HashtagWarning);
    let stacked = channel_icon(ChannelType::Text, true, 1);
    assert_eq!(stacked.base, IconName::HashtagWarning);
    assert!(stacked.lock.is_none());
}

#[test]
fn private_threads_and_channels_stack_a_separate_lock() {
    let thread = channel_icon(ChannelType::Thread, true, 0);
    assert_eq!(thread.base, IconName::ThreadIcon);
    assert_eq!(thread.lock, Some(IconName::ThreadLock));
    let text = channel_icon(ChannelType::Text, true, 0);
    assert_eq!(text.base, IconName::Hashtag);
    assert_eq!(text.lock, Some(IconName::HashtagLock));
}

#[test]
fn public_channels_need_no_lock_overlay() {
    for channel_type in [ChannelType::Thread, ChannelType::Text, ChannelType::Voice] {
        let stacked = channel_icon(channel_type, false, 0);
        assert!(stacked.lock.is_none());
        assert_eq!(stacked.base, channel_type_icon(channel_type, false, 0));
    }
}

#[test]
fn types_with_a_combined_locked_glyph_keep_it() {
    let voice = channel_icon(ChannelType::Voice, true, 0);
    assert_eq!(voice.base, IconName::SpeakerLocked);
    assert!(voice.lock.is_none());
    let app = channel_icon(ChannelType::App, true, 0);
    assert_eq!(app.base, IconName::PrivateAppChannelIcon);
    assert!(app.lock.is_none());
}

#[test]
fn streams_ignore_the_private_flag() {
    assert_eq!(icon(ChannelType::Stream, true, 0), IconName::Stream);
    assert_eq!(icon(ChannelType::Stream, false, 0), IconName::Stream);
}

#[test]
fn only_the_restriction_flag_one_restricts() {
    assert!(is_age_restricted(1));
    assert!(!is_age_restricted(0));
    assert!(!is_age_restricted(2));
    assert_eq!(icon(ChannelType::Text, false, 2), IconName::Hashtag);
    assert_eq!(icon(ChannelType::Unknown(9), true, 1), IconName::Hashtag);
}

#[test]
fn voice_like_channels_have_no_left_nub() {
    assert!(shows_left_unread_nub(ChannelType::Text));
    assert!(shows_left_unread_nub(ChannelType::Thread));
    assert!(!shows_left_unread_nub(ChannelType::Voice));
    assert!(!shows_left_unread_nub(ChannelType::Stream));
    assert!(!shows_left_unread_nub(ChannelType::App));
    assert!(!shows_left_unread_nub(ChannelType::Unknown(3)));
    assert_eq!(channel_icon(ChannelType::Forum, true, 0), ChannelIcon { base: IconName::Forum, lock: None });
}

#[test]
fn channel_row_badge_widens_and_caps() {
    let one = channel_row_badge(9);
    assert!(!one.wide);
    assert_eq!(one.label, "9");
    let two = channel_row_badge(10);
    assert!(two.wide);
    assert_eq!(two.label, "10");
    let many = channel_row_badge(100);
    assert!(many.wide);
    assert_eq!(many.label, "99+");
}
