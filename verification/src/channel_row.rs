//! Glyphs of a channel row: which icon a channel kind gets, and whether a
//! padlock is stacked on it.

use vstd::prelude::*;

use crate::command_palette::items::{badge_label, badge_label_spec};
use crate::records::ChannelType;

verus! {

/// Value of a channel's age-restriction flag when the restriction is on.
pub const AGE_RESTRICTED_ON: i32 = 1;

/// The icons a channel row can show.
#[derive(Clone, Copy, Debug, PartialEq, Eq, Structural)]
pub enum IconName {
    Hashtag,
    HashtagWarning,
    HashtagLocked,
    HashtagLock,
    Speaker,
    SpeakerLocked,
    Stream,
    ThreadIcon,
    ThreadIconLocker,
    ThreadLock,
    Forum,
    Announcement,
    AppChannelIcon,
    PrivateAppChannelIcon,
}

/// A channel's glyph, with the padlock drawn over it as a second element
/// where the locked variant is a separate overlay.
#[derive(Clone, Copy, Debug, PartialEq, Eq, Structural)]
pub struct ChannelIcon {
    pub base: IconName,
    pub lock: Option<IconName>,
}

pub open spec fn age_restricted_spec(flag: i32) -> bool {
    flag == AGE_RESTRICTED_ON
}

pub fn is_age_restricted(age_restricted: i32) -> (r: bool)
    ensures
        r == age_restricted_spec(age_restricted),
{
    age_restricted == AGE_RESTRICTED_ON
}

/// Kinds that show the unread nub at the left edge of the row.
pub open spec fn left_nub_spec(t: ChannelType) -> bool {
    !(t is Voice || t is Stream || t is App || t is Unknown)
}

pub fn shows_left_unread_nub(channel_type: ChannelType) -> (r: bool)
    ensures
        r == left_nub_spec(channel_type),
{
    match channel_type {
        ChannelType::Voice | ChannelType::Stream | ChannelType::App | ChannelType::Unknown(_) => false,
        _ => true,
    }
}

/// The single glyph of a channel kind; private kinds take their locked
/// variant, age-restricted text channels the warning glyph.
pub open spec fn type_icon_spec(t: ChannelType, private: bool, age_restricted: i32) -> IconName {
    match t {
        ChannelType::Text => if age_restricted_spec(age_restricted) {
            IconName::HashtagWarning
        } else if private {
            IconName::HashtagLocked
        } else {
            IconName::Hashtag
        },
        ChannelType::Voice => if private { IconName::SpeakerLocked } else { IconName::Speaker },
        ChannelType::Stream => IconName::Stream,
        ChannelType::Thread => if private { IconName::ThreadIconLocker } else { IconName::ThreadIcon },
        ChannelType::Forum => IconName::Forum,
        ChannelType::Announcement => IconName::Announcement,
        ChannelType::App => if private { IconName::PrivateAppChannelIcon } else { IconName::AppChannelIcon },
        ChannelType::Unknown(_) => IconName::Hashtag,
    }
}

pub fn channel_type_icon(channel_type: ChannelType, private: bool, age_restricted: i32) -> (r: IconName)
    ensures
        r == type_icon_spec(channel_type, private, age_restricted),
{
    match channel_type {
        ChannelType::Text => if is_age_restricted(age_restricted) {
            IconName::HashtagWarning
        } else if private {
            IconName::HashtagLocked
        } else {
            IconName::Hashtag
        },
        ChannelType::Voice => if private { IconName::SpeakerLocked } else { IconName::Speaker },
        ChannelType::Stream => IconName::Stream,
        ChannelType::Thread => if private { IconName::ThreadIconLocker } else { IconName::ThreadIcon },
        ChannelType::Forum => IconName::Forum,
        ChannelType::Announcement => IconName::Announcement,
        ChannelType::App => if private { IconName::PrivateAppChannelIcon } else { IconName::AppChannelIcon },
        ChannelType::Unknown(_) => IconName::Hashtag,
    }
}

/// The stacked glyph: private threads and text channels draw the plain
/// glyph with a separate padlock; age restriction wins over privacy on text
/// channels; every other case is the single glyph without overlay.
pub open spec fn channel_icon_spec(t: ChannelType, private: bool, age_restricted: i32) -> ChannelIcon {
    if t is Text && age_restricted_spec(age_restricted) {
        ChannelIcon { base: IconName::HashtagWarning, lock: None }
    } else if t is Thread && private {
        ChannelIcon { base: IconName::ThreadIcon, lock: Some(IconName::ThreadLock) }
    } else if t is Text && private {
        ChannelIcon { base: IconName::Hashtag, lock: Some(IconName::HashtagLock) }
    } else {
        ChannelIcon { base: type_icon_spec(t, private, age_restricted), lock: None }
    }
}

pub fn channel_icon(channel_type: ChannelType, private: bool, age_restricted: i32) -> (r: ChannelIcon)
    ensures
        r == channel_icon_spec(channel_type, private, age_restricted),
{
    let restricted = is_age_restricted(age_restricted);
    match channel_type {
        ChannelType::Text if restricted => ChannelIcon { base: IconName::HashtagWarning, lock: None },
        ChannelType::Thread if private => ChannelIcon { base: IconName::ThreadIcon, lock: Some(IconName::ThreadLock) },
        ChannelType::Text if private => ChannelIcon { base: IconName::Hashtag, lock: Some(IconName::HashtagLock) },
        _ => ChannelIcon { base: channel_type_icon(channel_type, private, age_restricted), lock: None },
    }
}

/// Without privacy or age restriction no padlock is stacked, and the glyph
/// is the kind's single glyph.
pub proof fn lemma_public_channels_need_no_overlay(t: ChannelType, age_restricted: i32)
    requires
        !age_restricted_spec(age_restricted),
    ensures
        channel_icon_spec(t, false, age_restricted).lock is None,
        channel_icon_spec(t, false, age_restricted).base == type_icon_spec(t, false, age_restricted),
{
}

/// A padlock overlay is only ever drawn on the plain glyph of a private
/// thread or text channel.
pub proof fn lemma_overlay_only_on_private_plain_glyph(t: ChannelType, private: bool, age_restricted: i32)
    ensures
        channel_icon_spec(t, private, age_restricted).lock is Some ==> private && (t is Thread || t is Text)
            && channel_icon_spec(t, private, age_restricted).base == type_icon_spec(t, false, age_restricted),
{
}

/// The unread badge of a channel row.
pub struct ChannelRowBadgeView {
    /// A wide badge, for two or more digits.
    pub wide: bool,
    /// The count, or `99+` from 100 on.
    pub label: String,
}

/// The unread badge of a channel row: wide from 10, labelled `99+` from
/// 100.
pub fn channel_row_badge(count: u32) -> (r: ChannelRowBadgeView)
    ensures
        r.wide == (count >= 10),
        r.label@ == badge_label_spec(count),
{
    ChannelRowBadgeView { wide: count >= 10, label: badge_label(count) }
}

} // verus!
